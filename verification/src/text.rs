//! Character-level string utilities: equality, lexicographic order, suffix
//! stripping and whitespace trimming, each specified over `Seq<char>`.
//!
//! Strings are compared by their character sequences. Since UTF-8 byte
//! order agrees with code-point order, the order defined here is the one a
//! byte-wise sort of file names produces.

use vstd::prelude::*;
use vstd::string::StrSliceExecFns;

verus! {

/// Lexicographic `<=` on character sequences, by code point.
pub open spec fn lex_le(a: Seq<char>, b: Seq<char>) -> bool
    decreases a.len(),
{
    if a.len() == 0 {
        true
    } else if b.len() == 0 {
        false
    } else if (a[0] as u32) < (b[0] as u32) {
        true
    } else if (a[0] as u32) > (b[0] as u32) {
        false
    } else {
        lex_le(a.skip(1), b.skip(1))
    }
}

/// Strict lexicographic `<` on character sequences.
pub open spec fn lex_lt(a: Seq<char>, b: Seq<char>) -> bool {
    lex_le(a, b) && a != b
}

/// The character sequences of a sequence of strings.
pub open spec fn str_views(s: Seq<String>) -> Seq<Seq<char>> {
    s.map_values(|x: String| x@)
}

/// Every pair of a sequence is ordered by [`lex_le`].
pub open spec fn sorted_views(s: Seq<Seq<char>>) -> bool {
    forall|i: int, j: int| 0 <= i < j < s.len() ==> lex_le(s[i], s[j])
}

/// Every pair of a sequence is strictly ordered: sorted and duplicate-free.
pub open spec fn strictly_sorted_views(s: Seq<Seq<char>>) -> bool {
    forall|i: int, j: int| 0 <= i < j < s.len() ==> lex_lt(s[i], s[j])
}

/// [`lex_le`] is total.
pub proof fn lemma_lex_le_total(a: Seq<char>, b: Seq<char>)
    ensures
        lex_le(a, b) || lex_le(b, a),
    decreases a.len(),
{
    if a.len() != 0 && b.len() != 0 && (a[0] as u32) == (b[0] as u32) {
        lemma_lex_le_total(a.skip(1), b.skip(1));
    }
}

/// [`lex_le`] is antisymmetric: mutual order means equality.
pub proof fn lemma_lex_le_antisymmetric(a: Seq<char>, b: Seq<char>)
    requires
        lex_le(a, b),
        lex_le(b, a),
    ensures
        a == b,
    decreases a.len(),
{
    if a.len() == 0 {
        assert(b.len() == 0);
        assert(a =~= b);
    } else {
        assert(b.len() != 0);
        let x = a[0];
        let y = b[0];
        assert((x as u32) == (y as u32));
        vstd::utf8::char_u32_cast(x, x as u32);
        vstd::utf8::char_u32_cast(y, y as u32);
        assert(x == y);
        lemma_lex_le_antisymmetric(a.skip(1), b.skip(1));
        assert forall|i: int| 0 <= i < a.len() implies a[i] == b[i] by {
            if i > 0 {
                assert(a.skip(1)[i - 1] == b.skip(1)[i - 1]);
            }
        }
        assert(a =~= b);
    }
}

/// [`lex_le`] is transitive.
pub proof fn lemma_lex_le_transitive(a: Seq<char>, b: Seq<char>, c: Seq<char>)
    requires
        lex_le(a, b),
        lex_le(b, c),
    ensures
        lex_le(a, c),
    decreases a.len(),
{
    if a.len() != 0 {
        assert(b.len() != 0);
        assert(c.len() != 0);
        if (a[0] as u32) == (b[0] as u32) && (b[0] as u32) == (c[0] as u32) {
            lemma_lex_le_transitive(a.skip(1), b.skip(1), c.skip(1));
        }
    }
}

/// Whether two strings have the same characters.
pub fn str_eq(a: &str, b: &str) -> (r: bool)
    ensures
        r == (a@ == b@),
{
    let n = a.unicode_len();
    let m = b.unicode_len();
    if n != m {
        return false;
    }
    let mut i: usize = 0;
    loop
        invariant
            0 <= i <= n,
            n == a@.len(),
            n == b@.len(),
            forall|k: int| 0 <= k < i ==> a@[k] == b@[k],
        decreases n - i,
    {
        if i == n {
            proof {
                assert(a@ =~= b@);
            }
            return true;
        }
        if a.get_char(i) != b.get_char(i) {
            return false;
        }
        i += 1;
    }
}

/// Whether `a` is at most `b` in lexicographic order.
pub fn str_le(a: &str, b: &str) -> (r: bool)
    ensures
        r == lex_le(a@, b@),
{
    let n = a.unicode_len();
    let m = b.unicode_len();
    let mut i: usize = 0;
    proof {
        assert(a@.skip(0) =~= a@);
        assert(b@.skip(0) =~= b@);
    }
    loop
        invariant
            0 <= i <= n,
            i <= m,
            n == a@.len(),
            m == b@.len(),
            lex_le(a@, b@) == lex_le(a@.skip(i as int), b@.skip(i as int)),
        decreases n - i,
    {
        if i == n {
            return true;
        }
        if i == m {
            return false;
        }
        let ca = a.get_char(i);
        let cb = b.get_char(i);
        proof {
            assert(a@.skip(i as int)[0] == a@[i as int]);
            assert(b@.skip(i as int)[0] == b@[i as int]);
        }
        if (ca as u32) < (cb as u32) {
            return true;
        }
        if (ca as u32) > (cb as u32) {
            return false;
        }
        proof {
            assert(a@.skip(i as int).skip(1) =~= a@.skip(i as int + 1));
            assert(b@.skip(i as int).skip(1) =~= b@.skip(i as int + 1));
        }
        i += 1;
    }
}

/// Whether `s` ends with the characters of `suffix`.
pub open spec fn ends_with(s: Seq<char>, suffix: Seq<char>) -> bool {
    s.len() >= suffix.len() && s.skip(s.len() - suffix.len()) == suffix
}

/// The base of a name ending in `suffix`: the name with the suffix removed,
/// or `None` when the name does not end in it.
pub fn strip_suffix_chars(s: &str, suffix: &str) -> (r: Option<String>)
    ensures
        r is Some <==> ends_with(s@, suffix@),
        r matches Some(base) ==> base@ == s@.take(s@.len() - suffix@.len()),
{
    let n = s.unicode_len();
    let m = suffix.unicode_len();
    if n < m {
        return None;
    }
    let mut i: usize = 0;
    loop
        invariant
            0 <= i <= m,
            m <= n,
            n == s@.len(),
            m == suffix@.len(),
            forall|k: int| 0 <= k < i ==> s@[n - m + k] == suffix@[k],
        ensures
            forall|k: int| 0 <= k < m ==> s@[n - m + k] == suffix@[k],
        decreases m - i,
    {
        if i == m {
            break;
        }
        if s.get_char(n - m + i) != suffix.get_char(i) {
            proof {
                assert(s@.skip(n as int - m as int)[i as int] == s@[n - m + i]);
            }
            return None;
        }
        i += 1;
    }
    proof {
        assert forall|k: int| 0 <= k < m implies s@.skip(n as int - m as int)[k] == suffix@[k] by {
            assert(s@.skip(n as int - m as int)[k] == s@[n - m + k]);
        }
        assert(s@.skip(n as int - m as int) =~= suffix@);
    }
    let base = s.substring_char(0, n - m);
    proof {
        assert(s@.subrange(0, n as int - m as int) =~= s@.take(s@.len() - suffix@.len()));
    }
    Some(base.to_owned())
}

/// A strictly sorted listing of a set of names is unique: two of them with
/// the same members are equal, so any discovery pass over the same files
/// yields the same cases in the same order.
pub proof fn lemma_strictly_sorted_unique(a: Seq<Seq<char>>, b: Seq<Seq<char>>)
    requires
        strictly_sorted_views(a),
        strictly_sorted_views(b),
        forall|x: Seq<char>| a.contains(x) <==> b.contains(x),
    ensures
        a == b,
    decreases a.len(),
{
    if a.len() == 0 {
        if b.len() != 0 {
            assert(b.contains(b[0]));
        }
        assert(a =~= b);
    } else {
        assert(a.contains(a[0]));
        assert(b.contains(a[0]));
        let j = choose|j: int| 0 <= j < b.len() && b[j] == a[0];
        if j > 0 {
            assert(b.contains(b[0]));
            assert(a.contains(b[0]));
            let i = choose|i: int| 0 <= i < a.len() && a[i] == b[0];
            if i > 0 {
                assert(lex_lt(a[0], a[i]));
                assert(lex_lt(b[0], b[j]));
                lemma_lex_le_antisymmetric(a[0], b[0]);
                assert(false);
            }
        }
        assert(a[0] == b[0]);
        let ta = a.skip(1);
        let tb = b.skip(1);
        assert forall|x: Seq<char>| ta.contains(x) <==> tb.contains(x) by {
            lemma_tail_members(a, x);
            lemma_tail_members(b, x);
        }
        lemma_strictly_sorted_unique(ta, tb);
        assert forall|k: int| 0 <= k < a.len() implies a[k] == b[k] by {
            if k > 0 {
                assert(ta[k - 1] == tb[k - 1]);
            }
        }
        assert(a =~= b);
    }
}

/// In a strictly sorted sequence, the tail holds exactly the members other
/// than the head.
proof fn lemma_tail_members(a: Seq<Seq<char>>, x: Seq<char>)
    requires
        strictly_sorted_views(a),
        a.len() > 0,
    ensures
        a.skip(1).contains(x) <==> (a.contains(x) && x != a[0]),
{
    let t = a.skip(1);
    if t.contains(x) {
        let i = choose|i: int| 0 <= i < t.len() && t[i] == x;
        assert(a[i + 1] == x);
        assert(a.contains(x));
        assert(lex_lt(a[0], a[i + 1]));
    }
    if a.contains(x) && x != a[0] {
        let i = choose|i: int| 0 <= i < a.len() && a[i] == x;
        assert(i > 0);
        assert(t[i - 1] == x);
        assert(t.contains(x));
    }
}

/// A name that ends in a suffix is its base followed by the suffix.
pub proof fn lemma_suffix_split(s: Seq<char>, suffix: Seq<char>)
    requires
        ends_with(s, suffix),
    ensures
        s.take(s.len() - suffix.len()) + suffix == s,
{
    assert(s.take(s.len() - suffix.len()) + s.skip(s.len() - suffix.len()) =~= s);
}

/// A base followed by a suffix ends in that suffix, and stripping it gives
/// the base back.
pub proof fn lemma_concat_suffix(base: Seq<char>, suffix: Seq<char>)
    ensures
        ends_with(base + suffix, suffix),
        (base + suffix).take(base.len() as int) == base,
{
    assert((base + suffix).skip(base.len() as int) =~= suffix);
    assert((base + suffix).take(base.len() as int) =~= base);
}

/// No name is at once a base followed by `.in` and a base followed by
/// `.out`: the two suffixes end in different characters.
pub proof fn lemma_in_out_distinct(a: Seq<char>, b: Seq<char>)
    ensures
        a + ".in"@ != b + ".out"@,
{
    reveal_strlit(".in");
    reveal_strlit(".out");
    let x = a + ".in"@;
    let y = b + ".out"@;
    if x == y {
        assert(x[x.len() - 1] == 'n');
        assert(y[y.len() - 1] == 't');
    }
}

/// Whether a character is whitespace: the Unicode `White_Space` set that
/// leading/trailing trimming removes.
pub open spec fn is_space_char(c: char) -> bool {
    let u = c as u32;
    (9 <= u && u <= 13) || u == 32 || u == 0x85 || u == 0xA0 || u == 0x1680 || (0x2000 <= u
        && u <= 0x200A) || u == 0x2028 || u == 0x2029 || u == 0x202F || u == 0x205F || u == 0x3000
}

/// Whether a character is whitespace.
pub fn is_space(c: char) -> (r: bool)
    ensures
        r == is_space_char(c),
{
    let u = c as u32;
    (9 <= u && u <= 13) || u == 32 || u == 0x85 || u == 0xA0 || u == 0x1680 || (0x2000 <= u
        && u <= 0x200A) || u == 0x2028 || u == 0x2029 || u == 0x202F || u == 0x205F || u == 0x3000
}

/// The characters of `s` with leading and trailing whitespace removed.
pub open spec fn trimmed(s: Seq<char>) -> Seq<char>
    decreases s.len(),
{
    if s.len() == 0 {
        s
    } else if is_space_char(s[0]) {
        trimmed(s.skip(1))
    } else if is_space_char(s[s.len() - 1]) {
        trimmed(s.take(s.len() - 1))
    } else {
        s
    }
}

/// A window of `s` whose outside is all whitespace and whose ends are not
/// is exactly the trimmed value; the empty window is written as `(0, 0)`.
proof fn lemma_trimmed_window(s: Seq<char>, lo: int, hi: int)
    requires
        0 <= lo <= hi <= s.len(),
        forall|k: int| 0 <= k < lo ==> is_space_char(s[k]),
        forall|k: int| hi <= k < s.len() ==> is_space_char(s[k]),
        lo < hi ==> !is_space_char(s[lo]) && !is_space_char(s[hi - 1]),
        lo == hi ==> lo == 0,
    ensures
        trimmed(s) == s.subrange(lo, hi),
    decreases s.len(),
{
    if s.len() == 0 {
        assert(trimmed(s) =~= s.subrange(lo, hi));
    } else if lo == hi {
        assert(is_space_char(s[0]));
        lemma_trimmed_window(s.skip(1), 0, 0);
        assert(trimmed(s) == trimmed(s.skip(1)));
        assert(s.skip(1).subrange(0, 0) =~= s.subrange(0, 0));
    } else if lo > 0 {
        assert(is_space_char(s[0]));
        lemma_trimmed_window(s.skip(1), lo - 1, hi - 1);
        assert(s.skip(1).subrange(lo - 1, hi - 1) =~= s.subrange(lo, hi));
    } else if hi < s.len() {
        assert(is_space_char(s[s.len() - 1]));
        assert(!is_space_char(s[0]));
        lemma_trimmed_window(s.take(s.len() - 1), lo, hi);
        assert(trimmed(s) == trimmed(s.take(s.len() - 1)));
        assert(s.take(s.len() - 1).subrange(lo, hi) =~= s.subrange(lo, hi));
    } else {
        assert(!is_space_char(s[0]));
        assert(!is_space_char(s[s.len() - 1]));
        assert(trimmed(s) == s);
        assert(s.subrange(0, s.len() as int) =~= s);
    }
}

/// The part of `s` that trimming keeps.
pub fn trim_str(s: &str) -> (t: &str)
    ensures
        t@ == trimmed(s@),
{
    let n = s.unicode_len();
    let mut lo: usize = 0;
    loop
        invariant
            0 <= lo <= n,
            n == s@.len(),
            forall|k: int| 0 <= k < lo ==> is_space_char(s@[k]),
        ensures
            0 <= lo <= n,
            forall|k: int| 0 <= k < lo ==> is_space_char(s@[k]),
            lo < n ==> !is_space_char(s@[lo as int]),
        decreases n - lo,
    {
        if lo == n {
            break;
        }
        if !is_space(s.get_char(lo)) {
            break;
        }
        lo += 1;
    }
    if lo == n {
        let t = s.substring_char(0, 0);
        proof {
            lemma_trimmed_window(s@, 0, 0);
        }
        return t;
    }
    let mut hi: usize = n;
    loop
        invariant
            lo < hi <= n,
            n == s@.len(),
            !is_space_char(s@[lo as int]),
            forall|k: int| hi <= k < n ==> is_space_char(s@[k]),
        ensures
            lo < hi <= n,
            !is_space_char(s@[hi - 1]),
            forall|k: int| hi <= k < n ==> is_space_char(s@[k]),
        decreases hi,
    {
        if !is_space(s.get_char(hi - 1)) {
            break;
        }
        proof {
            assert(hi - 1 > lo) by {
                if hi - 1 == lo {
                    assert(!is_space_char(s@[lo as int]));
                }
            }
        }
        hi -= 1;
    }
    let t = s.substring_char(lo, hi);
    proof {
        lemma_trimmed_window(s@, lo as int, hi as int);
    }
    t
}

/// Whether two outputs agree once both are trimmed of leading and trailing
/// whitespace.
pub fn outputs_match(actual: &str, expected: &str) -> (r: bool)
    ensures
        r == (trimmed(actual@) == trimmed(expected@)),
{
    let ta = trim_str(actual);
    let te = trim_str(expected);
    str_eq(ta, te)
}

} // verus!
