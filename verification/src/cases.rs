//! Test-case discovery: pairing input files with expected-output files.
//!
//! A directory entry named `base.in` contributes an input, `base.out` an
//! expected output, and anything else is unexpected. The cases to run are
//! the bases that have both files, in strictly increasing lexicographic
//! order, so that every run visits them in the same order. Bases with only
//! one of the two files are reported so the caller can warn about them.

use vstd::prelude::*;

use crate::text::{ends_with, lemma_concat_suffix, lemma_in_out_distinct, lemma_lex_le_total,
    lemma_lex_le_transitive, lemma_lex_le_antisymmetric, lemma_suffix_split, lex_le, lex_lt,
    sorted_views, str_eq, str_le, str_views, strictly_sorted_views, strip_suffix_chars};

verus! {

/// Whether one of the strings has the given characters.
fn contains_str(v: &Vec<String>, s: &str) -> (r: bool)
    ensures
        r == str_views(v@).contains(s@),
{
    let mut i: usize = 0;
    loop
        invariant
            0 <= i <= v.len(),
            forall|k: int| 0 <= k < i ==> str_views(v@)[k] != s@,
        decreases v.len() - i,
    {
        if i == v.len() {
            proof {
                assert(!str_views(v@).contains(s@));
            }
            return false;
        }
        if str_eq(v[i].as_str(), s) {
            proof {
                assert(str_views(v@)[i as int] == s@);
            }
            return true;
        }
        i += 1;
    }
}

/// The strings in ascending lexicographic order; repetitions survive.
fn sort_strings(v: Vec<String>) -> (r: Vec<String>)
    ensures
        sorted_views(str_views(r@)),
        str_views(r@).to_multiset() == str_views(v@).to_multiset(),
{
    let mut r: Vec<String> = Vec::new();
    let mut idx: usize = 0;
    proof {
        assert(str_views(r@) =~= str_views(v@.take(0)));
    }
    while idx < v.len()
        invariant
            0 <= idx <= v.len(),
            sorted_views(str_views(r@)),
            str_views(r@).to_multiset() == str_views(v@.take(idx as int)).to_multiset(),
        decreases v.len() - idx,
    {
        let s = v[idx].clone();
        let ghost ov = str_views(r@);
        let mut p: usize = 0;
        loop
            invariant
                0 <= p <= r.len(),
                ov == str_views(r@),
                forall|k: int| 0 <= k < p ==> lex_le(ov[k], s@),
            ensures
                0 <= p <= r.len(),
                ov == str_views(r@),
                forall|k: int| 0 <= k < p ==> lex_le(ov[k], s@),
                p < r.len() ==> !lex_le(ov[p as int], s@),
            decreases r.len() - p,
        {
            if p == r.len() {
                break;
            }
            if !str_le(r[p].as_str(), s.as_str()) {
                break;
            }
            p += 1;
        }
        r.insert(p, s);
        proof {
            let x = v@[idx as int]@;
            let nv = str_views(r@);
            assert(nv =~= ov.insert(p as int, x));
            if (p as int) < ov.len() {
                lemma_lex_le_total(ov[p as int], x);
            }
            assert forall|a: int, b: int| 0 <= a < b < nv.len() implies lex_le(nv[a], nv[b]) by {
                if b < p {
                } else if a < p && b == p {
                } else if a < p && b > p {
                    assert(nv[b] == ov[b - 1]);
                } else if a == p {
                    if b - 1 > p {
                        lemma_lex_le_transitive(nv[a], ov[p as int], ov[b - 1]);
                    }
                } else {
                    assert(nv[a] == ov[a - 1] && nv[b] == ov[b - 1]);
                }
            }
            vstd::seq_lib::to_multiset_insert(ov, p as int, x);
            assert(str_views(v@.take(idx as int + 1)) =~= str_views(v@.take(idx as int)).push(x));
            vstd::seq_lib::to_multiset_build(str_views(v@.take(idx as int)), x);
        }
        idx += 1;
    }
    proof {
        assert(v@.take(v@.len() as int) =~= v@);
    }
    r
}

/// The sorted strings with repetitions removed: the same members, each
/// once, still in ascending order.
fn dedup_sorted(v: Vec<String>) -> (r: Vec<String>)
    requires
        sorted_views(str_views(v@)),
    ensures
        strictly_sorted_views(str_views(r@)),
        forall|x: Seq<char>| str_views(r@).contains(x) <==> str_views(v@).contains(x),
{
    let mut r: Vec<String> = Vec::new();
    let mut i: usize = 0;
    while i < v.len()
        invariant
            0 <= i <= v.len(),
            sorted_views(str_views(v@)),
            strictly_sorted_views(str_views(r@)),
            forall|x: Seq<char>|
                str_views(r@).contains(x) <==> str_views(v@.take(i as int)).contains(x),
            i == 0 ==> r@.len() == 0,
            i > 0 ==> r@.len() > 0 && str_views(r@)[r@.len() - 1] == str_views(v@)[i - 1],
        decreases v.len() - i,
    {
        let ghost ov = str_views(r@);
        let ghost tv = str_views(v@.take(i as int));
        let ghost x = str_views(v@)[i as int];
        proof {
            assert(str_views(v@.take(i as int + 1)) =~= tv.push(x));
        }
        let push_it = if r.len() == 0 {
            true
        } else {
            !str_eq(r[r.len() - 1].as_str(), v[i].as_str())
        };
        if push_it {
            r.push(v[i].clone());
            proof {
                let nv = str_views(r@);
                assert(nv =~= ov.push(x));
                assert forall|a: int, b: int| 0 <= a < b < nv.len() implies lex_lt(
                    nv[a],
                    nv[b],
                ) by {
                    if b < nv.len() - 1 {
                        assert(nv[a] == ov[a] && nv[b] == ov[b]);
                        assert(lex_lt(ov[a], ov[b]));
                    } else {
                        let last = ov[ov.len() - 1];
                        assert(lex_le(last, x)) by {
                            assert(str_views(v@)[i - 1] == last);
                            assert(lex_le(str_views(v@)[i - 1], str_views(v@)[i as int]));
                        }
                        assert(last != x);
                        if a < ov.len() - 1 {
                            assert(lex_lt(ov[a], last));
                            lemma_lex_le_transitive(nv[a], last, x);
                            if nv[a] == x {
                                lemma_lex_le_antisymmetric(last, x);
                            }
                        }
                    }
                }
                lemma_member_push_same(ov, tv, x);
            }
        } else {
            proof {
                assert(ov[ov.len() - 1] == x);
                assert(ov.contains(x));
                lemma_member_push_present(ov, tv, x);
            }
        }
        i += 1;
    }
    proof {
        assert(v@.take(v@.len() as int) =~= v@);
    }
    r
}

/// Pushing the same element on both sides keeps the membership match.
proof fn lemma_member_push_same(acc: Seq<Seq<char>>, src: Seq<Seq<char>>, x: Seq<char>)
    requires
        forall|y: Seq<char>| acc.contains(y) <==> src.contains(y),
    ensures
        forall|y: Seq<char>| acc.push(x).contains(y) <==> src.push(x).contains(y),
{
    assert forall|y: Seq<char>| acc.push(x).contains(y) <==> src.push(x).contains(y) by {
        if acc.push(x).contains(y) {
            let u = choose|u: int| 0 <= u < acc.push(x).len() && acc.push(x)[u] == y;
            if u < acc.len() {
                assert(acc.contains(y));
                let w = choose|w: int| 0 <= w < src.len() && src[w] == y;
                assert(src.push(x)[w] == y);
            } else {
                assert(src.push(x)[src.len() as int] == y);
            }
        }
        if src.push(x).contains(y) {
            let u = choose|u: int| 0 <= u < src.push(x).len() && src.push(x)[u] == y;
            if u < src.len() {
                assert(src.contains(y));
                let w = choose|w: int| 0 <= w < acc.len() && acc[w] == y;
                assert(acc.push(x)[w] == y);
            } else {
                assert(acc.push(x)[acc.len() as int] == y);
            }
        }
    }
}

/// Pushing an element the accumulator already holds keeps the membership
/// match.
proof fn lemma_member_push_present(acc: Seq<Seq<char>>, src: Seq<Seq<char>>, x: Seq<char>)
    requires
        forall|y: Seq<char>| acc.contains(y) <==> src.contains(y),
        acc.contains(x),
    ensures
        forall|y: Seq<char>| acc.contains(y) <==> src.push(x).contains(y),
{
    assert forall|y: Seq<char>| acc.contains(y) <==> src.push(x).contains(y) by {
        if acc.contains(y) {
            let w = choose|w: int| 0 <= w < src.len() && src[w] == y;
            assert(src.push(x)[w] == y);
        }
        if src.push(x).contains(y) {
            let u = choose|u: int| 0 <= u < src.push(x).len() && src.push(x)[u] == y;
            if u < src.len() {
                assert(src.contains(y));
            } else {
                assert(y == x);
            }
        }
    }
}

/// Sequences with the same multiset have the same members.
proof fn lemma_same_multiset_same_members(a: Seq<Seq<char>>, b: Seq<Seq<char>>)
    requires
        a.to_multiset() == b.to_multiset(),
    ensures
        forall|x: Seq<char>| a.contains(x) <==> b.contains(x),
{
    assert forall|x: Seq<char>| a.contains(x) <==> b.contains(x) by {
        vstd::seq_lib::to_multiset_contains(a, x);
        vstd::seq_lib::to_multiset_contains(b, x);
    }
}

/// After a name `bv + sfx` is seen and its base pushed, the pushed list
/// matches the bases with suffix `sfx` seen so far.
proof fn lemma_classify_push(
    acc: Seq<Seq<char>>,
    ns: Seq<Seq<char>>,
    i: int,
    bv: Seq<char>,
    sfx: Seq<char>,
)
    requires
        0 <= i < ns.len(),
        ns[i] == bv + sfx,
        forall|b: Seq<char>| acc.contains(b) <==> ns.take(i).contains(b + sfx),
    ensures
        forall|b: Seq<char>| acc.push(bv).contains(b) <==> ns.take(i + 1).contains(b + sfx),
{
    assert(ns.take(i + 1) =~= ns.take(i).push(ns[i]));
    assert forall|b: Seq<char>| acc.push(bv).contains(b) <==> ns.take(i + 1).contains(b + sfx) by {
        if acc.push(bv).contains(b) {
            let u = choose|u: int| 0 <= u < acc.push(bv).len() && acc.push(bv)[u] == b;
            if u < acc.len() {
                assert(acc.contains(b));
                let w = choose|w: int| 0 <= w < i && #[trigger] ns.take(i)[w] == b + sfx;
                assert(ns.take(i + 1)[w] == b + sfx);
            } else {
                assert(b == bv);
                assert(ns.take(i + 1)[i] == b + sfx);
            }
        }
        if ns.take(i + 1).contains(b + sfx) {
            let w = choose|w: int| 0 <= w < i + 1 && #[trigger] ns.take(i + 1)[w] == b + sfx;
            if w < i {
                assert(ns.take(i)[w] == b + sfx);
                assert(ns.take(i).contains(b + sfx));
                assert(acc.contains(b));
                let u = choose|u: int| 0 <= u < acc.len() && acc[u] == b;
                assert(acc.push(bv)[u] == b);
            } else {
                assert(b + sfx == bv + sfx);
                lemma_concat_suffix(b, sfx);
                lemma_concat_suffix(bv, sfx);
                assert(b == bv);
                assert(acc.push(bv)[acc.len() as int] == b);
            }
        }
    }
}

/// A name that is no base followed by `sfx` leaves the bases with that
/// suffix unchanged.
proof fn lemma_classify_stable(
    acc: Seq<Seq<char>>,
    ns: Seq<Seq<char>>,
    i: int,
    sfx: Seq<char>,
)
    requires
        0 <= i < ns.len(),
        forall|b: Seq<char>| ns[i] != b + sfx,
        forall|b: Seq<char>| acc.contains(b) <==> ns.take(i).contains(b + sfx),
    ensures
        forall|b: Seq<char>| acc.contains(b) <==> ns.take(i + 1).contains(b + sfx),
{
    assert(ns.take(i + 1) =~= ns.take(i).push(ns[i]));
    assert forall|b: Seq<char>| acc.contains(b) <==> ns.take(i + 1).contains(b + sfx) by {
        if acc.contains(b) {
            let w = choose|w: int| 0 <= w < i && #[trigger] ns.take(i)[w] == b + sfx;
            assert(ns.take(i + 1)[w] == b + sfx);
        }
        if ns.take(i + 1).contains(b + sfx) {
            let w = choose|w: int| 0 <= w < i + 1 && #[trigger] ns.take(i + 1)[w] == b + sfx;
            assert(w < i);
            assert(ns.take(i)[w] == b + sfx);
            assert(ns.take(i).contains(b + sfx));
        }
    }
}

/// One step of a filtered scan: the kept element lands at the end.
proof fn lemma_filter_keep(ns: Seq<Seq<char>>, i: int, pred: spec_fn(Seq<char>) -> bool)
    requires
        0 <= i < ns.len(),
        pred(ns[i]),
    ensures
        ns.take(i + 1).filter(pred) == ns.take(i).filter(pred).push(ns[i]),
{
    reveal(Seq::filter);
    assert(ns.take(i + 1).drop_last() =~= ns.take(i));
    assert(ns.take(i + 1).last() == ns[i]);
}

/// One step of a filtered scan: the dropped element leaves no trace.
proof fn lemma_filter_skip(ns: Seq<Seq<char>>, i: int, pred: spec_fn(Seq<char>) -> bool)
    requires
        0 <= i < ns.len(),
        !pred(ns[i]),
    ensures
        ns.take(i + 1).filter(pred) == ns.take(i).filter(pred),
{
    reveal(Seq::filter);
    assert(ns.take(i + 1).drop_last() =~= ns.take(i));
    assert(ns.take(i + 1).last() == ns[i]);
}

/// What test-case discovery found in one directory listing.
pub struct Pairing {
    /// The bases that have both an input and an expected-output file, in
    /// strictly increasing lexicographic order: the cases to run.
    pub cases: Vec<String>,
    /// Bases with an input file but no expected-output file.
    pub missing_out: Vec<String>,
    /// Bases with an expected-output file but no input file.
    pub missing_in: Vec<String>,
    /// File names with neither suffix, in directory order.
    pub unexpected: Vec<String>,
}

/// The names that belong to no test case.
pub open spec fn unexpected_pred() -> spec_fn(Seq<char>) -> bool {
    |s: Seq<char>| !ends_with(s, ".in"@) && !ends_with(s, ".out"@)
}

/// Pairs the file names of a test directory into runnable cases.
pub fn pair_cases(names: &Vec<String>) -> (p: Pairing)
    ensures
        strictly_sorted_views(str_views(p.cases@)),
        forall|b: Seq<char>|
            str_views(p.cases@).contains(b) <==> (str_views(names@).contains(b + ".in"@)
                && str_views(names@).contains(b + ".out"@)),
        strictly_sorted_views(str_views(p.missing_out@)),
        forall|b: Seq<char>|
            str_views(p.missing_out@).contains(b) <==> (str_views(names@).contains(b + ".in"@)
                && !str_views(names@).contains(b + ".out"@)),
        strictly_sorted_views(str_views(p.missing_in@)),
        forall|b: Seq<char>|
            str_views(p.missing_in@).contains(b) <==> (str_views(names@).contains(b + ".out"@)
                && !str_views(names@).contains(b + ".in"@)),
        str_views(p.unexpected@) == str_views(names@).filter(unexpected_pred()),
{
    let ghost ns = str_views(names@);
    let mut ins: Vec<String> = Vec::new();
    let mut outs: Vec<String> = Vec::new();
    let mut unexpected: Vec<String> = Vec::new();
    let mut i: usize = 0;
    proof {
        assert(ns.take(0) =~= Seq::<Seq<char>>::empty());
        assert(Seq::<Seq<char>>::empty().filter(unexpected_pred()) =~= Seq::<Seq<char>>::empty())
            by {
            reveal(Seq::filter);
        }
        assert(str_views(unexpected@) =~= Seq::<Seq<char>>::empty());
    }
    while i < names.len()
        invariant
            0 <= i <= names.len(),
            ns == str_views(names@),
            forall|b: Seq<char>|
                str_views(ins@).contains(b) <==> ns.take(i as int).contains(b + ".in"@),
            forall|b: Seq<char>|
                str_views(outs@).contains(b) <==> ns.take(i as int).contains(b + ".out"@),
            str_views(unexpected@) == ns.take(i as int).filter(unexpected_pred()),
        decreases names.len() - i,
    {
        let name = &names[i];
        let ghost sv = ns[i as int];
        let ghost oiv = str_views(ins@);
        let ghost oov = str_views(outs@);
        match strip_suffix_chars(name.as_str(), ".in") {
            Some(base) => {
                let ghost bv = base@;
                proof {
                    lemma_suffix_split(sv, ".in"@);
                    assert(sv == bv + ".in"@);
                }
                ins.push(base);
                proof {
                    assert(str_views(ins@) =~= oiv.push(bv));
                    lemma_classify_push(oiv, ns, i as int, bv, ".in"@);
                    assert forall|b: Seq<char>| sv != b + ".out"@ by {
                        lemma_in_out_distinct(bv, b);
                    }
                    lemma_classify_stable(oov, ns, i as int, ".out"@);
                    assert(!unexpected_pred()(sv)) by {
                        lemma_concat_suffix(bv, ".in"@);
                    }
                    lemma_filter_skip(ns, i as int, unexpected_pred());
                }
            },
            None => {
                match strip_suffix_chars(name.as_str(), ".out") {
                    Some(base) => {
                        let ghost bv = base@;
                        proof {
                            lemma_suffix_split(sv, ".out"@);
                            assert(sv == bv + ".out"@);
                        }
                        outs.push(base);
                        proof {
                            assert(str_views(outs@) =~= oov.push(bv));
                            lemma_classify_push(oov, ns, i as int, bv, ".out"@);
                            assert forall|b: Seq<char>| sv != b + ".in"@ by {
                                lemma_in_out_distinct(b, bv);
                            }
                            lemma_classify_stable(oiv, ns, i as int, ".in"@);
                            assert(!unexpected_pred()(sv)) by {
                                lemma_concat_suffix(bv, ".out"@);
                            }
                            lemma_filter_skip(ns, i as int, unexpected_pred());
                        }
                    },
                    None => {
                        unexpected.push(name.clone());
                        proof {
                            assert(unexpected_pred()(sv)) by {
                                if ends_with(sv, ".in"@) {
                                    lemma_suffix_split(sv, ".in"@);
                                }
                                if ends_with(sv, ".out"@) {
                                    lemma_suffix_split(sv, ".out"@);
                                }
                            }
                            lemma_filter_keep(ns, i as int, unexpected_pred());
                            assert(str_views(unexpected@) =~= ns.take(i as int).filter(
                                unexpected_pred(),
                            ).push(sv));
                            assert forall|b: Seq<char>| sv != b + ".in"@ by {
                                lemma_concat_suffix(b, ".in"@);
                            }
                            lemma_classify_stable(oiv, ns, i as int, ".in"@);
                            assert forall|b: Seq<char>| sv != b + ".out"@ by {
                                lemma_concat_suffix(b, ".out"@);
                            }
                            lemma_classify_stable(oov, ns, i as int, ".out"@);
                        }
                    },
                }
            },
        }
        i += 1;
    }
    proof {
        assert(ns.take(names@.len() as int) =~= ns);
    }
    let mut paired: Vec<String> = Vec::new();
    let mut only_in: Vec<String> = Vec::new();
    let mut k: usize = 0;
    while k < ins.len()
        invariant
            0 <= k <= ins.len(),
            forall|b: Seq<char>|
                str_views(paired@).contains(b) <==> (str_views(ins@).take(k as int).contains(b)
                    && str_views(outs@).contains(b)),
            forall|b: Seq<char>|
                str_views(only_in@).contains(b) <==> (str_views(ins@).take(k as int).contains(b)
                    && !str_views(outs@).contains(b)),
        decreases ins.len() - k,
    {
        let ghost iv = str_views(ins@);
        let ghost bv = iv[k as int];
        let ghost opv = str_views(paired@);
        let ghost oqv = str_views(only_in@);
        if contains_str(&outs, ins[k].as_str()) {
            paired.push(ins[k].clone());
            proof {
                assert(str_views(paired@) =~= opv.push(bv));
                lemma_select_push(opv, iv.take(k as int), str_views(outs@), bv, true);
                lemma_select_stable(oqv, iv.take(k as int), str_views(outs@), bv, false);
            }
        } else {
            only_in.push(ins[k].clone());
            proof {
                assert(str_views(only_in@) =~= oqv.push(bv));
                lemma_select_push(oqv, iv.take(k as int), str_views(outs@), bv, false);
                lemma_select_stable(opv, iv.take(k as int), str_views(outs@), bv, true);
            }
        }
        proof {
            assert(iv.take(k as int + 1) =~= iv.take(k as int).push(bv));
        }
        k += 1;
    }
    let mut only_out: Vec<String> = Vec::new();
    let mut k2: usize = 0;
    while k2 < outs.len()
        invariant
            0 <= k2 <= outs.len(),
            forall|b: Seq<char>|
                str_views(only_out@).contains(b) <==> (str_views(outs@).take(
                    k2 as int,
                ).contains(b) && !str_views(ins@).contains(b)),
        decreases outs.len() - k2,
    {
        let ghost ov = str_views(outs@);
        let ghost bv = ov[k2 as int];
        let ghost orv = str_views(only_out@);
        if !contains_str(&ins, outs[k2].as_str()) {
            only_out.push(outs[k2].clone());
            proof {
                assert(str_views(only_out@) =~= orv.push(bv));
                lemma_select_push(orv, ov.take(k2 as int), str_views(ins@), bv, false);
            }
        } else {
            proof {
                lemma_select_stable(orv, ov.take(k2 as int), str_views(ins@), bv, false);
            }
        }
        proof {
            assert(ov.take(k2 as int + 1) =~= ov.take(k2 as int).push(bv));
        }
        k2 += 1;
    }
    proof {
        assert(str_views(ins@).take(ins@.len() as int) =~= str_views(ins@));
        assert(str_views(outs@).take(outs@.len() as int) =~= str_views(outs@));
    }
    let sorted_paired = sort_strings(paired);
    let cases = dedup_sorted(sorted_paired);
    proof {
        lemma_same_multiset_same_members(str_views(sorted_paired@), str_views(paired@));
    }
    let sorted_only_in = sort_strings(only_in);
    let missing_out = dedup_sorted(sorted_only_in);
    proof {
        lemma_same_multiset_same_members(str_views(sorted_only_in@), str_views(only_in@));
    }
    let sorted_only_out = sort_strings(only_out);
    let missing_in = dedup_sorted(sorted_only_out);
    proof {
        lemma_same_multiset_same_members(str_views(sorted_only_out@), str_views(only_out@));
    }
    Pairing { cases, missing_out, missing_in, unexpected }
}

proof fn lemma_select_push(
    acc: Seq<Seq<char>>,
    src: Seq<Seq<char>>,
    other: Seq<Seq<char>>,
    b: Seq<char>,
    wanted: bool,
)
    requires
        forall|x: Seq<char>|
            acc.contains(x) <==> (src.contains(x) && other.contains(x) == wanted),
        other.contains(b) == wanted,
    ensures
        forall|x: Seq<char>|
            #[trigger] acc.push(b).contains(x) ==> (src.push(b).contains(x) && other.contains(x)
                == wanted),
        forall|x: Seq<char>|
            #[trigger] src.push(b).contains(x) && other.contains(x) == wanted ==> acc.push(
                b,
            ).contains(x),
{
    assert forall|x: Seq<char>| #![trigger acc.push(b).contains(x)] acc.push(b).contains(x)
        implies (src.push(b).contains(x) && other.contains(x) == wanted) by {
        let u = choose|u: int| 0 <= u < acc.push(b).len() && acc.push(b)[u] == x;
        if u < acc.len() {
            assert(acc.contains(x));
            let w = choose|w: int| 0 <= w < src.len() && src[w] == x;
            assert(src.push(b)[w] == x);
        } else {
            assert(x == b);
            assert(src.push(b)[src.len() as int] == x);
        }
    }
    assert forall|x: Seq<char>| #![trigger src.push(b).contains(x)] src.push(b).contains(x)
        && other.contains(x) == wanted implies acc.push(b).contains(x) by {
        if x == b {
            assert(acc.push(b)[acc.len() as int] == x);
        } else {
            let u = choose|u: int| 0 <= u < src.push(b).len() && src.push(b)[u] == x;
            assert(u < src.len());
            assert(src.contains(x));
            assert(acc.contains(x));
            let w = choose|w: int| 0 <= w < acc.len() && acc[w] == x;
            assert(acc.push(b)[w] == x);
        }
    }
}

proof fn lemma_select_stable(
    acc: Seq<Seq<char>>,
    src: Seq<Seq<char>>,
    other: Seq<Seq<char>>,
    b: Seq<char>,
    wanted: bool,
)
    requires
        forall|x: Seq<char>|
            acc.contains(x) <==> (src.contains(x) && other.contains(x) == wanted),
        other.contains(b) != wanted,
    ensures
        forall|x: Seq<char>|
            #[trigger] acc.contains(x) ==> (src.push(b).contains(x) && other.contains(x)
                == wanted),
        forall|x: Seq<char>|
            #[trigger] src.push(b).contains(x) && other.contains(x) == wanted ==> acc.contains(x),
{
    assert forall|x: Seq<char>| acc.contains(x) implies (src.push(b).contains(x)
        && other.contains(x) == wanted) by {
        let w = choose|w: int| 0 <= w < src.len() && src[w] == x;
        assert(src.push(b)[w] == x);
    }
    assert forall|x: Seq<char>| src.push(b).contains(x) && other.contains(x) == wanted implies
        acc.contains(x) by {
        let u = choose|u: int| 0 <= u < src.push(b).len() && src.push(b)[u] == x;
        assert(u < src.len());
        assert(src.contains(x));
    }
}

} // verus!
