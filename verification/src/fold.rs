//! A left fold over a sequence whose step can fail, and the lemmas that let
//! a loop over a growing prefix track it. Both configuration parsers are
//! specified as such folds: they scan nodes in document order, accumulate,
//! and abort on the first error.

use vstd::prelude::*;

verus! {

/// Folds `step` over `items` from the front, stopping at the first error.
pub open spec fn fold_result<A, B, E>(
    acc: A,
    items: Seq<B>,
    step: spec_fn(A, B) -> Result<A, E>,
) -> Result<A, E>
    decreases items.len(),
{
    if items.len() == 0 {
        Ok(acc)
    } else {
        match step(acc, items[0]) {
            Ok(a) => fold_result(a, items.skip(1), step),
            Err(e) => Err(e),
        }
    }
}

/// A fold splits at any position: fold the prefix, then fold the rest from
/// where the prefix ended.
pub proof fn lemma_fold_result_split<A, B, E>(
    acc: A,
    items: Seq<B>,
    step: spec_fn(A, B) -> Result<A, E>,
    j: int,
)
    requires
        0 <= j <= items.len(),
    ensures
        fold_result(acc, items, step) == (match fold_result(acc, items.take(j), step) {
            Ok(a) => fold_result(a, items.skip(j), step),
            Err(e) => Err::<A, E>(e),
        }),
    decreases j,
{
    if j == 0 {
        assert(items.take(0) =~= Seq::<B>::empty());
        assert(items.skip(0) =~= items);
    } else {
        let first = items[0];
        assert(items.take(j)[0] == first);
        match step(acc, first) {
            Ok(a) => {
                lemma_fold_result_split(a, items.skip(1), step, j - 1);
                assert(items.skip(1).take(j - 1) =~= items.take(j).skip(1));
                assert(items.skip(1).skip(j - 1) =~= items.skip(j));
            },
            Err(e) => {},
        }
    }
}

/// Extending the folded prefix by one item applies `step` once more.
pub proof fn lemma_fold_result_snoc<A, B, E>(
    acc: A,
    items: Seq<B>,
    step: spec_fn(A, B) -> Result<A, E>,
    j: int,
)
    requires
        0 <= j < items.len(),
    ensures
        fold_result(acc, items.take(j + 1), step) == (match fold_result(
            acc,
            items.take(j),
            step,
        ) {
            Ok(a) => step(a, items[j]),
            Err(e) => Err::<A, E>(e),
        }),
{
    let prefix = items.take(j + 1);
    assert(prefix.take(j) =~= items.take(j));
    lemma_fold_result_split(acc, prefix, step, j);
    let rest = prefix.skip(j);
    assert(rest =~= seq![items[j]]);
    match fold_result(acc, items.take(j), step) {
        Ok(a) => {
            assert(fold_result(a, rest, step) == (match step(a, items[j]) {
                Ok(b) => fold_result(b, rest.skip(1), step),
                Err(e) => Err::<A, E>(e),
            }));
            assert(rest.skip(1) =~= Seq::<B>::empty());
        },
        Err(e) => {},
    }
}

/// Once the fold of a prefix has failed, the fold of the whole sequence
/// fails with the same error.
pub proof fn lemma_fold_result_error<A, B, E>(
    acc: A,
    items: Seq<B>,
    step: spec_fn(A, B) -> Result<A, E>,
    j: int,
)
    requires
        0 <= j <= items.len(),
        fold_result(acc, items.take(j), step) is Err,
    ensures
        fold_result(acc, items, step) == fold_result(acc, items.take(j), step),
{
    lemma_fold_result_split(acc, items, step, j);
}

/// If some item makes the step fail from every accumulator, the whole fold
/// fails.
pub proof fn lemma_fold_poisoned<A, B, E>(
    acc: A,
    items: Seq<B>,
    step: spec_fn(A, B) -> Result<A, E>,
    i: int,
)
    requires
        0 <= i < items.len(),
        forall|a: A| (#[trigger] step(a, items[i])) is Err,
    ensures
        fold_result(acc, items, step) is Err,
    decreases i,
{
    if i != 0 {
        match step(acc, items[0]) {
            Ok(a) => {
                assert(items.skip(1)[i - 1] == items[i]);
                lemma_fold_poisoned(a, items.skip(1), step, i - 1);
            },
            Err(e) => {},
        }
    }
}

} // verus!
