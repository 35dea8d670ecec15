//! Facts about filtering a sequence.

use vstd::prelude::*;

verus! {

/// A filter keeps what passes its test, in the order it had: each kept
/// element is one of the sequence and passes, each element of the sequence
/// that passes is kept, and where `rank` ascends along the sequence it
/// ascends along what is kept.
pub proof fn lemma_filter_keeps_order<T>(
    rows: Seq<T>,
    keep: spec_fn(T) -> bool,
    rank: spec_fn(T) -> int,
)
    requires
        forall|i: int, j: int|
            0 <= i < j < rows.len() ==> rank(#[trigger] rows[i]) < rank(#[trigger] rows[j]),
    ensures
        forall|i: int|
            0 <= i < rows.filter(keep).len() ==> keep(#[trigger] rows.filter(keep)[i])
                && rows.contains(rows.filter(keep)[i]),
        forall|i: int| 0 <= i < rows.len() && keep(#[trigger] rows[i]) ==> rows.filter(
            keep,
        ).contains(rows[i]),
        forall|i: int, j: int|
            0 <= i < j < rows.filter(keep).len() ==> rank(#[trigger] rows.filter(keep)[i]) < rank(
                #[trigger] rows.filter(keep)[j],
            ),
    decreases rows.len(),
{
    reveal(Seq::filter);
    if rows.len() > 0 {
        let init = rows.drop_last();
        lemma_filter_keeps_order(init, keep, rank);
        assert(init.filter(keep).len() <= rows.filter(keep).len());
    }
}

/// A filter whose test every element passes changes nothing.
pub proof fn lemma_filter_all<T>(rows: Seq<T>, keep: spec_fn(T) -> bool)
    requires
        forall|i: int| 0 <= i < rows.len() ==> keep(#[trigger] rows[i]),
    ensures
        rows.filter(keep) == rows,
    decreases rows.len(),
{
    reveal(Seq::filter);
    if rows.len() > 0 {
        let init = rows.drop_last();
        lemma_filter_all(init, keep);
    }
}

/// A filter whose test no element passes leaves nothing.
pub proof fn lemma_filter_none<T>(rows: Seq<T>, keep: spec_fn(T) -> bool)
    requires
        forall|i: int| 0 <= i < rows.len() ==> !keep(#[trigger] rows[i]),
    ensures
        rows.filter(keep) == Seq::<T>::empty(),
    decreases rows.len(),
{
    reveal(Seq::filter);
    if rows.len() > 0 {
        let init = rows.drop_last();
        lemma_filter_none(init, keep);
    }
}

/// Filtering by `inner` after filtering by `outer` is filtering by `inner`
/// alone, where whatever passes `inner` passes `outer`.
pub proof fn lemma_filter_twice<T>(
    rows: Seq<T>,
    outer: spec_fn(T) -> bool,
    inner: spec_fn(T) -> bool,
)
    requires
        forall|x: T| #[trigger] inner(x) ==> outer(x),
    ensures
        rows.filter(outer).filter(inner) == rows.filter(inner),
    decreases rows.len(),
{
    reveal(Seq::filter);
    if rows.len() > 0 {
        let init = rows.drop_last();
        let last = rows.last();
        lemma_filter_twice(init, outer, inner);
        if outer(last) {
            init.filter(outer).lemma_filter_push(last, inner);
        }
    }
}

/// Two filters whose tests agree on every element keep the same.
pub proof fn lemma_filter_agree<T>(
    rows: Seq<T>,
    one: spec_fn(T) -> bool,
    other: spec_fn(T) -> bool,
)
    requires
        forall|i: int| 0 <= i < rows.len() ==> one(#[trigger] rows[i]) == other(rows[i]),
    ensures
        rows.filter(one) == rows.filter(other),
    decreases rows.len(),
{
    reveal(Seq::filter);
    if rows.len() > 0 {
        let init = rows.drop_last();
        lemma_filter_agree(init, one, other);
    }
}

/// Filtering what was mapped is mapping what was filtered by the test of the
/// image.
pub proof fn lemma_filter_mapped<T, U>(
    rows: Seq<T>,
    image: spec_fn(T) -> U,
    keep: spec_fn(U) -> bool,
)
    ensures
        rows.map_values(image).filter(keep) == rows.filter(|x: T| keep(image(x))).map_values(
            image,
        ),
    decreases rows.len(),
{
    reveal(Seq::filter);
    if rows.len() > 0 {
        let init = rows.drop_last();
        lemma_filter_mapped(init, image, keep);
        assert(rows.map_values(image).drop_last() == init.map_values(image));
    }
}

} // verus!
