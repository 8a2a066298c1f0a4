//! Steps that are taken one after another until one fails.
use vstd::prelude::*;

use crate::error::Fail;

verus! {

/// The state after a step for each item, or the first failure.
pub open spec fn folded<A, S>(
    items: Seq<A>,
    start: S,
    step: spec_fn(S, A) -> Result<S, Fail>,
) -> Result<S, Fail>
    decreases items.len(),
{
    if items.len() == 0 {
        Ok(start)
    } else {
        match step(start, items[0]) {
            Ok(state) => folded(items.skip(1), state, step),
            Err(fail) => Err(fail),
        }
    }
}

/// The first of the items that are left is taken.
pub proof fn lemma_folded_next<A, S>(
    items: Seq<A>,
    i: int,
    state: S,
    step: spec_fn(S, A) -> Result<S, Fail>,
)
    requires
        0 <= i < items.len(),
    ensures
        folded(items.skip(i), state, step) == (match step(state, items[i]) {
            Ok(next) => folded(items.skip(i + 1), next, step),
            Err(fail) => Err(fail),
        }),
{
    assert(items.skip(i).skip(1) =~= items.skip(i + 1));
}

/// The step that adds the value of an item to those before it.
pub open spec fn collecting<A, B>(value: spec_fn(A) -> Result<B, Fail>) -> spec_fn(
    Seq<B>,
    A,
) -> Result<Seq<B>, Fail> {
    |values: Seq<B>, item: A|
        match value(item) {
            Ok(next) => Ok(values.push(next)),
            Err(fail) => Err(fail),
        }
}

/// The value of each item, or the first failure.
pub open spec fn collected<A, B>(items: Seq<A>, value: spec_fn(A) -> Result<B, Fail>) -> Result<
    Seq<B>,
    Fail,
> {
    folded(items, Seq::empty(), collecting(value))
}

} // verus!
