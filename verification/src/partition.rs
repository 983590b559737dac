//! What a sequence of outcomes comes to when its successes and its failures
//! are told apart: which values and which errors are kept, and in what order.
//!
//! An outcome is a `Result`: a success that carries a value, or a failure that
//! carries an error.

use crate::errorvec::{errors_after_take, taken_error, taken_value};
use vstd::prelude::*;

verus! {

/// Picks the value of an outcome that succeeded.
pub open spec fn value_of<O, E>() -> spec_fn(Result<O, E>) -> Option<O> {
    |outcome: Result<O, E>| taken_value(outcome)
}

/// Picks the error of an outcome that failed.
pub open spec fn error_of<O, E>() -> spec_fn(Result<O, E>) -> Option<E> {
    |outcome: Result<O, E>| taken_error(outcome)
}

/// The values of the outcomes that succeeded, in the order of `outcomes`.
pub open spec fn successes<O, E>(outcomes: Seq<Result<O, E>>) -> Seq<O> {
    outcomes.filter_map(value_of())
}

/// The errors of the outcomes that failed, in the order of `outcomes`.
pub open spec fn failures<O, E>(outcomes: Seq<Result<O, E>>) -> Seq<E> {
    outcomes.filter_map(error_of())
}

/// The places in `items`, ascending, of the items of which `pick` keeps
/// something.
pub open spec fn places<A, B>(items: Seq<A>, pick: spec_fn(A) -> Option<B>) -> Seq<int>
    decreases items.len(),
{
    if items.len() == 0 {
        Seq::empty()
    } else if pick(items.last()) is Some {
        places(items.drop_last(), pick).push(items.len() - 1)
    } else {
        places(items.drop_last(), pick)
    }
}

/// The places in `outcomes`, ascending, of those that succeeded.
pub open spec fn success_places<O, E>(outcomes: Seq<Result<O, E>>) -> Seq<int> {
    places(outcomes, value_of())
}

/// The places in `outcomes`, ascending, of those that failed.
pub open spec fn failure_places<O, E>(outcomes: Seq<Result<O, E>>) -> Seq<int> {
    places(outcomes, error_of())
}

/// What a loop written by hand comes to that hands each of `outcomes` to
/// `take_error` on one list of errors, first to last, and keeps every value
/// that comes back: the values kept, and the errors that the list holds then.
pub open spec fn by_take_error<O, E>(outcomes: Seq<Result<O, E>>) -> (Seq<O>, Seq<E>)
    decreases outcomes.len(),
{
    if outcomes.len() == 0 {
        (Seq::empty(), Seq::empty())
    } else {
        let (values, errors) = by_take_error(outcomes.drop_last());
        let kept = match taken_value(outcomes.last()) {
            Some(value) => values.push(value),
            None => values,
        };
        (kept, errors_after_take(errors, outcomes.last()))
    }
}

/// One more outcome adds its value to the successes or its error to the
/// failures, at the end, and leaves the other list as it was.
pub proof fn lemma_one_more_outcome<O, E>(outcomes: Seq<Result<O, E>>, outcome: Result<O, E>)
    ensures
        outcome is Ok ==> successes(outcomes.push(outcome)) == successes(outcomes).push(
            outcome->Ok_0,
        ),
        outcome is Ok ==> failures(outcomes.push(outcome)) == failures(outcomes),
        outcome is Err ==> failures(outcomes.push(outcome)) == failures(outcomes).push(
            outcome->Err_0,
        ),
        outcome is Err ==> successes(outcomes.push(outcome)) == successes(outcomes),
{
    assert(outcomes.push(outcome).drop_last() =~= outcomes);
}

/// `items.filter_map(pick)` holds what `pick` keeps at the places of
/// `places(items, pick)`; these ascend and leave out no item of which `pick`
/// keeps something.
proof fn lemma_kept_in_order<A, B>(items: Seq<A>, pick: spec_fn(A) -> Option<B>)
    ensures
        ({
            let kept = items.filter_map(pick);
            let at = places(items, pick);
            &&& at.len() == kept.len()
            &&& forall|k: int|
                0 <= k < at.len() ==> 0 <= #[trigger] at[k] < items.len() && pick(items[at[k]])
                    == Some(kept[k])
            &&& forall|j: int, k: int| 0 <= j < k < at.len() ==> at[j] < at[k]
            &&& forall|i: int|
                0 <= i < items.len() && pick(#[trigger] items[i]) is Some ==> at.contains(i)
        }),
    decreases items.len(),
{
    if items.len() > 0 {
        let front = items.drop_last();
        lemma_kept_in_order(front, pick);
        let at = places(items, pick);
        assert forall|i: int|
            0 <= i < items.len() && pick(#[trigger] items[i]) is Some implies at.contains(i) by {
            if i < items.len() - 1 {
                assert(front[i] == items[i]);
                let k = choose|k: int|
                    0 <= k < places(front, pick).len() && places(front, pick)[k] == i;
                assert(at[k] == i);
            } else {
                assert(at[at.len() - 1] == i);
            }
        }
    }
}

/// Order is kept among the failures: the errors gathered are those of the
/// outcomes that failed, each in its place among the others, and none is
/// missing.
pub proof fn lemma_failures_keep_order<O, E>(outcomes: Seq<Result<O, E>>)
    ensures
        ({
            let errors = failures(outcomes);
            let at = failure_places(outcomes);
            &&& at.len() == errors.len()
            &&& forall|k: int|
                0 <= k < at.len() ==> 0 <= #[trigger] at[k] < outcomes.len() && outcomes[at[k]]
                    == Err::<O, E>(errors[k])
            &&& forall|j: int, k: int| 0 <= j < k < at.len() ==> at[j] < at[k]
            &&& forall|i: int|
                0 <= i < outcomes.len() && #[trigger] outcomes[i] is Err ==> at.contains(i)
        }),
{
    lemma_kept_in_order(outcomes, error_of::<O, E>());
    let at = failure_places(outcomes);
    assert forall|i: int|
        0 <= i < outcomes.len() && #[trigger] outcomes[i] is Err implies at.contains(i) by {
        assert(error_of::<O, E>()(outcomes[i]) is Some);
    }
}

/// Order is kept among the successes: the values gathered are those of the
/// outcomes that succeeded, each in its place among the others, and none is
/// missing. An outcome that failed leaves nothing in its place.
pub proof fn lemma_successes_keep_order<O, E>(outcomes: Seq<Result<O, E>>)
    ensures
        ({
            let values = successes(outcomes);
            let at = success_places(outcomes);
            &&& at.len() == values.len()
            &&& forall|k: int|
                0 <= k < at.len() ==> 0 <= #[trigger] at[k] < outcomes.len() && outcomes[at[k]]
                    == Ok::<O, E>(values[k])
            &&& forall|j: int, k: int| 0 <= j < k < at.len() ==> at[j] < at[k]
            &&& forall|i: int|
                0 <= i < outcomes.len() && #[trigger] outcomes[i] is Ok ==> at.contains(i)
        }),
{
    lemma_kept_in_order(outcomes, value_of::<O, E>());
    let at = success_places(outcomes);
    assert forall|i: int|
        0 <= i < outcomes.len() && #[trigger] outcomes[i] is Ok implies at.contains(i) by {
        assert(value_of::<O, E>()(outcomes[i]) is Some);
    }
}

/// Where nothing failed, the successes are the values of all the outcomes,
/// place by place.
pub proof fn lemma_nothing_failed<O, E>(outcomes: Seq<Result<O, E>>)
    requires
        failures(outcomes).len() == 0,
    ensures
        successes(outcomes).len() == outcomes.len(),
        forall|i: int|
            0 <= i < outcomes.len() ==> #[trigger] outcomes[i] == Ok::<O, E>(
                successes(outcomes)[i],
            ),
    decreases outcomes.len(),
{
    if outcomes.len() > 0 {
        let front = outcomes.drop_last();
        lemma_nothing_failed(front);
        let values = successes(outcomes);
        assert forall|i: int| 0 <= i < outcomes.len() implies #[trigger] outcomes[i] == Ok::<
            O,
            E,
        >(values[i]) by {
            if i < front.len() {
                assert(front[i] == outcomes[i]);
            }
        }
    }
}

/// Every outcome is counted once: it is among the successes or among the
/// failures.
pub proof fn lemma_count_is_kept<O, E>(outcomes: Seq<Result<O, E>>)
    ensures
        successes(outcomes).len() + failures(outcomes).len() == outcomes.len(),
    decreases outcomes.len(),
{
    if outcomes.len() > 0 {
        lemma_count_is_kept(outcomes.drop_last());
    }
}

/// A loop written by hand around `take_error` gathers the same values and the
/// same errors, in the same order, as gathering the whole sequence at once.
pub proof fn lemma_by_take_error_is_the_same<O, E>(outcomes: Seq<Result<O, E>>)
    ensures
        by_take_error(outcomes) == (successes(outcomes), failures(outcomes)),
    decreases outcomes.len(),
{
    if outcomes.len() > 0 {
        lemma_by_take_error_is_the_same(outcomes.drop_last());
    }
}

} // verus!
