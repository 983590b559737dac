//! Gathering every error of an iterator over `Result` values, where
//! collecting into a `Result` would stop at the first.

use crate::errorvec::ErrorVec;
use crate::partition::{failures, lemma_count_is_kept, lemma_one_more_outcome, successes};
use vstd::prelude::*;
use vstd::std_specs::iter::IteratorSpec;

verus! {

/// Whether `iter` comes to an end: it yields the items of `remaining()`, one
/// by one, then says that it is done, and something measures how far it is
/// from there.
pub open spec fn comes_to_an_end<I: Iterator>(iter: I) -> bool {
    iter.obeys_prophetic_iter_laws() && iter.decrease() is Some
}

/// Extend [Iterator] with `Item = Result<T, E>` to support gathering multiple errors.
///
/// Collecting such an iterator into a `Result` gives up at the first error.
/// The methods here walk the iterator to its end, once and in order, and keep
/// every value and every error that it yields.
pub trait ResultIterator<O, E>: Sized + Iterator<Item = Result<O, E>> {
    /// Gather all `Ok` and `Err` values, returning `Err` if there are 1 or more errors.
    ///
    /// Without an error the result holds every value, in the iterator's
    /// order. With one or more it holds every error, in the iterator's order,
    /// and the values are gone.
    fn into_errorvec_result(self) -> (result: Result<Vec<O>, ErrorVec<E>>)
        requires
            comes_to_an_end(self),
        ensures
            result is Ok <==> failures(self.remaining()).len() == 0,
            result is Ok ==> result->Ok_0@ == successes(self.remaining()),
            result is Err ==> result->Err_0@ == failures(self.remaining()),
    {
        let mut oks = Vec::new();
        let mut ev = ErrorVec::default();
        let mut iter = self;
        let ghost mut seen: Seq<Result<O, E>> = Seq::empty();
        loop
            invariant
                comes_to_an_end(iter),
                seen + iter.remaining() == self.remaining(),
                oks@ == successes(seen),
                ev@ == failures(seen),
            ensures
                iter.remaining().len() == 0,
            decreases iter.decrease()->0,
        {
            match iter.next() {
                Some(outcome) => {
                    proof {
                        lemma_one_more_outcome(seen, outcome);
                        seen = seen.push(outcome);
                    }
                    if let Some(value) = ev.take_error(outcome) {
                        oks.push(value);
                    }
                },
                None => {
                    break ;
                },
            }
        }
        assert(seen =~= self.remaining());
        ev.into_result_with(oks)
    }

    /// Gather all `Ok` values and all `Err` values, and return both lists,
    /// whether or not there was an error. Each list is in the iterator's
    /// order, and every item is in one of them.
    fn partition_results(self) -> (lists: (Vec<O>, Vec<E>))
        requires
            comes_to_an_end(self),
        ensures
            lists.0@ == successes(self.remaining()),
            lists.1@ == failures(self.remaining()),
            lists.0@.len() + lists.1@.len() == self.remaining().len(),
    {
        let mut oks = Vec::new();
        let mut errs = Vec::new();
        let mut iter = self;
        let ghost mut seen: Seq<Result<O, E>> = Seq::empty();
        loop
            invariant
                comes_to_an_end(iter),
                seen + iter.remaining() == self.remaining(),
                oks@ == successes(seen),
                errs@ == failures(seen),
            ensures
                iter.remaining().len() == 0,
            decreases iter.decrease()->0,
        {
            match iter.next() {
                Some(outcome) => {
                    proof {
                        lemma_one_more_outcome(seen, outcome);
                        seen = seen.push(outcome);
                    }
                    match outcome {
                        Ok(value) => {
                            oks.push(value);
                        },
                        Err(error) => {
                            errs.push(error);
                        },
                    }
                },
                None => {
                    break ;
                },
            }
        }
        proof {
            assert(seen =~= self.remaining());
            lemma_count_is_kept(seen);
        }
        (oks, errs)
    }
}

impl<T, O, E> ResultIterator<O, E> for T where T: Sized + Iterator<Item = Result<O, E>> {

}

} // verus!
