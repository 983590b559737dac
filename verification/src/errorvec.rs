//! A list of errors that is gathered while work goes on, and turned into one
//! result at the end.

use crate::render::{render_messages, rendering, texts};
use crate::resiter::comes_to_an_end;
use core::fmt::Display;
use vstd::prelude::*;
use vstd::std_specs::convert::FromSpecImpl;
use vstd::std_specs::iter::IteratorSpec;
use vstd::string::to_string_from_display_ensures;

verus! {

/// A newtype wrapper around `Vec<E>` aimed at supporting multi-error scenarios.
///
/// The errors stay in the order in which they were added: nothing is dropped,
/// merged or moved. A list that holds no error stands for success, which
/// [`ErrorVec::into_result`] and [`ErrorVec::into_result_with`] turn into `Ok`.
///
/// The whole of `Vec` is at hand through `Deref` and `DerefMut`.
#[derive(Debug)]
pub struct ErrorVec<E>(Vec<E>);

impl<E> View for ErrorVec<E> {
    type V = Seq<E>;

    /// The errors held, oldest first.
    closed spec fn view(&self) -> Seq<E> {
        self.0@
    }
}

/// The value that `take_error` hands back for `outcome`.
pub open spec fn taken_value<T, E>(outcome: Result<T, E>) -> Option<T> {
    match outcome {
        Ok(value) => Some(value),
        Err(_) => None,
    }
}

/// The error that `take_error` keeps of `outcome`.
pub open spec fn taken_error<T, E>(outcome: Result<T, E>) -> Option<E> {
    match outcome {
        Ok(_) => None,
        Err(error) => Some(error),
    }
}

/// The errors held once `take_error` has seen `outcome`, where `errors` were
/// held before.
pub open spec fn errors_after_take<T, E>(errors: Seq<E>, outcome: Result<T, E>) -> Seq<E> {
    match taken_error(outcome) {
        Some(error) => errors.push(error),
        None => errors,
    }
}

/// Whether `message` is a text that `error` may display as.
pub open spec fn displays<E: Display>(error: E, message: String) -> bool {
    to_string_from_display_ensures::<E>(&error, message)
}

/// Whether `error` displays as the same text every time.
pub open spec fn display_is_fixed<E: Display>(error: E) -> bool {
    forall|one: String, other: String|
        #![trigger displays(error, one), displays(error, other)]
        displays(error, one) && displays(error, other) ==> one@ == other@
}

impl<E> ErrorVec<E> {
    /// What `into_result_with` returns: success with `value` where no error is
    /// held, else failure with the whole list.
    pub open spec fn spec_into_result_with<T>(self, value: T) -> Result<T, Self> {
        if self@.len() == 0 {
            Ok(value)
        } else {
            Err(self)
        }
    }

    /// If `self.is_empty()`, signifying no errors, `Ok(())`, else, `Err(self)`.
    pub fn into_result(self) -> (result: Result<(), Self>)
        ensures
            result == self.spec_into_result_with(()),
    {
        self.into_result_with(())
    }

    /// If `self.is_empty()`, signifying no errors, `Ok(value)`, else, `Err(self)`.
    pub fn into_result_with<T>(self, value: T) -> (result: Result<T, Self>)
        ensures
            result == self.spec_into_result_with(value),
    {
        if self.0.is_empty() {
            Ok(value)
        } else {
            Err(self)
        }
    }

    /// Collect the error from a result, if present, otherwise return the `Ok` value.
    pub fn take_error<T>(&mut self, outcome: Result<T, E>) -> (taken: Option<T>)
        ensures
            taken == taken_value(outcome),
            final(self)@ == errors_after_take(old(self)@, outcome),
    {
        match outcome {
            Ok(value) => Some(value),
            Err(error) => {
                self.0.push(error);
                None
            },
        }
    }

    /// Adds `error` at the end.
    pub fn push(&mut self, error: E)
        ensures
            final(self)@ == old(self)@.push(error),
    {
        self.0.push(error);
    }

    /// The number of errors held.
    pub fn len(&self) -> (count: usize)
        ensures
            count == self@.len(),
    {
        self.0.len()
    }

    /// Whether no error is held.
    pub fn is_empty(&self) -> (empty: bool)
        ensures
            empty == (self@.len() == 0),
    {
        self.0.is_empty()
    }

    /// Walks the errors in the order in which they were added. The list stays
    /// as it is, so it can be walked again.
    pub fn iter(&self) -> (iter: std::slice::Iter<'_, E>)
        ensures
            iter.remaining() == self@.as_ref(),
            iter.decrease() is Some,
            iter.initial_value_relation(&iter),
    {
        self.0.iter()
    }

    /// Hands the errors out in the order in which they were added.
    pub fn into_iter(self) -> (iter: std::vec::IntoIter<E>)
        ensures
            iter.remaining() == self@,
            iter.decrease() is Some,
            iter.initial_value_relation(&iter),
    {
        self.0.into_iter()
    }

    /// Gathers the errors that `iter` yields, in its order.
    pub fn from_iter<I: Iterator<Item = E>>(iter: I) -> (ev: Self)
        requires
            comes_to_an_end(iter),
        ensures
            ev@ == iter.remaining(),
    {
        let mut errors = Vec::new();
        let mut rest = iter;
        loop
            invariant
                comes_to_an_end(rest),
                errors@ + rest.remaining() == iter.remaining(),
            ensures
                rest.remaining().len() == 0,
            decreases rest.decrease()->0,
        {
            match rest.next() {
                Some(error) => {
                    errors.push(error);
                },
                None => {
                    break ;
                },
            }
        }
        assert(errors@ =~= iter.remaining());
        ErrorVec(errors)
    }
}

impl<E: Display> ErrorVec<E> {
    /// Whether `messages` are texts that the errors held may display as, one
    /// for one.
    pub open spec fn displays_as(&self, messages: Seq<String>) -> bool {
        &&& messages.len() == self@.len()
        &&& forall|i: int| 0 <= i < self@.len() ==> displays(self@[i], #[trigger] messages[i])
    }

    /// Whether `text` is the rendering of texts that the errors held may
    /// display as.
    pub open spec fn renders_as(&self, text: Seq<char>) -> bool {
        exists|messages: Seq<String>|
            #[trigger] self.displays_as(messages) && text == rendering(texts(messages))
    }

    /// The errors as one text: each on a block of its own that starts with
    /// `[error K of N]`, and blank lines between the blocks.
    pub fn to_string(&self) -> (text: String)
        ensures
            self.renders_as(text@),
    {
        let mut messages: Vec<String> = Vec::new();
        let mut index: usize = 0;
        while index < self.0.len()
            invariant
                index <= self.0.len(),
                messages.len() == index,
                forall|i: int| 0 <= i < index ==> displays(self@[i], #[trigger] messages@[i]),
            decreases self.0.len() - index,
        {
            messages.push(self.0[index].to_string());
            index = index + 1;
        }
        assert(self.displays_as(messages@));
        render_messages(&messages)
    }
}

impl<E> Default for ErrorVec<E> {
    /// A list without errors.
    fn default() -> (ev: Self)
        ensures
            ev@ == Seq::<E>::empty(),
    {
        ErrorVec(Vec::new())
    }
}

impl<E> From<Vec<E>> for ErrorVec<E> {
    /// The list of `errors`, as they stand.
    fn from(errors: Vec<E>) -> (ev: Self)
        ensures
            ev@ == errors@,
    {
        ErrorVec(errors)
    }
}

impl<E> FromSpecImpl<Vec<E>> for ErrorVec<E> {
    open spec fn obeys_from_spec() -> bool {
        true
    }

    closed spec fn from_spec(errors: Vec<E>) -> Self {
        ErrorVec(errors)
    }
}

impl<E> From<ErrorVec<E>> for Vec<E> {
    /// The errors of `ev`, as they stand.
    fn from(ev: ErrorVec<E>) -> (errors: Self)
        ensures
            errors@ == ev@,
    {
        ev.0
    }
}

impl<E> FromSpecImpl<ErrorVec<E>> for Vec<E> {
    open spec fn obeys_from_spec() -> bool {
        true
    }

    closed spec fn from_spec(ev: ErrorVec<E>) -> Self {
        ev.0
    }
}

impl<E> core::ops::Deref for ErrorVec<E> {
    type Target = Vec<E>;

    fn deref(&self) -> (errors: &Vec<E>)
        ensures
            errors@ == self@,
    {
        &self.0
    }
}

impl<E> core::ops::DerefMut for ErrorVec<E> {
    fn deref_mut(&mut self) -> (errors: &mut Vec<E>)
        ensures
            errors@ == old(self)@,
            final(self)@ == final(errors)@,
    {
        &mut self.0
    }
}

/// A list to which nothing was added collapses to success, whatever the value
/// that goes with it.
pub proof fn lemma_empty_is_success<T, E>(ev: ErrorVec<E>, value: T)
    requires
        ev@ == Seq::<E>::empty(),
    ensures
        ev.spec_into_result_with(value) == Ok::<T, ErrorVec<E>>(value),
{
}

/// A list whose errors each display as the same text every time renders as
/// the same text every time.
pub proof fn lemma_rendering_repeats<E: Display>(
    ev: ErrorVec<E>,
    first: Seq<char>,
    second: Seq<char>,
)
    requires
        ev.renders_as(first),
        ev.renders_as(second),
        forall|i: int| 0 <= i < ev@.len() ==> display_is_fixed(#[trigger] ev@[i]),
    ensures
        first == second,
{
    let one = choose|messages: Seq<String>|
        #[trigger] ev.displays_as(messages) && first == rendering(texts(messages));
    let other = choose|messages: Seq<String>|
        #[trigger] ev.displays_as(messages) && second == rendering(texts(messages));
    assert forall|i: int| 0 <= i < ev@.len() implies one[i]@ == other[i]@ by {
        assert(display_is_fixed(ev@[i]));
        assert(displays(ev@[i], one[i]) && displays(ev@[i], other[i]));
    }
    assert(texts(one) =~= texts(other));
}

} // verus!
