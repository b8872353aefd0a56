//! Work that is interrupted by questions to the outside.
//!
//! A piece of work is a function of the answers that it has had so far. Given the list of
//! answers and a place in it, it either comes to a result, and says how far in the list it
//! got, or it asks the next question, or it fails. Whoever runs it answers the question, adds
//! the answer to the list and calls the function again with the longer list. So a run can be
//! taken up again at any time from the answers alone.

use vstd::prelude::*;

verus! {

/// Why a piece of work has come to no result.
pub enum Pause<E> {
    /// It has a question.
    Ask(E),
    /// It has failed, for the reason given.
    Fail(String),
}

/// Why a piece of work has come to no result, by its contents.
pub enum PauseView<V> {
    Ask(V),
    Fail(Seq<char>),
}

impl<E: View> View for Pause<E> {
    type V = PauseView<E::V>;

    open spec fn view(&self) -> PauseView<E::V> {
        match self {
            Pause::Ask(e) => PauseView::Ask(e@),
            Pause::Fail(s) => PauseView::Fail(s@),
        }
    }
}

/// What a piece of work comes to: a result and the number of answers used, or a pause.
pub type Step<T, E> = Result<(T, usize), Pause<E>>;

/// What a piece of work comes to, by its contents.
pub type StepView<V, E> = Result<(V, int), PauseView<E>>;

/// What a piece of work comes to, by its contents.
pub open spec fn seen<T: View, E: View>(r: Result<(T, usize), Pause<E>>) -> Result<
    (T::V, int),
    PauseView<E::V>,
> {
    match r {
        Ok((v, at)) => Ok((v@, at as int)),
        Err(p) => Err(p@),
    }
}

} // verus!
