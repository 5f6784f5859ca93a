//! The dispatcher's decision logic.
//!
//! At run time the rewritten entry point executes the original body under a
//! catching boundary.  The boundary itself (the host's unwinding machinery)
//! lives outside this library; what it observed is handed in as an
//! [`Unwound`] value, and [`dispatch`] decides, exactly and for every case,
//! what the boundary must do next:
//!
//! - a normally completed body yields a [`Outcome::Normal`] result;
//! - the termination signal yields [`Outcome::Terminal`] with the very code
//!   that was raised, so the process can exit with it once unwinding — and
//!   with it every scoped cleanup action on the way out — has finished;
//! - any other fault is not consumed at all: the boundary must re-raise it
//!   unchanged, as if it did not exist.

use vstd::prelude::*;

verus! {

/// What a catching boundary observed after running the wrapped body.
///
/// The boundary downcasts a caught payload itself, because the sentinel
/// payload type is private to it; it reports `Signaled` exactly when the
/// payload was the sentinel, and `Faulted` for every other payload.
pub enum Unwound<T> {
    /// The body returned a value without unwinding.
    Completed(T),
    /// Unwinding carried the termination signal with this exit code.
    Signaled(i32),
    /// Unwinding carried an unrelated fault.
    Faulted,
}

/// The dispatcher's result: a normal value or a terminal exit code, never
/// both.
pub enum Outcome<T> {
    /// The wrapped body's own return value.
    Normal(T),
    /// The process must terminate with exactly this code.
    Terminal(i32),
}

/// What `dispatch` decides for each observation.  `None` means the fault is
/// not ours: the boundary re-raises the payload it caught, untouched.
pub open spec fn dispatch_view<T>(u: Unwound<T>) -> Option<Outcome<T>> {
    match u {
        Unwound::Completed(value) => Some(Outcome::Normal(value)),
        Unwound::Signaled(code) => Some(Outcome::Terminal(code)),
        Unwound::Faulted => None,
    }
}

/// Classifies what the boundary observed.  This is the only consumer of the
/// termination signal: a signal is unwrapped here exactly once, and anything
/// that is not the signal passes through.
pub fn dispatch<T>(unwound: Unwound<T>) -> (r: Option<Outcome<T>>)
    ensures
        r == dispatch_view(unwound),
{
    match unwound {
        Unwound::Completed(value) => Some(Outcome::Normal(value)),
        Unwound::Signaled(code) => Some(Outcome::Terminal(code)),
        Unwound::Faulted => None,
    }
}

impl<T> Outcome<T> {
    /// The terminal exit code, if there is one.
    pub fn code(&self) -> (r: Option<i32>)
        ensures
            r == (match *self {
                Outcome::Normal(_) => None::<i32>,
                Outcome::Terminal(code) => Some(code),
            }),
    {
        match self {
            Outcome::Normal(_) => None,
            Outcome::Terminal(code) => Some(*code),
        }
    }

    /// The normal value.  An outcome that carries an exit code has no value
    /// of type `T` at all, so asking for one is ruled out up front.
    pub fn unwrap(self) -> (r: T)
        requires
            self is Normal,
        ensures
            self == Outcome::Normal(r),
    {
        match self {
            Outcome::Normal(value) => value,
            Outcome::Terminal(_) => vstd::pervasive::unreached(),
        }
    }
}

/// Checks a dispatcher outcome against the value the body was known to
/// return: the outcome must be exactly that value, reported normally.
pub fn assert_result<T>(expected: T, result: Outcome<T>)
    requires
        result == Outcome::Normal(expected),
{
    let value = result.unwrap();
    proof {
        assert(value == expected);
    }
}

/// Code fidelity: whatever exit code the signal carries, the dispatcher
/// reports exactly that code, for every representable code.
pub proof fn lemma_code_fidelity<T>(code: i32)
    ensures
        dispatch_view::<T>(Unwound::Signaled(code)) == Some(Outcome::<T>::Terminal(code)),
{
}

/// Non-interference: a fault that is not the termination signal is never
/// consumed by a dispatcher boundary — the dispatcher asks the boundary to
/// re-raise it, whatever it was.
pub proof fn lemma_non_interference<T>()
    ensures
        dispatch_view::<T>(Unwound::Faulted) is None,
{
}

/// Nested boundaries keep the code: if an inner boundary has already turned
/// a signal into a terminal outcome, an outer boundary wraps that outcome as
/// a normal value and invents no code of its own.  The one terminal code in
/// the nest is the code that was raised.
pub proof fn lemma_nested_dispatch(code: i32)
    ensures
        dispatch_view::<Outcome<i32>>(
            Unwound::Completed(dispatch_view::<i32>(Unwound::Signaled(code)).unwrap()),
        ) == Some(Outcome::Normal(Outcome::<i32>::Terminal(code))),
{
}

} // verus!

