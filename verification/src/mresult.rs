//! A small explicit success-or-failure type with checked accessors.

use vstd::prelude::*;

verus! {

/// Either a success value or an error value.
pub enum MResult<T, E> {
    MOk(T),
    MErr(E),
}

impl<T, E> MResult<T, E> {
    /// Wraps a success value.
    pub fn ok(value: T) -> (r: Self)
        ensures
            r == MResult::<T, E>::MOk(value),
    {
        MResult::MOk(value)
    }

    /// Wraps an error value.
    pub fn err(error: E) -> (r: Self)
        ensures
            r == MResult::<T, E>::MErr(error),
    {
        MResult::MErr(error)
    }

    /// Whether this is a success value.
    pub fn is_ok(&self) -> (r: bool)
        ensures
            r == (self is MOk),
    {
        match self {
            MResult::MOk(_) => true,
            MResult::MErr(_) => false,
        }
    }

    /// Whether this is an error value.
    pub fn is_err(&self) -> (r: bool)
        ensures
            r == (self is MErr),
    {
        match self {
            MResult::MErr(_) => true,
            MResult::MOk(_) => false,
        }
    }

    /// The success value. Callable only on a success, so it never panics.
    pub fn unwrap(self) -> (r: T)
        requires
            self is MOk,
        ensures
            self == MResult::<T, E>::MOk(r),
    {
        match self {
            MResult::MOk(value) => value,
            MResult::MErr(_) => vstd::pervasive::unreached(),
        }
    }

    /// The error value. Callable only on an error, so it never panics.
    pub fn unwrap_err(self) -> (r: E)
        requires
            self is MErr,
        ensures
            self == MResult::<T, E>::MErr(r),
    {
        match self {
            MResult::MErr(error) => error,
            MResult::MOk(_) => vstd::pervasive::unreached(),
        }
    }
}

} // verus!
