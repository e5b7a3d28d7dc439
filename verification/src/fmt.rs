//! One way to look into both `Option` and `Result`.

use vstd::prelude::*;

verus! {

/// What can be unwrapped: a value, or the lack of one.
pub trait Try: Sized {
    type Ok;

    type Error;

    /// The value as a `Result`.
    spec fn as_result(self) -> Result<Self::Ok, Self::Error>;

    /// The value as a `Result`.
    fn into_result(self) -> (r: Result<Self::Ok, Self::Error>)
        ensures
            r == self.as_result(),
    ;
}

impl<T> Try for Option<T> {
    type Ok = T;

    type Error = ();

    open spec fn as_result(self) -> Result<T, ()> {
        match self {
            Some(value) => Ok(value),
            None => Err(()),
        }
    }

    fn into_result(self) -> Result<T, ()> {
        match self {
            Some(value) => Ok(value),
            None => Err(()),
        }
    }
}

impl<T, E> Try for Result<T, E> {
    type Ok = T;

    type Error = E;

    open spec fn as_result(self) -> Result<T, E> {
        self
    }

    fn into_result(self) -> Result<T, E> {
        self
    }
}

/// Nothing is lost and nothing made up: a value comes out as it went in, and so
/// does an error.
pub proof fn law_values_are_kept<T, E>(value: T, error: E)
    ensures
        Some(value).as_result() == Ok::<T, ()>(value),
        None::<T>.as_result() == Err::<T, ()>(()),
        Ok::<T, E>(value).as_result() == Ok::<T, E>(value),
        Err::<T, E>(error).as_result() == Err::<T, E>(error),
{
}

} // verus!
