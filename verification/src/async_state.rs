//! The state of a value being loaded.

use vstd::prelude::*;

verus! {

/// A value being loaded: not asked for, loading, there, or failed. It is
/// never both loading and ready.
#[derive(Debug, Clone, PartialEq)]
pub enum AsyncState<T, E> {
    Idle,
    Loading,
    Ready(T),
    Failed(E),
}

impl<T, E> Default for AsyncState<T, E> {
    fn default() -> (s: Self)
        ensures
            s is Idle,
    {
        AsyncState::Idle
    }
}

impl<T, E> AsyncState<T, E> {
    pub fn ready(&self) -> (v: Option<&T>)
        ensures
            match *self {
                AsyncState::Ready(x) => v == Some(&x),
                _ => v is None,
            },
    {
        match self {
            AsyncState::Ready(v) => Some(v),
            _ => None,
        }
    }

    pub fn is_loading(&self) -> (b: bool)
        ensures
            b == (*self is Loading),
    {
        match self {
            AsyncState::Loading => true,
            _ => false,
        }
    }

    pub fn from_result(r: Result<T, E>) -> (s: Self)
        ensures
            match r {
                Ok(v) => s == AsyncState::<T, E>::Ready(v),
                Err(e) => s == AsyncState::<T, E>::Failed(e),
            },
    {
        match r {
            Ok(v) => AsyncState::Ready(v),
            Err(e) => AsyncState::Failed(e),
        }
    }
}

/// A loaded value is never also loading.
pub proof fn law_ready_is_not_loading<T, E>(s: AsyncState<T, E>)
    ensures
        !(s is Ready && s is Loading),
{
}

} // verus!
