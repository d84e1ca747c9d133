//! Narrow key types carrying a 32-bit handle, for registries that trade
//! domain width for a smaller key.

use core::marker::PhantomData;

use vstd::prelude::*;

verus! {

/// An exclusive key on a 32-bit handle, tagged with the stored value's type.
pub struct ForgottenKey<T> {
    handle: u32,
    _marker: PhantomData<T>,
}

impl<T> ForgottenKey<T> {
    /// The handle id carried by the key; zero once consumed.
    pub closed spec fn id(self) -> int {
        self.handle as int
    }

    /// Mints a key on a handle number.
    pub fn new(n: u32) -> (r: Self)
        ensures
            r.id() == n as int,
    {
        ForgottenKey { handle: n, _marker: PhantomData }
    }

    /// The carried handle as a number.
    pub fn as_u32(&self) -> (r: u32)
        ensures
            r as int == self.id(),
    {
        self.handle
    }
}

/// A copyable, non-owning key on a 32-bit handle, tagged with the stored
/// value's type.
pub struct SharedForgottenKey<T> {
    handle: u32,
    _marker: PhantomData<T>,
}

impl<T> SharedForgottenKey<T> {
    /// The handle id carried by the key.
    pub closed spec fn id(self) -> int {
        self.handle as int
    }

    /// Builds a shared key on a handle number.
    pub fn new(n: u32) -> (r: Self)
        ensures
            r.id() == n as int,
    {
        SharedForgottenKey { handle: n, _marker: PhantomData }
    }

    /// The carried handle as a number.
    pub fn as_u32(&self) -> (r: u32)
        ensures
            r as int == self.id(),
    {
        self.handle
    }
}

impl<T> Clone for SharedForgottenKey<T> {
    fn clone(&self) -> (r: Self)
        ensures
            r.id() == self.id(),
    {
        SharedForgottenKey { handle: self.handle, _marker: PhantomData }
    }
}

impl<T> Copy for SharedForgottenKey<T> {

}

impl<T> PartialEq for SharedForgottenKey<T> {
    fn eq(&self, other: &Self) -> bool {
        self.handle == other.handle
    }
}

impl<T> Eq for SharedForgottenKey<T> {

}

impl<T> vstd::std_specs::cmp::PartialEqSpecImpl for SharedForgottenKey<T> {
    open spec fn obeys_eq_spec() -> bool {
        true
    }

    open spec fn eq_spec(&self, other: &Self) -> bool {
        self.id() == other.id()
    }
}

/// A key on a 32-bit handle with no type tag at all.
#[derive(Clone, Copy, PartialEq, Eq, Structural)]
pub struct AnyForgottenKey {
    handle: u32,
}

impl AnyForgottenKey {
    /// The handle id carried by the key.
    pub closed spec fn id(self) -> int {
        self.handle as int
    }

    /// Builds a key on a handle number.
    pub fn new(n: u32) -> (r: Self)
        ensures
            r.id() == n as int,
    {
        AnyForgottenKey { handle: n }
    }

    /// The carried handle as a number.
    pub fn as_u32(&self) -> (r: u32)
        ensures
            r as int == self.id(),
    {
        self.handle
    }
}

} // verus!
