//! The copyable, non-owning key type for the word-handle table.

use core::marker::PhantomData;

use vstd::prelude::*;

verus! {

/// `core::any::TypeId` has no vstd specification; declared here so it can
/// stand in a signature. Values of it are opaque and only carried through.
#[verifier::external_type_specification]
#[verifier::external_body]
pub struct ExTypeId(core::any::TypeId);

/// Relies on `core::any::TypeId::of` for the run-time tag of a type; nothing
/// is assumed about the returned tag.
pub assume_specification<T: 'static + ?Sized>[ core::any::TypeId::of::<T> ]() -> (r:
    core::any::TypeId);

/// A non-owning key for a slot of the word-handle table, tagged with the
/// stored value's type.
///
/// Shared keys can be copied without limit and never release a slot on their
/// own. A shared key may outlive its slot: lookups through it then report
/// absence rather than failing.
pub struct SharedForgottenKey<T> {
    handle: usize,
    _marker: PhantomData<T>,
}

impl<T> SharedForgottenKey<T> {
    /// The handle id carried by the key.
    pub closed spec fn id(self) -> int {
        self.handle as int
    }

    /// The carried handle as a number.
    pub fn as_usize(&self) -> (r: &usize)
        ensures
            *r as int == self.id(),
    {
        &self.handle
    }

    /// Splits the key into the run-time tag of its type parameter and its
    /// handle number.
    pub fn into_type_and_usize(self) -> (r: (core::any::TypeId, usize)) where T: 'static
        ensures
            r.1 as int == self.id(),
    {
        (core::any::TypeId::of::<T>(), self.handle)
    }

    /// Builds a shared key directly on a handle number. Safe by design:
    /// a key on an absent or reused handle merely reports absence or the
    /// slot currently live there.
    pub fn from_usize(n: usize) -> (r: Self)
        ensures
            r.id() == n as int,
    {
        SharedForgottenKey { handle: n, _marker: PhantomData }
    }
}

impl<T> Clone for SharedForgottenKey<T> {
    fn clone(&self) -> (r: Self)
        ensures
            r.id() == self.id(),
    {
        SharedForgottenKey { handle: self.handle, _marker: PhantomData }
    }
}

impl<T> Copy for SharedForgottenKey<T> {

}

impl<T> PartialEq for SharedForgottenKey<T> {
    fn eq(&self, other: &Self) -> bool {
        self.handle == other.handle
    }
}

impl<T> Eq for SharedForgottenKey<T> {

}

impl<T> vstd::std_specs::cmp::PartialEqSpecImpl for SharedForgottenKey<T> {
    open spec fn obeys_eq_spec() -> bool {
        true
    }

    open spec fn eq_spec(&self, other: &Self) -> bool {
        self.id() == other.id()
    }
}

} // verus!
