//! The exclusive key type for the word-handle table.

use core::marker::PhantomData;

use vstd::prelude::*;

use super::shared_key::SharedForgottenKey;

verus! {

/// An exclusive key for a slot of the word-handle table, tagged with the
/// stored value's type.
///
/// A key is live while it still carries the handle it was issued with.
/// Moving the handle out — by an explicit free, a take, or a degrade to a
/// shared key — leaves the key in the consumed sentinel state (handle zero),
/// in which it is inert. At most one live key exists per live slot: only the
/// table's forget operations mint keys, and every consuming operation takes
/// the key by value.
pub struct ForgottenKey<T> {
    handle: usize,
    _marker: PhantomData<T>,
}

impl<T> ForgottenKey<T> {
    /// The handle id carried by the key; zero once consumed.
    pub closed spec fn id(self) -> int {
        self.handle as int
    }

    /// Whether the key still owns its slot.
    pub open spec fn is_live(self) -> bool {
        self.id() != 0
    }

    /// Mints a key on a freshly issued handle.
    pub(crate) fn new(n: usize) -> (r: Self)
        ensures
            r.id() == n as int,
    {
        ForgottenKey { handle: n, _marker: PhantomData }
    }

    /// Moves the handle out, leaving the consumed sentinel state.
    pub(crate) fn take_usize(&mut self) -> (r: usize)
        ensures
            r as int == old(self).id(),
            final(self).id() == 0,
    {
        let n = self.handle;
        self.handle = 0;
        n
    }

    /// The carried handle as a number (zero once consumed).
    pub fn as_usize(&self) -> (r: &usize)
        ensures
            *r as int == self.id(),
    {
        &self.handle
    }

    /// Degrades the key to a copyable, non-owning shared key on the same
    /// handle. The slot is not released: responsibility for an eventual
    /// explicit free moves to the shared-key holders, who never release
    /// automatically.
    pub fn into_shared(self) -> (r: SharedForgottenKey<T>)
        ensures
            r.id() == self.id(),
    {
        let mut this = self;
        let n = this.take_usize();
        SharedForgottenKey::from_usize(n)
    }
}

} // verus!
