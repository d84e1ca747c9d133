//! The word-handle slot table and the operations exposed on it.
//!
//! One such table is meant to serve as a per-thread registry for one stored
//! type, owned by the execution context and passed in explicitly. The free
//! functions of this module are the registry surface: they hand out
//! [`ForgottenKey`] values on forget and consume them on free and take.

use std::rc::Rc;

use vstd::prelude::*;

use super::key::ForgottenKey;
use super::shared_key::SharedForgottenKey;

verus! {

/// A slot table with word-sized handles, interacted with through owning and
/// shared keys.
pub struct Forgotten<T> {
    table: crate::custom::Forgotten<usize, T>,
}

impl<T> Forgotten<T> {
    /// The handle-to-value mapping held by the table.
    pub closed spec fn contents(self) -> Map<int, T> {
        self.table.contents()
    }

    /// The allocation counter: the id of the handle issued last.
    pub closed spec fn counter(self) -> int {
        self.table.counter()
    }

    /// Well-formedness: no two live slots share a handle, and none carries
    /// the zero sentinel.
    pub closed spec fn wf(self) -> bool {
        self.table.wf()
    }

    /// The id the allocator will issue next, or `None` when saturated.
    pub closed spec fn next_handle(self) -> Option<int> {
        self.table.next_handle()
    }

    /// Whether an insertion can currently be served.
    pub closed spec fn can_allocate(self) -> bool {
        self.table.can_allocate()
    }

    /// Creates an empty table whose counter starts at the zero sentinel.
    pub fn new() -> (r: Self)
        ensures
            r.wf(),
            r.contents() == Map::<int, T>::empty(),
            r.counter() == 0,
    {
        Forgotten { table: crate::custom::Forgotten::new() }
    }

    /// The next free handle, moving the counter there; `None` when a full
    /// wrap finds every handle occupied or the sentinel.
    pub fn find_available_key(&mut self) -> (r: Option<usize>)
        requires
            old(self).wf(),
        ensures
            final(self).wf(),
            final(self).contents() == old(self).contents(),
            match r {
                Some(n) => {
                    &&& old(self).next_handle() == Some(n as int)
                    &&& n != 0
                    &&& !old(self).contents().dom().contains(n as int)
                    &&& final(self).counter() == n as int
                },
                None => {
                    &&& old(self).next_handle() is None
                    &&& *final(self) == *old(self)
                },
            },
    {
        self.table.find_available_key()
    }

    /// Stores `v`, minting the exclusive key for the new slot.
    pub fn forget(&mut self, v: T) -> (k: ForgottenKey<T>)
        requires
            old(self).wf(),
            old(self).can_allocate(),
        ensures
            final(self).wf(),
            k.is_live(),
            old(self).next_handle() == Some(k.id()),
            !old(self).contents().dom().contains(k.id()),
            final(self).contents() == old(self).contents().insert(k.id(), v),
            final(self).counter() == k.id(),
    {
        let n = self.table.forget(v);
        ForgottenKey::new(n)
    }

    /// Stores `v`, minting the key and also a shared reference to the value.
    pub fn forget_and_get(&mut self, v: T) -> (r: (ForgottenKey<T>, Rc<T>))
        requires
            old(self).wf(),
            old(self).can_allocate(),
        ensures
            final(self).wf(),
            r.0.is_live(),
            old(self).next_handle() == Some(r.0.id()),
            !old(self).contents().dom().contains(r.0.id()),
            final(self).contents() == old(self).contents().insert(r.0.id(), v),
            final(self).counter() == r.0.id(),
            *r.1 == v,
    {
        let (n, rc) = self.table.forget_and_get(v);
        (ForgottenKey::new(n), rc)
    }

    /// Stores an already shared value, minting the exclusive key.
    pub fn forget_rc(&mut self, v: Rc<T>) -> (k: ForgottenKey<T>)
        requires
            old(self).wf(),
            old(self).can_allocate(),
        ensures
            final(self).wf(),
            k.is_live(),
            old(self).next_handle() == Some(k.id()),
            !old(self).contents().dom().contains(k.id()),
            final(self).contents() == old(self).contents().insert(k.id(), *v),
            final(self).counter() == k.id(),
    {
        let n = self.table.forget_rc(v);
        ForgottenKey::new(n)
    }

    /// Removes the slot at handle number `n`, if live, and reports whether
    /// one was removed.
    pub fn try_free_with_usize(&mut self, n: usize) -> (r: bool)
        requires
            old(self).wf(),
        ensures
            final(self).wf(),
            r <==> old(self).contents().dom().contains(n as int),
            final(self).contents() == old(self).contents().remove(n as int),
            final(self).counter() == old(self).counter(),
    {
        self.table.try_free(&n)
    }

    /// Releases the slot owned by `k`, consuming the key. Releasing a slot
    /// that is already gone is a logic error, ruled out by the precondition
    /// and fatal at run time.
    pub fn free(&mut self, k: ForgottenKey<T>)
        requires
            old(self).wf(),
            old(self).contents().dom().contains(k.id()),
        ensures
            final(self).wf(),
            final(self).contents() == old(self).contents().remove(k.id()),
            final(self).counter() == old(self).counter(),
    {
        let mut key = k;
        let n = key.take_usize();
        let freed = self.table.try_free(&n);
        if !freed {
            unreached::<()>()
        }
    }

    /// Releases the slot a shared key points at, if still live; `false` once
    /// it is already gone.
    pub fn try_free(&mut self, k: &SharedForgottenKey<T>) -> (r: bool)
        requires
            old(self).wf(),
        ensures
            final(self).wf(),
            r <==> old(self).contents().dom().contains(k.id()),
            final(self).contents() == old(self).contents().remove(k.id()),
            final(self).counter() == old(self).counter(),
    {
        self.table.try_free(k.as_usize())
    }

    /// Fetches the value owned by `k`. The slot must be live: an owning key
    /// whose slot is gone is a contract violation, fatal at run time.
    pub fn get(&self, k: &ForgottenKey<T>) -> (r: Rc<T>)
        requires
            self.wf(),
            self.contents().dom().contains(k.id()),
        ensures
            *r == self.contents()[k.id()],
    {
        match self.table.try_get(k.as_usize()) {
            Some(v) => v,
            None => unreached(),
        }
    }

    /// Fetches the value a shared key points at, if its slot is still live.
    pub fn try_get(&self, k: &SharedForgottenKey<T>) -> (r: Option<Rc<T>>)
        requires
            self.wf(),
        ensures
            match r {
                Some(v) => self.contents().dom().contains(k.id()) && *v == self.contents()[k.id()],
                None => !self.contents().dom().contains(k.id()),
            },
    {
        self.table.try_get(k.as_usize())
    }

    /// Removes the slot owned by `k` and returns shared ownership of its
    /// value, consuming the key. The slot must be live, as for `get`.
    pub fn take(&mut self, k: ForgottenKey<T>) -> (r: Rc<T>)
        requires
            old(self).wf(),
            old(self).contents().dom().contains(k.id()),
        ensures
            final(self).wf(),
            final(self).contents() == old(self).contents().remove(k.id()),
            final(self).counter() == old(self).counter(),
            *r == old(self).contents()[k.id()],
    {
        let mut key = k;
        let n = key.take_usize();
        match self.table.try_take(&n) {
            Some(v) => v,
            None => unreached(),
        }
    }

    /// Removes the slot a shared key points at, if still live, returning
    /// shared ownership of its value.
    pub fn try_take(&mut self, k: &SharedForgottenKey<T>) -> (r: Option<Rc<T>>)
        requires
            old(self).wf(),
        ensures
            final(self).wf(),
            final(self).contents() == old(self).contents().remove(k.id()),
            final(self).counter() == old(self).counter(),
            match r {
                Some(v) => old(self).contents().dom().contains(k.id()) && *v == old(self).contents()[k.id()],
                None => !old(self).contents().dom().contains(k.id()),
            },
    {
        self.table.try_take(k.as_usize())
    }

    /// The number of live slots.
    pub fn len(&self) -> (r: usize)
        requires
            self.wf(),
        ensures
            r == self.contents().dom().len(),
            self.contents().dom().finite(),
    {
        self.table.len()
    }

    /// The handle number the allocation counter rests on.
    pub fn cur(&self) -> (r: usize)
        ensures
            r as int == self.counter(),
    {
        self.table.cur()
    }
}

/// Stores `v` in `reg`, minting the exclusive key for the new slot.
pub fn forget<T>(reg: &mut Forgotten<T>, v: T) -> (k: ForgottenKey<T>)
    requires
        old(reg).wf(),
        old(reg).can_allocate(),
    ensures
        final(reg).wf(),
        k.is_live(),
        old(reg).next_handle() == Some(k.id()),
        !old(reg).contents().dom().contains(k.id()),
        final(reg).contents() == old(reg).contents().insert(k.id(), v),
        final(reg).counter() == k.id(),
{
    reg.forget(v)
}

/// Stores `v` in `reg`, minting the key and a shared reference to the value.
pub fn forget_and_get<T>(reg: &mut Forgotten<T>, v: T) -> (r: (ForgottenKey<T>, Rc<T>))
    requires
        old(reg).wf(),
        old(reg).can_allocate(),
    ensures
        final(reg).wf(),
        r.0.is_live(),
        old(reg).next_handle() == Some(r.0.id()),
        !old(reg).contents().dom().contains(r.0.id()),
        final(reg).contents() == old(reg).contents().insert(r.0.id(), v),
        final(reg).counter() == r.0.id(),
        *r.1 == v,
{
    reg.forget_and_get(v)
}

/// Stores an already shared value in `reg`, minting the exclusive key.
pub fn forget_rc<T>(reg: &mut Forgotten<T>, v: Rc<T>) -> (k: ForgottenKey<T>)
    requires
        old(reg).wf(),
        old(reg).can_allocate(),
    ensures
        final(reg).wf(),
        k.is_live(),
        old(reg).next_handle() == Some(k.id()),
        !old(reg).contents().dom().contains(k.id()),
        final(reg).contents() == old(reg).contents().insert(k.id(), *v),
        final(reg).counter() == k.id(),
{
    reg.forget_rc(v)
}

/// Removes the slot of `reg` at handle number `n`, if live, and reports
/// whether one was removed.
pub fn try_free_with_usize<T>(reg: &mut Forgotten<T>, n: usize) -> (r: bool)
    requires
        old(reg).wf(),
    ensures
        final(reg).wf(),
        r <==> old(reg).contents().dom().contains(n as int),
        final(reg).contents() == old(reg).contents().remove(n as int),
        final(reg).counter() == old(reg).counter(),
{
    reg.try_free_with_usize(n)
}

/// Releases the slot of `reg` owned by `k`, consuming the key.
pub fn free<T>(reg: &mut Forgotten<T>, k: ForgottenKey<T>)
    requires
        old(reg).wf(),
        old(reg).contents().dom().contains(k.id()),
    ensures
        final(reg).wf(),
        final(reg).contents() == old(reg).contents().remove(k.id()),
        final(reg).counter() == old(reg).counter(),
{
    reg.free(k)
}

/// Releases the slot of `reg` a shared key points at, if still live.
pub fn try_free<T>(reg: &mut Forgotten<T>, k: &SharedForgottenKey<T>) -> (r: bool)
    requires
        old(reg).wf(),
    ensures
        final(reg).wf(),
        r <==> old(reg).contents().dom().contains(k.id()),
        final(reg).contents() == old(reg).contents().remove(k.id()),
        final(reg).counter() == old(reg).counter(),
{
    reg.try_free(k)
}

/// Fetches the value of `reg` owned by `k`; the slot must be live.
pub fn get<T>(reg: &Forgotten<T>, k: &ForgottenKey<T>) -> (r: Rc<T>)
    requires
        reg.wf(),
        reg.contents().dom().contains(k.id()),
    ensures
        *r == reg.contents()[k.id()],
{
    reg.get(k)
}

/// Fetches the value of `reg` a shared key points at, if still live.
pub fn try_get<T>(reg: &Forgotten<T>, k: &SharedForgottenKey<T>) -> (r: Option<Rc<T>>)
    requires
        reg.wf(),
    ensures
        match r {
            Some(v) => reg.contents().dom().contains(k.id()) && *v == reg.contents()[k.id()],
            None => !reg.contents().dom().contains(k.id()),
        },
{
    reg.try_get(k)
}

/// Removes the slot of `reg` owned by `k` and returns its value, consuming
/// the key; the slot must be live.
pub fn take<T>(reg: &mut Forgotten<T>, k: ForgottenKey<T>) -> (r: Rc<T>)
    requires
        old(reg).wf(),
        old(reg).contents().dom().contains(k.id()),
    ensures
        final(reg).wf(),
        final(reg).contents() == old(reg).contents().remove(k.id()),
        final(reg).counter() == old(reg).counter(),
        *r == old(reg).contents()[k.id()],
{
    reg.take(k)
}

/// Removes the slot of `reg` a shared key points at, if still live,
/// returning shared ownership of its value.
pub fn try_take<T>(reg: &mut Forgotten<T>, k: &SharedForgottenKey<T>) -> (r: Option<Rc<T>>)
    requires
        old(reg).wf(),
    ensures
        final(reg).wf(),
        final(reg).contents() == old(reg).contents().remove(k.id()),
        final(reg).counter() == old(reg).counter(),
        match r {
            Some(v) => old(reg).contents().dom().contains(k.id()) && *v == old(reg).contents()[k.id()],
            None => !old(reg).contents().dom().contains(k.id()),
        },
{
    reg.try_take(k)
}

} // verus!
