//! A caller-instantiated slot table with a caller-chosen handle type.
//!
//! [`Forgotten`] maps handles to reference-counted values. Handles are issued
//! by a wrapping allocator that skips the zero sentinel and every handle still
//! occupied, so no two live slots ever share a handle.

use std::rc::Rc;

use vstd::arithmetic::div_mod::lemma_add_mod_noop;
use vstd::arithmetic::div_mod::lemma_fundamental_div_mod_converse;
use vstd::arithmetic::div_mod::lemma_small_mod;
use vstd::prelude::*;

use crate::handle::Handle;

verus! {

/// Whether two slots of `s` ever carry the same handle id.
pub open spec fn ids_distinct<K: Handle, T>(s: Seq<(K, Rc<T>)>) -> bool {
    forall|i: int, j: int|
        0 <= i < j < s.len() ==> (#[trigger] s[i].0.id()) != (#[trigger] s[j].0.id())
}

/// Whether some slot of `s` carries the handle id `h`.
pub open spec fn has_id<K: Handle, T>(s: Seq<(K, Rc<T>)>, h: int) -> bool {
    exists|i: int| 0 <= i < s.len() && (#[trigger] s[i].0.id()) == h
}

/// The handle-to-value map denoted by a sequence of slots. Later slots take
/// precedence, though in a well-formed table no two slots share an id.
pub open spec fn slots_as_map<K: Handle, T>(s: Seq<(K, Rc<T>)>) -> Map<int, T>
    decreases s.len(),
{
    if s.len() == 0 {
        Map::empty()
    } else {
        slots_as_map(s.drop_last()).insert(s.last().0.id(), *s.last().1)
    }
}

/// The domain of `slots_as_map(s)` is exactly the set of ids carried by `s`.
pub proof fn lemma_slots_as_map_dom<K: Handle, T>(s: Seq<(K, Rc<T>)>)
    ensures
        forall|h: int|
            #![trigger slots_as_map(s).dom().contains(h)]
            #![trigger has_id(s, h)]
            slots_as_map(s).dom().contains(h) <==> has_id(s, h),
    decreases s.len(),
{
    if s.len() == 0 {
    } else {
        let pre = s.drop_last();
        lemma_slots_as_map_dom(pre);
        assert forall|h: int| slots_as_map(s).dom().contains(h) implies has_id(s, h) by {
            if h == s.last().0.id() {
                assert(s[s.len() - 1].0.id() == h);
            } else {
                assert(has_id(pre, h));
                let i = choose|i: int| 0 <= i < pre.len() && (#[trigger] pre[i].0.id()) == h;
                assert(s[i].0.id() == h);
            }
        }
        assert forall|h: int| has_id(s, h) implies slots_as_map(s).dom().contains(h) by {
            let i = choose|i: int| 0 <= i < s.len() && (#[trigger] s[i].0.id()) == h;
            if i < s.len() - 1 {
                assert(pre[i].0.id() == h);
                assert(has_id(pre, h));
            }
        }
    }
}

/// A slot whose id is not repeated later in the sequence denotes its value
/// in `slots_as_map`.
pub proof fn lemma_slots_as_map_index<K: Handle, T>(s: Seq<(K, Rc<T>)>, i: int)
    requires
        0 <= i < s.len(),
        forall|j: int| i < j < s.len() ==> (#[trigger] s[j].0.id()) != s[i].0.id(),
    ensures
        slots_as_map(s).dom().contains(s[i].0.id()),
        slots_as_map(s)[s[i].0.id()] == *s[i].1,
    decreases s.len(),
{
    if i == s.len() - 1 {
    } else {
        let pre = s.drop_last();
        assert(pre[i] == s[i]);
        assert forall|j: int| i < j < pre.len() implies (#[trigger] pre[j].0.id())
            != pre[i].0.id() by {
            assert(pre[j] == s[j]);
        }
        lemma_slots_as_map_index(pre, i);
        assert(s[s.len() - 1].0.id() != s[i].0.id());
    }
}

/// Appending a slot inserts its binding into the denoted map.
pub proof fn lemma_slots_as_map_push<K: Handle, T>(s: Seq<(K, Rc<T>)>, k: K, v: Rc<T>)
    ensures
        slots_as_map(s.push((k, v))) == slots_as_map(s).insert(k.id(), *v),
{
    assert(s.push((k, v)).drop_last() =~= s);
    assert(s.push((k, v)).last() == (k, v));
}

/// Removing the slot at index `i` removes its binding from the denoted map,
/// provided no two slots share an id.
pub proof fn lemma_slots_as_map_remove<K: Handle, T>(s: Seq<(K, Rc<T>)>, i: int)
    requires
        0 <= i < s.len(),
        ids_distinct(s),
    ensures
        slots_as_map(s.remove(i)) == slots_as_map(s).remove(s[i].0.id()),
    decreases s.len(),
{
    lemma_slots_as_map_dom(s);
    if i == s.len() - 1 {
        let pre = s.drop_last();
        assert(s.remove(i) =~= pre);
        lemma_slots_as_map_dom(pre);
        if has_id(pre, s[i].0.id()) {
            let j = choose|j: int| 0 <= j < pre.len() && (#[trigger] pre[j].0.id()) == s[i].0.id();
            assert(s[j].0.id() == s[i].0.id());
            assert(false);
        }
        assert(!slots_as_map(pre).dom().contains(s[i].0.id()));
        assert(slots_as_map(pre) =~= slots_as_map(s).remove(s[i].0.id()));
    } else {
        let pre = s.drop_last();
        let shorter = s.remove(i);
        assert(shorter.drop_last() =~= pre.remove(i));
        assert(shorter.last() == s.last());
        assert forall|a: int, b: int| 0 <= a < b < pre.len() implies (#[trigger] pre[a].0.id())
            != (#[trigger] pre[b].0.id()) by {
            assert(pre[a] == s[a]);
            assert(pre[b] == s[b]);
        }
        assert(pre[i] == s[i]);
        lemma_slots_as_map_remove(pre, i);
        assert(slots_as_map(shorter) == slots_as_map(pre.remove(i)).insert(
            s.last().0.id(),
            *s.last().1,
        ));
        assert(s[s.len() - 1].0.id() != s[i].0.id());
        assert(slots_as_map(pre).remove(s[i].0.id()).insert(s.last().0.id(), *s.last().1)
            =~= slots_as_map(pre).insert(s.last().0.id(), *s.last().1).remove(s[i].0.id()));
    }
}

/// In a sequence of slots with pairwise distinct ids, the denoted map has
/// exactly one entry per slot.
pub proof fn lemma_slots_as_map_len<K: Handle, T>(s: Seq<(K, Rc<T>)>)
    requires
        ids_distinct(s),
    ensures
        slots_as_map(s).dom().finite(),
        slots_as_map(s).dom().len() == s.len(),
    decreases s.len(),
{
    if s.len() == 0 {
    } else {
        let pre = s.drop_last();
        assert forall|a: int, b: int| 0 <= a < b < pre.len() implies (#[trigger] pre[a].0.id())
            != (#[trigger] pre[b].0.id()) by {
            assert(pre[a] == s[a]);
            assert(pre[b] == s[b]);
        }
        lemma_slots_as_map_len(pre);
        lemma_slots_as_map_dom(pre);
        if has_id(pre, s.last().0.id()) {
            let j = choose|j: int| 0 <= j < pre.len() && (#[trigger] pre[j].0.id())
                == s.last().0.id();
            assert(s[j].0.id() == s[s.len() - 1].0.id());
            assert(false);
        }
        assert(!slots_as_map(pre).dom().contains(s.last().0.id()));
    }
}

/// Round trip: storing `v` under a fresh handle `h` makes any fetch of `h`
/// find exactly `v`, as long as the slot is untouched. `post` stands for the
/// table contents any forget operation ensures; fetches return `post[h]`.
pub proof fn lemma_round_trip<K: Handle, T>(
    pre: Forgotten<K, T>,
    post: Forgotten<K, T>,
    h: int,
    v: T,
)
    requires
        post.contents() == pre.contents().insert(h, v),
    ensures
        post.contents().dom().contains(h),
        post.contents()[h] == v,
{
}

/// A release is final: once a slot is removed — by an explicit free or by a
/// take, which every release operation states as `remove` on the contents —
/// its handle is gone from the table, so a second release of the same handle
/// finds nothing and removes nothing.
pub proof fn lemma_release_exactly_once<K: Handle, T>(
    pre: Forgotten<K, T>,
    post: Forgotten<K, T>,
    h: int,
)
    requires
        post.contents() == pre.contents().remove(h),
    ensures
        !post.contents().dom().contains(h),
        post.contents().remove(h) == post.contents(),
{
    assert(post.contents().remove(h) =~= post.contents());
}

/// Handle uniqueness and sentinel exclusion: in a well-formed table no two
/// live slots carry the same handle id, no live slot carries the zero
/// sentinel, and the live ids are exactly the domain of the contents.
pub proof fn lemma_handles_unique<K: Handle, T>(t: Forgotten<K, T>)
    requires
        t.wf(),
    ensures
        forall|i: int, j: int|
            0 <= i < j < t.slot_ids().len() ==> (#[trigger] t.slot_ids()[i]) != (
            #[trigger] t.slot_ids()[j]),
        forall|i: int| 0 <= i < t.slot_ids().len() ==> (#[trigger] t.slot_ids()[i]) != 0,
        forall|h: int|
            #![trigger t.contents().dom().contains(h)]
            #![trigger t.slot_ids().contains(h)]
            t.contents().dom().contains(h) <==> t.slot_ids().contains(h),
{
    lemma_slots_as_map_dom(t.slots@);
    assert forall|h: int| t.contents().dom().contains(h) implies t.slot_ids().contains(h) by {
        let i = choose|i: int| 0 <= i < t.slots@.len() && (#[trigger] t.slots@[i].0.id()) == h;
        assert(t.slot_ids()[i] == h);
    }
    assert forall|h: int| t.slot_ids().contains(h) implies t.contents().dom().contains(h) by {
        let i = choose|i: int| 0 <= i < t.slot_ids().len() && t.slot_ids()[i] == h;
        assert(t.slots@[i].0.id() == h);
        assert(has_id(t.slots@, h));
    }
}

/// A slot table: a wrapping handle allocator together with the handle-to-value
/// mapping it guards. The stored values are reference-counted, so a fetched
/// value can outlive the removal of its slot.
pub struct Forgotten<K, T> {
    cur: K,
    slots: Vec<(K, Rc<T>)>,
}

impl<K: Handle, T> Forgotten<K, T> {
    /// The allocation counter: the id of the handle issued last (zero at creation).
    pub closed spec fn counter(self) -> int {
        self.cur.id()
    }

    /// The ids of the live slots, in storage order.
    pub closed spec fn slot_ids(self) -> Seq<int> {
        self.slots@.map_values(|p: (K, Rc<T>)| p.0.id())
    }

    /// The handle-to-value mapping held by the table.
    pub closed spec fn contents(self) -> Map<int, T> {
        slots_as_map(self.slots@)
    }

    /// Well-formedness: no two live slots share a handle, and no live slot
    /// carries the zero sentinel.
    pub closed spec fn wf(self) -> bool {
        &&& ids_distinct(self.slots@)
        &&& forall|i: int| 0 <= i < self.slots@.len() ==> (#[trigger] self.slots@[i].0.id()) != 0
    }

    /// The id the allocator would try at step `t`: `t` wrapping increments
    /// past the current counter.
    pub open spec fn candidate(self, t: int) -> int {
        (self.counter() + t) % K::domain_size()
    }

    /// Whether the allocator's candidate at step `t` can be issued: it is not
    /// the zero sentinel and no live slot occupies it.
    pub open spec fn candidate_free(self, t: int) -> bool {
        self.candidate(t) != 0 && !self.contents().dom().contains(self.candidate(t))
    }

    /// The first issuable candidate from step `t` on, if any, where probing
    /// stops after `domain_size() - 1` steps (a full wrap back to the counter).
    pub open spec fn probe_from(self, t: int) -> Option<int>
        decreases K::domain_size() - t,
    {
        if t >= K::domain_size() {
            None
        } else if self.candidate_free(t) {
            Some(self.candidate(t))
        } else {
            self.probe_from(t + 1)
        }
    }

    /// The id the allocator will issue next, or `None` when every candidate
    /// in a full wrap is the sentinel or occupied.
    pub open spec fn next_handle(self) -> Option<int> {
        self.probe_from(1)
    }

    /// Whether an insertion can currently be served.
    pub open spec fn can_allocate(self) -> bool {
        self.next_handle() is Some
    }

    /// Probing is insensitive to steps already known not to be issuable.
    proof fn lemma_probe_skip(self, t: int)
        requires
            1 <= t,
            forall|u: int| 1 <= u < t ==> !(#[trigger] self.candidate_free(u)),
        ensures
            self.probe_from(1) == self.probe_from(t),
        decreases t,
    {
        if t > 1 {
            self.lemma_probe_skip(t - 1);
        }
    }

    /// Creates an empty table whose counter starts at the zero sentinel.
    pub fn new() -> (r: Self)
        ensures
            r.wf(),
            r.contents() == Map::<int, T>::empty(),
            r.counter() == 0,
    {
        let r = Forgotten { cur: K::zeroed(), slots: Vec::new() };
        proof {
            assert(r.contents() =~= Map::<int, T>::empty());
        }
        r
    }

    /// The position of the slot carrying `k`'s id, if one is live.
    fn position_of(&self, k: &K) -> (r: Option<usize>)
        ensures
            match r {
                Some(i) => i < self.slots@.len() && self.slots@[i as int].0.id() == k.id(),
                None => !has_id(self.slots@, k.id()),
            },
    {
        let n = self.slots.len();
        let mut i: usize = 0;
        while i < n
            invariant
                i <= n,
                n == self.slots@.len(),
                forall|j: int| 0 <= j < i ==> (#[trigger] self.slots@[j].0.id()) != k.id(),
            decreases n - i,
        {
            if self.slots[i].0.same(k) {
                return Some(i);
            }
            i = i + 1;
        }
        None
    }

    /// Whether a live slot occupies `k`'s id.
    fn occupied(&self, k: &K) -> (r: bool)
        ensures
            r <==> self.contents().dom().contains(k.id()),
    {
        proof {
            lemma_slots_as_map_dom(self.slots@);
        }
        match self.position_of(k) {
            Some(_) => true,
            None => false,
        }
    }

    /// Advances past the current counter one wrapping step at a time, skipping
    /// the zero sentinel and every occupied handle, until a free handle is
    /// found (the counter moves there) or a full wrap proves the domain
    /// saturated (`None`; the table is left unchanged).
    #[verifier::loop_isolation(false)]
    pub fn find_available_key(&mut self) -> (r: Option<K>)
        requires
            old(self).wf(),
        ensures
            final(self).wf(),
            final(self).contents() == old(self).contents(),
            match r {
                Some(k) => {
                    &&& old(self).next_handle() == Some(k.id())
                    &&& k.id() != 0
                    &&& !old(self).contents().dom().contains(k.id())
                    &&& final(self).counter() == k.id()
                },
                None => {
                    &&& old(self).next_handle() is None
                    &&& *final(self) == *old(self)
                },
            },
    {
        let start: K = self.cur;
        let mut k: K = start;
        let ghost mut s: int = 0int;
        proof {
            K::lemma_domain_size();
            start.lemma_id_in_domain();
            lemma_small_mod(start.id() as nat, K::domain_size() as nat);
        }
        loop
            invariant
                *self == *old(self),
                0 <= s < K::domain_size(),
                0 <= start.id() < K::domain_size(),
                k.id() == (start.id() + s) % K::domain_size(),
                forall|t: int| 1 <= t <= s ==> !(#[trigger] self.candidate_free(t)),
            decreases K::domain_size() - s,
        {
            proof {
                k.lemma_id_in_domain();
                lemma_add_mod_noop(start.id() + s, 1, K::domain_size());
                lemma_small_mod(1nat, K::domain_size() as nat);
                lemma_small_mod(k.id() as nat, K::domain_size() as nat);
            }
            k = k.wrapping_next();
            proof {
                s = s + 1;
                assert(k.id() == (start.id() + s) % K::domain_size());
                // A step count equal to the domain size means a full wrap,
                // and only a full wrap comes back to the starting handle.
                lemma_fundamental_div_mod_converse(
                    start.id() + s,
                    K::domain_size(),
                    if start.id() + s < K::domain_size() {
                        0int
                    } else {
                        1int
                    },
                    if start.id() + s < K::domain_size() {
                        start.id() + s
                    } else {
                        start.id() + s - K::domain_size()
                    },
                );
                assert(k.id() == start.id() <==> s == K::domain_size());
            }

            if k.same(&start) {
                proof {
                    self.lemma_probe_skip(K::domain_size());
                }
                return None;
            }

            if !k.is_zero() && !self.occupied(&k) {
                proof {
                    assert(self.candidate_free(s));
                    self.lemma_probe_skip(s);
                    assert(self.probe_from(s) == Some(self.candidate(s)));
                    assert(self.next_handle() == Some(k.id()));
                }
                self.cur = k;
                return Some(k);
            }

            proof {
                assert(!self.candidate_free(s));
            }
        }
    }

    /// Allocates a handle and stores `v` under it. The caller must have made
    /// sure a handle can still be allocated; saturation aborts at run time.
    fn insert(&mut self, v: Rc<T>) -> (k: K)
        requires
            old(self).wf(),
            old(self).can_allocate(),
        ensures
            final(self).wf(),
            old(self).next_handle() == Some(k.id()),
            k.id() != 0,
            !old(self).contents().dom().contains(k.id()),
            final(self).contents() == old(self).contents().insert(k.id(), *v),
            final(self).counter() == k.id(),
    {
        let found = self.find_available_key();
        match found {
            Some(k) => {
                proof {
                    lemma_slots_as_map_dom(self.slots@);
                    lemma_slots_as_map_push(self.slots@, k, v);
                }
                let ghost pre = self.slots@;
                self.slots.push((k, v));
                proof {
                    assert forall|a: int, b: int|
                        0 <= a < b < self.slots@.len() implies (#[trigger] self.slots@[a].0.id())
                        != (#[trigger] self.slots@[b].0.id()) by {
                        if b < pre.len() {
                            assert(self.slots@[a] == pre[a]);
                            assert(self.slots@[b] == pre[b]);
                        } else {
                            assert(self.slots@[a] == pre[a]);
                            assert(has_id(pre, pre[a].0.id()));
                        }
                    }
                }
                k
            },
            None => unreached(),
        }
    }

    /// Stores `v`, returning the freshly issued handle.
    pub fn forget(&mut self, v: T) -> (k: K)
        requires
            old(self).wf(),
            old(self).can_allocate(),
        ensures
            final(self).wf(),
            old(self).next_handle() == Some(k.id()),
            k.id() != 0,
            !old(self).contents().dom().contains(k.id()),
            final(self).contents() == old(self).contents().insert(k.id(), v),
            final(self).counter() == k.id(),
    {
        self.forget_rc(Rc::new(v))
    }

    /// Stores `v` and also hands back a shared reference to it.
    pub fn forget_and_get(&mut self, v: T) -> (r: (K, Rc<T>))
        requires
            old(self).wf(),
            old(self).can_allocate(),
        ensures
            final(self).wf(),
            old(self).next_handle() == Some(r.0.id()),
            r.0.id() != 0,
            !old(self).contents().dom().contains(r.0.id()),
            final(self).contents() == old(self).contents().insert(r.0.id(), v),
            final(self).counter() == r.0.id(),
            *r.1 == v,
    {
        let v = Rc::new(v);
        let ret = v.clone();
        (self.forget_rc(v), ret)
    }

    /// Stores an already shared value, returning the freshly issued handle.
    pub fn forget_rc(&mut self, v: Rc<T>) -> (k: K)
        requires
            old(self).wf(),
            old(self).can_allocate(),
        ensures
            final(self).wf(),
            old(self).next_handle() == Some(k.id()),
            k.id() != 0,
            !old(self).contents().dom().contains(k.id()),
            final(self).contents() == old(self).contents().insert(k.id(), *v),
            final(self).counter() == k.id(),
    {
        let k = self.insert(v);
        k
    }

    /// Removes the slot at `k`, if live, and reports whether one was removed.
    pub fn try_free(&mut self, k: &K) -> (r: bool)
        requires
            old(self).wf(),
        ensures
            final(self).wf(),
            r <==> old(self).contents().dom().contains(k.id()),
            final(self).contents() == old(self).contents().remove(k.id()),
            final(self).counter() == old(self).counter(),
    {
        match self.try_take(k) {
            Some(_) => true,
            None => false,
        }
    }

    /// Fetches a shared reference to the value at `k`, if its slot is live.
    pub fn try_get(&self, k: &K) -> (r: Option<Rc<T>>)
        requires
            self.wf(),
        ensures
            match r {
                Some(v) => self.contents().dom().contains(k.id()) && *v == self.contents()[k.id()],
                None => !self.contents().dom().contains(k.id()),
            },
    {
        match self.try_ref(k) {
            Some(v) => Some(v.clone()),
            None => None,
        }
    }

    /// Borrows the stored reference at `k`, if its slot is live.
    pub fn try_ref(&self, k: &K) -> (r: Option<&Rc<T>>)
        requires
            self.wf(),
        ensures
            match r {
                Some(v) => self.contents().dom().contains(k.id()) && **v == self.contents()[k.id()],
                None => !self.contents().dom().contains(k.id()),
            },
    {
        proof {
            lemma_slots_as_map_dom(self.slots@);
        }
        match self.position_of(k) {
            Some(i) => {
                proof {
                    lemma_slots_as_map_index(self.slots@, i as int);
                }
                Some(&self.slots[i].1)
            },
            None => None,
        }
    }

    /// Removes the slot at `k`, if live, returning shared ownership of its
    /// value rather than destroying it.
    pub fn try_take(&mut self, k: &K) -> (r: Option<Rc<T>>)
        requires
            old(self).wf(),
        ensures
            final(self).wf(),
            final(self).contents() == old(self).contents().remove(k.id()),
            final(self).counter() == old(self).counter(),
            match r {
                Some(v) => old(self).contents().dom().contains(k.id()) && *v == old(self).contents()[k.id()],
                None => !old(self).contents().dom().contains(k.id()),
            },
    {
        proof {
            lemma_slots_as_map_dom(self.slots@);
        }
        match self.position_of(k) {
            Some(i) => {
                proof {
                    lemma_slots_as_map_index(self.slots@, i as int);
                    lemma_slots_as_map_remove(self.slots@, i as int);
                }
                let ghost pre = self.slots@;
                let p = self.slots.remove(i);
                proof {
                    assert forall|a: int, b: int|
                        0 <= a < b < self.slots@.len() implies (#[trigger] self.slots@[a].0.id())
                        != (#[trigger] self.slots@[b].0.id()) by {
                        assert(self.slots@[a] == if a < i { pre[a] } else { pre[a + 1] });
                        assert(self.slots@[b] == if b < i { pre[b] } else { pre[b + 1] });
                    }
                    assert forall|j: int| 0 <= j < self.slots@.len() implies (
                    #[trigger] self.slots@[j].0.id()) != 0 by {
                        assert(self.slots@[j] == if j < i { pre[j] } else { pre[j + 1] });
                    }
                }
                Some(p.1)
            },
            None => {
                proof {
                    assert(self.contents() =~= self.contents().remove(k.id()));
                }
                None
            },
        }
    }

    /// The number of live slots.
    pub fn len(&self) -> (r: usize)
        requires
            self.wf(),
        ensures
            r == self.contents().dom().len(),
            self.contents().dom().finite(),
    {
        proof {
            lemma_slots_as_map_len(self.slots@);
        }
        self.slots.len()
    }

    /// The handle the allocation counter rests on.
    pub fn cur(&self) -> (r: K)
        ensures
            r.id() == self.counter(),
    {
        self.cur
    }
}

/// A [`Forgotten`] behind a newtype that hands exclusive access through
/// `&mut`, for call sites that share one table: Rust's borrow discipline
/// takes the place of a run-time checked cell.
pub struct ForgottenRefCell<K, T>(Forgotten<K, T>);

impl<K: Handle, T> ForgottenRefCell<K, T> {
    /// The handle-to-value mapping held by the wrapped table.
    pub closed spec fn contents(self) -> Map<int, T> {
        self.0.contents()
    }

    /// The wrapped table's allocation counter.
    pub closed spec fn counter(self) -> int {
        self.0.counter()
    }

    /// Well-formedness of the wrapped table.
    pub closed spec fn wf(self) -> bool {
        self.0.wf()
    }

    /// The id the wrapped table's allocator will issue next, if any.
    pub closed spec fn next_handle(self) -> Option<int> {
        self.0.next_handle()
    }

    /// Whether the wrapped table can serve an insertion.
    pub closed spec fn can_allocate(self) -> bool {
        self.0.can_allocate()
    }

    /// Creates a wrapper around an empty table.
    pub fn new() -> (r: Self)
        ensures
            r.wf(),
            r.contents() == Map::<int, T>::empty(),
            r.counter() == 0,
    {
        ForgottenRefCell(Forgotten::new())
    }

    /// Stores `v`, returning the freshly issued handle.
    pub fn forget(&mut self, v: T) -> (k: K)
        requires
            old(self).wf(),
            old(self).can_allocate(),
        ensures
            final(self).wf(),
            old(self).next_handle() == Some(k.id()),
            k.id() != 0,
            !old(self).contents().dom().contains(k.id()),
            final(self).contents() == old(self).contents().insert(k.id(), v),
            final(self).counter() == k.id(),
    {
        self.0.forget(v)
    }

    /// Stores `v` and also hands back a shared reference to it.
    pub fn forget_and_get(&mut self, v: T) -> (r: (K, Rc<T>))
        requires
            old(self).wf(),
            old(self).can_allocate(),
        ensures
            final(self).wf(),
            old(self).next_handle() == Some(r.0.id()),
            r.0.id() != 0,
            !old(self).contents().dom().contains(r.0.id()),
            final(self).contents() == old(self).contents().insert(r.0.id(), v),
            final(self).counter() == r.0.id(),
            *r.1 == v,
    {
        self.0.forget_and_get(v)
    }

    /// Stores an already shared value, returning the freshly issued handle.
    pub fn forget_rc(&mut self, v: Rc<T>) -> (k: K)
        requires
            old(self).wf(),
            old(self).can_allocate(),
        ensures
            final(self).wf(),
            old(self).next_handle() == Some(k.id()),
            k.id() != 0,
            !old(self).contents().dom().contains(k.id()),
            final(self).contents() == old(self).contents().insert(k.id(), *v),
            final(self).counter() == k.id(),
    {
        self.0.forget_rc(v)
    }

    /// Removes the slot at `k`, if live, and reports whether one was removed.
    pub fn try_free(&mut self, k: &K) -> (r: bool)
        requires
            old(self).wf(),
        ensures
            final(self).wf(),
            r <==> old(self).contents().dom().contains(k.id()),
            final(self).contents() == old(self).contents().remove(k.id()),
            final(self).counter() == old(self).counter(),
    {
        self.0.try_free(k)
    }

    /// Fetches a shared reference to the value at `k`, if its slot is live.
    pub fn try_get(&self, k: &K) -> (r: Option<Rc<T>>)
        requires
            self.wf(),
        ensures
            match r {
                Some(v) => self.contents().dom().contains(k.id()) && *v == self.contents()[k.id()],
                None => !self.contents().dom().contains(k.id()),
            },
    {
        self.0.try_get(k)
    }

    /// Removes the slot at `k`, if live, returning shared ownership of its
    /// value rather than destroying it.
    pub fn try_take(&mut self, k: &K) -> (r: Option<Rc<T>>)
        requires
            old(self).wf(),
        ensures
            final(self).wf(),
            final(self).contents() == old(self).contents().remove(k.id()),
            final(self).counter() == old(self).counter(),
            match r {
                Some(v) => old(self).contents().dom().contains(k.id()) && *v == old(self).contents()[k.id()],
                None => !old(self).contents().dom().contains(k.id()),
            },
    {
        self.0.try_take(k)
    }

    /// The number of live slots.
    pub fn len(&self) -> (r: usize)
        requires
            self.wf(),
        ensures
            r == self.contents().dom().len(),
            self.contents().dom().finite(),
    {
        self.0.len()
    }

    /// The handle the allocation counter rests on.
    pub fn cur(&self) -> (r: K)
        ensures
            r.id() == self.counter(),
    {
        self.0.cur()
    }
}

} // verus!
