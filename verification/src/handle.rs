//! The handle abstraction: an integer-like type with a zero sentinel and a
//! wrapping successor, used to identify slots in a table.

use vstd::prelude::*;

verus! {

/// An integer-like type that can serve as a slot handle.
///
/// A handle type has a finite domain of `domain_size()` distinct values,
/// each denoted by an integer in `0 .. domain_size()` (its [`id`](Handle::id)).
/// The value with id `0` is the reserved sentinel: it is never issued for a
/// live slot. Advancing a handle wraps past the end of the domain back to the
/// sentinel's id.
pub trait Handle: Sized + Copy {
    /// The number of distinct handle values; the wraparound modulus.
    spec fn domain_size() -> int;

    /// The handle's value as a mathematical integer in `0 .. domain_size()`.
    spec fn id(self) -> int;

    /// A handle domain holds at least the sentinel and one issuable value.
    proof fn lemma_domain_size()
        ensures
            Self::domain_size() >= 2,
    ;

    /// Every handle's id lies inside the domain.
    proof fn lemma_id_in_domain(self)
        ensures
            0 <= self.id() < Self::domain_size(),
    ;

    /// The sentinel handle, whose id is zero.
    fn zeroed() -> (r: Self)
        ensures
            r.id() == 0,
    ;

    /// The successor handle, wrapping past the last value of the domain.
    fn wrapping_next(self) -> (r: Self)
        ensures
            r.id() == (self.id() + 1) % Self::domain_size(),
    ;

    /// Whether this handle is the sentinel.
    fn is_zero(&self) -> (r: bool)
        ensures
            r <==> self.id() == 0,
    ;

    /// Whether two handles denote the same id.
    fn same(&self, other: &Self) -> (r: bool)
        ensures
            r <==> self.id() == other.id(),
    ;
}

impl Handle for u8 {
    open spec fn domain_size() -> int {
        256
    }

    open spec fn id(self) -> int {
        self as int
    }

    proof fn lemma_domain_size() {
    }

    proof fn lemma_id_in_domain(self) {
    }

    fn zeroed() -> (r: Self) {
        0u8
    }

    fn wrapping_next(self) -> (r: Self) {
        if self == u8::MAX {
            0u8
        } else {
            self + 1
        }
    }

    fn is_zero(&self) -> (r: bool) {
        *self == 0u8
    }

    fn same(&self, other: &Self) -> (r: bool) {
        *self == *other
    }
}

impl Handle for u16 {
    open spec fn domain_size() -> int {
        0x1_0000
    }

    open spec fn id(self) -> int {
        self as int
    }

    proof fn lemma_domain_size() {
    }

    proof fn lemma_id_in_domain(self) {
    }

    fn zeroed() -> (r: Self) {
        0u16
    }

    fn wrapping_next(self) -> (r: Self) {
        if self == u16::MAX {
            0u16
        } else {
            self + 1
        }
    }

    fn is_zero(&self) -> (r: bool) {
        *self == 0u16
    }

    fn same(&self, other: &Self) -> (r: bool) {
        *self == *other
    }
}

impl Handle for u32 {
    open spec fn domain_size() -> int {
        0x1_0000_0000
    }

    open spec fn id(self) -> int {
        self as int
    }

    proof fn lemma_domain_size() {
    }

    proof fn lemma_id_in_domain(self) {
    }

    fn zeroed() -> (r: Self) {
        0u32
    }

    fn wrapping_next(self) -> (r: Self) {
        if self == u32::MAX {
            0u32
        } else {
            self + 1
        }
    }

    fn is_zero(&self) -> (r: bool) {
        *self == 0u32
    }

    fn same(&self, other: &Self) -> (r: bool) {
        *self == *other
    }
}

impl Handle for u64 {
    open spec fn domain_size() -> int {
        0x1_0000_0000_0000_0000
    }

    open spec fn id(self) -> int {
        self as int
    }

    proof fn lemma_domain_size() {
    }

    proof fn lemma_id_in_domain(self) {
    }

    fn zeroed() -> (r: Self) {
        0u64
    }

    fn wrapping_next(self) -> (r: Self) {
        if self == u64::MAX {
            0u64
        } else {
            self + 1
        }
    }

    fn is_zero(&self) -> (r: bool) {
        *self == 0u64
    }

    fn same(&self, other: &Self) -> (r: bool) {
        *self == *other
    }
}

impl Handle for usize {
    open spec fn domain_size() -> int {
        usize::MAX as int + 1
    }

    open spec fn id(self) -> int {
        self as int
    }

    proof fn lemma_domain_size() {
    }

    proof fn lemma_id_in_domain(self) {
    }

    fn zeroed() -> (r: Self) {
        0usize
    }

    fn wrapping_next(self) -> (r: Self) {
        if self == usize::MAX {
            0usize
        } else {
            self + 1
        }
    }

    fn is_zero(&self) -> (r: bool) {
        *self == 0usize
    }

    fn same(&self, other: &Self) -> (r: bool) {
        *self == *other
    }
}

/// A signed handle type counts through its non-negative values, wraps to its
/// most negative value, and climbs back to zero; its id is its bit pattern
/// read as an unsigned number.
impl Handle for i8 {
    open spec fn domain_size() -> int {
        256
    }

    open spec fn id(self) -> int {
        if self < 0 {
            self + 256
        } else {
            self as int
        }
    }

    proof fn lemma_domain_size() {
    }

    proof fn lemma_id_in_domain(self) {
    }

    fn zeroed() -> (r: Self) {
        0i8
    }

    fn wrapping_next(self) -> (r: Self) {
        if self == i8::MAX {
            i8::MIN
        } else {
            self + 1
        }
    }

    fn is_zero(&self) -> (r: bool) {
        *self == 0i8
    }

    fn same(&self, other: &Self) -> (r: bool) {
        *self == *other
    }
}

} // verus!
