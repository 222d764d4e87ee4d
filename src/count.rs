use vstd::prelude::*;

verus! {

/// An unsigned integer type usable as a per-replica slot.
///
/// A slot is read through `as_nat`; every value lies in `0..=max_nat()`,
/// and `max_nat()` never exceeds `u64::MAX`, so that the sum of all slots of
/// a counter fits in a `u128`.
pub trait Count: Copy + Sized {
    /// The mathematical value of a slot.
    spec fn as_nat(self) -> nat;

    /// The largest value the type can hold.
    spec fn max_nat() -> nat;

    proof fn lemma_range(self)
        ensures
            self.as_nat() <= Self::max_nat(),
            Self::max_nat() <= u64::MAX,
    ;

    fn zero() -> (r: Self)
        ensures
            r.as_nat() == 0,
    ;

    /// The successor, or `None` when `self` is already the largest value.
    fn checked_succ(self) -> (r: Option<Self>)
        ensures
            r is None <==> self.as_nat() == Self::max_nat(),
            r matches Some(v) ==> v.as_nat() == self.as_nat() + 1,
    ;

    /// The larger of two values.
    fn join(self, other: Self) -> (r: Self)
        ensures
            r.as_nat() == if self.as_nat() >= other.as_nat() {
                self.as_nat()
            } else {
                other.as_nat()
            },
    ;

    fn same(self, other: Self) -> (r: bool)
        ensures
            r == (self.as_nat() == other.as_nat()),
    ;

    fn widen(self) -> (r: u128)
        ensures
            r == self.as_nat(),
    ;
}

impl Count for u8 {
    open spec fn as_nat(self) -> nat {
        self as nat
    }

    open spec fn max_nat() -> nat {
        u8::MAX as nat
    }

    proof fn lemma_range(self) {
    }

    fn zero() -> (r: Self) {
        0
    }

    fn checked_succ(self) -> (r: Option<Self>) {
        if self < u8::MAX {
            Some(self + 1)
        } else {
            None
        }
    }

    fn join(self, other: Self) -> (r: Self) {
        if self >= other {
            self
        } else {
            other
        }
    }

    fn same(self, other: Self) -> (r: bool) {
        self == other
    }

    fn widen(self) -> (r: u128) {
        self as u128
    }
}

impl Count for u16 {
    open spec fn as_nat(self) -> nat {
        self as nat
    }

    open spec fn max_nat() -> nat {
        u16::MAX as nat
    }

    proof fn lemma_range(self) {
    }

    fn zero() -> (r: Self) {
        0
    }

    fn checked_succ(self) -> (r: Option<Self>) {
        if self < u16::MAX {
            Some(self + 1)
        } else {
            None
        }
    }

    fn join(self, other: Self) -> (r: Self) {
        if self >= other {
            self
        } else {
            other
        }
    }

    fn same(self, other: Self) -> (r: bool) {
        self == other
    }

    fn widen(self) -> (r: u128) {
        self as u128
    }
}

impl Count for u32 {
    open spec fn as_nat(self) -> nat {
        self as nat
    }

    open spec fn max_nat() -> nat {
        u32::MAX as nat
    }

    proof fn lemma_range(self) {
    }

    fn zero() -> (r: Self) {
        0
    }

    fn checked_succ(self) -> (r: Option<Self>) {
        if self < u32::MAX {
            Some(self + 1)
        } else {
            None
        }
    }

    fn join(self, other: Self) -> (r: Self) {
        if self >= other {
            self
        } else {
            other
        }
    }

    fn same(self, other: Self) -> (r: bool) {
        self == other
    }

    fn widen(self) -> (r: u128) {
        self as u128
    }
}

impl Count for u64 {
    open spec fn as_nat(self) -> nat {
        self as nat
    }

    open spec fn max_nat() -> nat {
        u64::MAX as nat
    }

    proof fn lemma_range(self) {
    }

    fn zero() -> (r: Self) {
        0
    }

    fn checked_succ(self) -> (r: Option<Self>) {
        if self < u64::MAX {
            Some(self + 1)
        } else {
            None
        }
    }

    fn join(self, other: Self) -> (r: Self) {
        if self >= other {
            self
        } else {
            other
        }
    }

    fn same(self, other: Self) -> (r: bool) {
        self == other
    }

    fn widen(self) -> (r: u128) {
        self as u128
    }
}

impl Count for usize {
    open spec fn as_nat(self) -> nat {
        self as nat
    }

    open spec fn max_nat() -> nat {
        usize::MAX as nat
    }

    proof fn lemma_range(self) {
    }

    fn zero() -> (r: Self) {
        0
    }

    fn checked_succ(self) -> (r: Option<Self>) {
        if self < usize::MAX {
            Some(self + 1)
        } else {
            None
        }
    }

    fn join(self, other: Self) -> (r: Self) {
        if self >= other {
            self
        } else {
            other
        }
    }

    fn same(self, other: Self) -> (r: bool) {
        self == other
    }

    fn widen(self) -> (r: u128) {
        self as u128
    }
}

} // verus!
