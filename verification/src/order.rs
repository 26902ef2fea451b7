//! A total order with an executable three-way comparison.
//!
//! The ordered containers of this crate need to compare their elements both
//! in specifications and at run time. This trait packages the two: a
//! specification-level relation with the laws of a total order, and an
//! executable comparison that agrees with it. Equality under the order is
//! plain equality of values.

use vstd::prelude::*;

verus! {

/// A type with a total order and an executable comparison agreeing with it.
pub trait TotalOrder: Sized {
    /// The order relation.
    spec fn le_spec(self, other: Self) -> bool;

    /// Any two values are comparable.
    proof fn lemma_total(a: Self, b: Self)
        ensures
            Self::le_spec(a, b) || Self::le_spec(b, a),
    ;

    /// The order is transitive.
    proof fn lemma_transitive(a: Self, b: Self, c: Self)
        requires
            Self::le_spec(a, b),
            Self::le_spec(b, c),
        ensures
            Self::le_spec(a, c),
    ;

    /// Values ordered both ways are equal.
    proof fn lemma_antisymmetric(a: Self, b: Self)
        requires
            Self::le_spec(a, b),
            Self::le_spec(b, a),
        ensures
            a == b,
    ;

    /// Compare two values; the answer agrees with the order.
    fn cmp_with(&self, other: &Self) -> (r: core::cmp::Ordering)
        ensures
            (match r {
                core::cmp::Ordering::Less => self.le_spec(*other) && *self != *other,
                core::cmp::Ordering::Equal => *self == *other,
                core::cmp::Ordering::Greater => other.le_spec(*self) && *self != *other,
            }),
    ;
}

/// Strictly below under the order.
pub open spec fn lt_spec<T: TotalOrder>(a: T, b: T) -> bool {
    a.le_spec(b) && a != b
}

impl TotalOrder for usize {
    open spec fn le_spec(self, other: Self) -> bool {
        self <= other
    }

    proof fn lemma_total(a: Self, b: Self) {
    }

    proof fn lemma_transitive(a: Self, b: Self, c: Self) {
    }

    proof fn lemma_antisymmetric(a: Self, b: Self) {
    }

    fn cmp_with(&self, other: &Self) -> (r: core::cmp::Ordering) {
        if *self < *other {
            core::cmp::Ordering::Less
        } else if *self == *other {
            core::cmp::Ordering::Equal
        } else {
            core::cmp::Ordering::Greater
        }
    }
}

impl TotalOrder for isize {
    open spec fn le_spec(self, other: Self) -> bool {
        self <= other
    }

    proof fn lemma_total(a: Self, b: Self) {
    }

    proof fn lemma_transitive(a: Self, b: Self, c: Self) {
    }

    proof fn lemma_antisymmetric(a: Self, b: Self) {
    }

    fn cmp_with(&self, other: &Self) -> (r: core::cmp::Ordering) {
        if *self < *other {
            core::cmp::Ordering::Less
        } else if *self == *other {
            core::cmp::Ordering::Equal
        } else {
            core::cmp::Ordering::Greater
        }
    }
}

impl TotalOrder for u64 {
    open spec fn le_spec(self, other: Self) -> bool {
        self <= other
    }

    proof fn lemma_total(a: Self, b: Self) {
    }

    proof fn lemma_transitive(a: Self, b: Self, c: Self) {
    }

    proof fn lemma_antisymmetric(a: Self, b: Self) {
    }

    fn cmp_with(&self, other: &Self) -> (r: core::cmp::Ordering) {
        if *self < *other {
            core::cmp::Ordering::Less
        } else if *self == *other {
            core::cmp::Ordering::Equal
        } else {
            core::cmp::Ordering::Greater
        }
    }
}

impl TotalOrder for i32 {
    open spec fn le_spec(self, other: Self) -> bool {
        self <= other
    }

    proof fn lemma_total(a: Self, b: Self) {
    }

    proof fn lemma_transitive(a: Self, b: Self, c: Self) {
    }

    proof fn lemma_antisymmetric(a: Self, b: Self) {
    }

    fn cmp_with(&self, other: &Self) -> (r: core::cmp::Ordering) {
        if *self < *other {
            core::cmp::Ordering::Less
        } else if *self == *other {
            core::cmp::Ordering::Equal
        } else {
            core::cmp::Ordering::Greater
        }
    }
}

} // verus!
