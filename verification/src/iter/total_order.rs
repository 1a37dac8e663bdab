//! A total order up to an equivalence relation.

use vstd::prelude::*;
use core::cmp::Ordering;

verus! {

/// Items that can be merged by `SumIter`.
///
/// `lt` is the strict order and `eqv` the equivalence it respects; `cmp_to`
/// decides which of the two holds for a concrete pair. The proof obligations
/// make every implementation a law-abiding total order on the equivalence
/// classes, which is exactly what a merge-join over two sorted inputs relies
/// on.
pub trait TotalOrdered: Sized {
    /// The strict order.
    spec fn lt(self, other: Self) -> bool;

    /// The equivalence that `lt` respects.
    spec fn eqv(self, other: Self) -> bool;

    proof fn lemma_eqv_refl(a: Self)
        ensures
            a.eqv(a),
    ;

    proof fn lemma_eqv_sym(a: Self, b: Self)
        requires
            a.eqv(b),
        ensures
            b.eqv(a),
    ;

    proof fn lemma_eqv_trans(a: Self, b: Self, c: Self)
        requires
            a.eqv(b),
            b.eqv(c),
        ensures
            a.eqv(c),
    ;

    /// Exactly one of `a.lt(b)`, `b.lt(a)` and `a.eqv(b)` holds.
    proof fn lemma_trichotomy(a: Self, b: Self)
        ensures
            a.lt(b) || b.lt(a) || a.eqv(b),
            a.lt(b) ==> !b.lt(a) && !a.eqv(b),
            b.lt(a) ==> !a.eqv(b),
    ;

    /// Transitivity, allowing either (but not both) of the two steps to be a
    /// mere equivalence.
    proof fn lemma_lt_trans(a: Self, b: Self, c: Self)
        requires
            a.lt(b) || a.eqv(b),
            b.lt(c) || b.eqv(c),
            a.lt(b) || b.lt(c),
        ensures
            a.lt(c),
    ;

    /// Three-way comparison deciding `lt` and `eqv`.
    fn cmp_to(&self, other: &Self) -> (o: Ordering)
        ensures
            (o == Ordering::Less) <==> self.lt(*other),
            (o == Ordering::Equal) <==> self.eqv(*other),
            (o == Ordering::Greater) <==> other.lt(*self),
    ;
}

impl TotalOrdered for u32 {
    open spec fn lt(self, other: u32) -> bool {
        self < other
    }

    open spec fn eqv(self, other: u32) -> bool {
        self == other
    }

    proof fn lemma_eqv_refl(a: u32) {
    }

    proof fn lemma_eqv_sym(a: u32, b: u32) {
    }

    proof fn lemma_eqv_trans(a: u32, b: u32, c: u32) {
    }

    proof fn lemma_trichotomy(a: u32, b: u32) {
    }

    proof fn lemma_lt_trans(a: u32, b: u32, c: u32) {
    }

    fn cmp_to(&self, other: &u32) -> (o: Ordering) {
        if *self < *other {
            Ordering::Less
        } else if *self == *other {
            Ordering::Equal
        } else {
            Ordering::Greater
        }
    }
}

} // verus!
