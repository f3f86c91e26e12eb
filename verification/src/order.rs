//! Equality and order of symbols: those of the values they hold.

use crate::alphabet::Alphabet;
use crate::symbol::CustomSymbol;
use core::cmp::Ordering;
use vstd::prelude::*;
use vstd::std_specs::cmp::{PartialEqSpec, PartialEqSpecImpl, PartialOrdSpec, PartialOrdSpecImpl};

verus! {

impl<const N: usize, A: Alphabet<N>> PartialEq for CustomSymbol<N, A> {
    /// Two symbols over one alphabet are equal when their values are.
    fn eq(&self, other: &Self) -> (equal: bool) {
        self.value() == other.value()
    }
}

impl<const N: usize, A: Alphabet<N>> PartialEqSpecImpl for CustomSymbol<N, A> {
    open spec fn obeys_eq_spec() -> bool {
        true
    }

    open spec fn eq_spec(&self, other: &Self) -> bool {
        self.raw() == other.raw()
    }
}

impl<const N: usize, A: Alphabet<N>> Eq for CustomSymbol<N, A> {

}

impl<const N: usize, A: Alphabet<N>> PartialOrd for CustomSymbol<N, A> {
    /// Symbols over one alphabet are ordered as their values are.
    fn partial_cmp(&self, other: &Self) -> (order: Option<Ordering>) {
        let left = self.value();
        let right = other.value();
        if left < right {
            Some(Ordering::Less)
        } else if left == right {
            Some(Ordering::Equal)
        } else {
            Some(Ordering::Greater)
        }
    }
}

impl<const N: usize, A: Alphabet<N>> PartialOrdSpecImpl for CustomSymbol<N, A> {
    open spec fn obeys_partial_cmp_spec() -> bool {
        true
    }

    open spec fn partial_cmp_spec(&self, other: &Self) -> Option<Ordering> {
        if self.raw() < other.raw() {
            Some(Ordering::Less)
        } else if self.raw() == other.raw() {
            Some(Ordering::Equal)
        } else {
            Some(Ordering::Greater)
        }
    }
}

/// The order of two symbols over one alphabet is the order of their
/// values, and they are equal exactly when they hold one value.
pub proof fn lemma_order_is_value_order<const N: usize, A: Alphabet<N>>(
    left: CustomSymbol<N, A>,
    right: CustomSymbol<N, A>,
)
    ensures
        PartialEqSpec::eq_spec(&left, &right) <==> left.raw() == right.raw(),
        PartialOrdSpec::partial_cmp_spec(&left, &right) == Some(Ordering::Less) <==> left.raw()
            < right.raw(),
        PartialOrdSpec::partial_cmp_spec(&left, &right) == Some(Ordering::Equal) <==> left.raw()
            == right.raw(),
        PartialOrdSpec::partial_cmp_spec(&left, &right) == Some(Ordering::Greater) <==> left.raw()
            > right.raw(),
{
}

} // verus!
