//! The comparison operators of hand values and of cards.

use core::cmp::Ordering;
use vstd::prelude::*;
use vstd::std_specs::cmp::PartialOrdSpecImpl;
use crate::cards::Card;
use crate::ranking::HandRank;

verus! {

impl PartialOrd for HandRank {
    /// Orders hand values by strength: by category first, then by the
    /// tie-break ranks in their order of significance.
    fn partial_cmp(&self, other: &HandRank) -> (r: Option<Ordering>) {
        proof {
            HandRank::lemma_trichotomy(*self, *other);
        }
        if self.outranks(other) {
            Some(Ordering::Greater)
        } else if other.outranks(self) {
            Some(Ordering::Less)
        } else {
            Some(Ordering::Equal)
        }
    }
}

impl PartialOrdSpecImpl for HandRank {
    open spec fn obeys_partial_cmp_spec() -> bool {
        true
    }

    open spec fn partial_cmp_spec(&self, other: &HandRank) -> Option<Ordering> {
        if other.is_below(*self) {
            Some(Ordering::Greater)
        } else if self.is_below(*other) {
            Some(Ordering::Less)
        } else {
            Some(Ordering::Equal)
        }
    }
}

impl PartialOrd for Card {
    /// Orders cards by rank alone: cards that differ only in suit compare as equal.
    fn partial_cmp(&self, other: &Card) -> (r: Option<Ordering>) {
        let a = self.rank.ordinal();
        let b = other.rank.ordinal();
        if a < b {
            Some(Ordering::Less)
        } else if a > b {
            Some(Ordering::Greater)
        } else {
            Some(Ordering::Equal)
        }
    }
}

impl PartialOrdSpecImpl for Card {
    open spec fn obeys_partial_cmp_spec() -> bool {
        true
    }

    open spec fn partial_cmp_spec(&self, other: &Card) -> Option<Ordering> {
        if self.rank.ord() < other.rank.ord() {
            Some(Ordering::Less)
        } else if self.rank.ord() > other.rank.ord() {
            Some(Ordering::Greater)
        } else {
            Some(Ordering::Equal)
        }
    }
}

} // verus!
