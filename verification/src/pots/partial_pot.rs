//! One slice of the pot and the seats that may win it.

use crate::pots::model::PotSlice;
use crate::pots::model::slices_finite;
use std::collections::HashSet;
use vstd::prelude::*;
use vstd::std_specs::iter::IteratorSpec;

verus! {

/// A side-pot slice: an amount of chips and the seats entitled to win it.
#[derive(Debug, PartialEq)]
pub struct PartialPot {
    pub amount: u64,
    pub elegible_players: HashSet<usize>,
}

impl View for PartialPot {
    type V = PotSlice;

    open spec fn view(&self) -> PotSlice {
        PotSlice { amount: self.amount as nat, eligible: self.elegible_players@ }
    }
}

/// The slices of a list of partial pots.
pub open spec fn slices_of(pots: Seq<PartialPot>) -> Seq<PotSlice> {
    Seq::new(pots.len(), |i: int| pots[i]@)
}

/// A set of seats held in memory has finitely many members.
pub proof fn lemma_seats_finite(seats: &HashSet<usize>)
    ensures
        seats@.finite(),
{
    vstd::std_specs::hash::axiom_spec_hash_keys_iter(seats);
    vstd::seq_lib::seq_to_set_is_finite(
        vstd::std_specs::hash::spec_hash_keys_iter(seats).remaining().unref(),
    );
}

/// Every slice of a list of partial pots has finitely many eligible seats.
pub proof fn lemma_slices_finite(pots: Seq<PartialPot>)
    ensures
        slices_finite(slices_of(pots)),
{
    assert forall|i: int| 0 <= i < pots.len() implies (#[trigger] slices_of(
        pots,
    )[i]).eligible.finite() by {
        lemma_seats_finite(&pots[i].elegible_players);
    }
}

} // verus!
