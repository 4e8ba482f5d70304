//! Shuffling, the one place where the engine draws on randomness.

use rand::seq::SliceRandom;
use rand::thread_rng;
use vstd::prelude::*;
use crate::cards::create_deck;
use crate::cards::full_deck;
use crate::cards::Card;

verus! {

/// Puts the cards in a random order.
///
/// Calls `rand::seq::SliceRandom::shuffle` on the cards with the generator
/// that `rand::thread_rng` hands out. That method only exchanges entries of
/// the slice, so the cards after the call are the cards before it, each as
/// often as before. Which order comes out is not stated: it differs from
/// call to call.
#[verifier::external_body]
fn shuffle_cards(cards: &mut Vec<Card>)
    ensures
        final(cards)@.to_multiset() == old(cards)@.to_multiset(),
{
    cards.shuffle(&mut thread_rng());
}

/// A new deck in a random order: the 52 cards, each once.
pub fn shuffled_deck() -> (deck: Vec<Card>)
    ensures
        deck@.to_multiset() == full_deck().to_multiset(),
        deck@.len() == 52,
{
    let mut deck = create_deck();
    shuffle_cards(&mut deck);
    proof {
        deck@.to_multiset_ensures();
        full_deck().to_multiset_ensures();
    }
    deck
}

} // verus!
