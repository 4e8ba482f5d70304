//! Ranking of poker hands: the value of five cards, and the best five of seven.

use vstd::prelude::*;
use vstd::relations::sorted_by;
use vstd::relations::total_ordering;
use vstd::seq_lib::lemma_sorted_unique;
use vstd::seq_lib::to_multiset_contains;
use vstd::seq_lib::to_multiset_update;
use vstd::slice::slice_to_vec;
pub use crate::cards::parse_card;
pub use crate::cards::parse_cards;
pub use crate::cards::Card;
pub use crate::cards::Rank;
pub use crate::cards::Suit;
pub use crate::ranking::HandRank;

verus! {

/// The relation "at least as high as" on ranks, which orders a hand from its
/// highest card down.
pub open spec fn rank_geq() -> spec_fn(Rank, Rank) -> bool {
    |a: Rank, b: Rank| a.ord() >= b.ord()
}

/// The ranks of the cards, in the order of the cards.
pub open spec fn ranks_of(cards: Seq<Card>) -> Seq<Rank> {
    cards.map_values(|c: Card| c.rank)
}

/// The ranks of the cards from the highest down.
pub open spec fn ranks_descending(cards: Seq<Card>) -> Seq<Rank> {
    ranks_of(cards).sort_by(rank_geq())
}

/// All cards share one suit.
pub open spec fn is_flush(cards: Seq<Card>) -> bool {
    forall|i: int, j: int| 0 <= i < cards.len() && 0 <= j < cards.len() ==> cards[i].suit == cards[j].suit
}

/// "At least as high as" is a total order on ranks.
pub proof fn lemma_rank_geq_total()
    ensures
        total_ordering(rank_geq()),
{
    assert forall|a: Rank, b: Rank| #[trigger] rank_geq()(a, b) && rank_geq()(b, a) implies a == b by {
        Rank::lemma_ord_injective(a, b);
    }
}

/// The ranks from the highest down are the one arrangement of the cards'
/// ranks in which no rank stands before a higher one.
pub proof fn lemma_ranks_descending_unique(cards: Seq<Card>, ordered: Seq<Rank>)
    requires
        sorted_by(ordered, rank_geq()),
        ordered.to_multiset() == ranks_of(cards).to_multiset(),
    ensures
        ranks_descending(cards) == ordered,
        ranks_descending(cards).len() == cards.len(),
{
    lemma_rank_geq_total();
    ranks_of(cards).lemma_sort_by_ensures(rank_geq());
    lemma_sorted_unique(ordered, ranks_descending(cards), rank_geq());
    ordered.to_multiset_ensures();
    ranks_of(cards).to_multiset_ensures();
}

/// Exchanging two entries of a sequence leaves its multiset of entries unchanged.
pub proof fn lemma_swap_keeps_multiset<A>(s: Seq<A>, i: int, j: int)
    requires
        0 <= i < s.len(),
        0 <= j < s.len(),
    ensures
        s.update(i, s[j]).update(j, s[i]).to_multiset() == s.to_multiset(),
{
    broadcast use vstd::multiset::group_multiset_axioms;

    let mid = s.update(i, s[j]);
    to_multiset_update(s, i, s[j]);
    to_multiset_update(mid, j, s[i]);
    to_multiset_contains(s, s[i]);
    to_multiset_contains(s, s[j]);
    assert(s.contains(s[i]));
    assert(s.contains(s[j]));
    assert(mid[j] == s[j]);
    assert(s.update(i, s[j]).update(j, s[i]).to_multiset() =~= s.to_multiset());
}

/// Reorders the cards from the highest rank down. Cards of equal rank keep
/// some order among themselves.
pub fn sort_by_rank_descending(hand: &mut [Card])
    ensures
        final(hand)@.len() == old(hand)@.len(),
        final(hand)@.to_multiset() == old(hand)@.to_multiset(),
        sorted_by(ranks_of(final(hand)@), rank_geq()),
        ranks_of(final(hand)@) == ranks_descending(old(hand)@),
{
    let n = hand.len();
    let ghost start = hand@;
    let mut i: usize = 1;
    while i < n
        invariant
            1 <= i,
            hand@.len() == n,
            hand@.to_multiset() == start.to_multiset(),
            ranks_of(hand@).to_multiset() == ranks_of(start).to_multiset(),
            forall|a: int, b: int| 0 <= a < b < i && b < n ==> hand@[a].rank.ord() >= hand@[b].rank.ord(),
        decreases n - i,
    {
        let mut j: usize = i;
        while j > 0 && hand[j - 1].rank.ordinal() < hand[j].rank.ordinal()
            invariant
                0 <= j <= i < n,
                hand@.len() == n,
                hand@.to_multiset() == start.to_multiset(),
                ranks_of(hand@).to_multiset() == ranks_of(start).to_multiset(),
                forall|a: int, b: int| 0 <= a < b <= i && b != j ==> hand@[a].rank.ord() >= hand@[b].rank.ord(),
            decreases j,
        {
            let ghost before = hand@;
            let lower = hand[j - 1];
            let upper = hand[j];
            hand[j - 1] = upper;
            hand[j] = lower;
            proof {
                lemma_swap_keeps_multiset(before, j - 1, j as int);
                assert(hand@ =~= before.update(j - 1, before[j as int]).update(j as int, before[j - 1]));
                let rb = ranks_of(before);
                lemma_swap_keeps_multiset(rb, j - 1, j as int);
                assert(ranks_of(hand@) =~= rb.update(j - 1, rb[j as int]).update(j as int, rb[j - 1]));
            }
            j -= 1;
        }
        i += 1;
    }
    proof {
        lemma_rank_geq_total();
        let sorted = ranks_of(hand@);
        assert(sorted_by(sorted, rank_geq()));
        ranks_of(start).lemma_sort_by_ensures(rank_geq());
        lemma_sorted_unique(sorted, ranks_descending(start), rank_geq());
    }
}

/// Positions `start .. start + n` of `r` hold one rank, and the positions
/// next to them, where there are any, hold another. In a sequence ordered from
/// the highest rank down this says that the rank occurs exactly `n` times.
pub open spec fn run_of(r: Seq<Rank>, start: int, n: int) -> bool {
    &&& forall|k: int| start <= k < start + n ==> #[trigger] r[k] == r[start]
    &&& (start > 0 ==> r[start - 1] != r[start])
    &&& (start + n < r.len() ==> r[start + n] != r[start])
}

/// Each rank is exactly one step below the rank before it.
pub open spec fn is_straight(r: Seq<Rank>) -> bool {
    forall|k: int| 0 <= k < r.len() - 1 ==> (#[trigger] r[k]).ord() == r[k + 1].ord() + 1
}

/// The ranks are Ace, Five, Four, Three, Two: the straight in which the Ace plays low.
pub open spec fn is_wheel(r: Seq<Rank>) -> bool {
    &&& r.len() == 5
    &&& r[0] == Rank::Ace
    &&& r[1] == Rank::Five
    &&& r[2] == Rank::Four
    &&& r[3] == Rank::Three
    &&& r[4] == Rank::Two
}

/// The value of a five-card hand, given its ranks from the highest down and
/// whether its cards share one suit.
///
/// The first case that applies decides: straight flush (royal when it tops at
/// the Ace, five-high for the wheel), four of a kind, full house, flush,
/// straight (five-high for the wheel), three of a kind, two pair, one pair,
/// high card.
pub open spec fn classify(r: Seq<Rank>, flush: bool) -> HandRank {
    if is_straight(r) && flush {
        if r[0] == Rank::Ace {
            HandRank::RoyalFlush
        } else {
            HandRank::StraightFlush(r[0])
        }
    } else if is_wheel(r) && flush {
        HandRank::StraightFlush(Rank::Five)
    } else if run_of(r, 0, 4) {
        HandRank::FourOfAKind(r[0], r[4])
    } else if run_of(r, 1, 4) {
        HandRank::FourOfAKind(r[1], r[0])
    } else if run_of(r, 0, 3) && run_of(r, 3, 2) {
        HandRank::FullHouse(r[0], r[3])
    } else if run_of(r, 0, 2) && run_of(r, 2, 3) {
        HandRank::FullHouse(r[2], r[0])
    } else if flush {
        HandRank::Flush(r[0], r[1], r[2], r[3], r[4])
    } else if is_straight(r) {
        HandRank::Straight(r[0])
    } else if is_wheel(r) {
        HandRank::Straight(Rank::Five)
    } else if run_of(r, 0, 3) {
        HandRank::ThreeOfAKind(r[0], r[3], r[4])
    } else if run_of(r, 1, 3) {
        HandRank::ThreeOfAKind(r[1], r[0], r[4])
    } else if run_of(r, 2, 3) {
        HandRank::ThreeOfAKind(r[2], r[0], r[1])
    } else if run_of(r, 0, 2) && run_of(r, 2, 2) {
        HandRank::TwoPair(r[0], r[2], r[4])
    } else if run_of(r, 0, 2) && run_of(r, 3, 2) {
        HandRank::TwoPair(r[0], r[3], r[2])
    } else if run_of(r, 1, 2) && run_of(r, 3, 2) {
        HandRank::TwoPair(r[1], r[3], r[0])
    } else if run_of(r, 0, 2) {
        HandRank::OnePair(r[0], r[2], r[3], r[4])
    } else if run_of(r, 1, 2) {
        HandRank::OnePair(r[1], r[0], r[3], r[4])
    } else if run_of(r, 2, 2) {
        HandRank::OnePair(r[2], r[0], r[1], r[4])
    } else if run_of(r, 3, 2) {
        HandRank::OnePair(r[3], r[0], r[1], r[2])
    } else {
        HandRank::HighCard(r[0], r[1], r[2], r[3], r[4])
    }
}

/// The value of five cards given in any order.
pub open spec fn rank_of_five(cards: Seq<Card>) -> HandRank {
    classify(ranks_descending(cards), is_flush(cards))
}

/// Whether all cards share one suit does not depend on their order.
pub proof fn lemma_flush_ignores_order(a: Seq<Card>, b: Seq<Card>)
    requires
        a.to_multiset() == b.to_multiset(),
    ensures
        is_flush(a) == is_flush(b),
{
    assert forall|i: int| 0 <= i < a.len() implies b.contains(#[trigger] a[i]) by {
        to_multiset_contains(a, a[i]);
        to_multiset_contains(b, a[i]);
        assert(a.contains(a[i]));
    }
    assert forall|i: int| 0 <= i < b.len() implies a.contains(#[trigger] b[i]) by {
        to_multiset_contains(a, b[i]);
        to_multiset_contains(b, b[i]);
        assert(b.contains(b[i]));
    }
    if is_flush(a) {
        assert forall|i: int, j: int| 0 <= i < b.len() && 0 <= j < b.len() implies b[i].suit
            == b[j].suit by {
            assert(a.contains(b[i]));
            assert(a.contains(b[j]));
        }
    }
    if is_flush(b) {
        assert forall|i: int, j: int| 0 <= i < a.len() && 0 <= j < a.len() implies a[i].suit
            == a[j].suit by {
            assert(b.contains(a[i]));
            assert(b.contains(a[j]));
        }
    }
}

/// Orders the five cards from the highest rank down and returns their value
/// as a poker hand.
pub fn find_best_rank_for_5_cards(hand: &mut [Card]) -> (best: HandRank)
    requires
        old(hand)@.len() == 5,
    ensures
        final(hand)@.len() == 5,
        final(hand)@.to_multiset() == old(hand)@.to_multiset(),
        sorted_by(ranks_of(final(hand)@), rank_geq()),
        best == rank_of_five(old(hand)@),
{
    sort_by_rank_descending(hand);
    let r0 = hand[0].rank;
    let r1 = hand[1].rank;
    let r2 = hand[2].rank;
    let r3 = hand[3].rank;
    let r4 = hand[4].rank;
    let flush = hand[0].suit == hand[1].suit && hand[1].suit == hand[2].suit && hand[2].suit
        == hand[3].suit && hand[3].suit == hand[4].suit;
    let straight = r0.ordinal() == r1.ordinal() + 1 && r1.ordinal() == r2.ordinal() + 1
        && r2.ordinal() == r3.ordinal() + 1 && r3.ordinal() == r4.ordinal() + 1;
    let wheel = r0 == Rank::Ace && r1 == Rank::Five && r2 == Rank::Four && r3 == Rank::Three
        && r4 == Rank::Two;
    let e01 = r0 == r1;
    let e12 = r1 == r2;
    let e23 = r2 == r3;
    let e34 = r3 == r4;
    proof {
        let r = ranks_of(hand@);
        assert(r == ranks_descending(old(hand)@));
        assert(r.len() == 5);
        assert(r[0] == r0 && r[1] == r1 && r[2] == r2 && r[3] == r3 && r[4] == r4);
        lemma_flush_ignores_order(hand@, old(hand)@);
        assert(flush == is_flush(hand@));
        assert(straight == is_straight(r));
        assert(wheel == is_wheel(r));
        assert(run_of(r, 0, 4) == (e01 && e12 && e23 && !e34));
        assert(run_of(r, 1, 4) == (!e01 && e12 && e23 && e34));
        assert(run_of(r, 0, 3) == (e01 && e12 && !e23));
        assert(run_of(r, 1, 3) == (!e01 && e12 && e23 && !e34));
        assert(run_of(r, 2, 3) == (!e12 && e23 && e34));
        assert(run_of(r, 0, 2) == (e01 && !e12));
        assert(run_of(r, 1, 2) == (!e01 && e12 && !e23));
        assert(run_of(r, 2, 2) == (!e12 && e23 && !e34));
        assert(run_of(r, 3, 2) == (!e23 && e34));
    }
    if straight && flush {
        if r0 == Rank::Ace {
            HandRank::RoyalFlush
        } else {
            HandRank::StraightFlush(r0)
        }
    } else if wheel && flush {
        HandRank::StraightFlush(Rank::Five)
    } else if e01 && e12 && e23 && !e34 {
        HandRank::FourOfAKind(r0, r4)
    } else if !e01 && e12 && e23 && e34 {
        HandRank::FourOfAKind(r1, r0)
    } else if e01 && e12 && !e23 && e34 {
        HandRank::FullHouse(r0, r3)
    } else if e01 && !e12 && e23 && e34 {
        HandRank::FullHouse(r2, r0)
    } else if flush {
        HandRank::Flush(r0, r1, r2, r3, r4)
    } else if straight {
        HandRank::Straight(r0)
    } else if wheel {
        HandRank::Straight(Rank::Five)
    } else if e01 && e12 && !e23 {
        HandRank::ThreeOfAKind(r0, r3, r4)
    } else if !e01 && e12 && e23 && !e34 {
        HandRank::ThreeOfAKind(r1, r0, r4)
    } else if !e12 && e23 && e34 {
        HandRank::ThreeOfAKind(r2, r0, r1)
    } else if e01 && !e12 && e23 && !e34 {
        HandRank::TwoPair(r0, r2, r4)
    } else if e01 && !e12 && !e23 && e34 {
        HandRank::TwoPair(r0, r3, r2)
    } else if !e01 && e12 && !e23 && e34 {
        HandRank::TwoPair(r1, r3, r0)
    } else if e01 && !e12 {
        HandRank::OnePair(r0, r2, r3, r4)
    } else if !e01 && e12 && !e23 {
        HandRank::OnePair(r1, r0, r3, r4)
    } else if !e12 && e23 && !e34 {
        HandRank::OnePair(r2, r0, r1, r4)
    } else if !e23 && e34 {
        HandRank::OnePair(r3, r0, r1, r2)
    } else {
        HandRank::HighCard(r0, r1, r2, r3, r4)
    }
}

/// The seven cards without those at positions `i` and `j`, where `i < j`.
pub open spec fn without_two(cards: Seq<Card>, i: int, j: int) -> Seq<Card> {
    cards.remove(j).remove(i)
}

/// `h` is the value of one of the 21 five-card hands that can be picked from
/// the seven cards, and none of them has a stronger value.
pub open spec fn is_best_of_seven(cards: Seq<Card>, h: HandRank) -> bool {
    &&& exists|i: int, j: int|
        0 <= i < j < 7 && h == rank_of_five(#[trigger] without_two(cards, i, j))
    &&& forall|i: int, j: int|
        0 <= i < j < 7 ==> rank_of_five(#[trigger] without_two(cards, i, j)).is_at_most(h)
}

/// The strongest value among the five-card hands in seven cards.
pub open spec fn best_of_seven(cards: Seq<Card>) -> HandRank {
    choose|h: HandRank| is_best_of_seven(cards, h)
}

/// At most one value is the best of seven cards.
pub proof fn lemma_best_of_seven_unique(cards: Seq<Card>, h: HandRank)
    requires
        is_best_of_seven(cards, h),
    ensures
        best_of_seven(cards) == h,
{
    let g = best_of_seven(cards);
    assert(is_best_of_seven(cards, g));
    HandRank::lemma_le_order(g, h, g);
}

/// The value of the best five-card hand among seven cards, or nothing when
/// the number of cards is not seven.
pub fn evaluate_hand(seven_cards: &[Card]) -> (best: Option<HandRank>)
    ensures
        seven_cards@.len() != 7 ==> best is None,
        seven_cards@.len() == 7 ==> best == Some(best_of_seven(seven_cards@)) && is_best_of_seven(
            seven_cards@,
            best_of_seven(seven_cards@),
        ),
{
    if seven_cards.len() != 7 {
        return None;
    }
    let ghost s = seven_cards@;
    let mut best: Option<HandRank> = None;
    let mut i: usize = 0;
    while i < 7
        invariant
            0 <= i <= 7,
            s == seven_cards@,
            s.len() == 7,
            i >= 1 ==> best is Some,
            best matches Some(h) ==> exists|a: int, b: int|
                0 <= a < b < 7 && h == rank_of_five(#[trigger] without_two(s, a, b)),
            best matches Some(h) ==> forall|a: int, b: int|
                0 <= a < i && a < b < 7 ==> rank_of_five(#[trigger] without_two(s, a, b)).is_at_most(h),
        decreases 7 - i,
    {
        let mut j: usize = i + 1;
        while j < 7
            invariant
                0 <= i < 7,
                i < j <= 7,
                s == seven_cards@,
                s.len() == 7,
                (i >= 1 || j > i + 1) ==> best is Some,
                best matches Some(h) ==> exists|a: int, b: int|
                    0 <= a < b < 7 && h == rank_of_five(#[trigger] without_two(s, a, b)),
                best matches Some(h) ==> forall|a: int, b: int|
                    0 <= a < i && a < b < 7 ==> rank_of_five(#[trigger] without_two(s, a, b)).is_at_most(
                        h,
                    ),
                best matches Some(h) ==> forall|b: int|
                    i < b < j ==> rank_of_five(#[trigger] without_two(s, i as int, b)).is_at_most(h),
            decreases 7 - j,
        {
            let mut hand: Vec<Card> = slice_to_vec(seven_cards);
            hand.remove(j);
            hand.remove(i);
            assert(hand@ == without_two(s, i as int, j as int));
            let current = find_best_rank_for_5_cards(hand.as_mut_slice());
            let replace = match &best {
                None => true,
                Some(h) => current.outranks(h),
            };
            proof {
                if let Some(h) = best {
                    if replace {
                        assert forall|a: int, b: int| 0 <= a < i && a < b < 7 implies rank_of_five(
                            #[trigger] without_two(s, a, b),
                        ).is_at_most(current) by {
                            HandRank::lemma_le_order(rank_of_five(without_two(s, a, b)), h, current);
                        }
                        assert forall|b: int| i < b < j implies rank_of_five(
                            #[trigger] without_two(s, i as int, b),
                        ).is_at_most(current) by {
                            HandRank::lemma_le_order(
                                rank_of_five(without_two(s, i as int, b)),
                                h,
                                current,
                            );
                        }
                    } else {
                        HandRank::lemma_le_order(current, h, current);
                    }
                }
            }
            if replace {
                best = Some(current);
            }
            j += 1;
        }
        i += 1;
    }
    proof {
        let h = best->0;
        assert(is_best_of_seven(s, h));
        lemma_best_of_seven_unique(s, h);
    }
    best
}

} // verus!
