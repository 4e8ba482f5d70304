//! What the value of a five-card hand means: how its category and its ranks
//! relate to the cards, and that no stronger category fits them.

use vstd::prelude::*;
use vstd::relations::sorted_by;
use crate::cards::Card;
use crate::cards::Rank;
use crate::hand_evaluator::is_flush;
use crate::hand_evaluator::is_straight;
use crate::hand_evaluator::is_wheel;
use crate::hand_evaluator::lemma_rank_geq_total;
use crate::hand_evaluator::rank_geq;
use crate::hand_evaluator::rank_of_five;
use crate::hand_evaluator::ranks_descending;
use crate::hand_evaluator::ranks_of;
use crate::hand_evaluator::run_of;
use crate::ranking::HandRank;

verus! {

/// How often the rank occurs among the ranks.
pub open spec fn occurrences(r: Seq<Rank>, x: Rank) -> nat
    decreases r.len(),
{
    if r.len() == 0 {
        0
    } else {
        occurrences(r.drop_last(), x) + if r.last() == x {
            1nat
        } else {
            0nat
        }
    }
}

/// Among the first `k` of ranks that are ordered from the highest down, a
/// rank that fills a run occurs as often as the run reaches into them.
proof fn lemma_run_prefix(r: Seq<Rank>, start: int, n: int, k: int)
    requires
        sorted_by(r, rank_geq()),
        0 <= start,
        1 <= n,
        start + n <= r.len(),
        run_of(r, start, n),
        0 <= k <= r.len(),
    ensures
        occurrences(r.take(k), r[start]) == if k <= start {
            0
        } else if k <= start + n {
            k - start
        } else {
            n
        },
    decreases k,
{
    if k > 0 {
        lemma_run_prefix(r, start, n, k - 1);
        assert(r.take(k).drop_last() =~= r.take(k - 1));
        assert(r.take(k).last() == r[k - 1]);
        let i = k - 1;
        if i < start {
            assert(rank_geq()(r[i], r[start - 1]) || i == start - 1);
            assert(rank_geq()(r[start - 1], r[start]));
            Rank::lemma_ord_injective(r[start - 1], r[start]);
            Rank::lemma_ord_injective(r[i], r[start]);
        } else if i >= start + n {
            assert(rank_geq()(r[start + n], r[i]) || i == start + n);
            assert(rank_geq()(r[start], r[start + n]));
            Rank::lemma_ord_injective(r[start + n], r[start]);
            Rank::lemma_ord_injective(r[i], r[start]);
        } else {
            assert(r[i] == r[start]);
        }
    }
}

/// In ranks ordered from the highest down, the rank that fills a run of
/// `n` positions occurs exactly `n` times.
pub proof fn lemma_run_is_multiplicity(r: Seq<Rank>, start: int, n: int)
    requires
        sorted_by(r, rank_geq()),
        0 <= start,
        1 <= n,
        start + n <= r.len(),
        run_of(r, start, n),
    ensures
        occurrences(r, r[start]) == n,
{
    lemma_run_prefix(r, start, n, r.len() as int);
    assert(r.take(r.len() as int) =~= r);
}

/// A five-card hand of a higher category beats every five-card hand of a
/// lower category, whatever the ranks in either: any pair beats any high
/// card, any two pair any pair, any three of a kind any two pair, any
/// straight any three of a kind, any flush any straight, any full house any
/// flush, any four of a kind any full house, any straight flush any four of
/// a kind, and the royal flush every other hand.
pub proof fn lemma_higher_category_wins(weak: Seq<Card>, strong: Seq<Card>)
    requires
        rank_of_five(weak).category() < rank_of_five(strong).category(),
    ensures
        rank_of_five(weak).is_below(rank_of_five(strong)),
        !rank_of_five(strong).is_below(rank_of_five(weak)),
{
    HandRank::lemma_category_decides(rank_of_five(weak), rank_of_five(strong));
}

/// The five ranks of a straight that tops at `top`, each occur once among
/// the ranks: `top` and the three ranks below it, and below those the next
/// rank, or the Ace when `top` is the Five.
pub open spec fn straight_to(r: Seq<Rank>, top: Rank) -> bool {
    &&& top.ord() >= 3
    &&& occurrences(r, top) == 1
    &&& occurrences(r, Rank::of_ord(top.ord() - 1)) == 1
    &&& occurrences(r, Rank::of_ord(top.ord() - 2)) == 1
    &&& occurrences(r, Rank::of_ord(top.ord() - 3)) == 1
    &&& occurrences(
        r,
        if top == Rank::Five {
            Rank::Ace
        } else {
            Rank::of_ord(top.ord() - 4)
        },
    ) == 1
}

/// What a hand value says of five cards: how often its ranks occur among
/// them, whether they share a suit, and in which order the kickers stand.
pub open spec fn describes(h: HandRank, cards: Seq<Card>) -> bool {
    let r = ranks_of(cards);
    match h {
        HandRank::RoyalFlush => is_flush(cards) && straight_to(r, Rank::Ace),
        HandRank::StraightFlush(t) => is_flush(cards) && t != Rank::Ace && straight_to(r, t),
        HandRank::FourOfAKind(q, k) => occurrences(r, q) == 4 && occurrences(r, k) == 1,
        HandRank::FullHouse(t, p) => occurrences(r, t) == 3 && occurrences(r, p) == 2,
        HandRank::Flush(a, b, c, d, e) => is_flush(cards) && ranks_descending(cards)
            == seq![a, b, c, d, e],
        HandRank::Straight(t) => !is_flush(cards) && straight_to(r, t),
        HandRank::ThreeOfAKind(t, a, b) => {
            &&& occurrences(r, t) == 3
            &&& occurrences(r, a) == 1
            &&& occurrences(r, b) == 1
            &&& a.ord() > b.ord()
        },
        HandRank::TwoPair(p, q, k) => {
            &&& occurrences(r, p) == 2
            &&& occurrences(r, q) == 2
            &&& occurrences(r, k) == 1
            &&& p.ord() > q.ord()
        },
        HandRank::OnePair(p, a, b, c) => {
            &&& occurrences(r, p) == 2
            &&& occurrences(r, a) == 1
            &&& occurrences(r, b) == 1
            &&& occurrences(r, c) == 1
            &&& a.ord() > b.ord() > c.ord()
        },
        HandRank::HighCard(a, b, c, d, e) => !is_flush(cards) && ranks_descending(cards)
            == seq![a, b, c, d, e],
    }
}

/// A rank occurs among ranks as often as in their multiset.
pub proof fn lemma_occurrences_is_count(r: Seq<Rank>, x: Rank)
    ensures
        occurrences(r, x) == r.to_multiset().count(x),
    decreases r.len(),
{
    broadcast use vstd::multiset::group_multiset_axioms;
    broadcast use vstd::seq_lib::group_to_multiset_ensures;

    if r.len() == 0 {
        assert(r.to_multiset().len() == 0);
    } else {
        lemma_occurrences_is_count(r.drop_last(), x);
        assert(r =~= r.drop_last().push(r.last()));
    }
}

/// A rank that fills a run of `n` positions of the cards' ranks from the
/// highest down occurs `n` times among the cards.
proof fn lemma_run_among_cards(cards: Seq<Card>, start: int, n: int)
    requires
        0 <= start,
        1 <= n,
        start + n <= cards.len(),
        run_of(ranks_descending(cards), start, n),
    ensures
        occurrences(ranks_of(cards), ranks_descending(cards)[start]) == n,
{
    let r = ranks_descending(cards);
    lemma_rank_geq_total();
    ranks_of(cards).lemma_sort_by_ensures(rank_geq());
    r.to_multiset_ensures();
    ranks_of(cards).to_multiset_ensures();
    lemma_run_is_multiplicity(r, start, n);
    lemma_occurrences_is_count(r, r[start]);
    lemma_occurrences_is_count(ranks_of(cards), r[start]);
}

/// The value of five cards describes them: the ranks it names occur among
/// the cards as often as its category says, a flush shares one suit, a
/// straight holds its five ranks once each, and kickers stand from the
/// highest down.
pub proof fn lemma_value_describes_cards(cards: Seq<Card>)
    requires
        cards.len() == 5,
    ensures
        describes(rank_of_five(cards), cards),
{
    let r = ranks_descending(cards);
    let flush = is_flush(cards);
    lemma_rank_geq_total();
    ranks_of(cards).lemma_sort_by_ensures(rank_geq());
    r.to_multiset_ensures();
    ranks_of(cards).to_multiset_ensures();
    assert(r.len() == 5);
    assert(rank_geq()(r[0], r[1]) && rank_geq()(r[1], r[2]) && rank_geq()(r[2], r[3]) && rank_geq()(
        r[3],
        r[4],
    ));
    Rank::lemma_ord_injective(r[0], r[1]);
    Rank::lemma_ord_injective(r[1], r[2]);
    Rank::lemma_ord_injective(r[2], r[3]);
    Rank::lemma_ord_injective(r[3], r[4]);
    if is_straight(r) || is_wheel(r) {
        assert(run_of(r, 0, 1) && run_of(r, 1, 1) && run_of(r, 2, 1) && run_of(r, 3, 1) && run_of(
            r,
            4,
            1,
        ));
        lemma_run_among_cards(cards, 0, 1);
        lemma_run_among_cards(cards, 1, 1);
        lemma_run_among_cards(cards, 2, 1);
        lemma_run_among_cards(cards, 3, 1);
        lemma_run_among_cards(cards, 4, 1);
        Rank::lemma_ordinal_round_trip(r[0]);
        Rank::lemma_ordinal_round_trip(r[1]);
        Rank::lemma_ordinal_round_trip(r[2]);
        Rank::lemma_ordinal_round_trip(r[3]);
        Rank::lemma_ordinal_round_trip(r[4]);
    }
    if is_straight(r) && flush {
    } else if is_wheel(r) && flush {
    } else if run_of(r, 0, 4) {
        lemma_run_among_cards(cards, 0, 4);
        lemma_run_among_cards(cards, 4, 1);
    } else if run_of(r, 1, 4) {
        lemma_run_among_cards(cards, 1, 4);
        lemma_run_among_cards(cards, 0, 1);
    } else if run_of(r, 0, 3) && run_of(r, 3, 2) {
        lemma_run_among_cards(cards, 0, 3);
        lemma_run_among_cards(cards, 3, 2);
    } else if run_of(r, 0, 2) && run_of(r, 2, 3) {
        lemma_run_among_cards(cards, 0, 2);
        lemma_run_among_cards(cards, 2, 3);
    } else if flush {
        assert(r =~= seq![r[0], r[1], r[2], r[3], r[4]]);
    } else if is_straight(r) {
    } else if is_wheel(r) {
    } else if run_of(r, 0, 3) {
        lemma_run_among_cards(cards, 0, 3);
        lemma_run_among_cards(cards, 3, 1);
        lemma_run_among_cards(cards, 4, 1);
    } else if run_of(r, 1, 3) {
        lemma_run_among_cards(cards, 1, 3);
        lemma_run_among_cards(cards, 0, 1);
        lemma_run_among_cards(cards, 4, 1);
    } else if run_of(r, 2, 3) {
        lemma_run_among_cards(cards, 2, 3);
        lemma_run_among_cards(cards, 0, 1);
        lemma_run_among_cards(cards, 1, 1);
    } else if run_of(r, 0, 2) && run_of(r, 2, 2) {
        lemma_run_among_cards(cards, 0, 2);
        lemma_run_among_cards(cards, 2, 2);
        lemma_run_among_cards(cards, 4, 1);
    } else if run_of(r, 0, 2) && run_of(r, 3, 2) {
        lemma_run_among_cards(cards, 0, 2);
        lemma_run_among_cards(cards, 3, 2);
        lemma_run_among_cards(cards, 2, 1);
    } else if run_of(r, 1, 2) && run_of(r, 3, 2) {
        lemma_run_among_cards(cards, 1, 2);
        lemma_run_among_cards(cards, 3, 2);
        lemma_run_among_cards(cards, 0, 1);
    } else if run_of(r, 0, 2) {
        lemma_run_among_cards(cards, 0, 2);
        lemma_run_among_cards(cards, 2, 1);
        lemma_run_among_cards(cards, 3, 1);
        lemma_run_among_cards(cards, 4, 1);
    } else if run_of(r, 1, 2) {
        lemma_run_among_cards(cards, 1, 2);
        lemma_run_among_cards(cards, 0, 1);
        lemma_run_among_cards(cards, 3, 1);
        lemma_run_among_cards(cards, 4, 1);
    } else if run_of(r, 2, 2) {
        lemma_run_among_cards(cards, 2, 2);
        lemma_run_among_cards(cards, 0, 1);
        lemma_run_among_cards(cards, 1, 1);
        lemma_run_among_cards(cards, 4, 1);
    } else if run_of(r, 3, 2) {
        lemma_run_among_cards(cards, 3, 2);
        lemma_run_among_cards(cards, 0, 1);
        lemma_run_among_cards(cards, 1, 1);
        lemma_run_among_cards(cards, 2, 1);
    } else {
        assert(r =~= seq![r[0], r[1], r[2], r[3], r[4]]);
    }
}

/// A rank that occurs among ranks stands at one of their positions.
proof fn lemma_occurring_rank_has_position(r: Seq<Rank>, x: Rank) -> (i: int)
    requires
        occurrences(r, x) > 0,
    ensures
        0 <= i < r.len(),
        r[i] == x,
    decreases r.len(),
{
    if r.last() == x {
        r.len() - 1
    } else {
        lemma_occurring_rank_has_position(r.drop_last(), x)
    }
}

/// Among five ranks ordered from the highest down, a rank that occurs `n`
/// times fills a run of `n` positions, and a rank that occurs at all
/// stands at a position.
proof fn lemma_multiplicity_is_run(r: Seq<Rank>, x: Rank) -> (start: int)
    requires
        r.len() == 5,
        sorted_by(r, rank_geq()),
        occurrences(r, x) > 0,
    ensures
        0 <= start < 5,
        start + occurrences(r, x) <= 5,
        r[start] == x,
        run_of(r, start, occurrences(r, x) as int),
{
    let i = lemma_occurring_rank_has_position(r, x);
    let start = if i >= 1 && r[i - 1] == x {
        if i >= 2 && r[i - 2] == x {
            if i >= 3 && r[i - 3] == x {
                if i >= 4 && r[i - 4] == x {
                    i - 4
                } else {
                    i - 3
                }
            } else {
                i - 2
            }
        } else {
            i - 1
        }
    } else {
        i
    };
    let n = if start + 1 < 5 && r[start + 1] == x {
        if start + 2 < 5 && r[start + 2] == x {
            if start + 3 < 5 && r[start + 3] == x {
                if start + 4 < 5 && r[start + 4] == x {
                    5int
                } else {
                    4int
                }
            } else {
                3int
            }
        } else {
            2int
        }
    } else {
        1int
    };
    assert(run_of(r, start, n));
    lemma_run_is_multiplicity(r, start, n);
    start
}

/// Five cards and their ranks from the highest down hold every rank equally often.
proof fn lemma_descending_keeps_occurrences(cards: Seq<Card>, x: Rank)
    ensures
        occurrences(ranks_of(cards), x) == occurrences(ranks_descending(cards), x),
        ranks_descending(cards).len() == cards.len(),
        sorted_by(ranks_descending(cards), rank_geq()),
{
    lemma_rank_geq_total();
    ranks_of(cards).lemma_sort_by_ensures(rank_geq());
    ranks_descending(cards).to_multiset_ensures();
    ranks_of(cards).to_multiset_ensures();
    lemma_occurrences_is_count(ranks_of(cards), x);
    lemma_occurrences_is_count(ranks_descending(cards), x);
}

/// Five cards in which a rank occurs `n` times, for `n` from two to four,
/// have a value of at least the category of a pair, of three of a kind, or
/// of four of a kind.
proof fn lemma_multiple_is_valued(cards: Seq<Card>, x: Rank)
    requires
        cards.len() == 5,
        2 <= occurrences(ranks_of(cards), x) <= 4,
    ensures
        occurrences(ranks_of(cards), x) == 4 ==> rank_of_five(cards).category() >= 7,
        occurrences(ranks_of(cards), x) == 3 ==> rank_of_five(cards).category() >= 3,
        occurrences(ranks_of(cards), x) == 2 ==> rank_of_five(cards).category() >= 1,
{
    let r = ranks_descending(cards);
    lemma_descending_keeps_occurrences(cards, x);
    let start = lemma_multiplicity_is_run(r, x);
    assert(run_of(r, start, occurrences(r, x) as int));
}

/// Five cards in which two ranks occur more than once have a value of at
/// least the category of two pair, and of at least that of a full house when
/// one of the two occurs three times.
proof fn lemma_two_multiples_are_valued(cards: Seq<Card>, x: Rank, y: Rank)
    requires
        cards.len() == 5,
        x != y,
        2 <= occurrences(ranks_of(cards), x) <= 3,
        occurrences(ranks_of(cards), y) == 2,
    ensures
        occurrences(ranks_of(cards), x) == 3 ==> rank_of_five(cards).category() >= 6,
        occurrences(ranks_of(cards), x) == 2 ==> rank_of_five(cards).category() >= 2,
{
    let r = ranks_descending(cards);
    lemma_descending_keeps_occurrences(cards, x);
    lemma_descending_keeps_occurrences(cards, y);
    let sx = lemma_multiplicity_is_run(r, x);
    let sy = lemma_multiplicity_is_run(r, y);
    assert(run_of(r, sx, occurrences(r, x) as int));
    assert(run_of(r, sy, 2));
    assert(sx != sy);
}

/// Five cards that hold the five ranks of a straight have a value of at
/// least the category of a straight.
proof fn lemma_straight_is_valued(cards: Seq<Card>, top: Rank)
    requires
        cards.len() == 5,
        straight_to(ranks_of(cards), top),
    ensures
        rank_of_five(cards).category() >= 4,
{
    let r = ranks_descending(cards);
    let second = Rank::of_ord(top.ord() - 1);
    let third = Rank::of_ord(top.ord() - 2);
    let fourth = Rank::of_ord(top.ord() - 3);
    let low = if top == Rank::Five {
        Rank::Ace
    } else {
        Rank::of_ord(top.ord() - 4)
    };
    lemma_descending_keeps_occurrences(cards, top);
    lemma_descending_keeps_occurrences(cards, second);
    lemma_descending_keeps_occurrences(cards, third);
    lemma_descending_keeps_occurrences(cards, fourth);
    lemma_descending_keeps_occurrences(cards, low);
    let a = lemma_multiplicity_is_run(r, top);
    let b = lemma_multiplicity_is_run(r, second);
    let c = lemma_multiplicity_is_run(r, third);
    let d = lemma_multiplicity_is_run(r, fourth);
    let e = lemma_multiplicity_is_run(r, low);
    Rank::lemma_ordinal_round_trip(top);
    Rank::lemma_from_ordinal(top.ord() - 1);
    Rank::lemma_from_ordinal(top.ord() - 2);
    Rank::lemma_from_ordinal(top.ord() - 3);
    if top != Rank::Five {
        Rank::lemma_from_ordinal(top.ord() - 4);
    }
    assert(rank_geq()(r[0], r[1]) && rank_geq()(r[1], r[2]) && rank_geq()(r[2], r[3]) && rank_geq()(
        r[3],
        r[4],
    ));
    assert(a != b && a != c && a != d && a != e && b != c && b != d && b != e && c != d && c != e
        && d != e);
    assert(is_straight(r) || is_wheel(r));
}

/// The value of five cards is of the strongest category that the cards
/// fill: cards with four of a rank, with three of one rank and two of
/// another, of one suit, with the five ranks of a straight, with three of a
/// rank, with two pairs or with one pair have a value of at least the
/// category that goes by that name.
pub proof fn lemma_value_is_strongest(cards: Seq<Card>)
    requires
        cards.len() == 5,
    ensures
        (exists|x: Rank| occurrences(ranks_of(cards), x) == 4) ==> rank_of_five(cards).category()
            >= 7,
        (exists|x: Rank, y: Rank|
            occurrences(ranks_of(cards), x) == 3 && occurrences(ranks_of(cards), y) == 2)
            ==> rank_of_five(cards).category() >= 6,
        is_flush(cards) ==> rank_of_five(cards).category() >= 5,
        (exists|t: Rank| straight_to(ranks_of(cards), t)) ==> rank_of_five(cards).category() >= 4,
        (exists|x: Rank| occurrences(ranks_of(cards), x) == 3) ==> rank_of_five(cards).category()
            >= 3,
        (exists|x: Rank, y: Rank|
            x != y && occurrences(ranks_of(cards), x) == 2 && occurrences(ranks_of(cards), y) == 2)
            ==> rank_of_five(cards).category() >= 2,
        (exists|x: Rank| occurrences(ranks_of(cards), x) == 2) ==> rank_of_five(cards).category()
            >= 1,
{
    let given = ranks_of(cards);
    assert forall|x: Rank| 2 <= occurrences(given, x) <= 4 implies (occurrences(given, x) == 4
        ==> rank_of_five(cards).category() >= 7) && (occurrences(given, x) == 3 ==> rank_of_five(
        cards,
    ).category() >= 3) && (occurrences(given, x) == 2 ==> rank_of_five(cards).category() >= 1) by {
        lemma_multiple_is_valued(cards, x);
    }
    assert forall|x: Rank, y: Rank|
        x != y && 2 <= occurrences(given, x) <= 3 && occurrences(given, y) == 2 implies (
    occurrences(given, x) == 3 ==> rank_of_five(cards).category() >= 6) && (occurrences(given, x)
        == 2 ==> rank_of_five(cards).category() >= 2) by {
        lemma_two_multiples_are_valued(cards, x, y);
    }
    assert forall|t: Rank| straight_to(given, t) implies rank_of_five(cards).category() >= 4 by {
        lemma_straight_is_valued(cards, t);
    }
}

} // verus!
