//! The value of a five-card poker hand and the total order on such values.

use vstd::prelude::*;
use crate::cards::Rank;

verus! {

/// The category of a five-card hand together with its tie-break ranks.
///
/// Variants are listed from weakest to strongest. Within a variant the ranks
/// are listed from the most to the least significant.
#[derive(Debug, Clone, Copy, PartialEq, Eq, Ord, Structural)]
pub enum HandRank {
    /// Five unrelated cards, highest first.
    HighCard(Rank, Rank, Rank, Rank, Rank),
    /// The paired rank, then the three kickers, highest first.
    OnePair(Rank, Rank, Rank, Rank),
    /// The higher pair, the lower pair, the kicker.
    TwoPair(Rank, Rank, Rank),
    /// The tripled rank, then the two kickers, highest first.
    ThreeOfAKind(Rank, Rank, Rank),
    /// The top rank of the run; Five for the wheel.
    Straight(Rank),
    /// All five ranks, highest first.
    Flush(Rank, Rank, Rank, Rank, Rank),
    /// The tripled rank, then the paired rank.
    FullHouse(Rank, Rank),
    /// The quadrupled rank, then the kicker.
    FourOfAKind(Rank, Rank),
    /// The top rank of the run; Five for the wheel.
    StraightFlush(Rank),
    /// Ten to Ace in one suit.
    RoyalFlush,
}

/// A comparison key: the category number followed by five tie-break slots.
pub type RankKey = (int, int, int, int, int, int);

/// Lexicographic "strictly below" on comparison keys.
pub open spec fn key_lt(a: RankKey, b: RankKey) -> bool {
    a.0 < b.0 || (a.0 == b.0 && (a.1 < b.1 || (a.1 == b.1 && (a.2 < b.2 || (a.2 == b.2 && (a.3
        < b.3 || (a.3 == b.3 && (a.4 < b.4 || (a.4 == b.4 && a.5 < b.5)))))))))
}

impl HandRank {
    /// The category number: 0 for a high card up to 9 for a royal flush.
    pub open spec fn category(self) -> int {
        match self {
            HandRank::HighCard(..) => 0,
            HandRank::OnePair(..) => 1,
            HandRank::TwoPair(..) => 2,
            HandRank::ThreeOfAKind(..) => 3,
            HandRank::Straight(..) => 4,
            HandRank::Flush(..) => 5,
            HandRank::FullHouse(..) => 6,
            HandRank::FourOfAKind(..) => 7,
            HandRank::StraightFlush(..) => 8,
            HandRank::RoyalFlush => 9,
        }
    }

    /// The comparison key: the category, then the ordinals of the tie-break
    /// ranks in order of significance; slots a category does not use hold 0.
    pub open spec fn key(self) -> RankKey {
        match self {
            HandRank::HighCard(a, b, c, d, e) => (0, a.ord(), b.ord(), c.ord(), d.ord(), e.ord()),
            HandRank::OnePair(p, a, b, c) => (1, p.ord(), a.ord(), b.ord(), c.ord(), 0),
            HandRank::TwoPair(p, q, a) => (2, p.ord(), q.ord(), a.ord(), 0, 0),
            HandRank::ThreeOfAKind(t, a, b) => (3, t.ord(), a.ord(), b.ord(), 0, 0),
            HandRank::Straight(t) => (4, t.ord(), 0, 0, 0, 0),
            HandRank::Flush(a, b, c, d, e) => (5, a.ord(), b.ord(), c.ord(), d.ord(), e.ord()),
            HandRank::FullHouse(t, p) => (6, t.ord(), p.ord(), 0, 0, 0),
            HandRank::FourOfAKind(q, a) => (7, q.ord(), a.ord(), 0, 0, 0),
            HandRank::StraightFlush(t) => (8, t.ord(), 0, 0, 0, 0),
            HandRank::RoyalFlush => (9, 0, 0, 0, 0, 0),
        }
    }

    /// `self` is strictly weaker than `other`.
    pub open spec fn is_below(self, other: HandRank) -> bool {
        key_lt(self.key(), other.key())
    }

    /// `self` is weaker than or tied with `other`.
    pub open spec fn is_at_most(self, other: HandRank) -> bool {
        self == other || self.is_below(other)
    }

    /// The name of the category, as it is shown to players.
    pub open spec fn name(self) -> Seq<char> {
        match self {
            HandRank::RoyalFlush => "ロイヤルフラッシュ"@,
            HandRank::StraightFlush(..) => "ストレートフラッシュ"@,
            HandRank::FourOfAKind(..) => "フォーカード"@,
            HandRank::FullHouse(..) => "フルハウス"@,
            HandRank::Flush(..) => "フラッシュ"@,
            HandRank::Straight(..) => "ストレート"@,
            HandRank::ThreeOfAKind(..) => "スリーカード"@,
            HandRank::TwoPair(..) => "ツーペア"@,
            HandRank::OnePair(..) => "ワンペア"@,
            HandRank::HighCard(..) => "ハイカード"@,
        }
    }

    /// The name of the category, as it is shown to players. The ranks are
    /// not part of it.
    pub fn to_string(&self) -> (text: String)
        ensures
            text@ == self.name(),
    {
        let name = match self {
            HandRank::RoyalFlush => "ロイヤルフラッシュ",
            HandRank::StraightFlush(..) => "ストレートフラッシュ",
            HandRank::FourOfAKind(..) => "フォーカード",
            HandRank::FullHouse(..) => "フルハウス",
            HandRank::Flush(..) => "フラッシュ",
            HandRank::Straight(..) => "ストレート",
            HandRank::ThreeOfAKind(..) => "スリーカード",
            HandRank::TwoPair(..) => "ツーペア",
            HandRank::OnePair(..) => "ワンペア",
            HandRank::HighCard(..) => "ハイカード",
        };
        name.to_owned()
    }

    /// The comparison key as machine integers.
    pub fn key_parts(&self) -> (k: (u8, u8, u8, u8, u8, u8))
        ensures
            (k.0 as int, k.1 as int, k.2 as int, k.3 as int, k.4 as int, k.5 as int)
                == self.key(),
    {
        match self {
            HandRank::HighCard(a, b, c, d, e) => (
                0,
                a.ordinal(),
                b.ordinal(),
                c.ordinal(),
                d.ordinal(),
                e.ordinal(),
            ),
            HandRank::OnePair(p, a, b, c) => (1, p.ordinal(), a.ordinal(), b.ordinal(), c.ordinal(), 0),
            HandRank::TwoPair(p, q, a) => (2, p.ordinal(), q.ordinal(), a.ordinal(), 0, 0),
            HandRank::ThreeOfAKind(t, a, b) => (3, t.ordinal(), a.ordinal(), b.ordinal(), 0, 0),
            HandRank::Straight(t) => (4, t.ordinal(), 0, 0, 0, 0),
            HandRank::Flush(a, b, c, d, e) => (
                5,
                a.ordinal(),
                b.ordinal(),
                c.ordinal(),
                d.ordinal(),
                e.ordinal(),
            ),
            HandRank::FullHouse(t, p) => (6, t.ordinal(), p.ordinal(), 0, 0, 0),
            HandRank::FourOfAKind(q, a) => (7, q.ordinal(), a.ordinal(), 0, 0, 0),
            HandRank::StraightFlush(t) => (8, t.ordinal(), 0, 0, 0, 0),
            HandRank::RoyalFlush => (9, 0, 0, 0, 0, 0),
        }
    }

    /// Whether `self` is strictly stronger than `other`.
    pub fn outranks(&self, other: &HandRank) -> (b: bool)
        ensures
            b == other.is_below(*self),
    {
        let a = other.key_parts();
        let b = self.key_parts();
        a.0 < b.0 || (a.0 == b.0 && (a.1 < b.1 || (a.1 == b.1 && (a.2 < b.2 || (a.2 == b.2 && (a.3
            < b.3 || (a.3 == b.3 && (a.4 < b.4 || (a.4 == b.4 && a.5 < b.5)))))))))
    }

    /// Whether the two values tie.
    pub fn ties_with(&self, other: &HandRank) -> (b: bool)
        ensures
            b == (*self == *other),
    {
        proof {
            Self::lemma_key_determines_value(*self, *other);
        }
        let a = other.key_parts();
        let b = self.key_parts();
        a.0 == b.0 && a.1 == b.1 && a.2 == b.2 && a.3 == b.3 && a.4 == b.4 && a.5 == b.5
    }

    /// Two values with the same comparison key are the same value.
    pub proof fn lemma_key_determines_value(a: HandRank, b: HandRank)
        ensures
            a.key() == b.key() <==> a == b,
    {
        if a.key() == b.key() {
            assert(a.category() == b.category());
            match (a, b) {
                (HandRank::HighCard(a0, a1, a2, a3, a4), HandRank::HighCard(b0, b1, b2, b3, b4))
                | (HandRank::Flush(a0, a1, a2, a3, a4), HandRank::Flush(b0, b1, b2, b3, b4)) => {
                    Rank::lemma_ord_injective(a0, b0);
                    Rank::lemma_ord_injective(a1, b1);
                    Rank::lemma_ord_injective(a2, b2);
                    Rank::lemma_ord_injective(a3, b3);
                    Rank::lemma_ord_injective(a4, b4);
                },
                (HandRank::OnePair(a0, a1, a2, a3), HandRank::OnePair(b0, b1, b2, b3)) => {
                    Rank::lemma_ord_injective(a0, b0);
                    Rank::lemma_ord_injective(a1, b1);
                    Rank::lemma_ord_injective(a2, b2);
                    Rank::lemma_ord_injective(a3, b3);
                },
                (HandRank::TwoPair(a0, a1, a2), HandRank::TwoPair(b0, b1, b2))
                | (HandRank::ThreeOfAKind(a0, a1, a2), HandRank::ThreeOfAKind(b0, b1, b2)) => {
                    Rank::lemma_ord_injective(a0, b0);
                    Rank::lemma_ord_injective(a1, b1);
                    Rank::lemma_ord_injective(a2, b2);
                },
                (HandRank::FullHouse(a0, a1), HandRank::FullHouse(b0, b1))
                | (HandRank::FourOfAKind(a0, a1), HandRank::FourOfAKind(b0, b1)) => {
                    Rank::lemma_ord_injective(a0, b0);
                    Rank::lemma_ord_injective(a1, b1);
                },
                (HandRank::Straight(a0), HandRank::Straight(b0))
                | (HandRank::StraightFlush(a0), HandRank::StraightFlush(b0)) => {
                    Rank::lemma_ord_injective(a0, b0);
                },
                _ => {},
            }
        }
    }

    /// A hand of a higher category beats every hand of a lower category,
    /// whatever the ranks involved.
    pub proof fn lemma_category_decides(a: HandRank, b: HandRank)
        requires
            a.category() < b.category(),
        ensures
            a.is_below(b),
            !b.is_below(a),
            a != b,
    {
    }

    /// Of two values exactly one holds: the first is weaker, they are equal,
    /// or the second is weaker.
    pub proof fn lemma_trichotomy(a: HandRank, b: HandRank)
        ensures
            a.is_below(b) || a == b || b.is_below(a),
            !(a.is_below(b) && b.is_below(a)),
            !(a.is_below(b) && a == b),
    {
        Self::lemma_key_determines_value(a, b);
    }

    /// "Strictly weaker" is transitive.
    pub proof fn lemma_lt_transitive(a: HandRank, b: HandRank, c: HandRank)
        requires
            a.is_below(b),
            b.is_below(c),
        ensures
            a.is_below(c),
    {
    }

    /// "Weaker or tied" is transitive, and two values each weaker than or tied
    /// with the other are equal.
    pub proof fn lemma_le_order(a: HandRank, b: HandRank, c: HandRank)
        ensures
            a.is_at_most(b) && b.is_at_most(c) ==> a.is_at_most(c),
            a.is_at_most(b) && b.is_at_most(a) ==> a == b,
            a.is_at_most(b) || b.is_at_most(a),
            a.is_at_most(b) <==> !b.is_below(a),
    {
        Self::lemma_trichotomy(a, b);
    }
}

} // verus!
