//! Playing cards: suits, ranks, and the two-character card tokens.

use vstd::prelude::*;
use vstd::string::StrSliceExecFns;
use vstd::string::StringExecFns;
use crate::error::GameError;

verus! {

/// One of the four suits. Suits carry no strength.
#[derive(Debug, Clone, Copy, PartialEq, Eq, Hash, PartialOrd, Ord, Structural)]
pub enum Suit {
    Diamond,
    Club,
    Heart,
    Spade,
}

/// A card rank, Two low and Ace high.
#[derive(Debug, Clone, Copy, PartialEq, Eq, Hash, PartialOrd, Ord, Structural)]
pub enum Rank {
    Two,
    Three,
    Four,
    Five,
    Six,
    Seven,
    Eight,
    Nine,
    Ten,
    Jack,
    Queen,
    King,
    Ace,
}

/// A playing card. Two cards are the same card exactly when rank and suit agree.
#[derive(Debug, Clone, Copy, PartialEq, Eq, Hash, Structural)]
pub struct Card {
    pub rank: Rank,
    pub suit: Suit,
}

impl Rank {
    /// Position of the rank in the order Two, Three, ..., Ace, counted from 0.
    pub open spec fn ord(self) -> int {
        match self {
            Rank::Two => 0,
            Rank::Three => 1,
            Rank::Four => 2,
            Rank::Five => 3,
            Rank::Six => 4,
            Rank::Seven => 5,
            Rank::Eight => 6,
            Rank::Nine => 7,
            Rank::Ten => 8,
            Rank::Jack => 9,
            Rank::Queen => 10,
            Rank::King => 11,
            Rank::Ace => 12,
        }
    }

    /// The rank at a position of the order Two, ..., Ace; Ace for any position past the end.
    pub open spec fn of_ord(o: int) -> Rank {
        if o <= 0 {
            Rank::Two
        } else if o == 1 {
            Rank::Three
        } else if o == 2 {
            Rank::Four
        } else if o == 3 {
            Rank::Five
        } else if o == 4 {
            Rank::Six
        } else if o == 5 {
            Rank::Seven
        } else if o == 6 {
            Rank::Eight
        } else if o == 7 {
            Rank::Nine
        } else if o == 8 {
            Rank::Ten
        } else if o == 9 {
            Rank::Jack
        } else if o == 10 {
            Rank::Queen
        } else if o == 11 {
            Rank::King
        } else {
            Rank::Ace
        }
    }

    /// Position of the rank in the order Two, ..., Ace, counted from 0.
    pub fn ordinal(self) -> (o: u8)
        ensures
            o == self.ord(),
            o < 13,
    {
        match self {
            Rank::Two => 0,
            Rank::Three => 1,
            Rank::Four => 2,
            Rank::Five => 3,
            Rank::Six => 4,
            Rank::Seven => 5,
            Rank::Eight => 6,
            Rank::Nine => 7,
            Rank::Ten => 8,
            Rank::Jack => 9,
            Rank::Queen => 10,
            Rank::King => 11,
            Rank::Ace => 12,
        }
    }

    /// The rank with the given ordinal, if it is below 13.
    pub fn from_ordinal(o: u8) -> (r: Option<Rank>)
        ensures
            o < 13 ==> r == Some(Rank::of_ord(o as int)),
            o >= 13 ==> r is None,
    {
        match o {
            0 => Some(Rank::Two),
            1 => Some(Rank::Three),
            2 => Some(Rank::Four),
            3 => Some(Rank::Five),
            4 => Some(Rank::Six),
            5 => Some(Rank::Seven),
            6 => Some(Rank::Eight),
            7 => Some(Rank::Nine),
            8 => Some(Rank::Ten),
            9 => Some(Rank::Jack),
            10 => Some(Rank::Queen),
            11 => Some(Rank::King),
            12 => Some(Rank::Ace),
            _ => None,
        }
    }

    /// Ordinals lie in `0..13`, and converting there and back is the identity.
    pub broadcast proof fn lemma_ordinal_round_trip(self)
        ensures
            0 <= #[trigger] self.ord() < 13,
            Rank::of_ord(self.ord()) == self,
    {
    }

    /// Distinct ranks have distinct ordinals.
    pub proof fn lemma_ord_injective(a: Rank, b: Rank)
        ensures
            a.ord() == b.ord() <==> a == b,
    {
        Rank::lemma_ordinal_round_trip(a);
        Rank::lemma_ordinal_round_trip(b);
    }

    /// Every position in `0..13` is the ordinal of the rank found there.
    pub broadcast proof fn lemma_from_ordinal(o: int)
        requires
            0 <= o < 13,
        ensures
            (#[trigger] Rank::of_ord(o)).ord() == o,
    {
    }
}

/// The rank that a token character stands for.
pub open spec fn rank_of_char(c: char) -> Option<Rank> {
    if c == '2' {
        Some(Rank::Two)
    } else if c == '3' {
        Some(Rank::Three)
    } else if c == '4' {
        Some(Rank::Four)
    } else if c == '5' {
        Some(Rank::Five)
    } else if c == '6' {
        Some(Rank::Six)
    } else if c == '7' {
        Some(Rank::Seven)
    } else if c == '8' {
        Some(Rank::Eight)
    } else if c == '9' {
        Some(Rank::Nine)
    } else if c == 'T' {
        Some(Rank::Ten)
    } else if c == 'J' {
        Some(Rank::Jack)
    } else if c == 'Q' {
        Some(Rank::Queen)
    } else if c == 'K' {
        Some(Rank::King)
    } else if c == 'A' {
        Some(Rank::Ace)
    } else {
        None
    }
}

/// The suit that a token character stands for.
pub open spec fn suit_of_char(c: char) -> Option<Suit> {
    if c == 'H' {
        Some(Suit::Heart)
    } else if c == 'D' {
        Some(Suit::Diamond)
    } else if c == 'C' {
        Some(Suit::Club)
    } else if c == 'S' {
        Some(Suit::Spade)
    } else {
        None
    }
}

/// The card that a token stands for: a rank character followed by a suit
/// character, and nothing else.
pub open spec fn parse_token(t: Seq<char>) -> Option<Card> {
    if t.len() == 2 && rank_of_char(t[0]) is Some && suit_of_char(t[1]) is Some {
        Some(Card { rank: rank_of_char(t[0])->0, suit: suit_of_char(t[1])->0 })
    } else {
        None
    }
}

/// The cards that the tokens stand for, in order, with the tokens that stand
/// for no card left out.
pub open spec fn parse_tokens(tokens: Seq<String>) -> Seq<Card> {
    tokens.filter_map(|t: String| parse_token(t@))
}

/// The character that stands for a rank.
pub open spec fn rank_char(r: Rank) -> char {
    match r {
        Rank::Two => '2',
        Rank::Three => '3',
        Rank::Four => '4',
        Rank::Five => '5',
        Rank::Six => '6',
        Rank::Seven => '7',
        Rank::Eight => '8',
        Rank::Nine => '9',
        Rank::Ten => 'T',
        Rank::Jack => 'J',
        Rank::Queen => 'Q',
        Rank::King => 'K',
        Rank::Ace => 'A',
    }
}

/// The character that stands for a suit.
pub open spec fn suit_char(s: Suit) -> char {
    match s {
        Suit::Heart => 'H',
        Suit::Diamond => 'D',
        Suit::Club => 'C',
        Suit::Spade => 'S',
    }
}

/// The token of a card.
pub open spec fn token_of(c: Card) -> Seq<char> {
    seq![rank_char(c.rank), suit_char(c.suit)]
}

/// Parsing the token of a card gives the card back.
pub proof fn lemma_token_round_trip(c: Card)
    ensures
        parse_token(token_of(c)) == Some(c),
{
}

/// Reads one card token.
pub fn parse_card(s: &str) -> (card: Option<Card>)
    ensures
        card == parse_token(s@),
{
    if s.unicode_len() != 2 {
        return None;
    }
    let rank = match s.get_char(0) {
        '2' => Rank::Two,
        '3' => Rank::Three,
        '4' => Rank::Four,
        '5' => Rank::Five,
        '6' => Rank::Six,
        '7' => Rank::Seven,
        '8' => Rank::Eight,
        '9' => Rank::Nine,
        'T' => Rank::Ten,
        'J' => Rank::Jack,
        'Q' => Rank::Queen,
        'K' => Rank::King,
        'A' => Rank::Ace,
        _ => {
            return None;
        },
    };
    let suit = match s.get_char(1) {
        'H' => Suit::Heart,
        'D' => Suit::Diamond,
        'C' => Suit::Club,
        'S' => Suit::Spade,
        _ => {
            return None;
        },
    };
    Some(Card { rank, suit })
}

/// Reads a batch of card tokens leniently: a token that stands for no card
/// is dropped, and the others keep their order.
pub fn parse_cards(card_strs: &[String]) -> (cards: Vec<Card>)
    ensures
        cards@ == parse_tokens(card_strs@),
{
    let mut cards: Vec<Card> = Vec::new();
    let mut i: usize = 0;
    while i < card_strs.len()
        invariant
            0 <= i <= card_strs@.len(),
            cards@ == parse_tokens(card_strs@.take(i as int)),
        decreases card_strs@.len() - i,
    {
        let parsed = parse_card(card_strs[i].as_str());
        proof {
            let next = card_strs@.take(i + 1);
            assert(next.drop_last() =~= card_strs@.take(i as int));
            assert(next.last() == card_strs@[i as int]);
        }
        if let Some(card) = parsed {
            cards.push(card);
        }
        i += 1;
    }
    proof {
        assert(card_strs@.take(i as int) =~= card_strs@);
    }
    cards
}

impl Card {
    /// The two-character token of the card.
    pub fn token(&self) -> (t: String)
        ensures
            t@ == token_of(*self),
            parse_token(t@) == Some(*self),
    {
        let rank = match self.rank {
            Rank::Two => "2",
            Rank::Three => "3",
            Rank::Four => "4",
            Rank::Five => "5",
            Rank::Six => "6",
            Rank::Seven => "7",
            Rank::Eight => "8",
            Rank::Nine => "9",
            Rank::Ten => "T",
            Rank::Jack => "J",
            Rank::Queen => "Q",
            Rank::King => "K",
            Rank::Ace => "A",
        };
        let suit = match self.suit {
            Suit::Heart => "H",
            Suit::Diamond => "D",
            Suit::Club => "C",
            Suit::Spade => "S",
        };
        proof {
            reveal_strlit("2");
            reveal_strlit("3");
            reveal_strlit("4");
            reveal_strlit("5");
            reveal_strlit("6");
            reveal_strlit("7");
            reveal_strlit("8");
            reveal_strlit("9");
            reveal_strlit("T");
            reveal_strlit("J");
            reveal_strlit("Q");
            reveal_strlit("K");
            reveal_strlit("A");
            reveal_strlit("H");
            reveal_strlit("D");
            reveal_strlit("C");
            reveal_strlit("S");
            assert(rank@ =~= seq![rank_char(self.rank)]);
            assert(suit@ =~= seq![suit_char(self.suit)]);
        }
        let mut t = rank.to_owned();
        t.append(suit);
        proof {
            assert(t@ =~= token_of(*self));
            lemma_token_round_trip(*self);
        }
        t
    }
}

/// The tokens of the cards, in order.
pub fn card_tokens(cards: &[Card]) -> (tokens: Vec<String>)
    ensures
        tokens@.len() == cards@.len(),
        forall|i: int| 0 <= i < cards@.len() ==> (#[trigger] tokens@[i])@ == token_of(cards@[i]),
        parse_tokens(tokens@) == cards@,
{
    let mut tokens: Vec<String> = Vec::new();
    let mut i: usize = 0;
    while i < cards.len()
        invariant
            0 <= i <= cards@.len(),
            tokens@.len() == i,
            forall|k: int| 0 <= k < i ==> (#[trigger] tokens@[k])@ == token_of(cards@[k]),
            parse_tokens(tokens@) == cards@.take(i as int),
        decreases cards@.len() - i,
    {
        let ghost before = tokens@;
        let t = cards[i].token();
        tokens.push(t);
        proof {
            assert(tokens@.drop_last() =~= before);
            assert(cards@.take(i + 1) =~= cards@.take(i as int).push(cards@[i as int]));
        }
        i += 1;
    }
    proof {
        assert(cards@.take(i as int) =~= cards@);
    }
    tokens
}

/// The cards of `first` followed by the cards of `second`.
pub fn join_cards(first: &[Card], second: &[Card]) -> (all: Vec<Card>)
    ensures
        all@ == first@ + second@,
{
    let mut all: Vec<Card> = Vec::new();
    let mut i: usize = 0;
    proof {
        assert(all@ =~= first@.take(0));
    }
    while i < first.len()
        invariant
            0 <= i <= first@.len(),
            all@ == first@.take(i as int),
        decreases first@.len() - i,
    {
        all.push(first[i]);
        proof {
            assert(all@ =~= first@.take(i + 1));
        }
        i += 1;
    }
    let mut j: usize = 0;
    proof {
        assert(first@.take(i as int) =~= first@);
        assert(all@ =~= first@ + second@.take(0));
    }
    while j < second.len()
        invariant
            0 <= j <= second@.len(),
            all@ == first@ + second@.take(j as int),
        decreases second@.len() - j,
    {
        all.push(second[j]);
        proof {
            assert(all@ =~= first@ + second@.take(j + 1));
        }
        j += 1;
    }
    proof {
        assert(second@.take(j as int) =~= second@);
    }
    all
}

/// The suit at a position of the order in which a new deck lists the suits.
pub open spec fn deck_suit(i: int) -> Suit {
    if i <= 0 {
        Suit::Heart
    } else if i == 1 {
        Suit::Diamond
    } else if i == 2 {
        Suit::Club
    } else {
        Suit::Spade
    }
}

/// The position of a suit in the order in which a new deck lists the suits.
pub open spec fn deck_suit_index(s: Suit) -> int {
    match s {
        Suit::Heart => 0,
        Suit::Diamond => 1,
        Suit::Club => 2,
        Suit::Spade => 3,
    }
}

/// A new deck: hearts, diamonds, clubs, spades, each suit from the Two up to the Ace.
pub open spec fn full_deck() -> Seq<Card> {
    Seq::new(52, |i: int| Card { rank: Rank::of_ord(i % 13), suit: deck_suit(i / 13) })
}

/// The position of a card in a new deck.
pub open spec fn deck_position(c: Card) -> int {
    deck_suit_index(c.suit) * 13 + c.rank.ord()
}

/// A new deck holds 52 cards, each card at its own position and no card twice.
pub proof fn lemma_full_deck_complete()
    ensures
        full_deck().len() == 52,
        forall|c: Card| 0 <= #[trigger] deck_position(c) < 52 && full_deck()[deck_position(c)] == c,
        forall|i: int, j: int| 0 <= i < j < 52 ==> full_deck()[i] != full_deck()[j],
        full_deck().no_duplicates(),
{
    assert forall|c: Card| 0 <= #[trigger] deck_position(c) < 52 && full_deck()[deck_position(c)]
        == c by {
        Rank::lemma_ordinal_round_trip(c.rank);
    }
    assert forall|i: int, j: int| 0 <= i < j < 52 implies full_deck()[i] != full_deck()[j] by {
        Rank::lemma_from_ordinal(i % 13);
        Rank::lemma_from_ordinal(j % 13);
        assert(deck_suit_index(deck_suit(i / 13)) == i / 13);
        assert(deck_suit_index(deck_suit(j / 13)) == j / 13);
    }
}

/// Builds a new deck in its fixed order.
pub fn create_deck() -> (deck: Vec<Card>)
    ensures
        deck@ == full_deck(),
        deck@.len() == 52,
        deck@.no_duplicates(),
{
    let mut deck: Vec<Card> = Vec::new();
    let mut s: u8 = 0;
    while s < 4
        invariant
            0 <= s <= 4,
            deck@.len() == s * 13,
            forall|k: int| 0 <= k < deck@.len() ==> deck@[k] == full_deck()[k],
        decreases 4 - s,
    {
        let suit = if s == 0 {
            Suit::Heart
        } else if s == 1 {
            Suit::Diamond
        } else if s == 2 {
            Suit::Club
        } else {
            Suit::Spade
        };
        let mut r: u8 = 0;
        while r < 13
            invariant
                0 <= s < 4,
                0 <= r <= 13,
                suit == deck_suit(s as int),
                deck@.len() == s * 13 + r,
                forall|k: int| 0 <= k < deck@.len() ==> deck@[k] == full_deck()[k],
            decreases 13 - r,
        {
            let rank = Rank::from_ordinal(r);
            match rank {
                Some(rank) => {
                    deck.push(Card { rank, suit });
                },
                None => {},
            }
            r += 1;
        }
        s += 1;
    }
    proof {
        lemma_full_deck_complete();
        assert(deck@ =~= full_deck());
    }
    deck
}

/// Takes the top card, the last of the sequence, off the deck.
pub fn deal_one(deck: &mut Vec<Card>) -> (dealt: Result<Card, GameError>)
    ensures
        match dealt {
            Ok(card) => old(deck)@.len() > 0 && card == old(deck)@.last() && final(deck)@ == old(
                deck,
            )@.drop_last(),
            Err(e) => e == GameError::DeckExhausted && old(deck)@.len() == 0 && final(deck)@ == old(
                deck,
            )@,
        },
{
    match deck.pop() {
        Some(card) => Ok(card),
        None => Err(GameError::DeckExhausted),
    }
}

/// What `k` deals leave of a deck, and what they have dealt, the first card dealt first.
pub open spec fn after_deals(deck: Seq<Card>, k: nat) -> (Seq<Card>, Seq<Card>)
    decreases k,
{
    if k == 0 {
        (deck, Seq::empty())
    } else {
        let (rest, dealt) = after_deals(deck, (k - 1) as nat);
        (rest.drop_last(), dealt.push(rest.last()))
    }
}

/// However many cards have been dealt, the cards dealt and the cards left
/// are together the cards of the deck before the first deal, each as often
/// as it was there: no card is lost, none appears twice.
pub proof fn lemma_deals_keep_cards(deck: Seq<Card>, k: nat)
    requires
        k <= deck.len(),
    ensures
        after_deals(deck, k).0 == deck.take(deck.len() - k),
        after_deals(deck, k).1.len() == k,
        after_deals(deck, k).0.to_multiset().add(after_deals(deck, k).1.to_multiset())
            == deck.to_multiset(),
    decreases k,
{
    broadcast use vstd::multiset::group_multiset_axioms;
    broadcast use vstd::seq_lib::group_to_multiset_ensures;

    if k == 0 {
        assert(deck.take(deck.len() as int) =~= deck);
        assert(Seq::<Card>::empty().to_multiset() =~= vstd::multiset::Multiset::empty());
        assert(deck.to_multiset().add(Seq::<Card>::empty().to_multiset()) =~= deck.to_multiset());
    } else {
        lemma_deals_keep_cards(deck, (k - 1) as nat);
        let (rest, dealt) = after_deals(deck, (k - 1) as nat);
        assert(rest.drop_last() =~= deck.take(deck.len() - k));
        assert(rest =~= rest.drop_last().push(rest.last()));
        assert(rest.to_multiset() =~= rest.drop_last().to_multiset().insert(rest.last()));
        assert(dealt.push(rest.last()).to_multiset() =~= dealt.to_multiset().insert(rest.last()));
        assert(rest.drop_last().to_multiset().add(dealt.push(rest.last()).to_multiset())
            =~= rest.to_multiset().add(dealt.to_multiset()));
    }
}

} // verus!
