use holdem_engine::cards::Rank::{
    Ace, Eight, Five, Four, Jack, King, Nine, Queen, Seven, Six, Ten, Three, Two,
};
use holdem_engine::cards::{parse_card, parse_cards, Card, Rank, Suit};
use holdem_engine::hand_evaluator::{evaluate_hand, find_best_rank_for_5_cards};
use holdem_engine::ranking::HandRank;

fn cards(tokens: &[&str]) -> Vec<Card> {
    let owned: Vec<String> = tokens.iter().map(|t| t.to_string()).collect();
    parse_cards(&owned)
}

fn five(tokens: &[&str]) -> HandRank {
    let mut hand = cards(tokens);
    assert_eq!(hand.len(), 5);
    find_best_rank_for_5_cards(&mut hand)
}

#[test]
fn wheel_flush_is_five_high_straight_flush() {
    let wheel = five(&["AH", "2H", "3H", "4H", "5H"]);
    assert_eq!(wheel, HandRank::StraightFlush(Rank::Five));
    let six_high = five(&["2H", "3H", "4H", "5H", "6H"]);
    assert_eq!(six_high, HandRank::StraightFlush(Rank::Six));
    assert!(six_high.outranks(&wheel));
    let quads = five(&["AH", "AD", "AC", "AS", "KH"]);
    assert_eq!(quads, HandRank::FourOfAKind(Rank::Ace, Rank::King));
    assert!(wheel.outranks(&quads));
}

#[test]
fn second_pair_decides_before_kicker() {
    let kings = five(&["AS", "AD", "KH", "KS", "2C"]);
    let queens = five(&["AH", "AC", "QS", "QD", "2D"]);
    assert_eq!(kings, HandRank::TwoPair(Rank::Ace, Rank::King, Rank::Two));
    assert_eq!(queens, HandRank::TwoPair(Rank::Ace, Rank::Queen, Rank::Two));
    assert!(kings.outranks(&queens));
    assert!(!queens.outranks(&kings));
}

#[test]
fn seven_cards_give_best_five() {
    let seven = cards(&["AH", "KH", "QH", "JH", "TH", "2C", "2D"]);
    assert_eq!(evaluate_hand(&seven), Some(HandRank::RoyalFlush));
    let six = cards(&["AH", "KH", "QH", "JH", "TH", "2C"]);
    assert_eq!(evaluate_hand(&six), None);
}

#[test]
fn parse_single_card() {
    assert_eq!(parse_card("AS"), Some(Card { rank: Rank::Ace, suit: Suit::Spade }));
    assert_eq!(parse_card("1S"), None);
}

#[test]
fn every_category_is_recognised() {
    assert_eq!(five(&["AH", "KH", "QH", "JH", "TH"]), HandRank::RoyalFlush);
    assert_eq!(five(&["9S", "KS", "QS", "JS", "TS"]), HandRank::StraightFlush(King));
    assert_eq!(five(&["7H", "7D", "7C", "7S", "2H"]), HandRank::FourOfAKind(Seven, Two));
    assert_eq!(five(&["7H", "AD", "AC", "AS", "AH"]), HandRank::FourOfAKind(Ace, Seven));
    assert_eq!(five(&["7H", "7D", "7C", "2S", "2H"]), HandRank::FullHouse(Seven, Two));
    assert_eq!(five(&["7H", "7D", "KC", "KS", "KH"]), HandRank::FullHouse(King, Seven));
    assert_eq!(five(&["2D", "9D", "KD", "4D", "JD"]), HandRank::Flush(King, Jack, Nine, Four, Two));
    assert_eq!(five(&["6D", "9S", "8D", "7D", "TD"]), HandRank::Straight(Ten));
    assert_eq!(five(&["AD", "2S", "3D", "4D", "5D"]), HandRank::Straight(Five));
    assert_eq!(five(&["AD", "KS", "QD", "JD", "TC"]), HandRank::Straight(Ace));
    assert_eq!(five(&["7H", "7D", "7C", "KS", "2H"]), HandRank::ThreeOfAKind(Seven, King, Two));
    assert_eq!(five(&["7H", "KD", "KC", "KS", "AH"]), HandRank::ThreeOfAKind(King, Ace, Seven));
    assert_eq!(five(&["2H", "2D", "2C", "KS", "AH"]), HandRank::ThreeOfAKind(Two, Ace, King));
    assert_eq!(five(&["7H", "7D", "4C", "4S", "AH"]), HandRank::TwoPair(Seven, Four, Ace));
    assert_eq!(five(&["7H", "7D", "4C", "4S", "5H"]), HandRank::TwoPair(Seven, Four, Five));
    assert_eq!(five(&["7H", "7D", "4C", "4S", "2H"]), HandRank::TwoPair(Seven, Four, Two));
    assert_eq!(five(&["7H", "7D", "4C", "9S", "2H"]), HandRank::OnePair(Seven, Nine, Four, Two));
    assert_eq!(five(&["AH", "7D", "7C", "9S", "2H"]), HandRank::OnePair(Seven, Ace, Nine, Two));
    assert_eq!(five(&["AH", "KD", "7C", "7S", "2H"]), HandRank::OnePair(Seven, Ace, King, Two));
    assert_eq!(five(&["AH", "KD", "QC", "2S", "2H"]), HandRank::OnePair(Two, Ace, King, Queen));
    assert_eq!(five(&["AH", "KD", "7C", "9S", "2H"]), HandRank::HighCard(Ace, King, Nine, Seven, Two));
}

#[test]
fn repeated_cards_are_still_classified() {
    assert_eq!(five(&["AH", "AH", "AH", "AH", "AH"]), HandRank::Flush(Ace, Ace, Ace, Ace, Ace));
    assert_eq!(five(&["AH", "AD", "AH", "AC", "AS"]), HandRank::HighCard(Ace, Ace, Ace, Ace, Ace));
    assert_eq!(five(&["AH", "AH", "KH", "QH", "JH"]), HandRank::Flush(Ace, Ace, King, Queen, Jack));
}

#[test]
fn five_cards_are_sorted_in_place() {
    let mut hand = cards(&["2H", "AD", "7C", "KS", "7H"]);
    let value = find_best_rank_for_5_cards(&mut hand);
    assert_eq!(value, HandRank::OnePair(Rank::Seven, Rank::Ace, Rank::King, Rank::Two));
    let ranks: Vec<Rank> = hand.iter().map(|c| c.rank).collect();
    assert_eq!(ranks, vec![Rank::Ace, Rank::King, Rank::Seven, Rank::Seven, Rank::Two]);
    let mut sorted = hand.clone();
    let mut given = cards(&["2H", "AD", "7C", "KS", "7H"]);
    sorted.sort_by_key(|c| (c.rank, c.suit));
    given.sort_by_key(|c| (c.rank, c.suit));
    assert_eq!(sorted, given);
}

#[test]
fn categories_are_ordered_whatever_the_ranks() {
    let weakest_to_strongest = [
        five(&["AH", "KD", "QC", "JS", "9H"]),
        five(&["2H", "2D", "3C", "4S", "5H"]),
        five(&["AH", "AD", "KC", "KS", "QH"]),
        five(&["2H", "2D", "2C", "3S", "4H"]),
        five(&["AH", "AD", "AC", "KS", "QH"]),
        five(&["AD", "2S", "3D", "4D", "5D"]),
        five(&["AD", "KS", "QD", "JD", "TC"]),
        five(&["2D", "3D", "4D", "5D", "7D"]),
        five(&["AD", "KD", "QD", "JD", "9D"]),
        five(&["2H", "2D", "2C", "3S", "3H"]),
        five(&["AH", "AD", "AC", "KS", "KH"]),
        five(&["2H", "2D", "2C", "2S", "3H"]),
        five(&["AH", "AD", "AC", "AS", "KH"]),
        five(&["AH", "2H", "3H", "4H", "5H"]),
        five(&["9S", "KS", "QS", "JS", "TS"]),
        five(&["AC", "KC", "QC", "JC", "TC"]),
    ];
    for i in 0..weakest_to_strongest.len() {
        for j in 0..weakest_to_strongest.len() {
            let (a, b) = (weakest_to_strongest[i], weakest_to_strongest[j]);
            assert_eq!(b.outranks(&a), i < j);
            assert_eq!(a < b, i < j);
            assert_eq!(a > b, i > j);
            assert_eq!(a == b, i == j);
            assert_eq!(a.ties_with(&b), i == j);
            assert_eq!(a <= b, i <= j);
            assert_eq!(a.cmp(&b), i.cmp(&j));
        }
    }
}

#[test]
fn kickers_break_ties_in_order() {
    let a = five(&["AH", "AD", "KC", "7S", "3H"]);
    let b = five(&["AC", "AS", "KD", "6S", "5H"]);
    assert!(a.outranks(&b));
    let c = five(&["AH", "KD", "QC", "JS", "9H"]);
    let d = five(&["AD", "KC", "QS", "JH", "8H"]);
    assert!(c.outranks(&d));
    let e = five(&["AS", "KH", "QD", "JC", "9D"]);
    assert!(!c.outranks(&e));
    assert!(!e.outranks(&c));
    assert_eq!(c, e);
    assert_eq!(
        c.key_parts(),
        (0, Rank::Ace.ordinal(), Rank::King.ordinal(), Rank::Queen.ordinal(), Rank::Jack.ordinal(), Rank::Nine.ordinal())
    );
    assert_eq!(HandRank::RoyalFlush.key_parts(), (9, 0, 0, 0, 0, 0));
    assert_eq!(HandRank::FullHouse(Rank::Three, Rank::Two).key_parts(), (6, 1, 0, 0, 0, 0));
}

#[test]
fn best_five_may_leave_out_any_two() {
    let seven = cards(&["2C", "AH", "7D", "AD", "7C", "AS", "KH"]);
    assert_eq!(evaluate_hand(&seven), Some(HandRank::FullHouse(Ace, Seven)));
    let seven = cards(&["2C", "3C", "4C", "5C", "6C", "7C", "8C"]);
    assert_eq!(evaluate_hand(&seven), Some(HandRank::StraightFlush(Eight)));
    let seven = cards(&["2C", "3D", "4C", "5S", "AC", "9H", "KD"]);
    assert_eq!(evaluate_hand(&seven), Some(HandRank::Straight(Five)));
    let seven = cards(&["2C", "3D", "4C", "5S", "AC", "6H", "KD"]);
    assert_eq!(evaluate_hand(&seven), Some(HandRank::Straight(Six)));
    let seven = cards(&["2C", "2D", "4C", "4S", "9C", "9H", "KD"]);
    assert_eq!(evaluate_hand(&seven), Some(HandRank::TwoPair(Nine, Four, King)));
    let seven = cards(&["2C", "8D", "4C", "JS", "9C", "QH", "KD"]);
    assert_eq!(evaluate_hand(&seven), Some(HandRank::HighCard(King, Queen, Jack, Nine, Eight)));
    let seven = cards(&["2C", "8C", "4C", "JC", "9C", "QC", "KC"]);
    assert_eq!(evaluate_hand(&seven), Some(HandRank::Flush(King, Queen, Jack, Nine, Eight)));
}

#[test]
fn other_lengths_give_nothing() {
    assert_eq!(evaluate_hand(&[]), None);
    assert_eq!(evaluate_hand(&cards(&["2C", "3C", "4C", "5C", "6C"])), None);
    assert_eq!(evaluate_hand(&cards(&["2C", "3C", "4C", "5C", "6C", "7C", "8C", "9C"])), None);
}

#[test]
fn category_names() {
    assert_eq!(HandRank::RoyalFlush.to_string(), "ロイヤルフラッシュ");
    assert_eq!(HandRank::StraightFlush(Nine).to_string(), "ストレートフラッシュ");
    assert_eq!(HandRank::FourOfAKind(Nine, Two).to_string(), "フォーカード");
    assert_eq!(HandRank::FullHouse(Nine, Two).to_string(), "フルハウス");
    assert_eq!(HandRank::Flush(Nine, Eight, Six, Three, Two).to_string(), "フラッシュ");
    assert_eq!(HandRank::Straight(Nine).to_string(), "ストレート");
    assert_eq!(HandRank::ThreeOfAKind(Nine, Three, Two).to_string(), "スリーカード");
    assert_eq!(HandRank::TwoPair(Nine, Three, Two).to_string(), "ツーペア");
    assert_eq!(HandRank::OnePair(Nine, Four, Three, Two).to_string(), "ワンペア");
    assert_eq!(HandRank::HighCard(Nine, Seven, Four, Three, Two).to_string(), "ハイカード");
}

#[test]
fn items_are_reachable_by_their_module_paths() {
    let card = holdem_engine::hand_evaluator::parse_cards(&["KD".to_string()]);
    assert_eq!(
        card,
        vec![holdem_engine::hand_evaluator::Card {
            rank: holdem_engine::hand_evaluator::Rank::King,
            suit: holdem_engine::hand_evaluator::Suit::Diamond,
        }]
    );
    let mut table = holdem_engine::game::GameState::new();
    assert_eq!(
        table.handle_action("A", holdem_engine::game::PlayerAction::Fold),
        Err(holdem_engine::game::GameError::InvalidTurn)
    );
    assert_eq!(table.phase, holdem_engine::game::Phase::Waiting);
}
