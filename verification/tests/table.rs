use holdem_engine::cards::{create_deck, parse_cards, Card};
use holdem_engine::error::GameError;
use holdem_engine::game::{GameState, Player};
use holdem_engine::table::{Phase, PlayerAction};

fn cards(tokens: &[&str]) -> Vec<Card> {
    let owned: Vec<String> = tokens.iter().map(|t| t.to_string()).collect();
    let parsed = parse_cards(&owned);
    assert_eq!(parsed.len(), tokens.len());
    parsed
}

fn table_of(names: &[&str]) -> GameState {
    let mut table = GameState::new();
    for name in names {
        table.add_player(name.to_string());
    }
    assert!(table.is_well_formed());
    table
}

fn chips(table: &GameState) -> u64 {
    table.pot as u64 + table.players.iter().map(|p| p.stack as u64).sum::<u64>()
}

fn seat<'a>(table: &'a GameState, name: &str) -> &'a Player {
    table.players.iter().find(|p| p.username == name).unwrap()
}

/// A deck whose top cards are `top`, the first of them on top, over the
/// other cards of a new deck.
fn stacked_deck(top: &[&str]) -> Vec<Card> {
    let top = cards(top);
    let mut deck: Vec<Card> = create_deck().into_iter().filter(|c| !top.contains(c)).collect();
    for card in top.iter().rev() {
        deck.push(*card);
    }
    assert_eq!(deck.len(), 52);
    deck
}

fn player(name: &str, stack: u32, hand: &[&str], active: bool, bet: u32) -> Player {
    Player {
        username: name.to_string(),
        stack,
        hand: cards(hand),
        is_active: active,
        current_bet: bet,
    }
}

#[test]
fn new_table_is_empty_and_waiting() {
    let table = GameState::new();
    assert!(table.players.is_empty());
    assert!(table.community_cards.is_empty());
    assert!(table.deck.is_empty());
    assert_eq!(table.pot, 0);
    assert_eq!(table.current_bet, 0);
    assert_eq!(table.dealer_index, 0);
    assert_eq!(table.current_turn_username, None);
    assert_eq!(table.phase, Phase::Waiting);
    assert!(table.is_well_formed());
}

#[test]
fn add_player_seats_with_starting_stack() {
    let mut table = GameState::new();
    table.add_player("A".to_string());
    assert_eq!(table.players.len(), 1);
    let a = &table.players[0];
    assert_eq!(a.username, "A");
    assert_eq!(a.stack, 1000);
    assert!(a.hand.is_empty());
    assert!(!a.is_active);
    assert_eq!(a.current_bet, 0);
}

#[test]
fn add_player_twice_is_a_no_op() {
    let mut table = table_of(&["A", "B"]);
    table.add_player("A".to_string());
    assert_eq!(table.players.len(), 2);
    assert_eq!(table.players[0].username, "A");
    assert_eq!(table.players[1].username, "B");
    assert!(table.is_well_formed());
}

#[test]
fn player_added_during_a_hand_is_not_in_it() {
    let mut table = table_of(&["A", "B"]);
    assert_eq!(table.start_game(), Ok(()));
    table.add_player("C".to_string());
    assert!(table.is_well_formed());
    let c = seat(&table, "C");
    assert!(!c.is_active);
    assert!(c.hand.is_empty());
    assert_eq!(c.stack, 1000);
    assert_eq!(table.phase, Phase::PreFlop);
}

#[test]
fn start_needs_two_players() {
    let mut table = GameState::new();
    assert_eq!(table.start_game(), Err(GameError::NotEnoughPlayers));
    table.add_player("A".to_string());
    assert_eq!(table.start_game(), Err(GameError::NotEnoughPlayers));
    assert_eq!(table.phase, Phase::Waiting);
    assert_eq!(table.players[0].stack, 1000);
    assert!(table.players[0].hand.is_empty());
    assert_eq!(table.dealer_index, 0);
}

#[test]
fn start_during_a_hand_is_rejected() {
    let mut table = table_of(&["A", "B"]);
    assert_eq!(table.start_game(), Ok(()));
    let hands: Vec<Vec<Card>> = table.players.iter().map(|p| p.hand.clone()).collect();
    assert_eq!(table.start_game(), Err(GameError::AlreadyInProgress));
    assert_eq!(table.pot, 30);
    assert_eq!(table.dealer_index, 1);
    let after: Vec<Vec<Card>> = table.players.iter().map(|p| p.hand.clone()).collect();
    assert_eq!(hands, after);
}

#[test]
fn start_serves_up_to_26_players() {
    for n in [23usize, 24, 25, 26] {
        let mut table = GameState::new();
        for i in 0..n {
            table.add_player(format!("P{}", i));
        }
        assert_eq!(table.start_game(), Ok(()));
        assert_eq!(table.phase, Phase::PreFlop);
        assert!(table.community_cards.is_empty());
        assert_eq!(table.deck.len(), 52 - 2 * n);
        assert!(table.players.iter().all(|p| p.is_active && p.hand.len() == 2));
        let mut seen: Vec<Card> = table.deck.clone();
        for p in &table.players {
            seen.extend(p.hand.iter().copied());
        }
        assert_eq!(seen.len(), 52);
        for card in create_deck() {
            assert_eq!(seen.iter().filter(|c| **c == card).count(), 1);
        }
        assert_eq!(table.dealer_index, 1);
        assert_eq!(table.players[2].current_bet, 10);
        assert_eq!(table.players[2].stack, 990);
        assert_eq!(table.players[3].current_bet, 20);
        assert_eq!(table.players[3].stack, 980);
        assert_eq!(table.pot, 30);
        assert_eq!(table.current_bet, 20);
        assert_eq!(table.current_turn_username.as_deref(), Some("P4"));
        assert!(table.is_well_formed());
    }
}

#[test]
fn start_with_more_players_than_the_deck_serves_is_rejected() {
    let mut table = GameState::new();
    for i in 0..27 {
        table.add_player(format!("P{}", i));
    }
    assert_eq!(table.start_game(), Err(GameError::DeckExhausted));
    assert_eq!(table.phase, Phase::Waiting);
    assert_eq!(table.dealer_index, 0);
    assert!(table.deck.is_empty());
    assert!(table.players.iter().all(|p| p.hand.is_empty() && p.stack == 1000 && !p.is_active));
}

#[test]
fn start_with_short_deck_is_rejected() {
    let mut table = table_of(&["A", "B"]);
    let deck = cards(&["AH", "KH", "QH"]);
    assert_eq!(table.start_game_with_deck(deck), Err(GameError::DeckExhausted));
    assert_eq!(table.phase, Phase::Waiting);
    assert!(table.players.iter().all(|p| p.hand.is_empty()));
    let deck = cards(&["AH", "KH", "QH", "JH"]);
    assert_eq!(table.start_game_with_deck(deck), Ok(()));
    assert_eq!(table.deck.len(), 0);
    assert_eq!(seat(&table, "A").hand, cards(&["JH", "QH"]));
    assert_eq!(seat(&table, "B").hand, cards(&["KH", "AH"]));
    assert!(table.is_well_formed());
}

#[test]
fn exhausted_deck_refuses_the_next_stage() {
    let mut table = table_of(&["A", "B"]);
    let deck = cards(&["AH", "KH", "QH", "JH", "TH", "9H"]);
    assert_eq!(table.start_game_with_deck(deck), Ok(()));
    assert_eq!(table.deck.len(), 2);
    assert_eq!(table.handle_action("A", PlayerAction::Call), Err(GameError::DeckExhausted));
    assert_eq!(table.phase, Phase::PreFlop);
    assert_eq!(table.pot, 30);
    assert_eq!(seat(&table, "A").stack, 990);
    assert_eq!(seat(&table, "A").current_bet, 10);
    assert_eq!(table.current_turn_username.as_deref(), Some("A"));
    assert!(table.community_cards.is_empty());
    assert_eq!(table.deck.len(), 2);
    assert_eq!(table.handle_action("A", PlayerAction::Bet { amount: 20 }), Err(GameError::DeckExhausted));
    assert_eq!(table.handle_action("A", PlayerAction::Bet { amount: 40 }), Ok(()));
    assert_eq!(table.pot, 60);
    assert_eq!(table.current_turn_username.as_deref(), Some("B"));
    assert_eq!(table.handle_action("B", PlayerAction::Call), Err(GameError::DeckExhausted));
    assert_eq!(table.pot, 60);
    assert_eq!(seat(&table, "B").stack, 980);
    assert!(table.is_well_formed());
    assert_eq!(table.handle_action("B", PlayerAction::Fold), Ok(()));
    assert_eq!(table.phase, Phase::Waiting);
    assert_eq!(seat(&table, "A").stack, 1020);
    assert_eq!(seat(&table, "B").stack, 980);
}

#[test]
fn deck_may_run_out_after_the_turn() {
    let mut table = table_of(&["A", "B"]);
    let deck = stacked_deck(&["AS", "AD", "KS", "QD", "AC", "7H", "2C", "9D"])
        .into_iter()
        .rev()
        .take(8)
        .rev()
        .collect::<Vec<Card>>();
    assert_eq!(deck.len(), 8);
    assert_eq!(table.start_game_with_deck(deck), Ok(()));
    assert_eq!(table.handle_action("A", PlayerAction::Call), Ok(()));
    assert_eq!(table.phase, Phase::Flop);
    assert_eq!(table.handle_action("A", PlayerAction::Bet { amount: 0 }), Ok(()));
    assert_eq!(table.phase, Phase::Turn);
    assert!(table.deck.is_empty());
    assert_eq!(
        table.handle_action("A", PlayerAction::Bet { amount: 0 }),
        Err(GameError::DeckExhausted)
    );
    assert_eq!(table.phase, Phase::Turn);
    assert_eq!(table.community_cards.len(), 4);
    assert_eq!(table.pot, 40);
    assert_eq!(table.current_turn_username.as_deref(), Some("A"));
}

#[test]
fn start_clears_what_an_earlier_hand_left() {
    let mut table = table_of(&["A", "B"]);
    table.community_cards = cards(&["AH", "KH", "QH"]);
    table.players[0].hand = cards(&["2C"]);
    table.players[0].current_bet = 7;
    table.current_bet = 7;
    assert!(!table.is_well_formed());
    assert!(table.has_sound_roster());
    assert_eq!(table.start_game(), Ok(()));
    assert_eq!(table.phase, Phase::PreFlop);
    assert!(table.community_cards.is_empty());
    assert!(table.players.iter().all(|p| p.hand.len() == 2));
    assert_eq!(seat(&table, "A").current_bet, 10);
    assert_eq!(table.current_bet, 20);
    assert_eq!(table.deck.len(), 48);
    assert!(table.is_well_formed());
}

#[test]
fn start_posts_blinds_and_deals() {
    let mut table = table_of(&["A", "B"]);
    assert_eq!(table.start_game(), Ok(()));
    assert_eq!(table.dealer_index, 1);
    assert_eq!(table.phase, Phase::PreFlop);
    assert_eq!(table.pot, 30);
    assert_eq!(table.current_bet, 20);
    assert_eq!(seat(&table, "A").stack, 990);
    assert_eq!(seat(&table, "A").current_bet, 10);
    assert_eq!(seat(&table, "B").stack, 980);
    assert_eq!(seat(&table, "B").current_bet, 20);
    assert_eq!(table.current_turn_username.as_deref(), Some("A"));
    assert!(table.players.iter().all(|p| p.is_active && p.hand.len() == 2));
    assert!(table.community_cards.is_empty());
    assert_eq!(table.deck.len(), 48);
    assert_eq!(chips(&table), 2000);
    assert!(table.is_well_formed());
}

#[test]
fn start_deals_each_card_once() {
    let mut table = table_of(&["A", "B", "C", "D"]);
    assert_eq!(table.start_game(), Ok(()));
    let mut seen: Vec<Card> = table.deck.clone();
    for p in &table.players {
        seen.extend(p.hand.iter().copied());
    }
    assert_eq!(seen.len(), 52);
    for card in create_deck() {
        assert_eq!(seen.iter().filter(|c| **c == card).count(), 1);
    }
}

#[test]
fn start_deals_from_the_top_of_the_deck() {
    let mut table = table_of(&["A", "B"]);
    let deck = stacked_deck(&["AS", "KS", "QD", "JD", "2C", "3C", "4C", "5D", "6D"]);
    assert_eq!(table.start_game_with_deck(deck), Ok(()));
    assert_eq!(seat(&table, "A").hand, cards(&["AS", "KS"]));
    assert_eq!(seat(&table, "B").hand, cards(&["QD", "JD"]));
    assert_eq!(table.deck.len(), 48);
    assert_eq!(table.deck.last(), Some(&cards(&["2C"])[0]));
}

#[test]
fn button_moves_round_the_table() {
    let mut table = table_of(&["A", "B", "C"]);
    assert_eq!(table.start_game(), Ok(()));
    assert_eq!(table.dealer_index, 1);
    assert_eq!(seat(&table, "C").current_bet, 10);
    assert_eq!(seat(&table, "A").current_bet, 20);
    assert_eq!(table.current_turn_username.as_deref(), Some("B"));
    assert_eq!(table.handle_action("B", PlayerAction::Fold), Ok(()));
    assert_eq!(table.handle_action("C", PlayerAction::Fold), Ok(()));
    assert_eq!(table.phase, Phase::Waiting);
    assert_eq!(table.start_game(), Ok(()));
    assert_eq!(table.dealer_index, 2);
    assert_eq!(seat(&table, "A").current_bet, 10);
    assert_eq!(seat(&table, "B").current_bet, 20);
    assert_eq!(table.current_turn_username.as_deref(), Some("C"));
    assert_eq!(table.handle_action("C", PlayerAction::Fold), Ok(()));
    assert_eq!(table.handle_action("A", PlayerAction::Fold), Ok(()));
    assert_eq!(table.start_game(), Ok(()));
    assert_eq!(table.dealer_index, 0);
}

#[test]
fn blind_is_capped_by_the_stack() {
    let mut table = table_of(&["A", "B"]);
    table.players[0].stack = 4;
    table.players[1].stack = 15;
    assert!(table.is_well_formed());
    assert_eq!(table.start_game(), Ok(()));
    assert_eq!(seat(&table, "A").stack, 0);
    assert_eq!(seat(&table, "A").current_bet, 4);
    assert_eq!(seat(&table, "B").stack, 0);
    assert_eq!(seat(&table, "B").current_bet, 15);
    assert_eq!(table.pot, 19);
    assert_eq!(table.current_bet, 20);
    assert!(table.is_well_formed());
}

#[test]
fn round_is_closed_when_active_bets_match() {
    let mut table = GameState::new();
    table.players.push(player("A", 980, &["AS", "KS"], true, 20));
    table.players.push(player("B", 980, &["QD", "JD"], true, 20));
    table.current_bet = 20;
    table.pot = 40;
    assert!(table.check_betting_round_over());
    table.players[1].current_bet = 10;
    table.players[1].stack = 990;
    table.pot = 30;
    assert!(!table.check_betting_round_over());
    table.players[1].is_active = false;
    assert!(table.check_betting_round_over());
}

#[test]
fn end_to_end_call_closes_the_round() {
    let mut table = table_of(&["A", "B"]);
    assert_eq!(table.start_game(), Ok(()));
    assert_eq!(table.pot, 30);
    assert_eq!(table.current_bet, 20);
    assert_eq!(table.phase, Phase::PreFlop);
    assert_eq!(table.current_turn_username.as_deref(), Some("A"));
    assert_eq!(table.handle_action("A", PlayerAction::Call), Ok(()));
    assert_eq!(table.pot, 40);
    assert_eq!(table.phase, Phase::Flop);
    assert_eq!(table.community_cards.len(), 3);
    assert_eq!(table.deck.len(), 45);
    assert!(table.players.iter().all(|p| p.current_bet == 0));
    assert_eq!(table.current_bet, 0);
    assert_eq!(seat(&table, "A").stack, 980);
    assert_eq!(seat(&table, "B").stack, 980);
    assert_eq!(table.current_turn_username.as_deref(), Some("A"));
    assert_eq!(chips(&table), 2000);
    assert!(table.is_well_formed());
}

#[test]
fn fold_out_ends_the_hand_at_once() {
    let mut table = table_of(&["A", "B", "C"]);
    assert_eq!(table.start_game(), Ok(()));
    assert_eq!(table.current_turn_username.as_deref(), Some("B"));
    assert_eq!(table.handle_action("B", PlayerAction::Fold), Ok(()));
    assert_eq!(table.phase, Phase::PreFlop);
    assert!(!seat(&table, "B").is_active);
    assert_eq!(seat(&table, "C").current_bet, 10);
    assert_eq!(seat(&table, "A").current_bet, 20);
    assert!(!table.check_betting_round_over());
    assert_eq!(table.current_turn_username.as_deref(), Some("C"));
    assert!(table.is_well_formed());
    assert_eq!(table.handle_action("C", PlayerAction::Fold), Ok(()));
    assert_eq!(table.phase, Phase::Waiting);
    assert_eq!(table.pot, 0);
    assert_eq!(table.current_bet, 0);
    assert_eq!(table.current_turn_username, None);
    assert_eq!(seat(&table, "A").stack, 1010);
    assert_eq!(seat(&table, "B").stack, 1000);
    assert_eq!(seat(&table, "C").stack, 990);
    assert!(table.players.iter().all(|p| !p.is_active && p.hand.is_empty() && p.current_bet == 0));
    assert!(table.community_cards.is_empty());
    assert!(table.deck.is_empty());
    assert_eq!(chips(&table), 3000);
    assert!(table.is_well_formed());
}

#[test]
fn action_out_of_turn_is_rejected() {
    let mut table = table_of(&["A", "B"]);
    assert_eq!(table.handle_action("A", PlayerAction::Fold), Err(GameError::InvalidTurn));
    assert_eq!(table.phase, Phase::Waiting);
    assert_eq!(table.start_game(), Ok(()));
    assert_eq!(table.handle_action("B", PlayerAction::Call), Err(GameError::InvalidTurn));
    assert_eq!(table.handle_action("Z", PlayerAction::Fold), Err(GameError::InvalidTurn));
    assert_eq!(table.pot, 30);
    assert_eq!(table.current_turn_username.as_deref(), Some("A"));
    assert!(table.players.iter().all(|p| p.is_active));
    assert_eq!(table.phase, Phase::PreFlop);
}

#[test]
fn start_request_as_an_action_is_rejected() {
    let mut table = table_of(&["A", "B"]);
    assert_eq!(table.start_game(), Ok(()));
    assert_eq!(
        table.handle_action("A", PlayerAction::StartGame),
        Err(GameError::AlreadyInProgress)
    );
    assert_eq!(table.pot, 30);
    assert_eq!(table.current_turn_username.as_deref(), Some("A"));
    assert_eq!(table.phase, Phase::PreFlop);
}

#[test]
fn bet_below_current_bet_is_rejected() {
    let mut table = table_of(&["A", "B"]);
    assert_eq!(table.start_game(), Ok(()));
    assert_eq!(
        table.handle_action("A", PlayerAction::Bet { amount: 19 }),
        Err(GameError::BelowCurrentBet)
    );
    assert_eq!(table.pot, 30);
    assert_eq!(seat(&table, "A").stack, 990);
    assert_eq!(seat(&table, "A").current_bet, 10);
    assert_eq!(table.current_bet, 20);
    assert_eq!(table.current_turn_username.as_deref(), Some("A"));
}

#[test]
fn bet_beyond_the_stack_is_rejected() {
    let mut table = table_of(&["A", "B"]);
    assert_eq!(table.start_game(), Ok(()));
    assert_eq!(
        table.handle_action("A", PlayerAction::Bet { amount: 1001 }),
        Err(GameError::InsufficientStack)
    );
    assert_eq!(table.pot, 30);
    assert_eq!(seat(&table, "A").stack, 990);
    assert_eq!(table.current_bet, 20);
    assert_eq!(table.handle_action("A", PlayerAction::Bet { amount: 1000 }), Ok(()));
    assert_eq!(seat(&table, "A").stack, 0);
    assert_eq!(seat(&table, "A").current_bet, 1000);
    assert_eq!(table.current_bet, 1000);
    assert_eq!(table.pot, 1020);
    assert_eq!(table.current_turn_username.as_deref(), Some("B"));
    assert!(table.is_well_formed());
}

#[test]
fn call_beyond_the_stack_is_rejected() {
    let mut table = table_of(&["A", "B"]);
    table.players[0].stack = 15;
    assert_eq!(table.start_game(), Ok(()));
    assert_eq!(seat(&table, "A").stack, 5);
    assert_eq!(table.handle_action("A", PlayerAction::Call), Err(GameError::InsufficientStack));
    assert_eq!(seat(&table, "A").stack, 5);
    assert_eq!(seat(&table, "A").current_bet, 10);
    assert_eq!(table.pot, 30);
    assert_eq!(table.current_turn_username.as_deref(), Some("A"));
    assert_eq!(table.phase, Phase::PreFlop);
}

#[test]
fn bet_raises_and_passes_the_turn() {
    let mut table = table_of(&["A", "B", "C"]);
    assert_eq!(table.start_game(), Ok(()));
    assert_eq!(table.handle_action("B", PlayerAction::Bet { amount: 50 }), Ok(()));
    assert_eq!(seat(&table, "B").stack, 950);
    assert_eq!(seat(&table, "B").current_bet, 50);
    assert_eq!(table.current_bet, 50);
    assert_eq!(table.pot, 80);
    assert_eq!(table.current_turn_username.as_deref(), Some("C"));
    assert_eq!(table.handle_action("C", PlayerAction::Call), Ok(()));
    assert_eq!(seat(&table, "C").stack, 950);
    assert_eq!(table.pot, 120);
    assert_eq!(table.current_turn_username.as_deref(), Some("A"));
    assert_eq!(table.handle_action("A", PlayerAction::Call), Ok(()));
    assert_eq!(seat(&table, "A").stack, 950);
    assert_eq!(table.pot, 150);
    assert_eq!(table.phase, Phase::Flop);
    assert_eq!(table.current_turn_username.as_deref(), Some("C"));
    assert_eq!(chips(&table), 3000);
    assert!(table.is_well_formed());
}

#[test]
fn call_with_nothing_owed_is_rejected() {
    let mut table = table_of(&["A", "B"]);
    assert_eq!(table.start_game(), Ok(()));
    assert_eq!(table.handle_action("A", PlayerAction::Call), Ok(()));
    assert_eq!(table.phase, Phase::Flop);
    let board = table.community_cards.clone();
    assert_eq!(table.handle_action("A", PlayerAction::Call), Err(GameError::BelowCurrentBet));
    assert_eq!(table.pot, 40);
    assert_eq!(seat(&table, "A").stack, 980);
    assert_eq!(seat(&table, "A").current_bet, 0);
    assert_eq!(table.phase, Phase::Flop);
    assert_eq!(table.community_cards, board);
    assert_eq!(table.current_turn_username.as_deref(), Some("A"));
    assert_eq!(table.deck.len(), 45);
}

#[test]
fn call_with_nothing_owed_does_not_pass_the_turn() {
    let mut table = GameState::new();
    table.players.push(player("A", 980, &["AS", "KS"], true, 20));
    table.players.push(player("B", 990, &["QD", "JD"], true, 10));
    table.players.push(player("C", 1000, &["2D", "3D"], true, 0));
    table.current_bet = 20;
    table.pot = 30;
    table.phase = Phase::PreFlop;
    table.current_turn_username = Some("A".to_string());
    table.deck = cards(&["4C", "5C", "6C", "7C", "8C"]);
    assert!(table.is_well_formed());
    assert_eq!(table.handle_action("A", PlayerAction::Call), Err(GameError::BelowCurrentBet));
    assert_eq!(table.current_turn_username.as_deref(), Some("A"));
    assert_eq!(table.pot, 30);
    assert_eq!(table.phase, Phase::PreFlop);
    assert_eq!(table.handle_action("A", PlayerAction::Bet { amount: 20 }), Ok(()));
    assert_eq!(table.current_turn_username.as_deref(), Some("B"));
    assert_eq!(table.pot, 30);
    assert_eq!(seat(&table, "A").stack, 980);
}

#[test]
fn bet_of_the_current_amount_is_a_check() {
    let mut table = table_of(&["A", "B"]);
    assert_eq!(table.start_game(), Ok(()));
    assert_eq!(table.handle_action("A", PlayerAction::Call), Ok(()));
    assert_eq!(table.phase, Phase::Flop);
    assert_eq!(table.handle_action("A", PlayerAction::Bet { amount: 0 }), Ok(()));
    assert_eq!(table.pot, 40);
    assert_eq!(seat(&table, "A").stack, 980);
    assert_eq!(table.phase, Phase::Turn);
    assert_eq!(table.community_cards.len(), 4);
}

#[test]
fn turn_skips_folded_players() {
    let mut table = table_of(&["A", "B", "C", "D"]);
    assert_eq!(table.start_game(), Ok(()));
    assert_eq!(table.current_turn_username.as_deref(), Some("A"));
    assert_eq!(table.handle_action("A", PlayerAction::Call), Ok(()));
    assert_eq!(table.handle_action("B", PlayerAction::Fold), Ok(()));
    assert_eq!(table.current_turn_username.as_deref(), Some("C"));
    assert_eq!(table.handle_action("C", PlayerAction::Bet { amount: 40 }), Ok(()));
    assert_eq!(table.handle_action("D", PlayerAction::Call), Ok(()));
    assert_eq!(table.current_turn_username.as_deref(), Some("A"));
    assert_eq!(table.handle_action("A", PlayerAction::Call), Ok(()));
    assert_eq!(table.phase, Phase::Flop);
    assert_eq!(table.pot, 120);
    assert!(seat(&table, "B").hand.len() == 2);
    assert_eq!(table.current_turn_username.as_deref(), Some("C"));
    assert!(table.is_well_formed());
}

#[test]
fn split_pot_at_showdown() {
    let mut table = GameState::new();
    table.players.push(player("A", 950, &["2C", "3D"], true, 0));
    table.players.push(player("B", 950, &["2D", "3C"], true, 0));
    table.community_cards = cards(&["AH", "KH", "QH", "JH", "TH"]);
    table.pot = 100;
    table.phase = Phase::River;
    table.dealer_index = 1;
    table.current_turn_username = Some("A".to_string());
    assert!(table.is_well_formed());
    assert_eq!(table.handle_action("A", PlayerAction::Bet { amount: 0 }), Ok(()));
    assert_eq!(table.phase, Phase::Waiting);
    assert_eq!(table.pot, 0);
    assert_eq!(seat(&table, "A").stack, 1000);
    assert_eq!(seat(&table, "B").stack, 1000);
    assert_eq!(table.current_turn_username, None);
    assert!(table.community_cards.is_empty());
    assert!(table.players.iter().all(|p| !p.is_active && p.hand.is_empty()));
    assert!(table.is_well_formed());
}

#[test]
fn odd_chip_of_a_split_pot_is_dropped() {
    let mut table = GameState::new();
    table.players.push(player("A", 950, &["2C", "3D"], true, 0));
    table.players.push(player("B", 949, &["2D", "3C"], true, 0));
    table.community_cards = cards(&["AH", "KH", "QH", "JH", "TH"]);
    table.pot = 101;
    table.phase = Phase::River;
    table.current_turn_username = Some("B".to_string());
    assert!(table.is_well_formed());
    table.determine_winner();
    assert_eq!(table.phase, Phase::Waiting);
    assert_eq!(table.pot, 0);
    assert_eq!(seat(&table, "A").stack, 1000);
    assert_eq!(seat(&table, "B").stack, 999);
    assert_eq!(chips(&table), 1999);
}

#[test]
fn showdown_pays_the_best_hand() {
    let mut table = table_of(&["A", "B"]);
    let deck = stacked_deck(&["AS", "AD", "KS", "QD", "AC", "7H", "2C", "9D", "4S"]);
    assert_eq!(table.start_game_with_deck(deck), Ok(()));
    assert_eq!(table.handle_action("A", PlayerAction::Call), Ok(()));
    assert_eq!(table.community_cards, cards(&["AC", "7H", "2C"]));
    assert_eq!(table.handle_action("A", PlayerAction::Bet { amount: 30 }), Ok(()));
    assert_eq!(table.current_turn_username.as_deref(), Some("B"));
    assert_eq!(table.handle_action("B", PlayerAction::Call), Ok(()));
    assert_eq!(table.phase, Phase::Turn);
    assert_eq!(table.community_cards, cards(&["AC", "7H", "2C", "9D"]));
    assert_eq!(table.pot, 100);
    assert_eq!(table.handle_action("A", PlayerAction::Bet { amount: 0 }), Ok(()));
    assert_eq!(table.phase, Phase::River);
    assert_eq!(table.community_cards, cards(&["AC", "7H", "2C", "9D", "4S"]));
    assert!(table.is_well_formed());
    assert_eq!(table.handle_action("A", PlayerAction::Bet { amount: 0 }), Ok(()));
    assert_eq!(table.phase, Phase::Waiting);
    assert_eq!(seat(&table, "A").stack, 1050);
    assert_eq!(seat(&table, "B").stack, 950);
    assert_eq!(table.pot, 0);
    assert!(table.is_well_formed());
}

#[test]
fn folded_player_wins_nothing_at_showdown() {
    let mut table = GameState::new();
    table.players.push(player("A", 900, &["AS", "AD"], false, 0));
    table.players.push(player("B", 900, &["2D", "3C"], true, 0));
    table.players.push(player("C", 900, &["KD", "KC"], true, 0));
    table.community_cards = cards(&["AH", "KH", "7S", "8D", "9C"]);
    table.pot = 300;
    table.phase = Phase::River;
    table.current_turn_username = Some("B".to_string());
    assert!(table.is_well_formed());
    assert_eq!(table.handle_action("B", PlayerAction::Bet { amount: 0 }), Ok(()));
    assert_eq!(seat(&table, "A").stack, 900);
    assert_eq!(seat(&table, "B").stack, 900);
    assert_eq!(seat(&table, "C").stack, 1200);
    assert_eq!(table.phase, Phase::Waiting);
}

#[test]
fn check_hand_over_needs_one_player_left() {
    let mut table = table_of(&["A", "B"]);
    assert_eq!(table.start_game(), Ok(()));
    assert!(!table.check_hand_over());
    assert_eq!(table.phase, Phase::PreFlop);
    assert_eq!(table.pot, 30);
    table.players[0].is_active = false;
    assert!(table.check_hand_over());
    assert_eq!(table.phase, Phase::Waiting);
    assert_eq!(seat(&table, "B").stack, 1010);
    assert_eq!(seat(&table, "A").stack, 990);
}

#[test]
fn advance_turn_wraps_round_the_table() {
    let mut table = table_of(&["A", "B", "C"]);
    assert_eq!(table.start_game(), Ok(()));
    table.current_turn_username = Some("C".to_string());
    table.advance_turn();
    assert_eq!(table.current_turn_username.as_deref(), Some("A"));
    table.players[1].is_active = false;
    table.advance_turn();
    assert_eq!(table.current_turn_username.as_deref(), Some("C"));
    table.current_turn_username = None;
    table.advance_turn();
    assert_eq!(table.current_turn_username, None);
}

#[test]
fn next_stage_deals_flop_turn_river() {
    let mut table = table_of(&["A", "B"]);
    let deck = stacked_deck(&["AS", "AD", "KS", "QD", "AC", "7H", "2C", "9D", "4S"]);
    assert_eq!(table.start_game_with_deck(deck), Ok(()));
    table.proceed_to_next_stage();
    assert_eq!(table.phase, Phase::Flop);
    assert_eq!(table.community_cards, cards(&["AC", "7H", "2C"]));
    assert_eq!(table.current_bet, 0);
    assert!(table.players.iter().all(|p| p.current_bet == 0));
    table.proceed_to_next_stage();
    assert_eq!(table.phase, Phase::Turn);
    assert_eq!(table.community_cards.len(), 4);
    table.proceed_to_next_stage();
    assert_eq!(table.phase, Phase::River);
    assert_eq!(table.community_cards.len(), 5);
    assert_eq!(table.deck.len(), 43);
    table.proceed_to_next_stage();
    assert_eq!(table.phase, Phase::Waiting);
}

#[test]
fn sanitized_hides_hole_cards_and_deck() {
    let mut table = table_of(&["A", "B"]);
    assert_eq!(table.start_game(), Ok(()));
    assert_eq!(table.handle_action("A", PlayerAction::Call), Ok(()));
    let public = table.sanitized();
    assert!(public.players.iter().all(|p| p.hand.is_empty()));
    assert!(public.deck.is_empty());
    assert_eq!(public.players.len(), 2);
    assert_eq!(public.players[0].username, "A");
    assert_eq!(public.players[0].stack, 980);
    assert!(public.players[0].is_active);
    assert_eq!(public.community_cards, table.community_cards);
    assert_eq!(public.pot, 40);
    assert_eq!(public.phase, Phase::Flop);
    assert_eq!(public.current_bet, 0);
    assert_eq!(public.dealer_index, 1);
    assert_eq!(public.current_turn_username.as_deref(), Some("A"));
    assert!(table.players.iter().all(|p| p.hand.len() == 2));
    assert_eq!(table.deck.len(), 45);
}

#[test]
fn chips_are_conserved_through_a_hand() {
    let mut table = table_of(&["A", "B", "C"]);
    assert_eq!(table.start_game(), Ok(()));
    let script = [
        ("B", PlayerAction::Bet { amount: 60 }),
        ("C", PlayerAction::Call),
        ("A", PlayerAction::Bet { amount: 120 }),
        ("B", PlayerAction::Call),
        ("C", PlayerAction::Fold),
        ("A", PlayerAction::Bet { amount: 10 }),
        ("B", PlayerAction::Bet { amount: 25 }),
        ("A", PlayerAction::Call),
    ];
    for (name, action) in script {
        assert_eq!(table.handle_action(name, action), Ok(()));
        assert_eq!(chips(&table), 3000);
        assert!(table.is_well_formed());
        assert_ne!(table.phase, Phase::Waiting);
    }
    assert_eq!(table.phase, Phase::Turn);
    assert_eq!(table.community_cards.len(), 4);
    assert_eq!(table.pot, 350);
}

#[test]
fn invariant_check_rejects_broken_tables() {
    let mut table = table_of(&["A", "B"]);
    table.players[1].username = "A".to_string();
    assert!(!table.is_well_formed());
    let mut table = table_of(&["A", "B"]);
    table.players[0].stack = u32::MAX;
    assert!(!table.is_well_formed());
    let mut table = table_of(&["A", "B"]);
    table.pot = 5;
    assert!(!table.is_well_formed());
    let mut table = table_of(&["A", "B"]);
    assert_eq!(table.start_game(), Ok(()));
    table.current_turn_username = Some("Z".to_string());
    assert!(!table.is_well_formed());
    let mut table = table_of(&["A", "B"]);
    assert_eq!(table.start_game(), Ok(()));
    table.players[0].current_bet = 21;
    assert!(!table.is_well_formed());
    let mut table = table_of(&["A", "B"]);
    assert_eq!(table.start_game(), Ok(()));
    table.deck.truncate(4);
    assert!(table.is_well_formed());
    table.community_cards = cards(&["AH"]);
    assert!(!table.is_well_formed());
    assert!(table.has_sound_roster());
}

#[test]
fn private_deal_holds_the_players_own_cards() {
    let mut table = table_of(&["A", "B"]);
    let deck = stacked_deck(&["AS", "KS", "QD", "JD", "2C", "3C", "4C", "5D", "6D"]);
    assert_eq!(table.start_game_with_deck(deck), Ok(()));
    let a = table.deal_hand_for("A").unwrap();
    assert_eq!(a.cards, vec!["AS".to_string(), "KS".to_string()]);
    let b = table.deal_hand_for("B").unwrap();
    assert_eq!(b.cards, vec!["QD".to_string(), "JD".to_string()]);
    assert!(table.deal_hand_for("Z").is_none());
    let idle = table_of(&["A"]);
    assert!(idle.deal_hand_for("A").unwrap().cards.is_empty());
}

#[test]
fn phase_names_round_trip() {
    let names = [
        (Phase::Waiting, "Waiting"),
        (Phase::PreFlop, "Pre-flop"),
        (Phase::Flop, "Flop"),
        (Phase::Turn, "Turn"),
        (Phase::River, "River"),
        (Phase::Showdown, "Showdown"),
    ];
    for (phase, name) in names {
        assert_eq!(phase.name(), name);
        assert_eq!(Phase::from_name(name), Some(phase));
    }
    assert_eq!(Phase::from_name("Preflop"), None);
    assert_eq!(Phase::from_name(""), None);
    assert_eq!(Phase::from_name("waiting"), None);
}
