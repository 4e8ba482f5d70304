//! The table engine: the players at a table, the hand being played, and the
//! operations that seat players, start a hand and take the players' actions.

use vstd::prelude::*;
use crate::cards::Card;
use crate::cards::after_deals;
use crate::cards::card_tokens;
use crate::cards::parse_tokens;
use crate::cards::token_of;
use crate::cards::deal_one;
use crate::cards::full_deck;
use crate::cards::join_cards;
pub use crate::error::GameError;
use crate::hand_evaluator::evaluate_hand;
use crate::ranking::HandRank;
use crate::shuffle::shuffled_deck;
use crate::table::BIG_BLIND;
pub use crate::table::Phase;
pub use crate::table::PlayerAction;
use crate::table::PlayerView;
use crate::table::SMALL_BLIND;
use crate::table::STARTING_STACK;
use crate::table::TableView;
use crate::table::count_active;
use crate::table::hole_cards;
use crate::table::names_distinct;
use crate::table::next_active;
use crate::table::seat_after;
use crate::table::seat_of;
use crate::table::seek_name;
use crate::table::sum_stacks;
use crate::table_proofs::lemma_stack_le_sum;
use crate::table_proofs::lemma_sum_same_stacks;
use crate::table_proofs::lemma_sum_update;

verus! {

/// The cards sent to one player in private.
#[derive(Debug)]
pub struct DealHandPayload {
    pub cards: Vec<String>,
}

/// A message between a table and a player.
#[derive(Debug)]
pub enum GameMessage {
    PlayerAction(PlayerAction),
    GameStateUpdate(GameState),
    DealHand(DealHandPayload),
    ChatMessage(String),
}

/// A player at a table.
#[derive(Debug, Clone)]
pub struct Player {
    /// The name, unique at the table.
    pub username: String,
    /// The chips the player has left.
    pub stack: u32,
    /// The hole cards: none, or two while a hand is played.
    pub hand: Vec<Card>,
    /// Whether the player is in the hand being played.
    pub is_active: bool,
    /// The chips the player has put in during this betting round.
    pub current_bet: u32,
}

/// A table and the hand being played at it.
#[derive(Debug, Clone)]
pub struct GameState {
    /// The players in the order of their seats.
    pub players: Vec<Player>,
    /// The board.
    pub community_cards: Vec<Card>,
    /// The chips bet in this hand.
    pub pot: u32,
    /// The name of the player to act.
    pub current_turn_username: Option<String>,
    /// The stage of the hand.
    pub phase: Phase,
    /// The bet that the players have to match in this betting round.
    pub current_bet: u32,
    /// The seat of the dealer button.
    pub dealer_index: usize,
    /// The cards not yet dealt, the top card last.
    pub deck: Vec<Card>,
}

impl View for Player {
    type V = PlayerView;

    open spec fn view(&self) -> PlayerView {
        PlayerView {
            name: self.username@,
            stack: self.stack as nat,
            hand: self.hand@,
            active: self.is_active,
            bet: self.current_bet as nat,
        }
    }
}

/// The players as plain values.
pub open spec fn player_views(players: Seq<Player>) -> Seq<PlayerView> {
    Seq::new(players.len(), |i: int| players[i]@)
}

impl View for GameState {
    type V = TableView;

    open spec fn view(&self) -> TableView {
        TableView {
            players: player_views(self.players@),
            community: self.community_cards@,
            pot: self.pot as nat,
            turn: match self.current_turn_username {
                Some(name) => Some(name@),
                None => None,
            },
            phase: self.phase,
            bet: self.current_bet as nat,
            dealer: self.dealer_index as nat,
            deck: self.deck@,
        }
    }
}

impl GameState {
    /// The two tables agree in all but their players.
    pub open spec fn same_table(&self, other: &GameState) -> bool {
        &&& self.community_cards == other.community_cards
        &&& self.pot == other.pot
        &&& self.current_turn_username == other.current_turn_username
        &&& self.phase == other.phase
        &&& self.current_bet == other.current_bet
        &&& self.dealer_index == other.dealer_index
        &&& self.deck == other.deck
    }

    /// The table satisfies the invariant of the model.
    pub open spec fn wf(&self) -> bool {
        self@.wf()
    }

    /// An empty table, waiting for players.
    pub fn new() -> (table: GameState)
        ensures
            table@ == TableView::empty(),
            table.wf(),
    {
        let table = GameState {
            players: Vec::new(),
            community_cards: Vec::new(),
            pot: 0,
            current_turn_username: None,
            phase: Phase::Waiting,
            current_bet: 0,
            dealer_index: 0,
            deck: Vec::new(),
        };
        proof {
            assert(table@.players =~= Seq::<PlayerView>::empty());
            assert(table@ == TableView::empty());
        }
        table
    }

    /// The seat of the player with the name, or the number of seats when no
    /// player has it.
    pub fn seat_of_player(&self, name: &String) -> (seat: usize)
        ensures
            seat == seat_of(self@.players, name@),
            seat <= self.players@.len(),
            seat < self.players@.len() ==> self.players@[seat as int].username@ == name@,
    {
        let mut i: usize = 0;
        while i < self.players.len()
            invariant
                0 <= i <= self.players@.len(),
                seat_of(self@.players, name@) == seek_name(self@.players, name@, i as int),
            decreases self.players@.len() - i,
        {
            if self.players[i].username == *name {
                return i;
            }
            i += 1;
        }
        i
    }

    /// Seats a player with the starting stack, unless a player has the name
    /// already. The new player is in no hand until the next one starts.
    pub fn add_player(&mut self, username: String)
        ensures
            final(self)@ == old(self)@.add_player(username@),
            old(self).wf() && old(self)@.total_chips() + STARTING_STACK <= u32::MAX
                ==> final(self).wf(),
    {
        let seat = self.seat_of_player(&username);
        if seat == self.players.len() {
            let ghost name = username@;
            self.players.push(
                Player {
                    username,
                    stack: STARTING_STACK,
                    hand: Vec::new(),
                    is_active: false,
                    current_bet: 0,
                },
            );
            proof {
                assert(final(self)@.players =~= old(self)@.players.push(PlayerView::seated(name)));
                if old(self).wf() && old(self)@.total_chips() + STARTING_STACK <= u32::MAX {
                    TableView::lemma_add_player_wf(old(self)@, name);
                }
            }
        } else {
            proof {
                if old(self).wf() {
                    TableView::lemma_add_player_wf(old(self)@, username@);
                }
            }
        }
    }

    /// Whether every player in the hand has matched the table's current bet.
    pub fn check_betting_round_over(&self) -> (closed: bool)
        ensures
            closed == self@.round_closed(),
    {
        let mut i: usize = 0;
        while i < self.players.len()
            invariant
                0 <= i <= self.players@.len(),
                forall|k: int|
                    0 <= k < i && (#[trigger] self@.players[k]).active ==> self@.players[k].bet
                        == self@.bet,
            decreases self.players@.len() - i,
        {
            if self.players[i].is_active && self.players[i].current_bet != self.current_bet {
                assert(self@.players[i as int].active);
                return false;
            }
            i += 1;
        }
        true
    }

    /// The number of players in the hand.
    pub fn active_players(&self) -> (count: usize)
        ensures
            count == count_active(self@.players),
    {
        let mut count: usize = 0;
        let mut i: usize = 0;
        while i < self.players.len()
            invariant
                0 <= i <= self.players@.len(),
                count <= i,
                count == count_active(self@.players.take(i as int)),
            decreases self.players@.len() - i,
        {
            proof {
                assert(self@.players.take(i + 1).drop_last() =~= self@.players.take(i as int));
            }
            if self.players[i].is_active {
                count += 1;
            }
            i += 1;
        }
        proof {
            assert(self@.players.take(i as int) =~= self@.players);
        }
        count
    }

    /// Ends the hand in favour of the last player in it: when exactly one
    /// player is in the hand, that player gets the pot and the table goes
    /// back to waiting. Says whether the hand ended.
    pub fn check_hand_over(&mut self) -> (over: bool)
        requires
            old(self)@.total_chips() <= u32::MAX,
        ensures
            over == (count_active(old(self)@.players) == 1),
            over ==> final(self)@ == old(self)@.award_last_player(),
            !over ==> *final(self) == *old(self),
    {
        if self.active_players() != 1 {
            return false;
        }
        let pot = self.pot;
        let n = self.players.len();
        let ghost goal = old(self)@.award_last_player();
        let mut i: usize = 0;
        while i < n
            invariant
                0 <= i <= n,
                n == self.players@.len(),
                n == old(self).players@.len(),
                pot == old(self).pot,
                self.same_table(old(self)),
                old(self)@.total_chips() <= u32::MAX,
                goal == old(self)@.award_last_player(),
                forall|k: int| 0 <= k < i ==> (#[trigger] self.players@[k])@ == goal.players[k],
                forall|k: int| i <= k < n ==> #[trigger] self.players@[k] == old(self).players@[k],
            decreases n - i,
        {
            proof {
                lemma_stack_le_sum(old(self)@.players, i as int);
            }
            if self.players[i].is_active {
                self.players[i].stack += pot;
            }
            self.players[i].is_active = false;
            self.players[i].hand.clear();
            self.players[i].current_bet = 0;
            i += 1;
        }
        self.reset_table();
        proof {
            assert(self@.players =~= goal.players);
            assert(self@.community =~= goal.community);
            assert(self@.deck =~= goal.deck);
        }
        true
    }

    /// Clears what belongs to a hand and is not a player's: the board, the
    /// deck, the pot, the bet to match, the turn; and sets the phase to waiting.
    fn reset_table(&mut self)
        ensures
            final(self).players == old(self).players,
            final(self).dealer_index == old(self).dealer_index,
            final(self).community_cards@.len() == 0,
            final(self).deck@.len() == 0,
            final(self).pot == 0,
            final(self).current_bet == 0,
            final(self).current_turn_username is None,
            final(self).phase == Phase::Waiting,
    {
        self.phase = Phase::Waiting;
        self.current_turn_username = None;
        self.pot = 0;
        self.current_bet = 0;
        self.community_cards.clear();
        self.deck.clear();
    }

    /// The seat clockwise next to `seat`.
    fn seat_after(&self, seat: usize) -> (next: usize)
        ensures
            next == seat_after(seat as int, self.players@.len() as int),
            self.players@.len() > 0 ==> next < self.players@.len(),
    {
        let n = self.players.len();
        if n == 0 || seat >= n - 1 {
            0
        } else {
            seat + 1
        }
    }

    /// The name of the first active player at `seat` or clockwise after it,
    /// if any player is active.
    fn first_active_from(&self, seat: usize) -> (name: Option<String>)
        requires
            seat < self.players@.len() || self.players@.len() == 0,
        ensures
            match name {
                Some(n) => self@.turn_from(seat as int) == Some(n@),
                None => self@.turn_from(seat as int) is None,
            },
    {
        let n = self.players.len();
        if n == 0 {
            return None;
        }
        let mut s: usize = seat;
        let mut tries: usize = 0;
        while tries < n
            invariant
                0 <= tries <= n,
                n == self.players@.len(),
                seat < n,
                0 <= s < n,
                s == if seat + tries >= n {
                    seat + tries - n
                } else {
                    seat + tries
                },
                next_active(self@.players, seat as int, n as nat) == next_active(
                    self@.players,
                    s as int,
                    (n - tries) as nat,
                ),
                forall|k: int|
                    0 <= k < n && (if k >= seat {
                        k - seat
                    } else {
                        k - seat + n
                    }) < tries ==> !(#[trigger] self@.players[k]).active,
            decreases n - tries,
        {
            if self.players[s].is_active {
                assert(self@.players[s as int].active);
                return Some(self.players[s].username.clone());
            }
            assert(!self@.players[s as int].active);
            s = if s + 1 >= n {
                0
            } else {
                s + 1
            };
            tries += 1;
        }
        proof {
            assert(!self@.players[s as int].active);
        }
        None
    }

    /// Passes the turn to the next active player clockwise from the player to act.
    pub fn advance_turn(&mut self)
        ensures
            final(self)@ == old(self)@.pass_turn(),
    {
        let next = match &self.current_turn_username {
            None => {
                return;
            },
            Some(name) => {
                let seat = self.seat_of_player(name);
                if seat < self.players.len() {
                    self.first_active_from(self.seat_after(seat))
                } else {
                    None
                }
            },
        };
        self.current_turn_username = next;
    }

    /// Moves `k` cards from the top of the deck to the board.
    fn deal_to_board(&mut self, k: usize)
        requires
            k <= old(self).deck@.len(),
        ensures
            final(self)@ == old(self)@.deal_board(k as nat),
    {
        let ghost deck = self.deck@;
        let ghost board = self.community_cards@;
        let mut j: usize = 0;
        while j < k
            invariant
                0 <= j <= k <= deck.len(),
                deck == old(self).deck@,
                board == old(self).community_cards@,
                self.deck@ == after_deals(deck, j as nat).0,
                self.community_cards@ == board + after_deals(deck, j as nat).1,
                self.deck@.len() == deck.len() - j,
                self.players == old(self).players,
                self.pot == old(self).pot,
                self.current_turn_username == old(self).current_turn_username,
                self.phase == old(self).phase,
                self.current_bet == old(self).current_bet,
                self.dealer_index == old(self).dealer_index,
            decreases k - j,
        {
            match deal_one(&mut self.deck) {
                Ok(card) => {
                    self.community_cards.push(card);
                },
                Err(_) => {},
            }
            proof {
                assert(self.community_cards@ =~= board + after_deals(deck, (j + 1) as nat).1);
            }
            j += 1;
        }
    }

    /// Compares the hands of the players still in the hand, splits the pot
    /// evenly among those with the strongest hand, and ends the hand. What
    /// is left of the pot after an even split is dropped.
    pub fn determine_winner(&mut self)
        requires
            old(self)@.showdown_ready(),
            old(self)@.total_chips() <= u32::MAX,
        ensures
            final(self)@ == old(self)@.settle(),
    {
        let n = self.players.len();
        let ghost table = self@;
        let mut values: Vec<Option<HandRank>> = Vec::new();
        let mut best: Option<HandRank> = None;
        let mut i: usize = 0;
        while i < n
            invariant
                0 <= i <= n,
                n == self.players@.len(),
                table == self@,
                table.showdown_ready(),
                values@.len() == i,
                forall|k: int|
                    0 <= k < i ==> #[trigger] values@[k] == if table.players[k].active {
                        Some(table.showdown_value(k))
                    } else {
                        None
                    },
                best matches Some(b) ==> exists|k: int|
                    0 <= k < i && (#[trigger] table.players[k]).active && b == table.showdown_value(
                        k,
                    ),
                best matches Some(b) ==> forall|k: int|
                    0 <= k < i && (#[trigger] table.players[k]).active
                        ==> table.showdown_value(k).is_at_most(b),
                best is None ==> forall|k: int| 0 <= k < i ==> !(#[trigger] table.players[k]).active,
            decreases n - i,
        {
            if self.players[i].is_active {
                assert(table.players[i as int].active);
                let seven = join_cards(
                    self.community_cards.as_slice(),
                    self.players[i].hand.as_slice(),
                );
                assert(seven@ == table.community + table.players[i as int].hand);
                match evaluate_hand(seven.as_slice()) {
                    Some(value) => {
                        let stronger = match &best {
                            None => true,
                            Some(b) => value.outranks(b),
                        };
                        proof {
                            if let Some(b) = best {
                                if stronger {
                                    assert forall|k: int|
                                        0 <= k < i && (#[trigger] table.players[k]).active implies table.showdown_value(
                                        k,
                                    ).is_at_most(value) by {
                                        HandRank::lemma_le_order(table.showdown_value(k), b, value);
                                    }
                                } else {
                                    HandRank::lemma_le_order(value, b, value);
                                }
                            }
                        }
                        if stronger {
                            best = Some(value);
                        }
                        values.push(Some(value));
                    },
                    None => {
                        values.push(None);
                    },
                }
            } else {
                values.push(None);
            }
            i += 1;
        }
        let mut wins: Vec<bool> = Vec::new();
        let mut winners: usize = 0;
        let mut k: usize = 0;
        while k < n
            invariant
                0 <= k <= n,
                n == self.players@.len(),
                table == self@,
                values@.len() == n,
                forall|j: int|
                    0 <= j < n ==> #[trigger] values@[j] == if table.players[j].active {
                        Some(table.showdown_value(j))
                    } else {
                        None
                    },
                best matches Some(b) ==> exists|j: int|
                    0 <= j < n && (#[trigger] table.players[j]).active && b == table.showdown_value(
                        j,
                    ),
                best matches Some(b) ==> forall|j: int|
                    0 <= j < n && (#[trigger] table.players[j]).active
                        ==> table.showdown_value(j).is_at_most(b),
                best is None ==> forall|j: int| 0 <= j < n ==> !(#[trigger] table.players[j]).active,
                wins@.len() == k,
                forall|j: int| 0 <= j < k ==> #[trigger] wins@[j] == table.is_winner(j),
                winners == table.count_winners(k as int),
                winners <= k,
            decreases n - k,
        {
            let wins_here = match (&values[k], &best) {
                (Some(value), Some(b)) => value.ties_with(b),
                _ => false,
            };
            proof {
                if table.players[k as int].active {
                    let b = best->0;
                    let value = table.showdown_value(k as int);
                    if table.is_winner(k as int) {
                        HandRank::lemma_le_order(b, value, b);
                    }
                }
                assert(wins_here == table.is_winner(k as int));
            }
            if wins_here {
                winners += 1;
            }
            wins.push(wins_here);
            k += 1;
        }
        let pot = self.pot;
        let share: u32 = if winners == 0 {
            0
        } else {
            assert(pot as int / winners as int <= pot as int) by (nonlinear_arith)
                requires
                    winners >= 1,
                    pot >= 0,
            ;
            (pot as u64 / winners as u64) as u32
        };
        assert(share == table.pot_share());
        assert(share <= pot);
        let ghost goal = table.settle();
        let mut m: usize = 0;
        while m < n
            invariant
                0 <= m <= n,
                n == self.players@.len(),
                n == old(self).players@.len(),
                table == old(self)@,
                self.same_table(old(self)),
                table.total_chips() <= u32::MAX,
                goal == table.settle(),
                share == table.pot_share(),
                share <= table.pot,
                wins@.len() == n,
                forall|j: int| 0 <= j < n ==> #[trigger] wins@[j] == table.is_winner(j),
                forall|j: int| 0 <= j < m ==> (#[trigger] self.players@[j])@ == goal.players[j],
                forall|j: int| m <= j < n ==> #[trigger] self.players@[j] == old(self).players@[j],
            decreases n - m,
        {
            proof {
                lemma_stack_le_sum(table.players, m as int);
            }
            if wins[m] {
                self.players[m].stack += share;
            }
            self.players[m].is_active = false;
            self.players[m].hand.clear();
            self.players[m].current_bet = 0;
            m += 1;
        }
        self.reset_table();
        proof {
            assert(self@.players =~= goal.players);
            assert(self@.community =~= goal.community);
            assert(self@.deck =~= goal.deck);
        }
    }

    /// Begins the next stage after a betting round has closed: clears the
    /// bets of the round, gives the turn to the first active player after
    /// the button, and deals the flop, the turn or the river, or after the
    /// river compares the hands and ends the hand.
    pub fn proceed_to_next_stage(&mut self)
        requires
            old(self)@.can_advance(),
        ensures
            final(self)@ == old(self)@.next_stage(),
    {
        let n = self.players.len();
        let first = self.first_active_from(self.seat_after(self.dealer_index));
        let mut i: usize = 0;
        while i < n
            invariant
                0 <= i <= n,
                n == self.players@.len(),
                n == old(self).players@.len(),
                self.same_table(old(self)),
                old(self)@.can_advance(),
                match first {
                    Some(name) => old(self)@.turn_from(
                        seat_after(old(self).dealer_index as int, n as int),
                    ) == Some(name@),
                    None => old(self)@.turn_from(
                        seat_after(old(self).dealer_index as int, n as int),
                    ) is None,
                },
                forall|k: int|
                    0 <= k < i ==> (#[trigger] self.players@[k])@ == (PlayerView {
                        bet: if old(self)@.players[k].active {
                            0
                        } else {
                            old(self)@.players[k].bet
                        },
                        ..old(self)@.players[k]
                    }),
                forall|k: int| i <= k < n ==> #[trigger] self.players@[k] == old(self).players@[k],
            decreases n - i,
        {
            if self.players[i].is_active {
                self.players[i].current_bet = 0;
            }
            i += 1;
        }
        self.current_bet = 0;
        self.current_turn_username = first;
        proof {
            let opened = old(self)@.open_round();
            assert(self@.players =~= opened.players);
            assert(self@ == opened);
            lemma_sum_same_stacks(opened.players, old(self)@.players);
            assert forall|k: int|
                0 <= k < opened.seats() && (#[trigger] opened.players[k]).active implies opened.players[k].hand
                == old(self)@.players[k].hand by {
                assert(old(self)@.players[k].active);
            }
        }
        match self.phase {
            Phase::Waiting => {},
            Phase::PreFlop => {
                self.phase = Phase::Flop;
                self.deal_to_board(3);
            },
            Phase::Flop => {
                self.phase = Phase::Turn;
                self.deal_to_board(1);
            },
            Phase::Turn => {
                self.phase = Phase::River;
                self.deal_to_board(1);
            },
            Phase::River => {
                self.phase = Phase::Showdown;
                self.determine_winner();
            },
            Phase::Showdown => {
                self.determine_winner();
            },
        }
    }

    /// Moves `cost` chips from the stack of the player at `seat` to the pot,
    /// and records `new_bet` as what the player has bet in this round.
    fn commit_chips(&mut self, seat: usize, cost: u32, new_bet: u32)
        requires
            seat < old(self).players@.len(),
            cost <= old(self).players@[seat as int].stack,
            new_bet == old(self).players@[seat as int].current_bet + cost,
            old(self)@.total_chips() <= u32::MAX,
        ensures
            final(self)@ == old(self)@.pay(seat as int, cost as nat),
    {
        proof {
            lemma_stack_le_sum(self@.players, seat as int);
        }
        self.players[seat].stack -= cost;
        self.players[seat].current_bet = new_bet;
        self.pot += cost;
        proof {
            assert(self@.players =~= old(self)@.pay(seat as int, cost as nat).players);
        }
    }

    /// Whether the action, which the player at `seat` can take, would close
    /// the betting round with more than one player left in the hand while the
    /// deck cannot serve the next stage.
    fn would_run_dry(&self, seat: usize, action: PlayerAction) -> (dry: bool)
        requires
            seat < self.players@.len(),
            self@.players[seat as int].active,
            self@.players[seat as int].bet <= self@.bet,
            self@.refusal(seat as int, action) is None,
        ensures
            dry == self@.apply(seat as int, action).runs_dry(),
    {
        let needed: usize = match self.phase {
            Phase::PreFlop => 3,
            Phase::Flop => 1,
            Phase::Turn => 1,
            _ => 0,
        };
        if self.deck.len() >= needed {
            return false;
        }
        let ghost taken = self@.apply(seat as int, action);
        proof {
            lemma_sum_update(self@.players, seat as int, taken.players[seat as int]);
            assert(taken.players =~= self@.players.update(seat as int, taken.players[seat as int]));
        }
        let in_hand = self.active_players();
        let left = match action {
            PlayerAction::Fold => in_hand - 1,
            _ => in_hand,
        };
        if left == 1 {
            return false;
        }
        let target = match action {
            PlayerAction::Bet { amount } => amount,
            _ => self.current_bet,
        };
        let n = self.players.len();
        let mut i: usize = 0;
        while i < n
            invariant
                0 <= i <= n,
                n == self.players@.len(),
                seat < n,
                taken == self@.apply(seat as int, action),
                taken.players.len() == n,
                taken.bet == target,
                taken.players[seat as int].active ==> taken.players[seat as int].bet == taken.bet,
                forall|k: int|
                    0 <= k < n && k != seat ==> #[trigger] taken.players[k] == self@.players[k],
                forall|k: int|
                    0 <= k < i && (#[trigger] taken.players[k]).active ==> taken.players[k].bet
                        == taken.bet,
            decreases n - i,
        {
            if i != seat && self.players[i].is_active && self.players[i].current_bet != target {
                assert(taken.players[i as int].active);
                return false;
            }
            i += 1;
        }
        true
    }

    /// Takes the action of a player.
    ///
    /// The action is rejected, and the table stays as it is:
    /// - with `InvalidTurn`, unless the player is the one to act;
    /// - with `AlreadyInProgress`, when it asks to start a hand;
    /// - with `BelowCurrentBet`, when it is a call and the table's current
    ///   bet is not above what the player has bet, so that nothing is owed,
    ///   or when it is a bet of less than the table's current bet;
    /// - with `InsufficientStack`, when the stack does not cover what the
    ///   call or the bet costs;
    /// - with `DeckExhausted`, when it would close the betting round with
    ///   more than one player left in the hand and the deck does not hold the
    ///   cards of the next stage. The hand then cannot go past its stage:
    ///   it ends when all players but one have folded.
    ///
    /// Else a fold takes the player out of the hand; a call moves what the
    /// player owes on the table's current bet from the stack to the pot; a
    /// bet raises the table's current bet to `amount` and moves what the
    /// player owes on it. A bet of the current amount moves nothing and so
    /// serves as a check.
    ///
    /// After an accepted action the hand ends with the pot going to the last
    /// player when only one is left in it; else the next stage begins when
    /// every player in the hand has matched the current bet; else the turn
    /// passes to the next active player.
    pub fn handle_action(&mut self, username: &str, action: PlayerAction) -> (outcome: Result<
        (),
        GameError,
    >)
        requires
            old(self).wf(),
        ensures
            final(self).wf(),
            final(self)@ == old(self)@.after_action(username@, action),
            outcome == match old(self)@.rejection(username@, action) {
                Some(e) => Err::<(), GameError>(e),
                None => Ok::<(), GameError>(()),
            },
            outcome is Err ==> *final(self) == *old(self),
    {
        let name = username.to_owned();
        let on_turn = match &self.current_turn_username {
            Some(turn) => *turn == name,
            None => false,
        };
        if !on_turn {
            return Err(GameError::InvalidTurn);
        }
        let seat = self.seat_of_player(&name);
        if seat >= self.players.len() {
            return Err(GameError::InvalidTurn);
        }
        let stack = self.players[seat].stack;
        let bet = self.players[seat].current_bet;
        let owed: u32 = match action {
            PlayerAction::StartGame => {
                return Err(GameError::AlreadyInProgress);
            },
            PlayerAction::Fold => 0,
            PlayerAction::Call => {
                if self.current_bet <= bet {
                    return Err(GameError::BelowCurrentBet);
                }
                self.current_bet - bet
            },
            PlayerAction::Bet { amount } => {
                if amount < self.current_bet {
                    return Err(GameError::BelowCurrentBet);
                }
                if amount >= bet {
                    amount - bet
                } else {
                    0
                }
            },
        };
        if owed > stack {
            return Err(GameError::InsufficientStack);
        }
        assert(self@.players[seat as int].active);
        if self.would_run_dry(seat, action) {
            return Err(GameError::DeckExhausted);
        }
        match action {
            PlayerAction::StartGame => {},
            PlayerAction::Fold => {
                self.players[seat].is_active = false;
                proof {
                    assert(self@.players =~= old(self)@.apply(seat as int, action).players);
                }
            },
            PlayerAction::Call => {
                self.commit_chips(seat, owed, self.current_bet);
            },
            PlayerAction::Bet { amount } => {
                self.commit_chips(seat, owed, amount);
                self.current_bet = amount;
            },
        }
        proof {
            assert(self@ == old(self)@.apply(seat as int, action));
            old(self)@.lemma_apply_taken(username@, action);
            old(self)@.lemma_after_action_wf(username@, action);
        }
        if self.check_hand_over() {
            return Ok(());
        }
        if self.check_betting_round_over() {
            proof {
                self@.lemma_can_advance();
            }
            self.proceed_to_next_stage();
        } else {
            self.advance_turn();
        }
        Ok(())
    }

    /// Why a hand cannot start with a deck of `deck_len` cards, if it cannot:
    /// a hand is running, fewer than two players are seated, or the deck
    /// cannot serve two cards to every seat.
    pub fn start_check(&self, deck_len: usize) -> (rejection: Option<GameError>)
        ensures
            rejection == self@.start_rejection(deck_len as nat),
    {
        match self.phase {
            Phase::Waiting => {},
            _ => {
                return Some(GameError::AlreadyInProgress);
            },
        }
        if self.players.len() < 2 {
            return Some(GameError::NotEnoughPlayers);
        }
        if deck_len / 2 < self.players.len() {
            return Some(GameError::DeckExhausted);
        }
        None
    }

    /// Posts a blind of `amount` for the player at `seat`, or of the whole
    /// stack where that is less.
    fn post_blind(&mut self, seat: usize, amount: u32)
        requires
            seat < old(self).players@.len(),
            old(self).players@[seat as int].current_bet == 0,
            old(self)@.total_chips() <= u32::MAX,
        ensures
            final(self)@ == old(self)@.post_blind(seat as int, amount as nat),
    {
        let stack = self.players[seat].stack;
        let paid = if amount <= stack {
            amount
        } else {
            stack
        };
        self.commit_chips(seat, paid, paid);
    }

    /// Starts a hand with the given deck, whose last card is the top card.
    ///
    /// The request is rejected, and the table stays as it is, when a hand is
    /// running, when fewer than two players are seated, or when the deck
    /// cannot serve two cards to every player. Else the board is cleared, the
    /// button moves to the next seat, every player gets two cards off the
    /// top of the deck and is in the hand, the seat after the button posts
    /// the small blind and the seat after that the big blind, each blind
    /// capped by the stack, and the seat after the big blind is first to act.
    ///
    /// Whether the deck can also serve the board is not asked here: a stage
    /// that the deck cannot serve is refused when it is due.
    pub fn start_game_with_deck(&mut self, deck: Vec<Card>) -> (outcome: Result<(), GameError>)
        requires
            old(self)@.roster_ok(),
        ensures
            outcome == match old(self)@.start_rejection(deck@.len()) {
                Some(e) => Err::<(), GameError>(e),
                None => Ok::<(), GameError>(()),
            },
            outcome is Err ==> *final(self) == *old(self),
            outcome is Ok ==> final(self)@ == old(self)@.start(deck@) && final(self).wf(),
    {
        if let Some(e) = self.start_check(deck.len()) {
            return Err(e);
        }
        let n = self.players.len();
        let ghost cards = deck@;
        let ghost goal = old(self)@.start(cards);
        let dealer = self.seat_after(self.dealer_index);
        self.dealer_index = dealer;
        self.deck = deck;
        self.community_cards.clear();
        let mut i: usize = 0;
        while i < n
            invariant
                0 <= i <= n,
                n == self.players@.len(),
                n == old(self).players@.len(),
                cards.len() >= 2 * n,
                self.deck@ == cards.take(cards.len() - 2 * i),
                self.community_cards@.len() == 0,
                self.pot == old(self).pot,
                self.current_turn_username == old(self).current_turn_username,
                self.phase == old(self).phase,
                self.current_bet == old(self).current_bet,
                self.dealer_index == dealer,
                forall|k: int|
                    0 <= k < i ==> (#[trigger] self.players@[k])@ == (PlayerView {
                        hand: hole_cards(cards, k),
                        active: true,
                        bet: 0,
                        ..old(self)@.players[k]
                    }),
                forall|k: int| i <= k < n ==> #[trigger] self.players@[k] == old(self).players@[k],
            decreases n - i,
        {
            let first = deal_one(&mut self.deck);
            let second = deal_one(&mut self.deck);
            match (first, second) {
                (Ok(a), Ok(b)) => {
                    let mut hand: Vec<Card> = Vec::new();
                    hand.push(a);
                    hand.push(b);
                    proof {
                        assert(hand@ =~= hole_cards(cards, i as int));
                    }
                    self.players[i].hand = hand;
                },
                _ => {},
            }
            self.players[i].is_active = true;
            self.players[i].current_bet = 0;
            proof {
                assert(self.deck@ =~= cards.take(cards.len() - 2 * (i + 1)));
            }
            i += 1;
        }
        let small = self.seat_after(dealer);
        let big = self.seat_after(small);
        let first = self.seat_after(big);
        proof {
            let dealt = TableView {
                players: Seq::new(
                    n as nat,
                    |k: int|
                        PlayerView {
                            hand: hole_cards(cards, k),
                            active: true,
                            bet: 0,
                            ..old(self)@.players[k]
                        },
                ),
                community: Seq::empty(),
                dealer: dealer as nat,
                deck: cards.take(cards.len() - 2 * n),
                ..old(self)@
            };
            assert(self@.players =~= dealt.players);
            assert(self@.community =~= dealt.community);
            assert(self@ == dealt);
            lemma_sum_same_stacks(dealt.players, old(self)@.players);
        }
        let ghost dealt = self@;
        self.post_blind(small, SMALL_BLIND);
        proof {
            lemma_stack_le_sum(dealt.players, small as int);
            lemma_sum_update(dealt.players, small as int, self@.players[small as int]);
            assert(self@.players =~= dealt.players.update(small as int, self@.players[small as int]));
        }
        self.post_blind(big, BIG_BLIND);
        let ghost posted = self@;
        assert(self.players@.len() == self@.players.len());
        self.current_bet = BIG_BLIND;
        self.phase = Phase::PreFlop;
        self.current_turn_username = Some(self.players[first].username.clone());
        proof {
            assert(posted == dealt.post_blind(small as int, SMALL_BLIND as nat).post_blind(
                big as int,
                BIG_BLIND as nat,
            ));
            assert(self@.players == posted.players);
            assert(self@.turn == Some(posted.players[first as int].name));
            assert(self@ == goal);
            old(self)@.lemma_start_wf(cards);
        }
        Ok(())
    }

    /// Starts a hand with a new deck in a random order.
    ///
    /// The request is rejected, and the table stays as it is, when a hand is
    /// running, when fewer than two players are seated, or when 52 cards
    /// cannot serve two to every player, that is with more than 26 players.
    /// Else the hand starts as by `start_game_with_deck`, with some order of
    /// the 52 cards.
    pub fn start_game(&mut self) -> (outcome: Result<(), GameError>)
        requires
            old(self)@.roster_ok(),
        ensures
            outcome == match old(self)@.start_rejection(52) {
                Some(e) => Err::<(), GameError>(e),
                None => Ok::<(), GameError>(()),
            },
            outcome is Err ==> *final(self) == *old(self),
            outcome is Ok ==> final(self).wf(),
            outcome is Ok ==> exists|deck: Seq<Card>|
                deck.to_multiset() == full_deck().to_multiset() && #[trigger] old(self)@.start(deck)
                    == final(self)@,
    {
        if let Some(e) = self.start_check(52) {
            return Err(e);
        }
        let deck = shuffled_deck();
        let ghost cards = deck@;
        let outcome = self.start_game_with_deck(deck);
        proof {
            assert(old(self)@.start(cards) == self@);
        }
        outcome
    }

    /// A copy of the table without anybody's hole cards and without the
    /// deck, fit to be shown to every player.
    pub fn sanitized(&self) -> (public: GameState)
        ensures
            public@ == self@.sanitized(),
            forall|i: int| 0 <= i < public.players@.len() ==> (#[trigger] public.players@[i]).hand@.len() == 0,
            public.deck@.len() == 0,
    {
        let mut players: Vec<Player> = Vec::new();
        let mut i: usize = 0;
        while i < self.players.len()
            invariant
                0 <= i <= self.players@.len(),
                players@.len() == i,
                forall|k: int|
                    0 <= k < i ==> (#[trigger] players@[k])@ == (PlayerView {
                        hand: Seq::empty(),
                        ..self@.players[k]
                    }),
            decreases self.players@.len() - i,
        {
            let p = &self.players[i];
            players.push(
                Player {
                    username: p.username.clone(),
                    stack: p.stack,
                    hand: Vec::new(),
                    is_active: p.is_active,
                    current_bet: p.current_bet,
                },
            );
            i += 1;
        }
        let none: Vec<Card> = Vec::new();
        let public = GameState {
            players,
            community_cards: join_cards(self.community_cards.as_slice(), none.as_slice()),
            pot: self.pot,
            current_turn_username: match &self.current_turn_username {
                Some(name) => Some(name.clone()),
                None => None,
            },
            phase: self.phase,
            current_bet: self.current_bet,
            dealer_index: self.dealer_index,
            deck: Vec::new(),
        };
        proof {
            assert(public@.players =~= self@.sanitized().players);
            assert(public@.community =~= self@.community);
            assert(public@.deck =~= self@.sanitized().deck);
            assert forall|i: int| 0 <= i < public.players@.len() implies (
            #[trigger] public.players@[i]).hand@.len() == 0 by {
                assert(public.players@[i]@.hand.len() == 0);
            }
        }
        public
    }

    /// The private message for the player with the name: the tokens of that
    /// player's own hole cards, in the order in which they were dealt.
    /// Nothing for a name that no player has.
    pub fn deal_hand_for(&self, username: &str) -> (payload: Option<DealHandPayload>)
        ensures
            payload is Some == self@.has_player(username@),
            payload matches Some(p) ==> {
                let hand = self@.players[seat_of(self@.players, username@)].hand;
                &&& p.cards@.len() == hand.len()
                &&& forall|i: int| 0 <= i < hand.len() ==> (#[trigger] p.cards@[i])@ == token_of(hand[i])
                &&& parse_tokens(p.cards@) == hand
            },
    {
        let name = username.to_owned();
        let seat = self.seat_of_player(&name);
        if seat < self.players.len() {
            Some(DealHandPayload { cards: card_tokens(self.players[seat].hand.as_slice()) })
        } else {
            None
        }
    }

    /// Whether no two players share a name.
    fn names_are_distinct(&self) -> (ok: bool)
        ensures
            ok == names_distinct(self@.players),
    {
        let n = self.players.len();
        let mut j: usize = 0;
        while j < n
            invariant
                0 <= j <= n,
                n == self.players@.len(),
                forall|a: int, b: int|
                    0 <= a < b < j ==> (#[trigger] self@.players[a]).name != (
                    #[trigger] self@.players[b]).name,
            decreases n - j,
        {
            let mut i: usize = 0;
            while i < j
                invariant
                    0 <= i <= j < n,
                    n == self.players@.len(),
                    forall|a: int|
                        0 <= a < i ==> (#[trigger] self@.players[a]).name != self@.players[j as int].name,
                decreases j - i,
            {
                if self.players[i].username == self.players[j].username {
                    assert(self@.players[i as int].name == self@.players[j as int].name);
                    return false;
                }
                i += 1;
            }
            j += 1;
        }
        true
    }

    /// Whether the pot and the stacks together fit a chip counter.
    fn chips_fit(&self) -> (ok: bool)
        ensures
            ok == (self@.total_chips() <= u32::MAX),
    {
        let n = self.players.len();
        let mut sum: u64 = self.pot as u64;
        let mut i: usize = 0;
        while i < n
            invariant
                0 <= i <= n,
                n == self.players@.len(),
                sum == self.pot + sum_stacks(self@.players.take(i as int)),
                sum <= u32::MAX,
            decreases n - i,
        {
            proof {
                assert(self@.players.take(i + 1).drop_last() =~= self@.players.take(i as int));
                Self::lemma_prefix_chips(self@.players, i + 1);
            }
            sum = sum + self.players[i].stack as u64;
            if sum > 0xffff_ffff {
                return false;
            }
            i += 1;
        }
        proof {
            assert(self@.players.take(i as int) =~= self@.players);
        }
        true
    }

    /// The stacks at the first seats hold no more chips than all stacks.
    proof fn lemma_prefix_chips(players: Seq<PlayerView>, k: int)
        requires
            0 <= k <= players.len(),
        ensures
            sum_stacks(players.take(k)) <= sum_stacks(players),
        decreases players.len() - k,
    {
        if k < players.len() {
            Self::lemma_prefix_chips(players, k + 1);
            assert(players.take(k + 1).drop_last() =~= players.take(k));
        } else {
            assert(players.take(k) =~= players);
        }
    }

    /// Whether the table is as it has to be between hands.
    fn is_at_rest(&self) -> (ok: bool)
        ensures
            ok == self@.at_rest(),
    {
        if self.current_turn_username.is_some() || self.pot != 0 || self.current_bet != 0
            || self.community_cards.len() != 0 || self.deck.len() != 0 {
            return false;
        }
        let n = self.players.len();
        let mut i: usize = 0;
        while i < n
            invariant
                0 <= i <= n,
                n == self.players@.len(),
                forall|k: int| 0 <= k < i ==> #[trigger] self@.players[k] == self@.players[k].idle(),
            decreases n - i,
        {
            let p = &self.players[i];
            if p.is_active || p.current_bet != 0 || p.hand.len() != 0 {
                assert(self@.players[i as int] != self@.players[i as int].idle());
                return false;
            }
            assert(self@.players[i as int].hand =~= Seq::<Card>::empty());
            i += 1;
        }
        true
    }

    /// Whether the table is as it has to be while a hand is played.
    fn is_hand_running(&self) -> (ok: bool)
        ensures
            ok == self@.hand_running(),
    {
        let n = self.players.len();
        let on_turn = match &self.current_turn_username {
            None => false,
            Some(name) => {
                let seat = self.seat_of_player(name);
                seat < n && self.players[seat].is_active
            },
        };
        if !on_turn || self.active_players() < 2 || self.dealer_index >= n {
            return false;
        }
        let board: usize = match self.phase {
            Phase::Waiting => 0,
            Phase::PreFlop => 0,
            Phase::Flop => 3,
            Phase::Turn => 4,
            Phase::River => 5,
            Phase::Showdown => 5,
        };
        if self.community_cards.len() != board {
            return false;
        }
        let mut i: usize = 0;
        while i < n
            invariant
                0 <= i <= n,
                n == self.players@.len(),
                forall|k: int|
                    0 <= k < i && (#[trigger] self@.players[k]).active ==> self@.players[k].hand.len()
                        == 2 && self@.players[k].bet <= self@.bet,
            decreases n - i,
        {
            let p = &self.players[i];
            if p.is_active && (p.hand.len() != 2 || p.current_bet > self.current_bet) {
                assert(self@.players[i as int].active);
                return false;
            }
            i += 1;
        }
        true
    }

    /// Whether the seats are in order, which is all that the start of a hand
    /// relies on: names are unique, the chips fit one chip counter, and the
    /// dealer button is at a seat.
    pub fn has_sound_roster(&self) -> (ok: bool)
        ensures
            ok == self@.roster_ok(),
    {
        self.names_are_distinct() && self.chips_fit() && (self.dealer_index == 0
            || self.dealer_index < self.players.len())
    }

    /// Whether the table satisfies the invariant that the operations keep
    /// and rely on. A table built by `new`, `add_player`, `start_game` and
    /// `handle_action` alone does, as long as the chips of its players fit
    /// one chip counter.
    pub fn is_well_formed(&self) -> (ok: bool)
        ensures
            ok == self.wf(),
    {
        if !self.has_sound_roster() {
            return false;
        }
        match self.phase {
            Phase::Waiting => self.is_at_rest(),
            _ => self.is_hand_running(),
        }
    }
}

} // verus!
