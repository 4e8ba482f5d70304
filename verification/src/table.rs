//! The mathematical model of a table: its state as plain values, the rules
//! that take one state to the next, and the invariant that the rules keep.

use vstd::prelude::*;
use crate::cards::after_deals;
use crate::cards::Card;
use crate::error::GameError;
use crate::hand_evaluator::best_of_seven;
use crate::ranking::HandRank;

verus! {

/// The chips a player is seated with.
pub const STARTING_STACK: u32 = 1000;

/// The forced bet of the seat after the dealer.
pub const SMALL_BLIND: u32 = 10;

/// The forced bet of the seat after the small blind, and the bet to match before the flop.
pub const BIG_BLIND: u32 = 20;

/// The stage of a hand.
#[derive(Debug, Clone, Copy, PartialEq, Eq, Structural)]
pub enum Phase {
    /// No hand is being played.
    Waiting,
    /// Hole cards are dealt, the board is empty.
    PreFlop,
    /// Three board cards.
    Flop,
    /// Four board cards.
    Turn,
    /// Five board cards.
    River,
    /// The hands are being compared.
    Showdown,
}

/// What a player asks the table to do.
#[derive(Debug, Clone, Copy, PartialEq, Eq, Structural)]
pub enum PlayerAction {
    /// Start a hand.
    StartGame,
    /// Leave the hand.
    Fold,
    /// Match the table's current bet.
    Call,
    /// Raise the table's current bet to `amount`.
    Bet { amount: u32 },
}

/// A player as plain values.
pub struct PlayerView {
    pub name: Seq<char>,
    pub stack: nat,
    pub hand: Seq<Card>,
    pub active: bool,
    pub bet: nat,
}

/// A table as plain values.
pub struct TableView {
    pub players: Seq<PlayerView>,
    pub community: Seq<Card>,
    pub pot: nat,
    pub turn: Option<Seq<char>>,
    pub phase: Phase,
    pub bet: nat,
    pub dealer: nat,
    pub deck: Seq<Card>,
}

impl Phase {
    /// The name under which the phase is shown to players.
    pub open spec fn label(self) -> Seq<char> {
        match self {
            Phase::Waiting => "Waiting"@,
            Phase::PreFlop => "Pre-flop"@,
            Phase::Flop => "Flop"@,
            Phase::Turn => "Turn"@,
            Phase::River => "River"@,
            Phase::Showdown => "Showdown"@,
        }
    }

    /// The phase that a name stands for, if it is the name of one.
    pub open spec fn of_label(label: Seq<char>) -> Option<Phase> {
        if label == "Waiting"@ {
            Some(Phase::Waiting)
        } else if label == "Pre-flop"@ {
            Some(Phase::PreFlop)
        } else if label == "Flop"@ {
            Some(Phase::Flop)
        } else if label == "Turn"@ {
            Some(Phase::Turn)
        } else if label == "River"@ {
            Some(Phase::River)
        } else if label == "Showdown"@ {
            Some(Phase::Showdown)
        } else {
            None
        }
    }

    /// Every phase is the phase that its name stands for.
    pub proof fn lemma_label_round_trip(self)
        ensures
            Phase::of_label(self.label()) == Some(self),
    {
        reveal_strlit("Waiting");
        reveal_strlit("Pre-flop");
        reveal_strlit("Flop");
        reveal_strlit("Turn");
        reveal_strlit("River");
        reveal_strlit("Showdown");
        assert("Waiting"@.len() == 7 && "Pre-flop"@.len() == 8 && "Flop"@.len() == 4);
        assert("Turn"@.len() == 4 && "River"@.len() == 5 && "Showdown"@.len() == 8);
        assert("Flop"@[0] == 'F' && "Turn"@[0] == 'T');
        assert("Pre-flop"@[0] == 'P' && "Showdown"@[0] == 'S');
    }

    /// The name under which the phase is shown to players.
    pub fn name(&self) -> (text: String)
        ensures
            text@ == self.label(),
            Phase::of_label(text@) == Some(*self),
    {
        proof {
            self.lemma_label_round_trip();
        }
        let text = match self {
            Phase::Waiting => "Waiting",
            Phase::PreFlop => "Pre-flop",
            Phase::Flop => "Flop",
            Phase::Turn => "Turn",
            Phase::River => "River",
            Phase::Showdown => "Showdown",
        };
        text.to_owned()
    }

    /// The phase that a name stands for, if it is the name of one.
    pub fn from_name(text: &str) -> (phase: Option<Phase>)
        ensures
            phase == Phase::of_label(text@),
    {
        let given = text.to_owned();
        if given == "Waiting".to_owned() {
            Some(Phase::Waiting)
        } else if given == "Pre-flop".to_owned() {
            Some(Phase::PreFlop)
        } else if given == "Flop".to_owned() {
            Some(Phase::Flop)
        } else if given == "Turn".to_owned() {
            Some(Phase::Turn)
        } else if given == "River".to_owned() {
            Some(Phase::River)
        } else if given == "Showdown".to_owned() {
            Some(Phase::Showdown)
        } else {
            None
        }
    }
}

/// The number of board cards that a phase shows.
pub open spec fn board_size(phase: Phase) -> nat {
    match phase {
        Phase::Waiting => 0,
        Phase::PreFlop => 0,
        Phase::Flop => 3,
        Phase::Turn => 4,
        Phase::River => 5,
        Phase::Showdown => 5,
    }
}

/// The chips in the players' stacks.
pub open spec fn sum_stacks(players: Seq<PlayerView>) -> nat
    decreases players.len(),
{
    if players.len() == 0 {
        0
    } else {
        sum_stacks(players.drop_last()) + players.last().stack
    }
}

/// The number of players still in the hand.
pub open spec fn count_active(players: Seq<PlayerView>) -> nat
    decreases players.len(),
{
    if players.len() == 0 {
        0
    } else {
        count_active(players.drop_last()) + if players.last().active {
            1nat
        } else {
            0nat
        }
    }
}

/// The first seat from `from` on whose player has the name, or the number of
/// seats when there is none.
pub open spec fn seek_name(players: Seq<PlayerView>, name: Seq<char>, from: int) -> int
    decreases players.len() - from,
{
    if from >= players.len() {
        players.len() as int
    } else if players[from].name == name {
        from
    } else {
        seek_name(players, name, from + 1)
    }
}

/// The seat of the player with the name, or the number of seats when no
/// player has it.
pub open spec fn seat_of(players: Seq<PlayerView>, name: Seq<char>) -> int {
    seek_name(players, name, 0)
}

/// No two players share a name.
pub open spec fn names_distinct(players: Seq<PlayerView>) -> bool {
    forall|i: int, j: int|
        0 <= i < j < players.len() ==> (#[trigger] players[i]).name != (#[trigger] players[j]).name
}

/// The seat clockwise next to `seat` at a table of `n` seats.
pub open spec fn seat_after(seat: int, n: int) -> int {
    if seat + 1 >= n {
        0
    } else {
        seat + 1
    }
}

/// The first seat with an active player, looking at `seat` and then clockwise
/// at up to `tries` seats in all; the seat reached when none of them has one.
pub open spec fn next_active(players: Seq<PlayerView>, seat: int, tries: nat) -> int
    decreases tries,
{
    if tries == 0 {
        seat
    } else if players[seat].active {
        seat
    } else {
        next_active(players, seat_after(seat, players.len() as int), (tries - 1) as nat)
    }
}

/// The two hole cards of seat `i` when the hand is dealt from `deck`: each
/// seat in turn takes two cards off the top.
pub open spec fn hole_cards(deck: Seq<Card>, i: int) -> Seq<Card> {
    seq![deck[deck.len() - 1 - 2 * i], deck[deck.len() - 2 - 2 * i]]
}

impl PlayerView {
    /// A player who has just sat down.
    pub open spec fn seated(name: Seq<char>) -> PlayerView {
        PlayerView { name, stack: STARTING_STACK as nat, hand: Seq::empty(), active: false, bet: 0 }
    }

    /// The player between hands: no cards, no bet, not in a hand.
    pub open spec fn idle(self) -> PlayerView {
        PlayerView { hand: Seq::empty(), active: false, bet: 0, ..self }
    }
}

impl TableView {
    /// An empty table.
    pub open spec fn empty() -> TableView {
        TableView {
            players: Seq::empty(),
            community: Seq::empty(),
            pot: 0,
            turn: None,
            phase: Phase::Waiting,
            bet: 0,
            dealer: 0,
            deck: Seq::empty(),
        }
    }

    /// The number of seats.
    pub open spec fn seats(self) -> int {
        self.players.len() as int
    }

    /// All chips on the table: the pot and the stacks.
    pub open spec fn total_chips(self) -> nat {
        self.pot + sum_stacks(self.players)
    }

    /// Some player has the name.
    pub open spec fn has_player(self, name: Seq<char>) -> bool {
        seat_of(self.players, name) < self.seats()
    }

    /// Every active player has matched the table's current bet.
    pub open spec fn round_closed(self) -> bool {
        forall|i: int|
            0 <= i < self.seats() && (#[trigger] self.players[i]).active ==> self.players[i].bet
                == self.bet
    }

    /// What holds of a table while a hand is played.
    pub open spec fn hand_running(self) -> bool {
        &&& self.turn matches Some(name) && self.has_player(name) && self.players[seat_of(
            self.players,
            name,
        )].active
        &&& count_active(self.players) >= 2
        &&& forall|i: int|
            0 <= i < self.seats() && (#[trigger] self.players[i]).active ==> self.players[i].hand.len()
                == 2 && self.players[i].bet <= self.bet
        &&& self.community.len() == board_size(self.phase)
        &&& self.dealer < self.seats()
    }

    /// What holds of a table between an accepted action and what follows it:
    /// as while a hand is played, but the player to act may have left the
    /// hand, and one player in the hand is enough.
    pub open spec fn action_taken(self) -> bool {
        &&& self.roster_ok()
        &&& self.phase != Phase::Waiting
        &&& self.turn matches Some(name) && self.has_player(name)
        &&& count_active(self.players) >= 1
        &&& forall|i: int|
            0 <= i < self.seats() && (#[trigger] self.players[i]).active ==> self.players[i].hand.len()
                == 2 && self.players[i].bet <= self.bet
        &&& self.community.len() == board_size(self.phase)
        &&& self.dealer < self.seats()
    }

    /// What holds of a table between hands.
    pub open spec fn at_rest(self) -> bool {
        &&& self.turn is None
        &&& self.pot == 0
        &&& self.bet == 0
        &&& self.community.len() == 0
        &&& self.deck.len() == 0
        &&& forall|i: int| 0 <= i < self.seats() ==> #[trigger] self.players[i] == self.players[i].idle()
    }

    /// What holds of the seats at all times: names are unique, the chips fit
    /// the chip counters, and the dealer button is at a seat.
    pub open spec fn roster_ok(self) -> bool {
        &&& names_distinct(self.players)
        &&& self.total_chips() <= u32::MAX
        &&& (self.dealer == 0 || self.dealer < self.seats())
    }

    /// The invariant of the table: the seats are in order, and the
    /// hand-scoped parts agree with the phase.
    pub open spec fn wf(self) -> bool {
        &&& self.roster_ok()
        &&& if self.phase == Phase::Waiting {
            self.at_rest()
        } else {
            self.hand_running()
        }
    }

    /// The table after a player with the name has asked for a seat: a new last
    /// seat with the starting stack, unless a player has the name already.
    pub open spec fn add_player(self, name: Seq<char>) -> TableView {
        if self.has_player(name) {
            self
        } else {
            TableView { players: self.players.push(PlayerView::seated(name)), ..self }
        }
    }

    /// Why a hand cannot start with a deck of `deck_len` cards, if it cannot:
    /// a hand is running, fewer than two players are seated, or the deck
    /// cannot serve two cards to every seat.
    pub open spec fn start_rejection(self, deck_len: nat) -> Option<GameError> {
        if self.phase != Phase::Waiting {
            Some(GameError::AlreadyInProgress)
        } else if self.seats() < 2 {
            Some(GameError::NotEnoughPlayers)
        } else if deck_len < 2 * self.seats() {
            Some(GameError::DeckExhausted)
        } else {
            None
        }
    }

    /// The table after the player at `seat` has moved `amount` chips from the
    /// stack to the bet of this round, and so to the pot.
    pub open spec fn pay(self, seat: int, amount: nat) -> TableView {
        let p = self.players[seat];
        TableView {
            players: self.players.update(
                seat,
                PlayerView { stack: (p.stack - amount) as nat, bet: p.bet + amount, ..p },
            ),
            pot: self.pot + amount,
            ..self
        }
    }

    /// The table after the player at `seat` has posted a blind of `amount`, or
    /// of the whole stack where that is less.
    pub open spec fn post_blind(self, seat: int, amount: nat) -> TableView {
        let stack = self.players[seat].stack;
        self.pay(
            seat,
            if amount <= stack {
                amount
            } else {
                stack
            },
        )
    }

    /// The table after a hand has started with `deck`: the board is cleared,
    /// the button moves one seat on, every player gets two cards off the top
    /// of the deck and is in the hand with no bet, the two seats after the
    /// button post the blinds, and the seat after them is first to act.
    pub open spec fn start(self, deck: Seq<Card>) -> TableView {
        let n = self.seats();
        let dealer = seat_after(self.dealer as int, n);
        let small = seat_after(dealer, n);
        let big = seat_after(small, n);
        let first = seat_after(big, n);
        let dealt = TableView {
            players: Seq::new(
                n as nat,
                |i: int|
                    PlayerView {
                        hand: hole_cards(deck, i),
                        active: true,
                        bet: 0,
                        ..self.players[i]
                    },
            ),
            community: Seq::empty(),
            dealer: dealer as nat,
            deck: deck.take(deck.len() - 2 * n),
            ..self
        };
        let posted = dealt.post_blind(small, SMALL_BLIND as nat).post_blind(big, BIG_BLIND as nat);
        TableView {
            bet: BIG_BLIND as nat,
            phase: Phase::PreFlop,
            turn: Some(posted.players[first].name),
            ..posted
        }
    }

    /// Why the player at `seat` cannot take the action as such, if that is so:
    /// a request to start a hand while one is running; a call when the
    /// table's current bet is not above the player's own, so that nothing is
    /// owed; a call or a bet that the stack does not cover; a bet below the
    /// table's current bet.
    pub open spec fn refusal(self, seat: int, action: PlayerAction) -> Option<GameError> {
        let p = self.players[seat];
        match action {
            PlayerAction::StartGame => Some(GameError::AlreadyInProgress),
            PlayerAction::Fold => None,
            PlayerAction::Call => if self.bet <= p.bet {
                Some(GameError::BelowCurrentBet)
            } else if self.bet - p.bet > p.stack {
                Some(GameError::InsufficientStack)
            } else {
                None
            },
            PlayerAction::Bet { amount } => if amount < self.bet {
                Some(GameError::BelowCurrentBet)
            } else if amount - p.bet > p.stack {
                Some(GameError::InsufficientStack)
            } else {
                None
            },
        }
    }

    /// The number of cards that go to the board when the phase ends.
    pub open spec fn cards_needed(self) -> nat {
        match self.phase {
            Phase::PreFlop => 3,
            Phase::Flop => 1,
            Phase::Turn => 1,
            _ => 0,
        }
    }

    /// The hand is about to move to its next stage, and the deck does not
    /// hold the cards for it: more than one player is in the hand, every one
    /// of them has matched the current bet, and the deck is too short.
    pub open spec fn runs_dry(self) -> bool {
        &&& count_active(self.players) != 1
        &&& self.round_closed()
        &&& self.deck.len() < self.cards_needed()
    }

    /// Why the action of the player with the name is rejected, if it is: it
    /// is not that player's turn; or the player cannot take the action as
    /// such; or the action would close the betting round while the deck
    /// cannot serve the next stage.
    pub open spec fn rejection(self, name: Seq<char>, action: PlayerAction) -> Option<GameError> {
        let seat = seat_of(self.players, name);
        if self.turn != Some(name) || !self.has_player(name) {
            Some(GameError::InvalidTurn)
        } else if self.refusal(seat, action) is Some {
            self.refusal(seat, action)
        } else if self.apply(seat, action).runs_dry() {
            Some(GameError::DeckExhausted)
        } else {
            None
        }
    }

    /// The table after the player at `seat` has folded, called or bet, before
    /// anything follows from it.
    pub open spec fn apply(self, seat: int, action: PlayerAction) -> TableView {
        let p = self.players[seat];
        match action {
            PlayerAction::StartGame => self,
            PlayerAction::Fold => TableView {
                players: self.players.update(seat, PlayerView { active: false, ..p }),
                ..self
            },
            PlayerAction::Call => if self.bet >= p.bet {
                self.pay(seat, (self.bet - p.bet) as nat)
            } else {
                self
            },
            PlayerAction::Bet { amount } => TableView {
                bet: amount as nat,
                ..self.pay(
                    seat,
                    if amount >= p.bet {
                        (amount - p.bet) as nat
                    } else {
                        0
                    },
                )
            },
        }
    }

    /// The table after a hand has ended: no cards anywhere, no bets, an empty
    /// pot, nobody in a hand, nobody to act.
    pub open spec fn end_hand(self) -> TableView {
        TableView {
            players: Seq::new(self.players.len(), |i: int| self.players[i].idle()),
            community: Seq::empty(),
            pot: 0,
            turn: None,
            phase: Phase::Waiting,
            bet: 0,
            deck: Seq::empty(),
            ..self
        }
    }

    /// The table after the pot has gone to the players still in the hand
    /// (there is one when this applies) and the hand has ended.
    pub open spec fn award_last_player(self) -> TableView {
        TableView {
            players: Seq::new(
                self.players.len(),
                |i: int|
                    PlayerView {
                        stack: if self.players[i].active {
                            self.players[i].stack + self.pot
                        } else {
                            self.players[i].stack
                        },
                        ..self.players[i]
                    },
            ),
            ..self
        }.end_hand()
    }

    /// The name of the first active player at `seat` or clockwise after it.
    pub open spec fn turn_from(self, seat: int) -> Option<Seq<char>> {
        let found = next_active(self.players, seat, self.players.len());
        if self.players.len() > 0 && self.players[found].active {
            Some(self.players[found].name)
        } else {
            None
        }
    }

    /// The table after the turn has passed to the next active player
    /// clockwise from the player to act.
    pub open spec fn pass_turn(self) -> TableView {
        match self.turn {
            None => self,
            Some(name) => if self.has_player(name) {
                TableView {
                    turn: self.turn_from(seat_after(seat_of(self.players, name), self.seats())),
                    ..self
                }
            } else {
                TableView { turn: None, ..self }
            },
        }
    }

    /// The value of the best hand that the player at seat `i` makes of the
    /// board and the two hole cards.
    pub open spec fn showdown_value(self, i: int) -> HandRank {
        best_of_seven(self.community + self.players[i].hand)
    }

    /// The player at seat `i` is in the hand and no player in the hand has a
    /// stronger hand.
    pub open spec fn is_winner(self, i: int) -> bool {
        &&& 0 <= i < self.seats()
        &&& self.players[i].active
        &&& forall|j: int|
            0 <= j < self.seats() && (#[trigger] self.players[j]).active
                ==> self.showdown_value(j).is_at_most(self.showdown_value(i))
    }

    /// The number of winners among the first `upto` seats.
    pub open spec fn count_winners(self, upto: int) -> nat
        decreases upto,
    {
        if upto <= 0 {
            0
        } else {
            self.count_winners(upto - 1) + if self.is_winner(upto - 1) {
                1nat
            } else {
                0nat
            }
        }
    }

    /// What each winner gets of the pot: an equal share, rounded down.
    pub open spec fn pot_share(self) -> nat {
        let winners = self.count_winners(self.seats());
        if winners == 0 {
            0
        } else {
            self.pot / winners
        }
    }

    /// The table after the showdown: every winner's stack has grown by the
    /// share, what is left of the pot is gone, and the hand has ended.
    pub open spec fn settle(self) -> TableView {
        TableView {
            players: Seq::new(
                self.players.len(),
                |i: int|
                    PlayerView {
                        stack: if self.is_winner(i) {
                            self.players[i].stack + self.pot_share()
                        } else {
                            self.players[i].stack
                        },
                        ..self.players[i]
                    },
            ),
            ..self
        }.end_hand()
    }

    /// The table after `k` cards have gone from the top of the deck to the board.
    pub open spec fn deal_board(self, k: nat) -> TableView {
        TableView {
            community: self.community + after_deals(self.deck, k).1,
            deck: after_deals(self.deck, k).0,
            ..self
        }
    }

    /// The hands can be compared: the board is complete and every player in
    /// the hand holds two cards.
    pub open spec fn showdown_ready(self) -> bool {
        &&& self.community.len() == 5
        &&& forall|i: int|
            0 <= i < self.seats() && (#[trigger] self.players[i]).active ==> self.players[i].hand.len()
                == 2
    }

    /// The next stage can begin: the chips fit the chip counters, and the deck
    /// holds the board cards of the next phase or, after the river, the hands
    /// can be compared.
    pub open spec fn can_advance(self) -> bool {
        &&& self.total_chips() <= u32::MAX
        &&& self.deck.len() >= self.cards_needed()
        &&& (self.phase == Phase::River || self.phase == Phase::Showdown ==> self.showdown_ready())
    }

    /// The table with a new betting round opened: the bets of the players in
    /// the hand are cleared, there is no bet to match, and the first active
    /// player after the button is to act.
    pub open spec fn open_round(self) -> TableView {
        TableView {
            players: Seq::new(
                self.players.len(),
                |i: int|
                    PlayerView {
                        bet: if self.players[i].active {
                            0
                        } else {
                            self.players[i].bet
                        },
                        ..self.players[i]
                    },
            ),
            bet: 0,
            turn: self.turn_from(seat_after(self.dealer as int, self.seats())),
            ..self
        }
    }

    /// The table after a betting round has closed: a new round is opened and
    /// the hand moves on by one phase, with three board cards for the flop,
    /// one for the turn and one for the river, and with the showdown after
    /// the river.
    pub open spec fn next_stage(self) -> TableView {
        let opened = self.open_round();
        match self.phase {
            Phase::Waiting => opened,
            Phase::PreFlop => TableView { phase: Phase::Flop, ..opened }.deal_board(3),
            Phase::Flop => TableView { phase: Phase::Turn, ..opened }.deal_board(1),
            Phase::Turn => TableView { phase: Phase::River, ..opened }.deal_board(1),
            Phase::River => TableView { phase: Phase::Showdown, ..opened }.settle(),
            Phase::Showdown => opened.settle(),
        }
    }

    /// What follows an accepted action: the hand ends when one player is left
    /// in it; else the next stage begins when the betting round has closed;
    /// else the turn passes on.
    pub open spec fn follow_up(self) -> TableView {
        if count_active(self.players) == 1 {
            self.award_last_player()
        } else if self.round_closed() {
            self.next_stage()
        } else {
            self.pass_turn()
        }
    }

    /// The table after the player with the name has asked for the action: the
    /// same table when the action is rejected, else the table after the
    /// action and what follows it.
    pub open spec fn after_action(self, name: Seq<char>, action: PlayerAction) -> TableView {
        if self.rejection(name, action) is Some {
            self
        } else {
            self.apply(seat_of(self.players, name), action).follow_up()
        }
    }

    /// The table as it is shown to everybody: the players, the board, the
    /// chips, the turn, the phase and the button, but nobody's hole cards and
    /// nothing of the deck.
    pub open spec fn sanitized(self) -> TableView {
        TableView {
            players: Seq::new(
                self.players.len(),
                |i: int| PlayerView { hand: Seq::empty(), ..self.players[i] },
            ),
            deck: Seq::empty(),
            ..self
        }
    }
}

} // verus!
