//! Facts about the table model: what its helper functions compute, and that
//! every rule keeps the invariant.

use vstd::prelude::*;
use crate::cards::Card;
use crate::cards::lemma_deals_keep_cards;
use crate::table::BIG_BLIND;
use crate::table::Phase;
use crate::table::PlayerAction;
use crate::table::PlayerView;
use crate::table::SMALL_BLIND;
use crate::table::STARTING_STACK;
use crate::table::TableView;
use crate::table::count_active;
use crate::table::hole_cards;
use crate::table::names_distinct;
use crate::table::next_active;
use crate::table::seat_after;
use crate::table::seat_of;
use crate::table::seek_name;
use crate::table::sum_stacks;

verus! {

/// The seat that a search by name reaches holds the name, no seat before it
/// does, and when it reaches none, no seat does.
pub proof fn lemma_seek_name(players: Seq<PlayerView>, name: Seq<char>, from: int)
    requires
        0 <= from <= players.len(),
    ensures
        from <= seek_name(players, name, from) <= players.len(),
        seek_name(players, name, from) < players.len() ==> players[seek_name(
            players,
            name,
            from,
        )].name == name,
        forall|j: int| from <= j < seek_name(players, name, from) ==> (#[trigger] players[j]).name != name,
    decreases players.len() - from,
{
    if from < players.len() && players[from].name != name {
        lemma_seek_name(players, name, from + 1);
    }
}

/// Where names are unique, the seat of a name is the seat of the player who has it.
pub proof fn lemma_seat_of_found(players: Seq<PlayerView>, name: Seq<char>, seat: int)
    requires
        0 <= seat < players.len(),
        players[seat].name == name,
        names_distinct(players),
    ensures
        seat_of(players, name) == seat,
{
    lemma_seek_name(players, name, 0);
}

/// A new last seat changes no search that found its player before.
pub proof fn lemma_seek_name_push(
    players: Seq<PlayerView>,
    extra: PlayerView,
    name: Seq<char>,
    from: int,
)
    requires
        0 <= from <= players.len(),
    ensures
        seek_name(players, name, from) < players.len() ==> seek_name(
            players.push(extra),
            name,
            from,
        ) == seek_name(players, name, from),
    decreases players.len() - from,
{
    if from < players.len() && players[from].name != name {
        lemma_seek_name_push(players, extra, name, from + 1);
    }
}

/// The stacks with one more player are the stacks before and the stack of that player.
pub proof fn lemma_sum_push(players: Seq<PlayerView>, extra: PlayerView)
    ensures
        sum_stacks(players.push(extra)) == sum_stacks(players) + extra.stack,
        count_active(players.push(extra)) == count_active(players) + if extra.active {
            1nat
        } else {
            0nat
        },
{
    assert(players.push(extra).drop_last() =~= players);
}

/// No stack holds more chips than all stacks together.
pub proof fn lemma_stack_le_sum(players: Seq<PlayerView>, i: int)
    requires
        0 <= i < players.len(),
    ensures
        players[i].stack <= sum_stacks(players),
    decreases players.len(),
{
    if i < players.len() - 1 {
        lemma_stack_le_sum(players.drop_last(), i);
    }
}

/// Players with the same stacks, seat by seat, hold the same chips in all.
pub proof fn lemma_sum_same_stacks(a: Seq<PlayerView>, b: Seq<PlayerView>)
    requires
        a.len() == b.len(),
        forall|i: int| 0 <= i < a.len() ==> (#[trigger] a[i]).stack == b[i].stack,
    ensures
        sum_stacks(a) == sum_stacks(b),
    decreases a.len(),
{
    if a.len() > 0 {
        assert(a.last().stack == b[a.len() - 1].stack);
        lemma_sum_same_stacks(a.drop_last(), b.drop_last());
    }
}

/// Players who are in or out of the hand alike, seat by seat, are as many in the hand.
pub proof fn lemma_count_same_active(a: Seq<PlayerView>, b: Seq<PlayerView>)
    requires
        a.len() == b.len(),
        forall|i: int| 0 <= i < a.len() ==> (#[trigger] a[i]).active == b[i].active,
    ensures
        count_active(a) == count_active(b),
    decreases a.len(),
{
    if a.len() > 0 {
        assert(a.last().active == b[a.len() - 1].active);
        lemma_count_same_active(a.drop_last(), b.drop_last());
    }
}

/// Players who keep their names, seat by seat, keep them distinct.
pub proof fn lemma_same_names(before: Seq<PlayerView>, after: Seq<PlayerView>)
    requires
        names_distinct(before),
        before.len() == after.len(),
        forall|i: int| 0 <= i < before.len() ==> (#[trigger] after[i]).name == before[i].name,
    ensures
        names_distinct(after),
{
    assert forall|i: int, j: int| 0 <= i < j < after.len() implies (#[trigger] after[i]).name != (
    #[trigger] after[j]).name by {
        assert(after[i].name == before[i].name);
        assert(after[j].name == before[j].name);
    }
}

/// Replacing one player changes the chips in the stacks by the difference of
/// that player's stacks, and the number of players in the hand by that
/// player's being in or out of it.
pub proof fn lemma_sum_update(players: Seq<PlayerView>, i: int, p: PlayerView)
    requires
        0 <= i < players.len(),
    ensures
        sum_stacks(players.update(i, p)) == sum_stacks(players) - players[i].stack + p.stack,
        count_active(players.update(i, p)) == count_active(players) - (if players[i].active {
            1int
        } else {
            0int
        }) + (if p.active {
            1int
        } else {
            0int
        }),
    decreases players.len(),
{
    let after = players.update(i, p);
    if i == players.len() - 1 {
        assert(after.drop_last() =~= players.drop_last());
    } else {
        lemma_sum_update(players.drop_last(), i, p);
        assert(after.drop_last() =~= players.drop_last().update(i, p));
    }
}

/// Where somebody is in the hand, some seat holds such a player.
pub proof fn lemma_some_active(players: Seq<PlayerView>) -> (k: int)
    requires
        count_active(players) > 0,
    ensures
        0 <= k < players.len(),
        players[k].active,
    decreases players.len(),
{
    if players.last().active {
        players.len() - 1
    } else {
        lemma_some_active(players.drop_last())
    }
}

/// Where every player is in the hand, as many are in the hand as there are seats.
pub proof fn lemma_count_all_active(players: Seq<PlayerView>)
    requires
        forall|i: int| 0 <= i < players.len() ==> (#[trigger] players[i]).active,
    ensures
        count_active(players) == players.len(),
    decreases players.len(),
{
    if players.len() > 0 {
        assert(players[players.len() - 1].active);
        lemma_count_all_active(players.drop_last());
    }
}

/// The number of seats from `seat` clockwise to `target`.
pub open spec fn seats_between(seat: int, target: int, n: int) -> int {
    if target >= seat {
        target - seat
    } else {
        target - seat + n
    }
}

/// A search for an active player that can reach the seat of one finds one.
pub proof fn lemma_next_active_finds(
    players: Seq<PlayerView>,
    seat: int,
    tries: nat,
    target: int,
)
    requires
        0 <= seat < players.len(),
        0 <= target < players.len(),
        players[target].active,
        seats_between(seat, target, players.len() as int) < tries,
    ensures
        0 <= next_active(players, seat, tries) < players.len(),
        players[next_active(players, seat, tries)].active,
    decreases tries,
{
    if !players[seat].active {
        lemma_next_active_finds(
            players,
            seat_after(seat, players.len() as int),
            (tries - 1) as nat,
            target,
        );
    }
}

/// When each player in the hand gets `bonus` chips, the stacks grow by
/// `bonus` times the number of players in the hand.
pub proof fn lemma_sum_award(before: Seq<PlayerView>, after: Seq<PlayerView>, bonus: nat)
    requires
        before.len() == after.len(),
        forall|i: int|
            0 <= i < before.len() ==> (#[trigger] after[i]).stack == before[i].stack
                + if before[i].active {
                bonus
            } else {
                0
            },
    ensures
        sum_stacks(after) == sum_stacks(before) + count_active(before) * bonus,
    decreases before.len(),
{
    if before.len() > 0 {
        let c = count_active(before.drop_last());
        assert(after[after.len() - 1].stack == before.last().stack + if before.last().active {
            bonus
        } else {
            0
        });
        lemma_sum_award(before.drop_last(), after.drop_last(), bonus);
        assert((c + 1) * bonus == c * bonus + bonus) by (nonlinear_arith);
    } else {
        assert(0 * bonus == 0) by (nonlinear_arith);
    }
}

impl TableView {
    /// Seating a player keeps the invariant, as long as the chips still fit
    /// the chip counters.
    pub proof fn lemma_add_player_wf(self, name: Seq<char>)
        requires
            self.wf(),
            !self.has_player(name) ==> self.total_chips() + STARTING_STACK <= u32::MAX,
        ensures
            self.add_player(name).wf(),
    {
        if !self.has_player(name) {
            let extra = PlayerView::seated(name);
            let after = self.add_player(name);
            lemma_seek_name(self.players, name, 0);
            lemma_sum_push(self.players, extra);
            assert(names_distinct(after.players));
            if self.phase != crate::table::Phase::Waiting {
                let turn = self.turn->0;
                lemma_seek_name_push(self.players, extra, turn, 0);
                lemma_seek_name(self.players, turn, 0);
                let seat = seat_of(self.players, turn);
                assert(seat_of(after.players, turn) == seat);
                assert(after.players[seat] == self.players[seat]);
                assert(after.has_player(turn));
                assert(count_active(after.players) >= 2);
                assert forall|i: int|
                    0 <= i < after.seats() && (#[trigger] after.players[i]).active implies after.players[i].hand.len()
                    == 2 && after.players[i].bet <= after.bet by {
                    if i < self.seats() {
                        assert(after.players[i] == self.players[i]);
                    }
                }
                assert(after.hand_running());
            } else {
                assert(after.at_rest());
            }
        }
    }

    /// After an accepted action the next stage can begin, where the deck
    /// holds the cards for it.
    pub proof fn lemma_can_advance(self)
        requires
            self.action_taken(),
            self.deck.len() >= self.cards_needed(),
        ensures
            self.can_advance(),
    {
    }

    /// Where somebody is in the hand, the search for the player to act from
    /// any seat names a player who is in the hand.
    pub proof fn lemma_turn_from_active(self, seat: int)
        requires
            names_distinct(self.players),
            0 <= seat < self.seats(),
            count_active(self.players) > 0,
        ensures
            self.turn_from(seat) matches Some(name) && self.has_player(name) && self.players[seat_of(
                self.players,
                name,
            )].active,
    {
        let target = lemma_some_active(self.players);
        lemma_next_active_finds(self.players, seat, self.players.len(), target);
        let found = next_active(self.players, seat, self.players.len());
        lemma_seat_of_found(self.players, self.players[found].name, found);
    }

    /// An accepted action keeps the chips in all and leaves the table as it
    /// has to be for what follows.
    pub proof fn lemma_apply_taken(self, name: Seq<char>, action: PlayerAction)
        requires
            self.wf(),
            self.rejection(name, action) is None,
        ensures
            self.apply(seat_of(self.players, name), action).action_taken(),
            self.apply(seat_of(self.players, name), action).total_chips() == self.total_chips(),
    {
        let seat = seat_of(self.players, name);
        let after = self.apply(seat, action);
        lemma_seek_name(self.players, name, 0);
        assert(self.phase != Phase::Waiting);
        assert(self.players[seat].active);
        lemma_sum_update(self.players, seat, after.players[seat]);
        assert(after.players =~= self.players.update(seat, after.players[seat]));
        lemma_same_names(self.players, after.players);
        lemma_seat_of_found(after.players, name, seat);
        assert forall|i: int|
            0 <= i < after.seats() && (#[trigger] after.players[i]).active implies after.players[i].hand.len()
            == 2 && after.players[i].bet <= after.bet by {
            assert(self.players[i].active);
        }
    }

    /// Ending the hand in favour of the one player left in it keeps the
    /// chips in all and the invariant.
    pub proof fn lemma_award_wf(self)
        requires
            self.action_taken(),
            count_active(self.players) == 1,
        ensures
            self.award_last_player().wf(),
            self.award_last_player().total_chips() == self.total_chips(),
    {
        let after = self.award_last_player();
        lemma_sum_award(self.players, after.players, self.pot);
        assert(1 * self.pot == self.pot) by (nonlinear_arith);
        lemma_same_names(self.players, after.players);
        assert(after.at_rest());
    }

    /// Passing the turn on keeps the invariant.
    pub proof fn lemma_pass_turn_wf(self)
        requires
            self.action_taken(),
            count_active(self.players) >= 2,
        ensures
            self.pass_turn().wf(),
            self.pass_turn().total_chips() == self.total_chips(),
    {
        let name = self.turn->0;
        lemma_seek_name(self.players, name, 0);
        self.lemma_turn_from_active(seat_after(seat_of(self.players, name), self.seats()));
    }

    /// When each winner among the first `upto` seats gets `share` chips,
    /// the stacks at those seats grow by `share` times the number of those
    /// winners.
    pub proof fn lemma_sum_shares(self, after: Seq<PlayerView>, share: nat, upto: int)
        requires
            0 <= upto <= self.seats(),
            after.len() == self.players.len(),
            forall|i: int|
                0 <= i < self.seats() ==> (#[trigger] after[i]).stack == self.players[i].stack
                    + if self.is_winner(i) {
                    share
                } else {
                    0
                },
        ensures
            sum_stacks(after.take(upto)) == sum_stacks(self.players.take(upto))
                + self.count_winners(upto) * share,
        decreases upto,
    {
        if upto > 0 {
            let c = self.count_winners(upto - 1);
            self.lemma_sum_shares(after, share, upto - 1);
            assert(after.take(upto).drop_last() =~= after.take(upto - 1));
            assert(self.players.take(upto).drop_last() =~= self.players.take(upto - 1));
            assert(after.take(upto).last() == after[upto - 1]);
            assert((c + 1) * share == c * share + share) by (nonlinear_arith);
        } else {
            assert(0 * share == 0) by (nonlinear_arith);
        }
    }

    /// The showdown keeps the invariant. It creates no chips, and drops
    /// exactly what is left of the pot after the even split.
    pub proof fn lemma_settle_wf(self)
        requires
            names_distinct(self.players),
            self.total_chips() <= u32::MAX,
            self.dealer == 0 || self.dealer < self.seats(),
        ensures
            self.settle().wf(),
            self.settle().total_chips() == sum_stacks(self.players) + self.count_winners(
                self.seats(),
            ) * self.pot_share(),
            self.settle().total_chips() <= self.total_chips(),
            self.count_winners(self.seats()) > 0 ==> self.settle().total_chips()
                == self.total_chips() - self.pot % self.count_winners(self.seats()),
    {
        let after = self.settle();
        let winners = self.count_winners(self.seats());
        let share = self.pot_share();
        self.lemma_sum_shares(after.players, share, self.seats());
        assert(after.players.take(self.seats()) =~= after.players);
        assert(self.players.take(self.seats()) =~= self.players);
        if winners > 0 {
            assert(winners * (self.pot / winners) == self.pot - self.pot % winners) by (nonlinear_arith)
                requires
                    winners > 0,
            ;
            assert(self.pot % winners >= 0) by (nonlinear_arith)
                requires
                    winners > 0,
            ;
        } else {
            assert(winners * share == 0) by (nonlinear_arith)
                requires
                    winners == 0,
            ;
        }
        lemma_same_names(self.players, after.players);
        assert(after.at_rest());
    }

    /// Beginning the next stage keeps the invariant. It creates no chips, and
    /// keeps them all unless it ends the hand by a showdown.
    pub proof fn lemma_next_stage_wf(self)
        requires
            self.action_taken(),
            count_active(self.players) >= 2,
            self.deck.len() >= self.cards_needed(),
        ensures
            self.next_stage().wf(),
            self.next_stage().total_chips() <= self.total_chips(),
            self.next_stage().phase != Phase::Waiting ==> self.next_stage().total_chips()
                == self.total_chips(),
    {
        let opened = self.open_round();
        let start = seat_after(self.dealer as int, self.seats());
        self.lemma_turn_from_active(start);
        let name = opened.turn->0;
        let seat = seat_of(self.players, name);
        lemma_seek_name(self.players, name, 0);
        lemma_sum_same_stacks(opened.players, self.players);
        lemma_count_same_active(opened.players, self.players);
        lemma_same_names(self.players, opened.players);
        lemma_seat_of_found(opened.players, name, seat);
        assert forall|i: int|
            0 <= i < opened.seats() && (#[trigger] opened.players[i]).active implies opened.players[i].hand.len()
            == 2 && opened.players[i].bet <= opened.bet by {
            assert(self.players[i].active);
        }
        match self.phase {
            Phase::Waiting => {},
            Phase::PreFlop => {
                lemma_deals_keep_cards(self.deck, 3);
                assert(self.next_stage().hand_running());
            },
            Phase::Flop => {
                lemma_deals_keep_cards(self.deck, 1);
                assert(self.next_stage().hand_running());
            },
            Phase::Turn => {
                lemma_deals_keep_cards(self.deck, 1);
                assert(self.next_stage().hand_running());
            },
            Phase::River => {
                (TableView { phase: Phase::Showdown, ..opened }).lemma_settle_wf();
            },
            Phase::Showdown => {
                opened.lemma_settle_wf();
            },
        }
    }

    /// What follows an accepted action keeps the invariant, where the deck
    /// can serve it. It creates no
    /// chips, and keeps them all unless it ends the hand by a showdown: also
    /// when it ends the hand in favour of the last player in it.
    pub proof fn lemma_follow_up_wf(self)
        requires
            self.action_taken(),
            !self.runs_dry(),
        ensures
            self.follow_up().wf(),
            self.follow_up().total_chips() <= self.total_chips(),
            self.follow_up().phase != Phase::Waiting ==> self.follow_up().total_chips()
                == self.total_chips(),
            count_active(self.players) == 1 ==> self.follow_up().total_chips()
                == self.total_chips(),
    {
        if count_active(self.players) == 1 {
            self.lemma_award_wf();
        } else if self.round_closed() {
            self.lemma_next_stage_wf();
        } else {
            self.lemma_pass_turn_wf();
        }
    }

    /// Every answer to a player's action keeps the invariant. It creates no
    /// chips, and while the hand goes on it keeps them all.
    pub proof fn lemma_after_action_wf(self, name: Seq<char>, action: PlayerAction)
        requires
            self.wf(),
        ensures
            self.after_action(name, action).wf(),
            self.after_action(name, action).total_chips() <= self.total_chips(),
            self.after_action(name, action).phase != Phase::Waiting ==> self.after_action(
                name,
                action,
            ).total_chips() == self.total_chips(),
    {
        if self.rejection(name, action) is None {
            self.lemma_apply_taken(name, action);
            self.apply(seat_of(self.players, name), action).lemma_follow_up_wf();
        }
    }

    /// Starting a hand keeps the chips in all and sets up the invariant,
    /// whatever an earlier hand has left on the table.
    pub proof fn lemma_start_wf(self, deck: Seq<Card>)
        requires
            self.roster_ok(),
            self.start_rejection(deck.len()) is None,
        ensures
            self.start(deck).wf(),
            self.start(deck).total_chips() == self.total_chips(),
            self.start(deck).phase == Phase::PreFlop,
    {
        let n = self.seats();
        let dealer = seat_after(self.dealer as int, n);
        let small = seat_after(dealer, n);
        let big = seat_after(small, n);
        let first = seat_after(big, n);
        let dealt = TableView {
            players: Seq::new(
                n as nat,
                |i: int|
                    PlayerView {
                        hand: hole_cards(deck, i),
                        active: true,
                        bet: 0,
                        ..self.players[i]
                    },
            ),
            community: Seq::empty(),
            dealer: dealer as nat,
            deck: deck.take(deck.len() - 2 * n),
            ..self
        };
        let one = dealt.post_blind(small, SMALL_BLIND as nat);
        let two = one.post_blind(big, BIG_BLIND as nat);
        let after = self.start(deck);
        assert(after.players == two.players);
        lemma_sum_same_stacks(dealt.players, self.players);
        lemma_sum_update(dealt.players, small, one.players[small]);
        lemma_sum_update(one.players, big, two.players[big]);
        lemma_same_names(self.players, after.players);
        lemma_count_all_active(after.players);
        lemma_seat_of_found(after.players, after.players[first].name, first);
        assert forall|i: int|
            0 <= i < after.seats() && (#[trigger] after.players[i]).active implies after.players[i].hand.len()
            == 2 && after.players[i].bet <= after.bet by {
            assert(after.players[i].hand == hole_cards(deck, i));
        }
        assert(after.hand_running());
    }
}

} // verus!
