//! What holds of a table over a whole hand: the chips are conserved, and so
//! are the cards.

use vstd::multiset::Multiset;
use vstd::prelude::*;
use vstd::seq_lib::lemma_multiset_commutative;
use crate::cards::Card;
use crate::cards::full_deck;
use crate::cards::lemma_deals_keep_cards;
use crate::cards::lemma_full_deck_complete;
use crate::table::Phase;
use crate::table::PlayerAction;
use crate::table::PlayerView;
use crate::table::TableView;
use crate::table::hole_cards;
use crate::table::seat_of;

verus! {

/// A player's request: who asks, and for what.
pub struct Request {
    pub name: Seq<char>,
    pub action: PlayerAction,
}

/// The table after it has answered the requests one after the other.
pub open spec fn replay(table: TableView, requests: Seq<Request>) -> TableView
    decreases requests.len(),
{
    if requests.len() == 0 {
        table
    } else {
        replay(table, requests.drop_last()).after_action(
            requests.last().name,
            requests.last().action,
        )
    }
}

/// A table that is waiting for a hand to start answers no action: it stays as it is.
pub proof fn lemma_waiting_table_stays(table: TableView, name: Seq<char>, action: PlayerAction)
    requires
        table.wf(),
        table.phase == Phase::Waiting,
    ensures
        table.after_action(name, action) == table,
{
}

/// Whatever the players ask for, in whatever order, the table keeps its
/// invariant and gains no chips; and as long as the hand it began with goes
/// on, the pot and the stacks together hold exactly the chips they held at
/// the beginning.
pub proof fn lemma_chips_conserved(table: TableView, requests: Seq<Request>)
    requires
        table.wf(),
    ensures
        replay(table, requests).wf(),
        replay(table, requests).total_chips() <= table.total_chips(),
        replay(table, requests).phase != Phase::Waiting ==> replay(table, requests).total_chips()
            == table.total_chips(),
        replay(table, requests).phase != Phase::Waiting ==> table.phase != Phase::Waiting,
    decreases requests.len(),
{
    if requests.len() > 0 {
        let before = replay(table, requests.drop_last());
        lemma_chips_conserved(table, requests.drop_last());
        before.lemma_after_action_wf(requests.last().name, requests.last().action);
        if before.phase == Phase::Waiting {
            lemma_waiting_table_stays(before, requests.last().name, requests.last().action);
        }
    }
}

/// From the start of a hand on, whatever the players ask for, the pot and
/// the stacks together hold exactly the chips that they held before the
/// hand started, for as long as the hand goes on; the blinds move chips but
/// neither make nor lose any. When the hand has ended, no chip has been
/// added.
pub proof fn lemma_hand_conserves_chips(table: TableView, deck: Seq<Card>, requests: Seq<Request>)
    requires
        table.roster_ok(),
        table.start_rejection(deck.len()) is None,
    ensures
        replay(table.start(deck), requests).wf(),
        replay(table.start(deck), requests).total_chips() <= table.total_chips(),
        replay(table.start(deck), requests).phase != Phase::Waiting ==> replay(
            table.start(deck),
            requests,
        ).total_chips() == table.total_chips(),
{
    table.lemma_start_wf(deck);
    lemma_chips_conserved(table.start(deck), requests);
}

/// The hole cards of all players together.
pub open spec fn hands_of(players: Seq<PlayerView>) -> Multiset<Card>
    decreases players.len(),
{
    if players.len() == 0 {
        Multiset::empty()
    } else {
        hands_of(players.drop_last()).add(players.last().hand.to_multiset())
    }
}

/// All cards at the table: the deck, the board and the hole cards.
pub open spec fn cards_on_table(table: TableView) -> Multiset<Card> {
    table.deck.to_multiset().add(table.community.to_multiset()).add(hands_of(table.players))
}

/// Players who hold the same hole cards, seat by seat, hold the same cards in all.
pub proof fn lemma_same_hands(a: Seq<PlayerView>, b: Seq<PlayerView>)
    requires
        a.len() == b.len(),
        forall|i: int| 0 <= i < a.len() ==> (#[trigger] a[i]).hand == b[i].hand,
    ensures
        hands_of(a) == hands_of(b),
    decreases a.len(),
{
    if a.len() > 0 {
        assert(a.last().hand == b[a.len() - 1].hand);
        lemma_same_hands(a.drop_last(), b.drop_last());
    }
}

/// The hole cards dealt to the first `k` seats are the top `2 * k` cards of the deck.
pub proof fn lemma_dealt_hands(deck: Seq<Card>, players: Seq<PlayerView>, k: int)
    requires
        0 <= k <= players.len(),
        2 * k <= deck.len(),
        forall|i: int| 0 <= i < k ==> (#[trigger] players[i]).hand == hole_cards(deck, i),
    ensures
        hands_of(players.take(k)) == deck.subrange(deck.len() - 2 * k, deck.len() as int).to_multiset(),
    decreases k,
{
    broadcast use vstd::multiset::group_multiset_axioms;
    broadcast use vstd::seq_lib::group_to_multiset_ensures;

    let len = deck.len() as int;
    if k == 0 {
        assert(deck.subrange(len, len) =~= Seq::<Card>::empty());
        assert(Seq::<Card>::empty().to_multiset() =~= Multiset::<Card>::empty());
        assert(players.take(0).len() == 0);
    } else {
        lemma_dealt_hands(deck, players, k - 1);
        assert(players.take(k).drop_last() =~= players.take(k - 1));
        assert(players.take(k).last() == players[k - 1]);
        let hand = hole_cards(deck, k - 1);
        let lower = deck[len - 2 * k];
        let upper = deck[len - 2 * k + 1];
        let top = deck.subrange(len - 2 * (k - 1), len);
        assert(hand =~= Seq::<Card>::empty().push(upper).push(lower));
        assert(hand.to_multiset() =~= Multiset::<Card>::empty().insert(upper).insert(lower));
        let pair = Seq::<Card>::empty().push(lower).push(upper);
        assert(pair.to_multiset() =~= Multiset::<Card>::empty().insert(lower).insert(upper));
        assert(deck.subrange(len - 2 * k, len) =~= pair + top);
        lemma_multiset_commutative(pair, top);
        assert(hands_of(players.take(k)) =~= deck.subrange(len - 2 * k, len).to_multiset());
    }
}

/// When a hand has started, the cards at the table are the cards of the
/// deck it started with, each as often as it is in that deck.
pub proof fn lemma_start_keeps_cards(table: TableView, deck: Seq<Card>)
    requires
        table.roster_ok(),
        table.start_rejection(deck.len()) is None,
    ensures
        cards_on_table(table.start(deck)) == deck.to_multiset(),
{
    broadcast use vstd::multiset::group_multiset_axioms;
    broadcast use vstd::seq_lib::group_to_multiset_ensures;

    let after = table.start(deck);
    let n = table.seats();
    let len = deck.len() as int;
    assert forall|i: int| 0 <= i < n implies (#[trigger] after.players[i]).hand == hole_cards(
        deck,
        i,
    ) by {}
    lemma_dealt_hands(deck, after.players, n);
    assert(after.players.take(n) =~= after.players);
    assert(after.community =~= Seq::<Card>::empty());
    assert(Seq::<Card>::empty().to_multiset() =~= Multiset::<Card>::empty());
    assert(deck.take(len - 2 * n) + deck.subrange(len - 2 * n, len) =~= deck);
    lemma_multiset_commutative(deck.take(len - 2 * n), deck.subrange(len - 2 * n, len));
    assert(cards_on_table(after) =~= deck.to_multiset());
}

/// Moving cards from the top of the deck to the board keeps the cards at the table.
pub proof fn lemma_board_keeps_cards(table: TableView, k: nat)
    requires
        k <= table.deck.len(),
    ensures
        cards_on_table(table.deal_board(k)) == cards_on_table(table),
{
    broadcast use vstd::multiset::group_multiset_axioms;

    let after = table.deal_board(k);
    lemma_deals_keep_cards(table.deck, k);
    lemma_multiset_commutative(table.community, crate::cards::after_deals(table.deck, k).1);
    assert(cards_on_table(after) =~= cards_on_table(table));
}

/// An answer to a player's action that does not end the hand keeps the cards at the table.
pub proof fn lemma_action_keeps_cards(table: TableView, name: Seq<char>, action: PlayerAction)
    requires
        table.wf(),
    ensures
        table.after_action(name, action).phase != Phase::Waiting ==> cards_on_table(
            table.after_action(name, action),
        ) == cards_on_table(table),
{
    if table.rejection(name, action) is None {
        let seat = seat_of(table.players, name);
        let taken = table.apply(seat, action);
        table.lemma_apply_taken(name, action);
        crate::table_proofs::lemma_seek_name(table.players, name, 0);
        lemma_same_hands(taken.players, table.players);
        assert(cards_on_table(taken) == cards_on_table(table));
        let after = taken.follow_up();
        if after.phase != Phase::Waiting {
            if crate::table::count_active(taken.players) == 1 {
            } else if taken.round_closed() {
                let opened = taken.open_round();
                lemma_same_hands(opened.players, taken.players);
                match taken.phase {
                    Phase::PreFlop => {
                        lemma_board_keeps_cards(TableView { phase: Phase::Flop, ..opened }, 3);
                    },
                    Phase::Flop => {
                        lemma_board_keeps_cards(TableView { phase: Phase::Turn, ..opened }, 1);
                    },
                    Phase::Turn => {
                        lemma_board_keeps_cards(TableView { phase: Phase::River, ..opened }, 1);
                    },
                    _ => {},
                }
            } else {
            }
        }
    }
}

/// From the start of a hand on, whatever the players ask for, and for as
/// long as the hand goes on, the deck, the board and the players' hole
/// cards hold together exactly the cards of the deck that the hand started
/// with: dealing loses no card and shows none twice.
pub proof fn lemma_hand_conserves_cards(table: TableView, deck: Seq<Card>, requests: Seq<Request>)
    requires
        table.roster_ok(),
        table.start_rejection(deck.len()) is None,
    ensures
        replay(table.start(deck), requests).phase != Phase::Waiting ==> cards_on_table(
            replay(table.start(deck), requests),
        ) == deck.to_multiset(),
    decreases requests.len(),
{
    if requests.len() == 0 {
        lemma_start_keeps_cards(table, deck);
    } else {
        let before = replay(table.start(deck), requests.drop_last());
        lemma_hand_conserves_cards(table, deck, requests.drop_last());
        lemma_hand_conserves_chips(table, deck, requests.drop_last());
        lemma_action_keeps_cards(before, requests.last().name, requests.last().action);
        if before.phase == Phase::Waiting {
            lemma_waiting_table_stays(before, requests.last().name, requests.last().action);
        }
    }
}

/// In any order of the 52 cards, every card occurs exactly once.
pub proof fn lemma_shuffled_deck_holds_each_card_once(deck: Seq<Card>, card: Card)
    requires
        deck.to_multiset() == full_deck().to_multiset(),
    ensures
        deck.to_multiset().count(card) == 1,
        deck.len() == 52,
{
    broadcast use vstd::seq_lib::group_to_multiset_ensures;

    lemma_full_deck_complete();
    full_deck().lemma_multiset_has_no_duplicates();
    assert(full_deck()[crate::cards::deck_position(card)] == card);
    assert(full_deck().contains(card));
    assert(deck.to_multiset().len() == deck.len());
    assert(full_deck().to_multiset().len() == full_deck().len());
}

} // verus!
