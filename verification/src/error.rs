//! The reasons for which the table engine rejects a request.

use vstd::prelude::*;

verus! {

/// Why a request was rejected. A rejected request leaves the table unchanged.
#[derive(Debug, Clone, Copy, PartialEq, Eq, Structural)]
pub enum GameError {
    /// The action comes from a player whose turn it is not.
    InvalidTurn,
    /// The call or bet costs more chips than the player has.
    InsufficientStack,
    /// The bet is below the table's current bet; or the call would add
    /// nothing, because the table's current bet is not above what the player
    /// has bet already.
    BelowCurrentBet,
    /// A hand cannot start with fewer than two players.
    NotEnoughPlayers,
    /// A hand cannot start while another is being played.
    AlreadyInProgress,
    /// The deck holds too few cards: to deal one, to give every seat two at
    /// the start of a hand, or to serve the board of the next stage.
    DeckExhausted,
}

} // verus!
