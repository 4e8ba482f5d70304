//! A Texas Hold'em table engine: cards and decks, best-five-of-seven hand
//! ranking, and the betting state machine of a single table.

pub mod cards;
pub mod error;
pub mod ranking;
pub mod order;
pub mod hand_evaluator;
pub mod hand_laws;
pub mod shuffle;
pub mod table;
pub mod table_proofs;
pub mod game;
pub mod table_laws;
