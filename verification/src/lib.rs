//! Core primitives for turn-based deckbuilder games: cards, draw/discard
//! piles, match-scoped game state, and playable card effects.
//!
//! Every operation carries a contract describing exactly how it moves cards
//! between piles or transforms the game state, and the module proves the
//! invariants a host application relies on (no card is ever lost, energy
//! never goes negative, and so on).

pub mod card;
