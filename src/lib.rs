//! Deck and hand management for a Regicide-style solitaire card game.
pub mod card;
pub mod deck;
pub mod player;
