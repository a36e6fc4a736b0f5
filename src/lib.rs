//! A turn-based blackjack round engine: cards, a shoe, hands and their
//! scoring, settlement, and the round state machine that ties them together.
pub mod card;
pub mod hand;
pub mod settlement;
pub mod shoe;
pub mod game;
