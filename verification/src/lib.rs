//! Rules engine of a single-round, two-party Blackjack game: the card pool,
//! hand scoring with soft and hard aces, the player's and the dealer's turns,
//! and the outcome of the round.

pub mod deck;
pub mod score;
pub mod turn;
pub mod round;
