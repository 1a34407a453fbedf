//! Engine for a pattern-matching card game over GF(3)^4.
//!
//! Cards carry a coordinate in the four-dimensional vector space over the
//! field with three elements; three cards form a set exactly when their
//! coordinates sum to zero, and four cards form an ultraset exactly when
//! they split into two pairs whose set-completions coincide. The engine
//! deals a shuffled deck onto a table, validates plays, replenishes the
//! table so that it always contains a match, and detects the end of the
//! game.

pub mod attrs;
pub mod cards;
pub mod counting;
pub mod deck;
pub mod game;
mod rng;

pub use attrs::{
    generate_random_attributes, generate_standard_attributes, Attributes, CardVisualAttr, Filling,
    SetColor, SetNum, Shape,
};
pub use cards::{
    selection_contains_set, selection_contains_ultraset, selection_is_set, selection_is_ultraset,
    CardCoordinates,
};
pub use deck::Deck;
pub use game::{select_index, ActiveDeck, GameDeck, PlayResponse};
