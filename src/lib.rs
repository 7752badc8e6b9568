//! Rank-aware prefix autocomplete over a catalog of board games.

pub mod catalog;
pub mod decimal;
pub mod index;
pub mod loader;
pub mod normalize;
pub mod prompt;
pub mod record;
pub mod sample;
pub mod snapshot;
pub mod suggest;
