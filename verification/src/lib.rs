//! The progression and economy engine of a gamified fitness tracker:
//! experience and leveling mathematics, quest generation and completion,
//! the coin shop, and the friendship graph, all specified and verified.
//! The [`store`] module holds the game state and performs every multi-step
//! mutation as one all-or-nothing operation.

pub mod api;
pub mod auth;
pub mod character;
pub mod items;
pub mod progression;
pub mod quests;
pub mod social;
pub mod stats;
pub mod store;

mod rng;
