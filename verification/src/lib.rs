//! A Klondike patience rule engine with a verified spatial model.
//!
//! The crate is organised around three layers: cards and the covering rule
//! (`card`), the card containers and the game itself (`card_collections`,
//! `game`), and the screen geometry with its hit-testing and selection state
//! (`shared`, `renderer`, `engine`).

pub mod card;
pub mod card_set;
pub mod card_collections;
pub mod game;
pub mod shared;
pub mod renderer;
pub mod engine;
