//! Game rules of a small grand-strategy simulation: a tactical battle board,
//! citizens and their relations, items and their owners, and the
//! bookkeeping that sets up a new game.

pub mod utils;
pub mod battle;
pub mod item;
pub mod city;
pub mod country;
pub mod region;
pub mod citizen;
pub mod game;
