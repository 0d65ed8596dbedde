//! A pet-merging Monte Carlo simulator: the game rules, the two simulations
//! built on them and the text formats of their results.
pub mod game;
pub mod rng;
pub mod stock_drain;
pub mod parallel;
pub mod stats;
pub mod target_cost;
pub mod text;
pub mod options;
pub mod path;
pub mod report;
