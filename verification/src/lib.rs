//! Maze Defence: the rules of the game as a verified library.
//!
//! The grid and its tiles, the path that enemies follow around the start
//! cluster, the region the player can reach, the upgrade web with its costs,
//! and the discrete part of a run (currencies, life, towers, walls) with the
//! reducer that moves it from one state to the next.

pub mod grid;
pub mod pathfind;
pub mod upgrades;
pub mod web;
pub mod records;
pub mod interactable;
pub mod worldgen;
pub mod run;
pub mod controls;
pub mod display;
pub mod laws;
