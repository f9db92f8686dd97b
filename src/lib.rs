//! Hex-grid pathfinding and turn-based combat rules for a tactical RPG.
//!
//! The library holds the parts of the game that decide things: hex
//! coordinate math, an A* search over the grid, the turn and phase
//! state machine, player action resolution and the enemy controller.
//! Rendering, input and persistence live outside and hand plain values in.
pub mod hex;
pub mod frontier;
pub mod astar;
pub mod actors;
pub mod buttons;
pub mod combat;
pub mod movement;
pub mod enemy_ai;
pub mod inventory;
pub mod chest;
