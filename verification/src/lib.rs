//! Simulation core of a first-person ASCII maze game.
//!
//! The library generates a traversable maze by recursive backtracking,
//! advances the player pose from discrete input intents, and renders the
//! visible scene as a character grid using grid-traversal ray casting.
//! Continuous quantities (positions, angles, distances) are carried as
//! fixed-point integers so that every step of the simulation is verified.

pub mod fixed;
pub mod game;
pub mod maze;
pub mod raycast;
