//! Simulation core of a merge-objects-in-a-bottle game.
//!
//! The player drops balls of discrete size levels into a bottle; two touching
//! balls of the same level merge into one ball of the next level, which grows
//! from a start radius to its final radius; the game ends when a ball leaves
//! the play area.  This crate holds the deterministic rules of that game —
//! merge pairing and promotion, the player action state machine, scoring,
//! growth, shake envelopes and the session state machine — with machine-checked
//! contracts.  Rendering, audio, device input and persistence stay outside.
//!
//! All world quantities are fixed-point integers in thousandths of a world
//! unit ("milli"), and times are in milliseconds, so every computation here is
//! exact and reproducible.

pub mod config;
pub mod definition;
pub mod effects;
pub mod engine;
pub mod math;
pub mod pairing;
pub mod player;
pub mod registry;
pub mod rng;
pub mod rules;
pub mod scale;
pub mod scores;
pub mod session;
pub mod shake;
pub mod world;

