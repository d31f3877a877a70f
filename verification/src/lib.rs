//! Simulation core of a falling-block puzzle game.
//!
//! The library owns the playfield, the active and next piece, scoring,
//! leveling, line-clear detection, and the frame-accurate timing state
//! machines that govern piece movement, auto-repeat input, and post-lock
//! entry delay.  Rendering and input polling are left to the embedding
//! program, which drives [`controller::Playing::update`] once per fixed
//! simulation tick with a snapshot of the held keys.

pub mod board;
pub mod controller;
pub mod game;
pub mod generator;
pub mod piece;
pub mod tile;
