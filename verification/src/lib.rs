//! The rules of a time-loop puzzle game: a player records a ghost for one loop
//! of the clock, the loop rewinds, and every earlier ghost replays its recorded
//! controls beside the new one. Ghosts stand on buttons that open doors and fire
//! teleporters, and carry bulbs to the machine; six bulbs in the machine win.
//!
//! Positions inside a tile are the caller's business (they are a type parameter
//! `P`); everything that is decided on tiles, ticks and flags is here.
pub mod geometry;
pub mod input;
pub mod ghost;
pub mod spatial;
pub mod mechanisms;
pub mod button;
pub mod level;
pub mod level_text;
pub mod game;
pub mod laws;
