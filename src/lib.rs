//! Keeps smart-light brightness and audio-node volume in step, in both directions.
//!
//! Levels on both sides are held in millionths of full scale (`fixed::SCALE`); curves carry
//! brightness in finer steps of `10^-18` (`fixed::FINE`) so that steep curves keep the dark
//! end apart. Curves map between the two sides; providers discover and control lights; pairings decide, event by
//! event, what to write to the other side while dropping the echoes of their own writes.

pub mod config;
pub mod curves;
pub mod dropin;
pub mod error;
pub mod fixed;
pub mod lifx;
pub mod registry;
pub mod sync;
pub mod types;
pub mod volume;
