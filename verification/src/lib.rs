//! A verified core for a Buddhabrot-style fractal renderer.
//!
//! Orbits of the quadratic map z <- z*z + c are sampled statistically and the
//! points of escaping orbits are accumulated into a per-channel histogram,
//! which a tone mapper turns into displayable 8-bit samples.  All plane
//! coordinates are carried in Q24 fixed point (an `i64` holding the value
//! times 2^24), so that every arithmetic step of the core has an exact
//! mathematical specification.

pub mod accept;
pub mod buffer;
pub mod complex;
pub mod config;
pub mod draws;
pub mod fixed;
pub mod mutate;
pub mod orbit;
pub mod tone;
pub mod trig;
pub mod worker;
