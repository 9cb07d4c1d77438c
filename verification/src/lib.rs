//! Verified core of a GPS L1 C/A signal generator.
use vstd::prelude::*;

pub mod calendar;
pub mod error;
pub mod leap_seconds;
pub mod gps_time;
pub mod rational;
pub mod sizing;
pub mod timeline;
pub mod packing;
pub mod codegen;
pub mod nav_message;
pub mod subframes;
pub mod civil;
pub mod allocation;
pub mod run_state;
pub mod pending;
pub mod config;
pub mod signal_state;
pub mod ephemeris_sets;
pub mod periodic;

verus! {

} // verus!
