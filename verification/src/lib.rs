//! Streaming parser for Value Change Dump waveforms and the cycle-by-cycle
//! reconstruction of the circuit state they describe.
//!
//! The bytes of a waveform pass through a refill buffer ([`utils`]) to the
//! parsers of the lexical forms ([`scan`], [`grammar`], [`header`]), run by
//! a stream parser ([`stream`], [`vcd`]). The state simulation
//! ([`simulation`], [`circuit`]) applies the value changes to one vector of
//! logic levels. What holds of all this is proved in [`extent`],
//! [`stability`], [`canon`] and [`laws`].

pub mod canon;
pub mod circuit;
pub mod command;
pub mod extent;
pub mod fst;
pub mod grammar;
pub mod header;
pub mod laws;
pub mod scan;
pub mod simulation;
pub mod stability;
pub mod status;
pub mod stream;
pub mod types;
pub mod utils;
pub mod vcd;

pub use fst::{FstError, FstFileType};
pub use vcd::{VcdError, VcdParser};
