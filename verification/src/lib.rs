//! The logic of a driver for the Intel e1000 network adapter (82540EM).
//!
//! The crate touches no hardware. Each driver procedure is a value that asks for one register or
//! one kernel service at a time; whoever drives it performs the queued actions, answers the
//! question, and hands the answer to `step`. See `protocol` for the vocabulary.

use vstd::prelude::*;

pub mod bits;
pub mod defs;
pub mod protocol;
pub mod resource;
pub mod eeprom;
pub mod phy;
pub mod mdi;
pub mod ring;
pub mod transmit;
pub mod receive;
pub mod poll;
pub mod queue;
pub mod filter;
pub mod control;
pub mod reset;
pub mod open;
pub mod probe;
pub mod interrupts;

verus! {

/// The driver. Its procedures are spread over the modules by subject.
pub struct E1000;

} // verus!
