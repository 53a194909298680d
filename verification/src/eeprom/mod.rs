//! The EEPROM, which holds the adapter's settings and address.

pub mod wires;
pub mod read;
pub mod words;
pub mod chip;
pub mod laws;
