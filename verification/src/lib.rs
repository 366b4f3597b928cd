//! A small GPIO pin registry: configured pins are bound to output line
//! handles at startup, then read and written by positional index or by
//! symbolic name, with plain-text responses suitable for an HTTP front end.

pub mod digits;
pub mod line;
pub mod registry;
