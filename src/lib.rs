//! Reads the text description of a time-trial course into an ordered,
//! cross-referenced index of waypoints.

pub mod index;
pub mod laws;
pub mod lexical;
pub mod parser;
