//! Verified core of cmux-axi: the fleet record, crew seating, layout
//! templates, TOON rendering and the command-line grammar.

pub mod cli;
pub mod cmux;
pub mod crew;
pub mod diagram;
pub mod error;
pub mod fleet;
pub mod layout;
pub mod ops;
pub mod setup;
pub mod text;
pub mod toon;
pub mod templates;
pub mod version;
