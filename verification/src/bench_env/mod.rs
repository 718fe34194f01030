//! The environment of measurements: what is set for them, and what it is.
pub mod date;
pub mod env;
pub mod header;
pub mod host;
