//! Reading the Specctra design file format.

pub mod common;
pub mod read;
pub mod structure;
