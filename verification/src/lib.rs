//! A client for the RFCOMM control protocol used by Bose headphones.

pub mod text;
pub mod wire;
pub mod error;
pub mod parse;
pub mod framing;
pub mod transport;
pub mod codec;
pub mod catalog;
pub mod session;
pub mod surface;
pub mod device;
pub mod api;
pub mod fields;
pub mod settings;
pub mod fixtures;
pub mod cli;
