//! The RESP wire format: values, their encoding and their decoding.

pub mod command;
pub mod data_type;
pub mod parser;
pub mod round_trip;
pub mod serializer;
pub mod text;
