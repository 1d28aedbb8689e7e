//! Decoding of dynamically typed value trees into typed host values.

pub mod access;
pub mod cursor;
pub mod decode;
pub mod encode;
pub mod error;
pub mod laws;
pub mod scalar;
pub mod scope;
pub mod shape;
pub mod structure;
pub mod value;
