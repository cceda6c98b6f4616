//! Finite-field arithmetic over packed byte buffers: the x86 kernel layer.

pub mod field;
pub mod kernel;
pub mod lanes;
pub mod laws;
pub mod tables;
pub mod tokens;
