//! The fields the kernels compute in, as mathematical models.

pub mod gf16;
pub mod gf32;
pub mod gf64;
pub mod gf8;
pub mod gf8b;
pub mod gf8d;
pub mod fan_paar;
pub mod goldilocks;
pub mod mersenne31;
pub mod quad_mersenne31;
