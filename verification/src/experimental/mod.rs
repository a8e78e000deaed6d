//! Experiments that the compiler does not use yet.

pub mod lambda;
