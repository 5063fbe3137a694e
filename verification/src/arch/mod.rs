//! Processor architectures.

pub mod aarch64;
