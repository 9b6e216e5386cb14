//! Quantum circuits for the Matrix Language: gates, circuits with layer
//! management, and the pre-built algorithms.
pub mod gates;
pub mod circuit;
pub mod algorithms;
pub mod visualization;
pub mod analysis;
pub mod commands;
pub mod random;
