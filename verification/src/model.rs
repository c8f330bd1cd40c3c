//! The relay as a mathematical state machine: what the executable types
//! stand for, and the functions their contracts are stated over.

pub mod registry;
pub mod relay;
pub mod seqs;
