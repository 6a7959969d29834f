//! The wire protocol: length-prefixed words, sentence parsing, and command
//! encoding.

pub mod command;
pub mod error;
pub mod word;
