//! An in-memory store of keys and values that speaks the protocol of Redis:
//! the values and their two wire syntaxes, the store with its deadlines and
//! its sweep, and the commands with the table that finds them by name.
//!
//! Everything here is a function of plain values: bytes come in through a
//! `Reader`, replies go out into a `Vec<u8>`, and the time is an argument.

pub mod clock;
pub mod commands;
pub mod context;
pub mod error;
pub mod handler;
pub mod laws;
pub mod session;
pub mod storage;
pub mod text;
