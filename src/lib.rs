//! A per-account list of to-do tasks: the byte layout of the account and of
//! the instructions, and the rules that create, update, delete and toggle
//! tasks.

pub mod codec;
pub mod error;
pub mod instruction;
pub mod processor;
pub mod state;
pub mod user;
