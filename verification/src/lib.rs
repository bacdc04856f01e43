//! Verified core of a constant-product (x * y = k) automated market maker.
//!
//! The crate holds the pool's arithmetic (`math`) and the laws it keeps
//! (`laws`), the laws of what each instruction pays, mints and earmarks
//! (`instruction_laws`), the pool account's data model (`state`), the error vocabulary
//! (`errors`), and, under
//! `instructions`, the decision part of every instruction the program
//! exposes: each takes the pool state and the amounts read from the token
//! accounts and returns what the instruction must move or record.
//! Moving tokens and reading accounts is left to the program around it.

pub mod errors;
pub mod laws;
pub mod math;
pub mod instruction_laws;
pub mod instructions;
pub mod state;
