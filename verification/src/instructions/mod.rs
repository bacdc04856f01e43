//! The decision part of each instruction. Each `handler` takes the pool
//! state and the balances read from the instruction's accounts and returns
//! what the instruction moves; the program around it performs the token
//! transfers, mints and burns.

pub mod admin;
pub mod deposit;
pub mod initialize_pool;
pub mod swap;
pub mod withdraw;
