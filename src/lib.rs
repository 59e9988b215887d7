//! Accounting and admission logic of a fixed-price token sale that hands out
//! a liquid token and a locked token in a 20/80 split for each purchase.

pub mod conversion;
pub mod ico;
pub mod laws;
pub mod token_id;

pub use ico::{LandboardIco, Sale};
