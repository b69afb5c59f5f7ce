//! Position derivation, message routing and bounded-concurrency bookkeeping
//! for a chess analysis desktop backend.

pub mod admission;
pub mod assoc;
pub mod cache;
mod clock;
pub mod commands;
pub mod diagnostics;
pub mod engine;
pub mod fen;
pub mod hub;
pub mod ids;
pub mod json;
pub mod pieces;
pub mod sessions;
pub mod text;
