//! On-disk record format and incremental-merge engine for a per-player chess
//! opening-statistics store.
//!
//! A personal entry aggregates, for one (player, color, variant, position,
//! year) key, the moves the player has made from that position, each with
//! win/draw/loss counters and a bounded list of sample games. The entry has a
//! compact binary encoding designed for incremental merging: a stored record
//! is folded into an in-memory entry in one forward pass, and the result is
//! re-serialized. Lookup keys are derived by hashing the player identity and
//! folding in the position hash and a per-variant salt.

pub mod codec;
pub mod game;
pub mod header;
pub mod key;
pub mod mode;
pub mod personal;
pub mod speed;
pub mod stats;
pub mod uci;
