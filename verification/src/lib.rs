//! An in-memory ledger over a stream of blockchain blocks.
//!
//! Blocks arrive from a source stream (a live RPC poll loop or a
//! deterministic replay of recorded fixtures), are reduced to their
//! recognized value-transfer transactions, and are folded into a ledger
//! that keeps per-address balances and a per-address transaction index.
//! The contracts of this crate pin down the parser, the retry and
//! cursor discipline of the live source, the replay source, the
//! aggregator's forwarding decisions, and the consistency invariants of
//! the ledger.

pub mod aggregator;
pub mod api;
pub mod blocks;
pub mod error;
pub mod model;
pub mod source;
pub mod storage;
pub mod types;
