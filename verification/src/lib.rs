//! An in-memory append-only ledger: blocks of transactions linked by
//! SHA-256 content hashes and admitted by a proof-of-work search.
//!
//! Every function has a contract over the mathematical view of its
//! arguments (`@`) and is verified against it. What is taken on trust is
//! the behaviour of the outside functions that the library calls: the
//! SHA-256 digest in [`digest`], the writing and reading of JSON string
//! literals in [`json`], the clock and the calendar in [`clock`], and
//! `String::push` in [`text`]. The statements that hold of every block and
//! chain are collected in [`laws`].

pub mod block;
pub mod canonical;
pub mod clock;
pub mod digest;
pub mod json;
pub mod laws;
pub mod ledger;
pub mod text;
pub mod transaction;

pub use block::Block;
pub use ledger::Blockchain;
pub use transaction::Transaction;
