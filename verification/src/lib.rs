//! A content-addressable file store: a tree of folders and files whose
//! identical contents are kept once, uploads that are registered first and
//! confirmed with their bytes, and share links with an expiry, a password
//! and a download quota.
//!
//! The `Engine` holds the whole state in memory. Every operation on it is
//! a state transition with a proved contract, and every operation keeps
//! `Engine::inv`: the tree is a tree, parents and children agree, every
//! reference has its holder, and no two files hold bytes with the same
//! hash. Moving the bytes themselves, and writing the state through to a
//! database, is the caller's business; `Engine::take_changes` and the
//! values that the operations return say what there is to do.
//!
//! - `model`, `api`, `error`: the values that go in and out.
//! - `strmap`, `tree`: the stores.
//! - `dedup`: holders, references and heirs.
//! - `engine`, `sound`, `ancestry`: the invariant and why it is kept.
//! - `metadata`, `listing`, `upload`, `share`, `expiry`: the operations.
//! - `service`: the operations with the clock and fresh identifiers.
//! - `backend`, `hash`, `init`, `audit`: backends, digests, start-up.
//! - `laws`: what holds of all of it together.

pub mod ancestry;
pub mod api;
pub mod audit;
pub mod backend;
pub mod cache;
pub mod dedup;
pub mod engine;
pub mod error;
pub mod expiry;
mod fresh;
pub mod hash;
pub mod init;
pub mod laws;
pub mod listing;
pub mod metadata;
pub mod model;
pub mod seqs;
pub mod service;
pub mod share;
pub mod sound;
pub mod strmap;
pub mod text;
pub mod tree;
pub mod upload;
