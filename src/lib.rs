//! An append-only, content-addressed fact ledger.
//!
//! Facts are canonicalized, identified by the lowercase hex BLAKE3 digest of
//! their canonical bytes, routed to one of a closed set of streams by their
//! `type` discriminator, and stored one record per line in per-stream logs.
pub mod cid;
pub mod facts;
pub mod ledger;
pub mod lines;
pub mod stream;
pub mod types;
