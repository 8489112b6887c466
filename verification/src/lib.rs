//! Core of a peer-to-peer application runtime built on per-agent hash chains:
//! the records of a chain, the fork-aware query filter over them, the
//! descriptors of what an authority believes about a chain, and the
//! trigger-driven scheduling decisions of the workflow consumers.

pub mod activity;
pub mod consumer;
pub mod header;
pub mod host_call;
pub mod query;
pub mod query_lemmas;
pub mod trigger;
