//! Persistence core for a desktop chat application: a forward-only schema
//! migration ledger and a content-addressed image store that deduplicates
//! attachments by cryptographic digest, tracks per-conversation references,
//! and reclaims images no longer referenced anywhere.

pub mod hash;
pub mod migrate;
pub mod store;
