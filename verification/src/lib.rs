//! Reconciling tracked reading progress against the latest published
//! chapters: cross-reference resolution, decimal chapter numbers,
//! rate-limit retry decisions, and partitioned reconciliation.

pub mod anilist;
pub mod compare;
pub mod errors;
pub mod mangadex;
pub mod numbers;
pub mod retry;
