//! Reconciliation engine for optional package-repository "topics".
//!
//! A host subscribes to named topic overlays. Each run merges the freshly
//! fetched set of topic manifests with the snapshot persisted at the last
//! commit, classifies topics that have disappeared upstream as closed,
//! computes which installed packages must be pinned back to the stable
//! channel, and renders the package-manager source list. All of that logic
//! is pure and verified here; reading and writing the actual files is left
//! to the surrounding application.

pub mod laws;
pub mod pm;
pub mod topics;
