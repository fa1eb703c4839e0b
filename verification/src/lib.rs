//! A reconciliation engine for folders of audio tracks kept in step with a
//! declarative album manifest.
//!
//! A manifest lists the desired tracks as ordered (key, identifier) records
//! under an album title. Given the desired manifest and the folder's observed
//! state — itself recovered from a manifest record left in the folder — the
//! engine computes the additions and deletions that make the folder match,
//! then hands out that plan as an ordered series of actions: deletions first,
//! fetches second, one final commit of the new state record.
//!
//! The engine performs no I/O itself: parsing, rendering, diffing, strategy
//! choice and run bookkeeping are all pure and verified, and the caller owns
//! the filesystem and the external fetch collaborator.

pub mod executor;
pub mod manifest;
pub mod reconcile;
pub mod strategy;
