//! The strategy resolver: whether a run reconciles against the folder's prior
//! manifest or against nothing.

use vstd::prelude::*;

use crate::manifest::Album;

verus! {

/// How a run reconciles: `New` when there is no usable baseline, `Rebuild`
/// against the manifest recovered from the target folder's state record.
/// Never persisted; recomputed each run from the observed folder.
pub enum Strategy {
    New,
    Rebuild(Album),
}

/// Chooses the reconciliation baseline from what the target folder shows.
/// `folder_exists` says whether the folder named by the desired title is
/// there; `prior` is the manifest read from its state record, `None` when the
/// record is missing or unreadable. A corrupt or absent record degrades to a
/// full rebuild (`New`), never to an error.
pub fn resolve_strategy(folder_exists: bool, prior: Option<Album>) -> (strategy: Strategy)
    ensures
        match strategy {
            Strategy::New => !folder_exists || prior is None,
            Strategy::Rebuild(baseline) => folder_exists && prior == Some(baseline),
        },
{
    if folder_exists {
        match prior {
            Some(baseline) => Strategy::Rebuild(baseline),
            None => Strategy::New,
        }
    } else {
        Strategy::New
    }
}

} // verus!
