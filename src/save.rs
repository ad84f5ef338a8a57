use vstd::prelude::*;
use crate::error::Error;
use crate::history::{Timestamp, next_id_of};
use crate::manifest::files_view;
use crate::repo::{Repo, SaveStatus, unchanged_since_latest};
use crate::store::unique_keys;

verus! {

/// What `save` is asked to do.
pub struct SaveArgs {
    /// The message of the new snapshot.
    pub message: String,
    /// Glob patterns left out of the tree, besides those of the settings.
    pub exclude: Vec<String>,
}

/// Saves the walked tree `tree` under `args.message` at time `now`.
pub fn run(repo: &mut Repo, args: SaveArgs, tree: &Vec<(String, Vec<u8>)>, now: Timestamp) -> (r: Result<
    SaveStatus,
    Error,
>)
    requires
        old(repo).wf(),
        unique_keys(files_view(tree@)),
        next_id_of(old(repo).history.snapshots@) <= u32::MAX,
    ensures
        final(repo).wf(),
        ({
            let snaps = old(repo).history.snapshots@;
            let unchanged = unchanged_since_latest(snaps, files_view(tree@));
            &&& unchanged ==> r == Ok::<SaveStatus, Error>(SaveStatus::NoChanges) && final(repo).store@
                == old(repo).store@ && final(repo).history.snapshots@ == snaps
            &&& !unchanged && r is Ok ==> r == Ok::<SaveStatus, Error>(
                SaveStatus::Saved { id: next_id_of(snaps) as u32, message: args.message },
            ) && final(repo).history.snapshots@.len() == snaps.len() + 1
        }),
{
    repo.perform_save(tree, args.message, now)
}

} // verus!
