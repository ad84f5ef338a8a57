use vstd::prelude::*;
use crate::error::Error;
use crate::format::{decimal, push_decimal};
use crate::manifest::manifest_json;
use crate::repo::{Repo, get_manifest_from_hash, resolves};
use crate::store::{pairs_map, unique_keys};
use crate::pathord::path_sorted;
use crate::manifest::keys_of;
use crate::text::{push_text, string_of};

verus! {

/// What `inspect` is asked to show: the snapshot whose files are listed.
pub struct InspectArgs {
    pub id: u32,
}

pub const TITLE: &'static str = "Files in snapshot ";
pub const OPEN: &'static str = " (";
pub const CLOSE: &'static str = "):\n";
pub const ITEM: &'static str = "- ";
pub const NEWLINE: &'static str = "\n";

/// One line per path, each behind a dash.
pub open spec fn path_lines(m: Seq<(Seq<char>, Seq<char>)>) -> Seq<char>
    decreases m.len(),
{
    if m.len() == 0 {
        Seq::empty()
    } else {
        path_lines(m.drop_last()) + ITEM@ + m.last().0 + NEWLINE@
    }
}

/// The listing of a snapshot: a title line with its id and message, then its paths.
pub open spec fn inspect_text(id: u32, message: Seq<char>, m: Seq<(Seq<char>, Seq<char>)>) -> Seq<char> {
    TITLE@ + decimal(id as nat) + OPEN@ + message + CLOSE@ + path_lines(m)
}

/// Lists the files of snapshot `args.id`, in path order.
pub fn run(repo: &Repo, args: InspectArgs) -> (r: Result<String, Error>)
    requires
        repo.wf(),
    ensures
        r is Err <==> forall|j: int| 0 <= j < repo.history.snapshots@.len() ==> repo.history.snapshots@[j].id != args.id,
        r matches Err(e) ==> e == Error::SnapshotIdNotFound(args.id),
        r matches Ok(t) ==> exists|i: int, m: Seq<(Seq<char>, Seq<char>)>|
            #![trigger repo.history.snapshots@[i], pairs_map(m)]
            0 <= i < repo.history.snapshots@.len() && repo.history.snapshots@[i].id == args.id
                && (forall|j: int| 0 <= j < i ==> repo.history.snapshots@[j].id != args.id)
                && repo.store@[repo.history.snapshots@[i].manifest_hash@] == manifest_json(pairs_map(m))
                && unique_keys(m) && path_sorted(keys_of(m))
                && t@ == inspect_text(args.id, repo.history.snapshots@[i].message@, m),
{
    let snapshot = repo.history.get_snapshot(args.id)?;
    let ghost i0 = choose|i: int| 0 <= i < repo.history.snapshots@.len() && repo.history.snapshots@[i] == *snapshot;
    proof {
        assert(resolves(repo.store@, repo.history.snapshots@[i0].manifest_hash@));
    }
    let m = match get_manifest_from_hash(&repo.store, &snapshot.manifest_hash) {
        Ok(m) => m,
        Err(_) => {
            proof {
                let w = choose|w: Map<Seq<char>, Seq<char>>| w.dom().finite() && repo.store@[snapshot.manifest_hash@] == manifest_json(w);
            }
            return Err(Error::SnapshotIdNotFound(args.id));
        },
    };
    let ghost mv = m@;
    let mut out = string_of(TITLE);
    push_decimal(&mut out, snapshot.id);
    push_text(&mut out, OPEN);
    push_text(&mut out, snapshot.message.as_str());
    push_text(&mut out, CLOSE);
    let ghost head = out@;
    let mut i: usize = 0;
    while i < m.entries.len()
        invariant
            mv == m@,
            i <= mv.len(),
            out@ == head + path_lines(mv.subrange(0, i as int)),
        decreases mv.len() - i,
    {
        proof {
            assert(mv.subrange(0, i + 1).drop_last() == mv.subrange(0, i as int));
        }
        push_text(&mut out, ITEM);
        push_text(&mut out, m.entries[i].0.as_str());
        push_text(&mut out, NEWLINE);
        i = i + 1;
    }
    proof {
        assert(mv.subrange(0, mv.len() as int) == mv);
        let w = choose|w: Map<Seq<char>, Seq<char>>| w.dom().finite() && repo.store@[snapshot.manifest_hash@] == manifest_json(w);
        assert(pairs_map(mv) == w);
    }
    Ok(out)
}

} // verus!
