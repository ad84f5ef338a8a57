use vstd::prelude::*;
use crate::diff::lookup;
use crate::error::Error;
use crate::hashing::sha256_hex;
use crate::manifest::{Manifest, captured, files_view, manifest_json, manifest_of};
use crate::repo::{Repo, blobs_present, copy_bytes, resolves, tree_digest};
use crate::store::{content_addressed, lemma_pairs_map_lookup, pairs_map, unique_keys};

verus! {

/// What `revert` is asked to do: the snapshot to restore.
pub struct RevertArgs {
    pub id: u32,
}

/// The file operations that turn the working tree into a snapshot's tree.
#[derive(Debug)]
pub struct RevertPlan {
    /// Files to write, in manifest order, with the content to write.
    pub writes: Vec<(String, Vec<u8>)>,
    /// Files of the working tree that the snapshot does not list.
    pub removals: Vec<String>,
}

/// The tree a manifest describes, read from the store.
pub open spec fn restored(store: Map<Seq<char>, Seq<u8>>, m: Seq<(Seq<char>, Seq<char>)>) -> Seq<(Seq<char>, Seq<u8>)> {
    m.map_values(|e: (Seq<char>, Seq<char>)| (e.0, store[e.1]))
}

/// Plans the restore of snapshot `args.id` over the working tree `tree`: every
/// file the snapshot lists is written with its stored content, and every other
/// file of the tree is removed.
pub fn run(repo: &Repo, args: RevertArgs, tree: &Vec<(String, Vec<u8>)>) -> (r: Result<RevertPlan, Error>)
    requires
        repo.wf(),
    ensures
        (forall|j: int| 0 <= j < repo.history.snapshots@.len() ==> repo.history.snapshots@[j].id != args.id) ==> r
            == Err::<RevertPlan, Error>(Error::SnapshotIdNotFound(args.id)),
        r matches Ok(plan) ==> exists|i: int, m: Seq<(Seq<char>, Seq<char>)>|
            #![trigger repo.history.snapshots@[i], pairs_map(m)] {
            &&& 0 <= i < repo.history.snapshots@.len()
            &&& repo.history.snapshots@[i].id == args.id
            &&& repo.store@[repo.history.snapshots@[i].manifest_hash@] == manifest_json(pairs_map(m))
            &&& unique_keys(m)
            &&& forall|j: int| 0 <= j < m.len() ==> repo.store@.contains_key(#[trigger] m[j].1)
            &&& files_view(plan.writes@) == restored(repo.store@, m)
            &&& forall|j: int| 0 <= j < plan.removals@.len() ==> !pairs_map(m).contains_key(#[trigger] plan.removals@[j]@)
            &&& forall|j: int| 0 <= j < tree@.len() && !pairs_map(m).contains_key(#[trigger] tree@[j].0@) ==> exists|k: int|
                0 <= k < plan.removals@.len() && plan.removals@[k]@ == tree@[j].0@
        },
        r is Ok <==> exists|j: int| 0 <= j < repo.history.snapshots@.len() && repo.history.snapshots@[j].id == args.id,
        r matches Err(e) ==> e == Error::SnapshotIdNotFound(args.id),
{
    let m = repo.snapshot_manifest(args.id)?;
    let ghost mv = m@;
    let ghost i0 = choose|i: int| 0 <= i < repo.history.snapshots@.len() && repo.history.snapshots@[i].id == args.id
        && (forall|j: int| 0 <= j < i ==> repo.history.snapshots@[j].id != args.id)
        && repo.store@[repo.history.snapshots@[i].manifest_hash@] == manifest_json(m.map())
        && forall|w: Map<Seq<char>, Seq<char>>| w.dom().finite() && repo.store@[repo.history.snapshots@[i].manifest_hash@]
            == manifest_json(w) ==> w == m.map();
    proof {
        let mh = repo.history.snapshots@[i0].manifest_hash@;
        assert(resolves(repo.store@, mh));
        let w = choose|w: Map<Seq<char>, Seq<char>>| w.dom().finite() && repo.store@[mh] == manifest_json(w)
            && blobs_present(repo.store@, w);
        assert(w == m.map());
    }
    let mut writes: Vec<(String, Vec<u8>)> = Vec::new();
    let mut i: usize = 0;
    while i < m.entries.len()
        invariant
            repo.store.wf(),
            mv == m@,
            m.wf(),
            0 <= i0 < repo.history.snapshots@.len(),
            repo.history.snapshots@[i0].id == args.id,
            repo.store@[repo.history.snapshots@[i0].manifest_hash@] == manifest_json(m.map()),
            blobs_present(repo.store@, m.map()),
            i <= mv.len(),
            files_view(writes@) == restored(repo.store@, mv.subrange(0, i as int)),
            forall|j: int| 0 <= j < i ==> repo.store@.contains_key(#[trigger] mv[j].1),
        decreases mv.len() - i,
    {
        proof {
            lemma_pairs_map_lookup(mv, i as int);
        }
        let bytes = match repo.store.get(&m.entries[i].1) {
            Ok(b) => b,
            Err(e) => return Err(e),
        };
        let ghost before = writes@;
        let path = m.entries[i].0.clone();
        let content = copy_bytes(bytes);
        writes.push((path, content));
        proof {
            assert(mv.subrange(0, i + 1) == mv.subrange(0, i as int).push(mv[i as int]));
            assert(writes@.drop_last() == before);
            assert(files_view(writes@) == files_view(before).push((mv[i as int].0, repo.store@[mv[i as int].1])));
            assert(files_view(writes@) =~= restored(repo.store@, mv.subrange(0, i + 1)));
        }
        i = i + 1;
    }
    proof {
        assert(mv.subrange(0, mv.len() as int) == mv);
    }
    let mut removals: Vec<String> = Vec::new();
    let mut k: usize = 0;
    while k < tree.len()
        invariant
            m.wf(),
            mv == m@,
            0 <= i0 < repo.history.snapshots@.len(),
            repo.history.snapshots@[i0].id == args.id,
            repo.store@[repo.history.snapshots@[i0].manifest_hash@] == manifest_json(m.map()),
            forall|j: int| 0 <= j < mv.len() ==> repo.store@.contains_key(#[trigger] mv[j].1),
            files_view(writes@) == restored(repo.store@, mv),
            k <= tree@.len(),
            forall|j: int| 0 <= j < removals@.len() ==> !m.map().contains_key(#[trigger] removals@[j]@),
            forall|j: int| 0 <= j < k && !m.map().contains_key(#[trigger] tree@[j].0@) ==> exists|x: int|
                0 <= x < removals@.len() && removals@[x]@ == tree@[j].0@,
        decreases tree@.len() - k,
    {
        let ghost before = removals@;
        if lookup(&m, &tree[k].0).is_none() {
            removals.push(tree[k].0.clone());
            assert(removals@[removals@.len() - 1]@ == tree@[k as int].0@);
        }
        proof {
            assert forall|j: int| 0 <= j < k + 1 && !m.map().contains_key(#[trigger] tree@[j].0@) implies exists|x: int|
                0 <= x < removals@.len() && removals@[x]@ == tree@[j].0@ by {
                if j < k {
                    let x = choose|x: int| 0 <= x < before.len() && before[x]@ == tree@[j].0@;
                    assert(removals@[x] == before[x]);
                } else {
                    assert(removals@[removals@.len() - 1]@ == tree@[k as int].0@);
                }
            }
        }
        k = k + 1;
    }
    let ghost rem = removals@;
    proof {
        assert forall|j: int| 0 <= j < tree@.len() && !m.map().contains_key(#[trigger] tree@[j].0@) implies exists|x: int|
                0 <= x < rem.len() && rem[x]@ == tree@[j].0@ by {
            assert(j < k);
        }
    }
    let plan = RevertPlan { writes, removals };
    proof {
        assert(pairs_map(mv) == m.map());
        assert forall|j: int| 0 <= j < tree@.len() && !pairs_map(mv).contains_key(#[trigger] tree@[j].0@) implies exists|x: int|
                0 <= x < plan.removals@.len() && plan.removals@[x]@ == tree@[j].0@ by {
            assert(!m.map().contains_key(tree@[j].0@));
            let x = choose|x: int| 0 <= x < rem.len() && rem[x]@ == tree@[j].0@;
            assert(plan.removals@[x]@ == tree@[j].0@);
        }
    }
    Ok(plan)
}

/// Restoring a snapshot and rebuilding the manifest of the restored tree gives
/// back the snapshot's manifest digest: every listed file comes back with the
/// content its digest names. (A restored file that is not captured, such as
/// one whose content starts with the report marker, would be left out of the
/// rebuilt manifest.)
pub proof fn lemma_revert_round_trip(
    store: Map<Seq<char>, Seq<u8>>,
    mh: Seq<char>,
    m: Seq<(Seq<char>, Seq<char>)>,
)
    requires
        content_addressed(store),
        store.contains_key(mh),
        store[mh] == manifest_json(pairs_map(m)),
        forall|j: int| 0 <= j < m.len() ==> store.contains_key(#[trigger] m[j].1),
        forall|j: int| 0 <= j < m.len() ==> captured((#[trigger] m[j].0, store[m[j].1])),
    ensures
        tree_digest(restored(store, m)) == mh,
{
    lemma_manifest_of_restored(store, m);
}

proof fn lemma_manifest_of_restored(store: Map<Seq<char>, Seq<u8>>, m: Seq<(Seq<char>, Seq<char>)>)
    requires
        content_addressed(store),
        forall|j: int| 0 <= j < m.len() ==> store.contains_key(#[trigger] m[j].1),
        forall|j: int| 0 <= j < m.len() ==> captured((#[trigger] m[j].0, store[m[j].1])),
    ensures
        manifest_of(restored(store, m)) == m,
    decreases m.len(),
{
    if m.len() > 0 {
        let p = m.drop_last();
        assert forall|j: int| 0 <= j < p.len() implies store.contains_key(#[trigger] p[j].1) by {
            assert(p[j] == m[j]);
        }
        assert forall|j: int| 0 <= j < p.len() implies captured((#[trigger] p[j].0, store[p[j].1])) by {
            assert(p[j] == m[j]);
        }
        lemma_manifest_of_restored(store, p);
        assert(restored(store, m).drop_last() == restored(store, p));
        let last = m[m.len() - 1];
        assert(store.contains_key(last.1));
        assert(sha256_hex(store[last.1]) == last.1);
        assert(m == p.push(last));
    }
}

} // verus!
