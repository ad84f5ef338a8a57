use vstd::prelude::*;
use crate::history::Snapshot;
use crate::manifest::{Manifest, manifest_json};
use crate::repo::{Repo, resolves};
use crate::store::{lemma_pairs_map_domain, lemma_pairs_map_lookup};

verus! {

/// What `prune` is asked to do: how many of the newest snapshots stay.
pub struct PruneArgs {
    pub keep: usize,
}

/// `k` is the manifest digest of `s`, or a digest listed in the manifest
/// stored under it.
pub open spec fn references(store: Map<Seq<char>, Seq<u8>>, s: Snapshot, k: Seq<char>) -> bool {
    k == s.manifest_hash@ || exists|m: Map<Seq<char>, Seq<char>>, p: Seq<char>|
        m.dom().finite() && store[s.manifest_hash@] == manifest_json(m) && #[trigger] m.contains_key(p) && m[p] == k
}

/// `k` is referenced by some snapshot of `snaps`.
pub open spec fn reachable(store: Map<Seq<char>, Seq<u8>>, snaps: Seq<Snapshot>, k: Seq<char>) -> bool {
    exists|i: int| 0 <= i < snaps.len() && references(store, #[trigger] snaps[i], k)
}

/// Whether `s` is among the strings of `v`.
fn contains_string(v: &Vec<String>, s: &String) -> (r: bool)
    ensures
        r == exists|i: int| 0 <= i < v@.len() && v@[i]@ == s@,
{
    let mut i: usize = 0;
    while i < v.len()
        invariant
            i <= v@.len(),
            forall|j: int| 0 <= j < i ==> v@[j]@ != s@,
        decreases v@.len() - i,
    {
        if v[i] == *s {
            return true;
        }
        i = i + 1;
    }
    false
}

/// The digests a snapshot refers to: its manifest, and each blob that the
/// manifest lists when the manifest object reads back.
fn referenced_digests(repo: &Repo, s: &Snapshot) -> (r: Vec<String>)
    requires
        repo.store.wf(),
        resolves(repo.store@, s.manifest_hash@),
    ensures
        forall|i: int| 0 <= i < r@.len() ==> references(repo.store@, *s, #[trigger] r@[i]@),
        exists|i: int| 0 <= i < r@.len() && r@[i]@ == s.manifest_hash@,
        forall|m: Map<Seq<char>, Seq<char>>, p: Seq<char>|
            m.dom().finite() && repo.store@.contains_key(s.manifest_hash@) && repo.store@[s.manifest_hash@] == manifest_json(m)
                && #[trigger] m.contains_key(p) ==> exists|i: int| 0 <= i < r@.len() && r@[i]@ == m[p],
{
    let mut out: Vec<String> = Vec::new();
    out.push(s.manifest_hash.clone());
    assert(out@[0]@ == s.manifest_hash@);
    match repo.store.get(&s.manifest_hash) {
        Ok(bytes) => {
            match Manifest::from_bytes(bytes.as_slice()) {
                Some(m) => {
                    let ghost mv = m@;
                    let mut j: usize = 0;
                    while j < m.entries.len()
                        invariant
                            mv == m@,
                            m.wf(),
                            repo.store@.contains_key(s.manifest_hash@),
                            bytes@ == repo.store@[s.manifest_hash@],
                            forall|mm: Map<Seq<char>, Seq<char>>| mm.dom().finite() && bytes@ == manifest_json(mm) ==> m.map() == mm,
                            resolves(repo.store@, s.manifest_hash@),
                            j <= m.entries@.len(),
                            out@.len() == j + 1,
                            out@[0]@ == s.manifest_hash@,
                            forall|i: int| 0 <= i < j ==> out@[i + 1]@ == mv[i].1,
                            forall|i: int| 0 <= i < out@.len() ==> references(repo.store@, *s, #[trigger] out@[i]@),
                        decreases m.entries@.len() - j,
                    {
                        let d = m.entries[j].1.clone();
                        proof {
                            let k = mv[j as int].0;
                            lemma_pairs_map_lookup(mv, j as int);
                            if exists|mm: Map<Seq<char>, Seq<char>>| mm.dom().finite() && bytes@ == manifest_json(mm) {
                                let mm = choose|mm: Map<Seq<char>, Seq<char>>| mm.dom().finite() && bytes@ == manifest_json(mm);
                                assert(mm.contains_key(k) && mm[k] == d@);
                                assert(references(repo.store@, *s, d@));
                            }
                        }
                        out.push(d);
                        j = j + 1;
                    }
                    proof {
                        assert forall|mm: Map<Seq<char>, Seq<char>>, p: Seq<char>|
                            mm.dom().finite() && repo.store@.contains_key(s.manifest_hash@) && repo.store@[s.manifest_hash@]
                                == manifest_json(mm) && #[trigger] mm.contains_key(p) implies exists|i: int|
                            0 <= i < out@.len() && out@[i]@ == mm[p] by {
                            lemma_pairs_map_domain(mv, p);
                            let i = choose|i: int| 0 <= i < mv.len() && mv[i].0 == p;
                            lemma_pairs_map_lookup(mv, i);
                            assert(out@[i + 1]@ == mm[p]);
                        }
                    }
                },
                None => {},
            }
        },
        Err(_) => {},
    }
    out
}

/// Deletes all but the `keep` newest snapshots, and every object that only
/// the deleted snapshots referred to. Returns how many snapshots went.
pub fn run(repo: &mut Repo, args: PruneArgs) -> (r: usize)
    requires
        old(repo).wf(),
    ensures
        final(repo).wf(),
        ({
            let snaps = old(repo).history.snapshots@;
            let n = snaps.len();
            let st = old(repo).store@;
            &&& n <= args.keep ==> r == 0 && final(repo).history.snapshots@ == snaps
                && final(repo).store@ == st
            &&& n > args.keep ==> r == n - args.keep && final(repo).history.snapshots@ == snaps.subrange(
                n - args.keep,
                n as int,
            )
            // whatever the kept snapshots reach is still there, unchanged
            &&& forall|k: Seq<char>| #[trigger] st.contains_key(k) && reachable(st, final(repo).history.snapshots@, k)
                ==> final(repo).store@.contains_key(k) && final(repo).store@[k] == st[k]
            // nothing else changes, and only what a deleted snapshot reached goes
            &&& forall|k: Seq<char>| #[trigger] final(repo).store@.contains_key(k) ==> st.contains_key(k)
                && final(repo).store@[k] == st[k]
            &&& forall|k: Seq<char>| #[trigger] st.contains_key(k) && !final(repo).store@.contains_key(k)
                ==> !reachable(st, final(repo).history.snapshots@, k) && reachable(st, snaps.subrange(0, n - args.keep), k)
            // and everything that only deleted snapshots reached is gone
            &&& n > args.keep ==> forall|k: Seq<char>| #[trigger] reachable(st, snaps.subrange(0, n - args.keep), k)
                && !reachable(st, final(repo).history.snapshots@, k) ==> !final(repo).store@.contains_key(k)
        }),
{
    let ghost st = repo.store@;
    let ghost snaps = repo.history.snapshots@;
    let deleted = repo.history.split_for_prune(args.keep);
    let count = deleted.len();
    if count == 0 {
        proof {
            assert forall|k: Seq<char>| #[trigger] st.contains_key(k) && !repo.store@.contains_key(k)
                implies false by {}
        }
        return 0;
    }
    let ghost kept = repo.history.snapshots@;
    let ghost dels = deleted@;
    proof {
        assert forall|a: int| 0 <= a < kept.len() implies resolves(st, #[trigger] kept[a].manifest_hash@) by {
            assert(kept[a] == snaps[snaps.len() - args.keep + a]);
        }
        assert forall|a: int| 0 <= a < dels.len() implies resolves(st, #[trigger] dels[a].manifest_hash@) by {
            assert(dels[a] == snaps[a]);
        }
    }
    let mut keep_set: Vec<String> = Vec::new();
    let mut i: usize = 0;
    while i < repo.history.snapshots.len()
        invariant
            repo.store@ == st,
            repo.store.wf(),
            kept == repo.history.snapshots@,
            forall|a: int| 0 <= a < kept.len() ==> resolves(st, #[trigger] kept[a].manifest_hash@),
            i <= kept.len(),
            forall|a: int, k: Seq<char>| 0 <= a < i && #[trigger] references(st, kept[a], k) ==> exists|j: int|
                0 <= j < keep_set@.len() && keep_set@[j]@ == k,
            forall|t: int| 0 <= t < keep_set@.len() ==> reachable(st, kept, #[trigger] keep_set@[t]@),
        decreases kept.len() - i,
    {
        let refs = referenced_digests(repo, &repo.history.snapshots[i]);
        let ghost before = keep_set@;
        let mut j: usize = 0;
        while j < refs.len()
            invariant
                keep_set@.len() == before.len() + j,
                j <= refs@.len(),
                forall|a: int| 0 <= a < before.len() ==> keep_set@[a] == before[a],
                forall|a: int| 0 <= a < j ==> keep_set@[before.len() + a] == refs@[a],
                i < kept.len(),
                forall|a: int| 0 <= a < refs@.len() ==> references(st, kept[i as int], #[trigger] refs@[a]@),
                forall|a: int| 0 <= a < before.len() ==> reachable(st, kept, #[trigger] before[a]@),
            decreases refs@.len() - j,
        {
            keep_set.push(refs[j].clone());
            j = j + 1;
        }
        proof {
            assert forall|a: int| 0 <= a < keep_set@.len() implies reachable(st, kept, #[trigger] keep_set@[a]@) by {
                if a >= before.len() {
                    assert(references(st, kept[i as int], refs@[a - before.len()]@));
                } else {
                    assert(keep_set@[a] == before[a]);
                }
            }
            assert forall|a: int, k: Seq<char>| 0 <= a < i + 1 && #[trigger] references(st, kept[a], k)
                implies exists|j: int| 0 <= j < keep_set@.len() && keep_set@[j]@ == k by {
                if a == i {
                    if k == kept[a].manifest_hash@ {
                        let x = choose|x: int| 0 <= x < refs@.len() && refs@[x]@ == kept[a].manifest_hash@;
                        assert(keep_set@[before.len() + x]@ == k);
                    } else {
                        let (m, p) = choose|m: Map<Seq<char>, Seq<char>>, p: Seq<char>|
                            m.dom().finite() && st[kept[a].manifest_hash@] == manifest_json(m) && #[trigger] m.contains_key(p)
                                && m[p] == k;
                        let x = choose|x: int| 0 <= x < refs@.len() && refs@[x]@ == m[p];
                        assert(keep_set@[before.len() + x]@ == k);
                    }
                } else {
                    let x = choose|x: int| 0 <= x < before.len() && before[x]@ == k;
                    assert(keep_set@[x]@ == k);
                }
            }
        }
        i = i + 1;
    }
    let mut doomed: Vec<String> = Vec::new();
    let mut d: usize = 0;
    while d < deleted.len()
        invariant
            repo.store@ == st,
            repo.store.wf(),
            dels == deleted@,
            forall|a: int| 0 <= a < dels.len() ==> resolves(st, #[trigger] dels[a].manifest_hash@),
            d <= dels.len(),
            forall|a: int, k: Seq<char>| 0 <= a < kept.len() && #[trigger] references(st, kept[a], k) ==> exists|j: int|
                0 <= j < keep_set@.len() && keep_set@[j]@ == k,
            forall|x: int| 0 <= x < doomed@.len() ==> !reachable(st, kept, #[trigger] doomed@[x]@)
                && reachable(st, dels, doomed@[x]@),
            forall|t: int| 0 <= t < keep_set@.len() ==> reachable(st, kept, #[trigger] keep_set@[t]@),
            forall|a: int, k: Seq<char>| 0 <= a < d && #[trigger] references(st, dels[a], k) && !reachable(st, kept, k)
                ==> exists|y: int| 0 <= y < doomed@.len() && doomed@[y]@ == k,
        decreases dels.len() - d,
    {
        let refs = referenced_digests(repo, &deleted[d]);
        let mut j: usize = 0;
        while j < refs.len()
            invariant
                d < dels.len(),
                j <= refs@.len(),
                forall|a: int| 0 <= a < refs@.len() ==> references(st, dels[d as int], #[trigger] refs@[a]@),
                forall|a: int, k: Seq<char>| 0 <= a < kept.len() && #[trigger] references(st, kept[a], k) ==> exists|j: int|
                    0 <= j < keep_set@.len() && keep_set@[j]@ == k,
                forall|x: int| 0 <= x < doomed@.len() ==> !reachable(st, kept, #[trigger] doomed@[x]@)
                    && reachable(st, dels, doomed@[x]@),
                forall|t: int| 0 <= t < keep_set@.len() ==> reachable(st, kept, #[trigger] keep_set@[t]@),
                forall|a: int, k: Seq<char>| 0 <= a < d && #[trigger] references(st, dels[a], k) && !reachable(st, kept, k)
                    ==> exists|y: int| 0 <= y < doomed@.len() && doomed@[y]@ == k,
                forall|a: int| 0 <= a < j && !reachable(st, kept, #[trigger] refs@[a]@) ==> exists|y: int|
                    0 <= y < doomed@.len() && doomed@[y]@ == refs@[a]@,
            decreases refs@.len() - j,
        {
            if !contains_string(&keep_set, &refs[j]) {
                let ghost k = refs@[j as int]@;
                proof {
                    assert(references(st, dels[d as int], k));
                    assert(reachable(st, dels, k));
                    if reachable(st, kept, k) {
                        let a = choose|a: int| 0 <= a < kept.len() && references(st, #[trigger] kept[a], k);
                        let y = choose|y: int| 0 <= y < keep_set@.len() && keep_set@[y]@ == k;
                    }
                }
                let ghost old_doomed = doomed@;
                doomed.push(refs[j].clone());
                assert(doomed@[doomed@.len() - 1]@ == k);
                proof {
                    assert forall|a: int, k2: Seq<char>| 0 <= a < d && #[trigger] references(st, dels[a], k2)
                        && !reachable(st, kept, k2) implies exists|y: int| 0 <= y < doomed@.len() && doomed@[y]@ == k2 by {
                        let y = choose|y: int| 0 <= y < old_doomed.len() && old_doomed[y]@ == k2;
                        assert(doomed@[y] == old_doomed[y]);
                    }
                    assert forall|a: int| 0 <= a < j + 1 && !reachable(st, kept, #[trigger] refs@[a]@) implies exists|y: int|
                        0 <= y < doomed@.len() && doomed@[y]@ == refs@[a]@ by {
                        if a < j {
                            let y = choose|y: int| 0 <= y < old_doomed.len() && old_doomed[y]@ == refs@[a]@;
                            assert(doomed@[y] == old_doomed[y]);
                        } else {
                            assert(doomed@[doomed@.len() - 1]@ == refs@[a]@);
                        }
                    }
                }
            } else {
                proof {
                    let y = choose|y: int| 0 <= y < keep_set@.len() && keep_set@[y]@ == refs@[j as int]@;
                    assert(reachable(st, kept, keep_set@[y]@));
                }
            }
            j = j + 1;
        }
        proof {
            assert forall|a: int, k: Seq<char>| 0 <= a < d + 1 && #[trigger] references(st, dels[a], k) && !reachable(st, kept, k)
                implies exists|y: int| 0 <= y < doomed@.len() && doomed@[y]@ == k by {
                if a == d {
                    if k == dels[a].manifest_hash@ {
                        let x = choose|x: int| 0 <= x < refs@.len() && refs@[x]@ == dels[a].manifest_hash@;
                        assert(!reachable(st, kept, refs@[x]@));
                    } else {
                        let (m, p) = choose|m: Map<Seq<char>, Seq<char>>, p: Seq<char>| m.dom().finite()
                            && st[dels[a].manifest_hash@] == manifest_json(m) && #[trigger] m.contains_key(p) && m[p] == k;
                        let x = choose|x: int| 0 <= x < refs@.len() && refs@[x]@ == m[p];
                        assert(!reachable(st, kept, refs@[x]@));
                    }
                }
            }
        }
        d = d + 1;
    }
    let mut x: usize = 0;
    while x < doomed.len()
        invariant
            repo.store.wf(),
            kept == repo.history.snapshots@,
            x <= doomed@.len(),
            forall|y: int| 0 <= y < doomed@.len() ==> !reachable(st, kept, #[trigger] doomed@[y]@)
                && reachable(st, dels, doomed@[y]@),
            forall|k: Seq<char>| #[trigger] repo.store@.contains_key(k) ==> st.contains_key(k) && repo.store@[k] == st[k],
            forall|k: Seq<char>| #[trigger] st.contains_key(k) && !repo.store@.contains_key(k)
                ==> !reachable(st, kept, k) && reachable(st, dels, k),
            forall|y: int| 0 <= y < x ==> !repo.store@.contains_key(#[trigger] doomed@[y]@),
            forall|a: int, k: Seq<char>| 0 <= a < dels.len() && #[trigger] references(st, dels[a], k) && !reachable(st, kept, k)
                ==> exists|y: int| 0 <= y < doomed@.len() && doomed@[y]@ == k,
        decreases doomed@.len() - x,
    {
        repo.store.remove(&doomed[x]);
        x = x + 1;
    }
    proof {
        assert forall|k: Seq<char>| #[trigger] reachable(st, dels, k) && !reachable(st, kept, k) implies !repo.store@.contains_key(k) by {
            let a = choose|a: int| 0 <= a < dels.len() && references(st, #[trigger] dels[a], k);
            let y = choose|y: int| 0 <= y < doomed@.len() && doomed@[y]@ == k;
        }
        assert forall|a: int| 0 <= a < kept.len() implies resolves(repo.store@, #[trigger] kept[a].manifest_hash@) by {
            let mh = kept[a].manifest_hash@;
            assert(references(st, kept[a], mh));
            assert(reachable(st, kept, mh));
            let w = choose|w: Map<Seq<char>, Seq<char>>| w.dom().finite() && st[mh] == manifest_json(w);
            assert(repo.store@[mh] == manifest_json(w));
        }
    }
    count
}

} // verus!
