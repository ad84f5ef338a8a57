use vstd::prelude::*;
use crate::error::Error;
use crate::hashing::{hash_content, sha256_hex};
use crate::history::{History, Snapshot, Timestamp, next_id_of};
use crate::pathord::path_sorted;
use crate::manifest::{keys_of, Manifest, build_manifest, captured, is_captured, files_view, lemma_manifest_of_entries,
    manifest_json, manifest_of};
use crate::store::{ObjectStore, pairs_map, unique_keys, lemma_pairs_map_domain, lemma_pairs_map_finite,
    lemma_pairs_map_lookup};

verus! {

/// The outcome of a save.
#[derive(Debug, PartialEq, Eq)]
pub enum SaveStatus {
    Saved { id: u32, message: String },
    NoChanges,
}

/// The digests of the files a save stores as blobs.
pub open spec fn blob_keys(files: Seq<(Seq<char>, Seq<u8>)>) -> Set<Seq<char>> {
    Set::new(|k: Seq<char>| exists|j: int| 0 <= j < files.len() && captured(files[j])
        && k == sha256_hex(files[j].1))
}

/// The digest of the manifest of a tree.
pub open spec fn tree_digest(files: Seq<(Seq<char>, Seq<u8>)>) -> Seq<char> {
    sha256_hex(manifest_json(pairs_map(manifest_of(files))))
}

/// The latest snapshot of `snaps` already records the tree `files`, so a save
/// of that tree has nothing to do.
pub open spec fn unchanged_since_latest(snaps: Seq<Snapshot>, files: Seq<(Seq<char>, Seq<u8>)>) -> bool {
    snaps.len() > 0 && snaps.last().manifest_hash@ == tree_digest(files)
}

/// Every digest the manifest lists names a stored object.
pub open spec fn blobs_present(store: Map<Seq<char>, Seq<u8>>, m: Map<Seq<char>, Seq<char>>) -> bool {
    forall|p: Seq<char>| #[trigger] m.contains_key(p) ==> store.contains_key(m[p])
}

/// The object under `mh` is the serialised form of a manifest whose blobs are
/// all stored.
pub open spec fn resolves(store: Map<Seq<char>, Seq<u8>>, mh: Seq<char>) -> bool {
    store.contains_key(mh) && exists|m: Map<Seq<char>, Seq<char>>| m.dom().finite() && store[mh] == manifest_json(m)
        && blobs_present(store, m)
}

/// The digests a manifest built from `files` lists are those of its captured files.
pub proof fn lemma_manifest_values_are_blobs(files: Seq<(Seq<char>, Seq<u8>)>)
    requires
        unique_keys(manifest_of(files)),
    ensures
        forall|p: Seq<char>| #[trigger] pairs_map(manifest_of(files)).contains_key(p) ==> blob_keys(files).contains(
            pairs_map(manifest_of(files))[p],
        ),
{
    let ms = manifest_of(files);
    assert forall|p: Seq<char>| #[trigger] pairs_map(ms).contains_key(p) implies blob_keys(files).contains(pairs_map(ms)[p]) by {
        lemma_pairs_map_domain(ms, p);
        let k = choose|k: int| 0 <= k < ms.len() && ms[k].0 == p;
        lemma_pairs_map_lookup(ms, k);
        lemma_manifest_of_entries(files, k);
    }
}

/// `b` holds every object of `a`, unchanged.
pub open spec fn grows(a: Map<Seq<char>, Seq<u8>>, b: Map<Seq<char>, Seq<u8>>) -> bool {
    forall|k: Seq<char>| #[trigger] a.contains_key(k) ==> b.contains_key(k) && b[k] == a[k]
}

/// Clones a byte buffer.
pub fn copy_bytes(b: &Vec<u8>) -> (r: Vec<u8>)
    ensures
        r@ == b@,
{
    let mut r: Vec<u8> = Vec::new();
    let mut i: usize = 0;
    while i < b.len()
        invariant
            i <= b@.len(),
            r@ == b@.subrange(0, i as int),
        decreases b@.len() - i,
    {
        r.push(b[i]);
        i = i + 1;
    }
    assert(b@.subrange(0, b@.len() as int) == b@);
    r
}

/// The object store and the snapshot history of one project.
pub struct Repo {
    pub store: ObjectStore,
    pub history: History,
}

impl Repo {
    pub open spec fn wf(&self) -> bool {
        &&& self.store.wf()
        &&& self.history.wf()
        &&& forall|i: int| 0 <= i < self.history.snapshots@.len() ==> resolves(
            self.store@,
            #[trigger] self.history.snapshots@[i].manifest_hash@,
        )
    }

    /// A project with no objects and no snapshots.
    pub fn new() -> (r: Repo)
        ensures
            r.wf(),
            r.store@.len() == 0,
            r.history.snapshots@.len() == 0,
    {
        Repo { store: ObjectStore::new(), history: History::new() }
    }

    /// Records the tree `files` as a new snapshot, storing the blobs and the
    /// manifest it needs; when the tree's manifest is that of the latest
    /// snapshot nothing is stored or recorded.
    pub fn perform_save(&mut self, files: &Vec<(String, Vec<u8>)>, message: String, now: Timestamp) -> (r:
        Result<SaveStatus, Error>)
        requires
            old(self).wf(),
            unique_keys(files_view(files@)),
            next_id_of(old(self).history.snapshots@) <= u32::MAX,
        ensures
            final(self).wf(),
            grows(old(self).store@, final(self).store@),
            ({
                let snaps = old(self).history.snapshots@;
                let d = tree_digest(files_view(files@));
                let unchanged = unchanged_since_latest(snaps, files_view(files@));
                &&& unchanged ==> r == Ok::<SaveStatus, Error>(SaveStatus::NoChanges)
                    && final(self).store@ == old(self).store@
                    && final(self).history.snapshots@ == snaps
                &&& !unchanged && r is Ok ==> r == Ok::<SaveStatus, Error>(
                    SaveStatus::Saved { id: next_id_of(snaps) as u32, message },
                ) && final(self).history.snapshots@ == snaps.push(
                    Snapshot {
                        id: next_id_of(snaps) as u32,
                        timestamp: now,
                        message,
                        manifest_hash: final(self).history.snapshots@.last().manifest_hash,
                    },
                ) && final(self).history.snapshots@.last().manifest_hash@ == d
                    && final(self).store@.dom() == old(self).store@.dom() + blob_keys(files_view(files@)).insert(d)
                    && final(self).store@[d] == manifest_json(pairs_map(manifest_of(files_view(files@))))
                    && forall|k: Seq<char>| #[trigger] final(self).store@.contains_key(k) && !old(self).store@.contains_key(k)
                        && k != d ==> exists|j: int| 0 <= j < files@.len() && captured(files_view(files@)[j]) && k
                        == sha256_hex(files_view(files@)[j].1) && final(self).store@[k] == files_view(files@)[j].1
                &&& r matches Err(e) ==> e matches Error::DigestCollision(x) && x@ == d
                    && final(self).store@.contains_key(d)
                    && final(self).store@[d] != manifest_json(pairs_map(manifest_of(files_view(files@))))
                    && final(self).history.snapshots@ == snaps
            }),
    {
        let manifest = build_manifest(files);
        let bytes = manifest.to_bytes();
        let digest = hash_content(bytes.as_slice());
        match self.history.get_latest() {
            Ok(latest) => {
                if latest.manifest_hash == digest {
                    return Ok(SaveStatus::NoChanges);
                }
            },
            Err(_) => {},
        }
        let ghost fv = files_view(files@);
        let ghost old_store = self.store@;
        let mut i: usize = 0;
        while i < files.len()
            invariant
                fv == files_view(files@),
                old_store == old(self).store@,
                self.history.snapshots@ == old(self).history.snapshots@,
                forall|k: int| 0 <= k < old(self).history.snapshots@.len() ==> resolves(
                    old_store,
                    #[trigger] old(self).history.snapshots@[k].manifest_hash@,
                ),
                i <= files@.len(),
                self.store.wf(),
                grows(old_store, self.store@),
                self.store@.dom() == old_store.dom() + blob_keys(fv.subrange(0, i as int)),
                forall|k: Seq<char>| #[trigger] self.store@.contains_key(k) && !old_store.contains_key(k) ==> exists|j: int|
                    0 <= j < i && captured(fv[j]) && k == sha256_hex(fv[j].1) && self.store@[k] == fv[j].1,
            decreases files@.len() - i,
        {
            let ghost before = self.store@;
            let path = &files[i].0;
            let content = &files[i].1;
            if is_captured(path.as_str(), content.as_slice()) {
                self.store.put(copy_bytes(content));
            }
            proof {
                let s0 = fv.subrange(0, i as int);
                let s1 = fv.subrange(0, i + 1);
                assert forall|k: Seq<char>| #[trigger] blob_keys(s1).contains(k) <==> (blob_keys(s0).contains(k)
                    || (captured(fv[i as int]) && k == sha256_hex(fv[i as int].1))) by {
                    if blob_keys(s1).contains(k) {
                        let j = choose|j: int| 0 <= j < s1.len() && captured(s1[j]) && k == sha256_hex(s1[j].1);
                        if j < i {
                            assert(s0[j] == s1[j]);
                        }
                    }
                    if blob_keys(s0).contains(k) {
                        let j = choose|j: int| 0 <= j < s0.len() && captured(s0[j]) && k == sha256_hex(s0[j].1);
                        assert(s0[j] == s1[j]);
                    }
                    if captured(fv[i as int]) && k == sha256_hex(fv[i as int].1) {
                        assert(s1[i as int] == fv[i as int]);
                    }
                }
                assert(self.store@.dom() =~= old_store.dom() + blob_keys(s1));
            }
            i = i + 1;
        }
        proof {
            assert(fv.subrange(0, files@.len() as int) == fv);
        }
        let ghost mid_store = self.store@;
        let _ = self.store.put(bytes);
        let ghost m = manifest.map();
        proof {
            assert forall|k: int| 0 <= k < self.history.snapshots@.len() implies resolves(
                self.store@,
                #[trigger] self.history.snapshots@[k].manifest_hash@,
            ) by {
                let mh = self.history.snapshots@[k].manifest_hash@;
                assert(resolves(old_store, mh));
                let w = choose|w: Map<Seq<char>, Seq<char>>| w.dom().finite() && old_store[mh] == manifest_json(w)
                    && blobs_present(old_store, w);
                assert(self.store@[mh] == manifest_json(w));
                assert(blobs_present(self.store@, w));
            }
        }
        match self.store.get(&digest) {
            Ok(stored) => {
                if !bytes_equal(stored, &manifest.to_bytes()) {
                    return Err(Error::DigestCollision(digest));
                }
            },
            Err(_) => {},
        }
        let id = self.history.next_id();
        self.history.add_snapshot(message, digest, now);
        proof {
            assert(self.store@[digest@] == manifest_json(m));
            assert forall|k: int| 0 <= k < self.history.snapshots@.len() implies resolves(
                self.store@,
                #[trigger] self.history.snapshots@[k].manifest_hash@,
            ) by {
                if k < self.history.snapshots@.len() - 1 {
                    let mh = self.history.snapshots@[k].manifest_hash@;
                    assert(old(self).history.snapshots@[k] == self.history.snapshots@[k]);
                    assert(resolves(old_store, mh));
                    let w = choose|w: Map<Seq<char>, Seq<char>>| w.dom().finite() && old_store[mh] == manifest_json(w)
                        && blobs_present(old_store, w);
                    assert(self.store@[mh] == manifest_json(w));
                    assert(blobs_present(self.store@, w));
                } else {
                    assert(self.store@[digest@] == manifest_json(m));
                    lemma_pairs_map_finite(manifest@);
                    lemma_manifest_values_are_blobs(fv);
                    assert(blobs_present(self.store@, m));
                }
            }
            assert(self.store@.dom() =~= old_store.dom() + blob_keys(fv).insert(digest@));
        }
        let msg = self.history.snapshots[self.history.snapshots.len() - 1].message.clone();
        Ok(SaveStatus::Saved { id, message: msg })
    }
}

/// Reads the manifest stored under `hash`.
pub fn get_manifest_from_hash(store: &ObjectStore, hash: &String) -> (r: Result<Manifest, Error>)
    requires
        store.wf(),
    ensures
        r matches Ok(m) ==> m.wf() && path_sorted(keys_of(m@)) && store@.contains_key(hash@),
        !store@.contains_key(hash@) ==> r == Err::<Manifest, Error>(Error::ObjectNotFound(*hash)),
        store@.contains_key(hash@) ==> forall|m: Map<Seq<char>, Seq<char>>| m.dom().finite() && store@[hash@] == manifest_json(m)
            ==> (r matches Ok(v) && v.map() == m),
        r matches Err(e) ==> (e == Error::ObjectNotFound(*hash) && !store@.contains_key(hash@)) || (e
            == Error::MalformedManifest(*hash) && store@.contains_key(hash@)),
{
    match store.get(hash) {
        Ok(bytes) => match Manifest::from_bytes(bytes.as_slice()) {
            Some(m) => Ok(m),
            None => Err(Error::MalformedManifest(hash.clone())),
        },
        Err(e) => Err(e),
    }
}

impl Repo {
    /// Joins a store and a history read back from disk, checking that every
    /// snapshot's manifest object is present and is a manifest in its
    /// canonical serialised form.
    pub fn open(store: ObjectStore, history: History) -> (r: Result<Repo, Error>)
        requires
            store.wf(),
            history.wf(),
        ensures
            r matches Ok(repo) ==> repo.wf() && repo.store@ == store@ && repo.history.snapshots@ == history.snapshots@,
            r is Ok <==> forall|i: int| 0 <= i < history.snapshots@.len() ==> resolves(store@, #[trigger] history.snapshots@[i].manifest_hash@),
            r matches Err(e) ==> e matches Error::ObjectNotFound(_) || e matches Error::MalformedManifest(_),
    {
        let mut i: usize = 0;
        while i < history.snapshots.len()
            invariant
                store.wf(),
                i <= history.snapshots@.len(),
                forall|j: int| 0 <= j < i ==> resolves(store@, #[trigger] history.snapshots@[j].manifest_hash@),
            decreases history.snapshots@.len() - i,
        {
            let mh = &history.snapshots[i].manifest_hash;
            match get_manifest_from_hash(&store, mh) {
                Ok(m) => {
                    let bytes = m.to_bytes();
                    let stored = match store.get(mh) {
                        Ok(b) => b,
                        Err(e) => return Err(e),
                    };
                    if !bytes_equal(stored, &bytes) {
                        proof {
                            if resolves(store@, mh@) {
                                let w = choose|w: Map<Seq<char>, Seq<char>>| w.dom().finite() && store@[mh@] == manifest_json(w)
                                    && blobs_present(store@, w);
                                assert(w == m.map());
                                assert(stored@ == bytes@);
                            }
                            assert(!resolves(store@, history.snapshots@[i as int].manifest_hash@));
                        }
                        return Err(Error::MalformedManifest(mh.clone()));
                    }
                    let ghost mv = m@;
                    let mut k: usize = 0;
                    while k < m.entries.len()
                        invariant
                            store.wf(),
                            m.wf(),
                            mv == m@,
                            k <= mv.len(),
                            forall|j: int| 0 <= j < k ==> store@.contains_key(#[trigger] mv[j].1),
                            forall|w: Map<Seq<char>, Seq<char>>| w.dom().finite() && store@[mh@] == manifest_json(w) ==> w
                                == m.map(),
                            i < history.snapshots@.len(),
                            mh@ == history.snapshots@[i as int].manifest_hash@,
                            store@.contains_key(mh@),
                            forall|j: int| 0 <= j < i ==> resolves(store@, #[trigger] history.snapshots@[j].manifest_hash@),
                        decreases mv.len() - k,
                    {
                        if !store.contains(&m.entries[k].1) {
                            proof {
                                if resolves(store@, mh@) {
                                    let w = choose|w: Map<Seq<char>, Seq<char>>| w.dom().finite() && store@[mh@] == manifest_json(w)
                                        && blobs_present(store@, w);
                                    lemma_pairs_map_lookup(mv, k as int);
                                    assert(w.contains_key(mv[k as int].0));
                                    assert(store@.contains_key(w[mv[k as int].0]));
                                }
                                assert(!resolves(store@, history.snapshots@[i as int].manifest_hash@));
                            }
                            return Err(Error::ObjectNotFound(m.entries[k].1.clone()));
                        }
                        k = k + 1;
                    }
                    proof {
                        lemma_pairs_map_finite(mv);
                        assert forall|p: Seq<char>| #[trigger] m.map().contains_key(p) implies store@.contains_key(m.map()[p]) by {
                            lemma_pairs_map_domain(mv, p);
                            let j = choose|j: int| 0 <= j < mv.len() && mv[j].0 == p;
                            lemma_pairs_map_lookup(mv, j);
                        }
                        assert(blobs_present(store@, m.map()));
                        assert(resolves(store@, history.snapshots@[i as int].manifest_hash@));
                    }
                },
                Err(e) => {
                    proof {
                        if resolves(store@, mh@) {
                            let w = choose|w: Map<Seq<char>, Seq<char>>| w.dom().finite() && store@[mh@] == manifest_json(w)
                                && blobs_present(store@, w);
                        }
                    }
                    return Err(e);
                },
            }
            i = i + 1;
        }
        Ok(Repo { store, history })
    }

    /// The manifest of the snapshot numbered `id`.
    pub fn snapshot_manifest(&self, id: u32) -> (r: Result<Manifest, Error>)
        requires
            self.wf(),
        ensures
            r matches Ok(m) ==> m.wf() && exists|i: int| 0 <= i < self.history.snapshots@.len()
                && self.history.snapshots@[i].id == id
                && (forall|j: int| 0 <= j < i ==> self.history.snapshots@[j].id != id)
                && self.store@[self.history.snapshots@[i].manifest_hash@] == manifest_json(m.map())
                && forall|w: Map<Seq<char>, Seq<char>>| w.dom().finite() && self.store@[self.history.snapshots@[i].manifest_hash@]
                    == manifest_json(w) ==> w == m.map(),
            r is Err <==> forall|j: int| 0 <= j < self.history.snapshots@.len() ==> self.history.snapshots@[j].id != id,
            r matches Err(e) ==> e == Error::SnapshotIdNotFound(id),
    {
        match self.history.position_of(id) {
            Some(i) => {
                let s = &self.history.snapshots[i];
                proof {
                    assert(resolves(self.store@, self.history.snapshots@[i as int].manifest_hash@));
                }
                let m = get_manifest_from_hash(&self.store, &s.manifest_hash);
                match m {
                    Ok(m) => Ok(m),
                    Err(_) => {
                        proof {
                            let w = choose|w: Map<Seq<char>, Seq<char>>| w.dom().finite() && self.store@[s.manifest_hash@] == manifest_json(w);
                        }
                        Err(Error::SnapshotIdNotFound(id))
                    },
                }
            },
            None => Err(Error::SnapshotIdNotFound(id)),
        }
    }
}

/// Whether two byte buffers hold the same bytes.
pub fn bytes_equal(a: &Vec<u8>, b: &Vec<u8>) -> (r: bool)
    ensures
        r == (a@ == b@),
{
    if a.len() != b.len() {
        return false;
    }
    let mut i: usize = 0;
    while i < a.len()
        invariant
            a@.len() == b@.len(),
            i <= a@.len(),
            forall|j: int| 0 <= j < i ==> a@[j] == b@[j],
        decreases a@.len() - i,
    {
        if a[i] != b[i] {
            return false;
        }
        i = i + 1;
    }
    assert(a@ =~= b@);
    true
}


/// Two captured files with byte-identical content share one digest, so a save
/// stores a single blob for both.
pub proof fn lemma_identical_content_one_object(files: Seq<(Seq<char>, Seq<u8>)>, i: int, j: int)
    requires
        0 <= i < files.len(),
        0 <= j < files.len(),
        captured(files[i]),
        captured(files[j]),
        files[i].1 == files[j].1,
    ensures
        sha256_hex(files[i].1) == sha256_hex(files[j].1),
        blob_keys(files).contains(sha256_hex(files[i].1)),
        blob_keys(seq![files[i], files[j]]) == set![sha256_hex(files[i].1)],
{
    let two = seq![files[i], files[j]];
    assert(blob_keys(files).contains(sha256_hex(files[i].1)));
    assert forall|k: Seq<char>| blob_keys(two).contains(k) <==> k == sha256_hex(files[i].1) by {
        if k == sha256_hex(files[i].1) {
            assert(two[0] == files[i]);
        }
    }
    assert(blob_keys(two) =~= set![sha256_hex(files[i].1)]);
}

/// Saving twice in a row with no change to the tree records one snapshot:
/// after a save that recorded `s` for the tree `files`, the next save of the
/// same tree finds it unchanged, and so (by `perform_save`) reports
/// `NoChanges` and stores nothing.
pub proof fn lemma_save_then_save_is_unchanged(
    before: Seq<Snapshot>,
    s: Snapshot,
    files: Seq<(Seq<char>, Seq<u8>)>,
)
    requires
        s.manifest_hash@ == tree_digest(files),
    ensures
        unchanged_since_latest(before.push(s), files),
{
}

} // verus!
