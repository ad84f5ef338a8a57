use vstd::prelude::*;
use std::collections::BTreeMap;
use vstd::string::StringSliceAdditionalSpecFns;
use crate::hashing::{hash_content, sha256_hex};
use crate::pathord::path_sorted;
use crate::store::{pairs_map, unique_keys};

verus! {

/// The first line of every report the tool writes to a file.
pub const FILE_SIGNATURE: &'static str = "// DEVCAT-OUTPUT-FILE";

/// The name of the engine's metadata directory under the project root.
pub const HISTORY_DIR: &'static str = ".devcat";

/// `path` is the directory `dir` or lies under it, component-wise.
pub open spec fn under_dir(path: Seq<char>, dir: Seq<char>) -> bool {
    path.len() >= dir.len() && path.subrange(0, dir.len() as int) == dir && (path.len() == dir.len() || path[dir.len() as int]
        == '/')
}

/// Whether `path` is the directory `dir` or lies under it.
pub fn starts_with_dir(path: &str, dir: &str) -> (r: bool)
    ensures
        r == under_dir(path@, dir@),
{
    let n = dir.unicode_len();
    let len = path.unicode_len();
    if len < n {
        return false;
    }
    let mut i: usize = 0;
    while i < n
        invariant
            n == dir@.len(),
            len == path@.len(),
            n <= len,
            i <= n,
            forall|j: int| 0 <= j < i ==> path@[j] == dir@[j],
        decreases n - i,
    {
        if path.get_char(i) != dir.get_char(i) {
            assert(path@.subrange(0, n as int)[i as int] != dir@[i as int]);
            return false;
        }
        i = i + 1;
    }
    assert(path@.subrange(0, n as int) =~= dir@);
    len == n || path.get_char(n) == '/'
}

/// A file that goes into a manifest: it has a path, lies outside the
/// metadata directory, and is not a report.
pub open spec fn captured(f: (Seq<char>, Seq<u8>)) -> bool {
    f.0.len() > 0 && !under_dir(f.0, HISTORY_DIR@) && !has_signature(f.1)
}

/// Whether the file at relative path `path` with bytes `content` goes into a manifest.
pub fn is_captured(path: &str, content: &[u8]) -> (r: bool)
    ensures
        r == captured((path@, content@)),
{
    path.unicode_len() > 0 && !starts_with_dir(path, HISTORY_DIR) && !check_file_signature(content)
}

/// The paths of a manifest, in its order.
pub open spec fn keys_of(m: Seq<(Seq<char>, Seq<char>)>) -> Seq<Seq<char>> {
    m.map_values(|e: (Seq<char>, Seq<char>)| e.0)
}

/// The payload begins with the report marker.
pub open spec fn has_signature(b: Seq<u8>) -> bool {
    let m = FILE_SIGNATURE.spec_bytes();
    b.len() >= m.len() && b.subrange(0, m.len() as int) == m
}

/// Whether `content` begins with the report marker, so that reports the tool
/// wrote are never captured into a snapshot.
pub fn check_file_signature(content: &[u8]) -> (r: bool)
    ensures
        r == has_signature(content@),
{
    let m = FILE_SIGNATURE.as_bytes();
    if content.len() < m.len() {
        return false;
    }
    let mut i: usize = 0;
    while i < m.len()
        invariant
            m@ == FILE_SIGNATURE.spec_bytes(),
            m@.len() <= content@.len(),
            i <= m@.len(),
            forall|j: int| 0 <= j < i ==> content@[j] == m@[j],
        decreases m@.len() - i,
    {
        if content[i] != m[i] {
            return false;
        }
        i = i + 1;
    }
    assert(content@.subrange(0, m@.len() as int) =~= m@);
    true
}

/// The serialised form of a manifest: a JSON object from path to digest,
/// keys in sorted order.
pub uninterp spec fn manifest_json(m: Map<Seq<char>, Seq<char>>) -> Seq<u8>;

/// The (path, digest) pairs of a list as plain values.
pub open spec fn entries_view(v: Seq<(String, String)>) -> Seq<(Seq<char>, Seq<char>)> {
    v.map_values(|e: (String, String)| (e.0@, e.1@))
}

/// The (path, content) pairs of a list of files as plain values.
pub open spec fn files_view(v: Seq<(String, Vec<u8>)>) -> Seq<(Seq<char>, Seq<u8>)> {
    v.map_values(|e: (String, Vec<u8>)| (e.0@, e.1@))
}

/// The manifest of a list of files: each captured file paired with the
/// digest of its content.
pub open spec fn manifest_of(files: Seq<(Seq<char>, Seq<u8>)>) -> Seq<(Seq<char>, Seq<char>)>
    decreases files.len(),
{
    if files.len() == 0 {
        Seq::empty()
    } else {
        let prev = manifest_of(files.drop_last());
        let f = files.last();
        if !captured(f) {
            prev
        } else {
            prev.push((f.0, sha256_hex(f.1)))
        }
    }
}

/// A mapping from relative path to content digest, without repeated paths.
pub struct Manifest {
    pub entries: Vec<(String, String)>,
}

impl Manifest {
    pub open spec fn view(&self) -> Seq<(Seq<char>, Seq<char>)> {
        entries_view(self.entries@)
    }

    /// The manifest as a map from path to digest.
    pub open spec fn map(&self) -> Map<Seq<char>, Seq<char>> {
        pairs_map(self@)
    }

    pub open spec fn wf(&self) -> bool {
        unique_keys(self@)
    }

    /// The serialised manifest, whose digest is the manifest's object key.
    pub fn to_bytes(&self) -> (r: Vec<u8>)
        requires
            self.wf(),
        ensures
            r@ == manifest_json(self.map()),
    {
        serialize_manifest(&self.entries)
    }

    /// Reads a serialised manifest back; `None` when the bytes are not one.
    pub fn from_bytes(bytes: &[u8]) -> (r: Option<Manifest>)
        ensures
            r matches Some(m) ==> m.wf() && path_sorted(keys_of(m@)),
            forall|m: Map<Seq<char>, Seq<char>>| m.dom().finite() && bytes@ == manifest_json(m) ==> (r matches Some(v)
                && v.map() == m),
    {
        match parse_manifest(bytes) {
            Some(entries) => Some(Manifest { entries }),
            None => None,
        }
    }
}

/// Relies on serde_json's `to_vec` over a `BTreeMap<String, String>`: the
/// output depends on the map alone, and string-keyed maps always serialise.
#[verifier::external_body]
fn serialize_manifest(entries: &Vec<(String, String)>) -> (r: Vec<u8>)
    requires
        unique_keys(entries_view(entries@)),
    ensures
        r@ == manifest_json(pairs_map(entries_view(entries@))),
{
    let m: BTreeMap<&String, &String> = entries.iter().map(|e| (&e.0, &e.1)).collect();
    serde_json::to_vec(&m).expect("string-keyed maps serialise")
}

/// Relies on serde_json's `from_slice` into a `BTreeMap<String, String>`:
/// keys come out once each and in increasing order (byte order of UTF-8,
/// which is code-point order), and what `to_vec` wrote of a map reads back as
/// that map.
#[verifier::external_body]
fn parse_manifest(bytes: &[u8]) -> (r: Option<Vec<(String, String)>>)
    ensures
        r matches Some(v) ==> unique_keys(entries_view(v@)) && path_sorted(keys_of(entries_view(v@))),
        forall|m: Map<Seq<char>, Seq<char>>| m.dom().finite() && bytes@ == manifest_json(m) ==> r.is_some()
            && pairs_map(entries_view(r.unwrap()@)) == m,
{
    match serde_json::from_slice::<BTreeMap<String, String>>(bytes) {
        Ok(m) => Some(m.into_iter().collect()),
        Err(_) => None,
    }
}

/// Builds the manifest of a tree given as (relative path, content) pairs.
pub fn build_manifest(files: &Vec<(String, Vec<u8>)>) -> (r: Manifest)
    requires
        unique_keys(files_view(files@)),
    ensures
        r.wf(),
        r@ == manifest_of(files_view(files@)),
{
    let mut entries: Vec<(String, String)> = Vec::new();
    let mut i: usize = 0;
    while i < files.len()
        invariant
            i <= files@.len(),
            unique_keys(files_view(files@)),
            entries_view(entries@) == manifest_of(files_view(files@).subrange(0, i as int)),
            unique_keys(entries_view(entries@)),
            forall|k: int| 0 <= k < entries@.len() ==> exists|j: int|
                0 <= j < i && #[trigger] entries@[k].0@ == files@[j].0@,
        decreases files@.len() - i,
    {
        let ghost fv = files_view(files@);
        proof {
            assert(fv.subrange(0, i + 1).drop_last() == fv.subrange(0, i as int));
            assert(fv.subrange(0, i + 1).last() == fv[i as int]);
        }
        let path = &files[i].0;
        let content = &files[i].1;
        if is_captured(path.as_str(), content.as_slice()) {
            let digest = hash_content(content.as_slice());
            let ghost before = entries_view(entries@);
            entries.push((path.clone(), digest));
            proof {
                assert(entries_view(entries@) == before.push((fv[i as int].0, sha256_hex(fv[i as int].1))));
                assert forall|a: int, b: int| 0 <= a < b < entries@.len() implies
                    entries_view(entries@)[a].0 != entries_view(entries@)[b].0 by {
                    if b == entries@.len() - 1 {
                        let j = choose|j: int| 0 <= j < i && entries@[a].0@ == files@[j].0@;
                        assert(fv[j].0 != fv[i as int].0);
                    } else {
                        assert(before[a] == entries_view(entries@)[a]);
                        assert(before[b] == entries_view(entries@)[b]);
                    }
                }
                assert forall|k: int| 0 <= k < entries@.len() implies exists|j: int|
                    0 <= j < i + 1 && #[trigger] entries@[k].0@ == files@[j].0@ by {
                    if k == entries@.len() - 1 {
                        assert(entries@[k].0@ == files@[i as int].0@);
                    } else {
                        let j = choose|j: int| 0 <= j < i && entries@[k].0@ == files@[j].0@;
                        assert(entries@[k].0@ == files@[j].0@);
                    }
                }
            }
        }
        i = i + 1;
    }
    proof {
        assert(files_view(files@).subrange(0, files@.len() as int) == files_view(files@));
    }
    Manifest { entries }
}

/// Each entry of the manifest of `files` is a captured file's path with the
/// digest of its content.
pub proof fn lemma_manifest_of_entries(files: Seq<(Seq<char>, Seq<u8>)>, k: int)
    requires
        0 <= k < manifest_of(files).len(),
    ensures
        exists|j: int| #![trigger files[j]] 0 <= j < files.len() && captured(files[j]) && manifest_of(files)[k] == (
            files[j].0,
            sha256_hex(files[j].1),
        ),
    decreases files.len(),
{
    let prev = manifest_of(files.drop_last());
    if k < prev.len() {
        lemma_manifest_of_entries(files.drop_last(), k);
        let j = choose|j: int| #![trigger files.drop_last()[j]] 0 <= j < files.drop_last().len() && captured(files.drop_last()[j])
            && prev[k] == (files.drop_last()[j].0, sha256_hex(files.drop_last()[j].1));
        assert(files.drop_last()[j] == files[j]);
    } else {
        assert(files[files.len() - 1] == files.last());
    }
}

} // verus!
