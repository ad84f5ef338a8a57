use vstd::prelude::*;
use similar::{ChangeTag, TextDiff};
use crate::error::Error;
use crate::manifest::{Manifest, build_manifest, files_view, manifest_json, manifest_of};
use crate::repo::Repo;
use crate::store::{ObjectStore, pairs_map, unique_keys, lemma_pairs_map_absent, lemma_pairs_map_domain,
    lemma_pairs_map_lookup};
use crate::pathord::{insert_path, path_sorted};
use crate::text::{push_text, string_of, texts, utf8_text};
use vstd::utf8::{decode_utf8, valid_utf8};

verus! {

/// What `diff` is asked to compare.
pub struct DiffArgs {
    /// The older side; the latest snapshot when absent.
    pub id1: Option<u32>,
    /// The newer side; the working tree when absent.
    pub id2: Option<u32>,
    /// Glob patterns left out of the working tree's manifest.
    pub exclude: Vec<String>,
}

/// How one line fares between the old and the new text.
#[derive(Debug, Clone, Copy, PartialEq, Eq)]
pub enum LineChange {
    Delete,
    Insert,
    Equal,
}

/// The line-by-line changes that turn `old` into `new`, each line with its
/// terminator.
pub uninterp spec fn line_changes(old: Seq<char>, new: Seq<char>) -> Seq<(LineChange, Seq<char>)>;

/// Relies on similar's `TextDiff::from_lines` and `iter_all_changes`: the
/// changes depend on the two texts alone.
#[verifier::external_body]
fn text_diff_lines(old: &str, new: &str) -> (r: Vec<(LineChange, String)>)
    ensures
        r@.map_values(|c: (LineChange, String)| (c.0, c.1@)) == line_changes(old@, new@),
{
    TextDiff::from_lines(old, new).iter_all_changes().map(|c| {
        let tag = match c.tag() {
            ChangeTag::Delete => LineChange::Delete,
            ChangeTag::Insert => LineChange::Insert,
            ChangeTag::Equal => LineChange::Equal,
        };
        (tag, c.value().to_string())
    }).collect()
}

/// The prefix a unified diff puts before a line.
pub open spec fn sign(c: LineChange) -> Seq<char> {
    match c {
        LineChange::Delete => seq!['-'],
        LineChange::Insert => seq!['+'],
        LineChange::Equal => seq![' '],
    }
}

/// A change's line as printed: a final line without a terminator gets one.
pub open spec fn line_text(t: Seq<char>) -> Seq<char> {
    if t.len() > 0 && t.last() == '\n' { t } else { t.push('\n') }
}

/// The changes rendered one after another, each behind its sign.
pub open spec fn rendered(cs: Seq<(LineChange, Seq<char>)>) -> Seq<char>
    decreases cs.len(),
{
    if cs.len() == 0 {
        Seq::empty()
    } else {
        rendered(cs.drop_last()) + sign(cs.last().0) + line_text(cs.last().1)
    }
}

/// The unified-diff block of one path.
pub open spec fn diff_block(path: Seq<char>, old: Seq<char>, new: Seq<char>) -> Seq<char> {
    seq!['-', '-', '-', ' ', 'a', '/'] + path + seq!['\n', '+', '+', '+', ' ', 'b', '/'] + path + seq!['\n']
        + rendered(line_changes(old, new))
}

fn sign_text(c: LineChange) -> (r: &'static str)
    ensures
        r@ == sign(c),
{
    match c {
        LineChange::Delete => {
            proof { reveal_strlit("-"); }
            "-"
        },
        LineChange::Insert => {
            proof { reveal_strlit("+"); }
            "+"
        },
        LineChange::Equal => {
            proof { reveal_strlit(" "); }
            " "
        },
    }
}

/// The unified diff of `old` against `new` for `path`: two header lines and
/// each line with `-`, `+` or ` ` in front.
pub fn generate_diff(path: &String, old: &str, new: &str) -> (r: String)
    ensures
        r@ == diff_block(path@, old@, new@),
{
    let changes = text_diff_lines(old, new);
    let ghost cs = changes@.map_values(|c: (LineChange, String)| (c.0, c.1@));
    proof {
        reveal_strlit("--- a/");
        reveal_strlit("\n+++ b/");
        reveal_strlit("\n");
    }
    let mut out = string_of("--- a/");
    push_text(&mut out, path.as_str());
    push_text(&mut out, "\n+++ b/");
    push_text(&mut out, path.as_str());
    push_text(&mut out, "\n");
    let ghost head = out@;
    assert(head == seq!['-', '-', '-', ' ', 'a', '/'] + path@ + seq!['\n', '+', '+', '+', ' ', 'b', '/'] + path@
        + seq!['\n']);
    let mut i: usize = 0;
    while i < changes.len()
        invariant
            cs == changes@.map_values(|c: (LineChange, String)| (c.0, c.1@)),
            i <= changes@.len(),
            out@ == head + rendered(cs.subrange(0, i as int)),
        decreases changes@.len() - i,
    {
        proof {
            assert(cs.subrange(0, i + 1).drop_last() == cs.subrange(0, i as int));
        }
        push_text(&mut out, sign_text(changes[i].0));
        let line = changes[i].1.as_str();
        push_text(&mut out, line);
        let n = line.unicode_len();
        if n == 0 || line.get_char(n - 1) != '\n' {
            proof { reveal_strlit("\n"); }
            push_text(&mut out, "\n");
        }
        i = i + 1;
    }
    proof {
        assert(cs.subrange(0, changes@.len() as int) == cs);
    }
    out
}

/// The digest a manifest gives `path`, if it lists it.
pub fn lookup<'a>(m: &'a Manifest, path: &String) -> (r: Option<&'a String>)
    requires
        m.wf(),
    ensures
        r is Some <==> m.map().contains_key(path@),
        r matches Some(d) ==> d@ == m.map()[path@],
{
    let mut i: usize = 0;
    while i < m.entries.len()
        invariant
            m.wf(),
            i <= m.entries@.len(),
            forall|j: int| 0 <= j < i ==> m@[j].0 != path@,
        decreases m.entries@.len() - i,
    {
        if m.entries[i].0 == *path {
            proof {
                assert(m@[i as int].0 == path@);
                lemma_pairs_map_lookup(m@, i as int);
            }
            return Some(&m.entries[i].1);
        }
        i = i + 1;
    }
    proof {
        lemma_pairs_map_absent(m@, path@);
    }
    None
}

/// Where the newer side of a comparison reads its content.
pub enum NewSide<'a> {
    /// Blobs of the object store.
    Stored,
    /// The working tree, as (relative path, content) pairs.
    Tree(&'a Vec<(String, Vec<u8>)>),
}

/// The text stored under `digest`.
fn stored_text(store: &ObjectStore, digest: &String) -> (r: Result<String, Error>)
    requires
        store.wf(),
    ensures
        r is Ok <==> store@.contains_key(digest@) && valid_utf8(store@[digest@]),
        r matches Ok(t) ==> t@ == decode_utf8(store@[digest@]),
        r matches Err(e) ==> e matches Error::ObjectNotFound(_) || e matches Error::NotText(_),
{
    match store.get(digest) {
        Ok(b) => match utf8_text(b.as_slice()) {
            Some(t) => Ok(t),
            None => Err(Error::NotText(digest.clone())),
        },
        Err(e) => Err(e),
    }
}

/// The text of the working-tree file at `path`.
fn tree_text(tree: &Vec<(String, Vec<u8>)>, path: &String) -> (r: Result<String, Error>)
    requires
        unique_keys(files_view(tree@)),
    ensures
        r is Ok <==> pairs_map(files_view(tree@)).contains_key(path@) && valid_utf8(pairs_map(files_view(tree@))[path@]),
        r matches Ok(t) ==> t@ == decode_utf8(pairs_map(files_view(tree@))[path@]),
        r matches Err(e) ==> e matches Error::NotText(_),
{
    let mut i: usize = 0;
    while i < tree.len()
        invariant
            i <= tree@.len(),
            unique_keys(files_view(tree@)),
            forall|j: int| 0 <= j < i ==> files_view(tree@)[j].0 != path@,
        decreases tree@.len() - i,
    {
        if tree[i].0 == *path {
            proof {
                assert(files_view(tree@)[i as int].0 == path@);
                lemma_pairs_map_lookup(files_view(tree@), i as int);
            }
            return match utf8_text(tree[i].1.as_slice()) {
                Some(t) => Ok(t),
                None => Err(Error::NotText(path.clone())),
            };
        }
        i = i + 1;
    }
    proof {
        lemma_pairs_map_absent(files_view(tree@), path@);
    }
    Err(Error::NotText(path.clone()))
}

/// `p` is listed by one map and not the other, or with different digests.
pub open spec fn differs(a: Map<Seq<char>, Seq<char>>, b: Map<Seq<char>, Seq<char>>, p: Seq<char>) -> bool {
    a.contains_key(p) != b.contains_key(p) || (a.contains_key(p) && a[p] != b[p])
}

/// The newer text of `path`, listed with `digest`: the stored blob, or the
/// working-tree file.
pub open spec fn new_text(store: Map<Seq<char>, Seq<u8>>, tree: Option<Seq<(Seq<char>, Seq<u8>)>>, path: Seq<char>, digest: Seq<char>) -> Seq<char> {
    match tree {
        None => decode_utf8(store[digest]),
        Some(t) => decode_utf8(pairs_map(t)[path]),
    }
}

/// `u` lists, in path order and once each, every path that either map lists.
pub open spec fn in_path_order(u: Seq<Seq<char>>, a: Map<Seq<char>, Seq<char>>, b: Map<Seq<char>, Seq<char>>) -> bool {
    &&& path_sorted(u)
    &&& forall|p: Seq<char>| #[trigger] u.contains(p) <==> (a.contains_key(p) || b.contains_key(p))
}

/// The block of one path: empty when both sides list it with one digest.
pub open spec fn path_block(
    store: Map<Seq<char>, Seq<u8>>,
    tree: Option<Seq<(Seq<char>, Seq<u8>)>>,
    a: Map<Seq<char>, Seq<char>>,
    b: Map<Seq<char>, Seq<char>>,
    p: Seq<char>,
) -> Seq<char> {
    if !differs(a, b, p) {
        Seq::empty()
    } else {
        let before = if a.contains_key(p) { decode_utf8(store[a[p]]) } else { Seq::empty() };
        let after = if b.contains_key(p) { new_text(store, tree, p, b[p]) } else { Seq::empty() };
        diff_block(p, before, after)
    }
}

/// The blocks of the paths of `u`, in its order.
pub open spec fn blocks(
    store: Map<Seq<char>, Seq<u8>>,
    tree: Option<Seq<(Seq<char>, Seq<u8>)>>,
    a: Map<Seq<char>, Seq<char>>,
    b: Map<Seq<char>, Seq<char>>,
    u: Seq<Seq<char>>,
) -> Seq<char>
    decreases u.len(),
{
    if u.len() == 0 {
        Seq::empty()
    } else {
        blocks(store, tree, a, b, u.drop_last()) + path_block(store, tree, a, b, u.last())
    }
}

/// Both sides of `p` can be read as text: the old blob, and the new blob or
/// working-tree file.
pub open spec fn sides_readable(
    store: Map<Seq<char>, Seq<u8>>,
    tree: Option<Seq<(Seq<char>, Seq<u8>)>>,
    a: Map<Seq<char>, Seq<char>>,
    b: Map<Seq<char>, Seq<char>>,
    p: Seq<char>,
) -> bool {
    &&& a.contains_key(p) ==> store.contains_key(a[p]) && valid_utf8(store[a[p]])
    &&& b.contains_key(p) ==> match tree {
        None => store.contains_key(b[p]) && valid_utf8(store[b[p]]),
        Some(t) => pairs_map(t).contains_key(p) && valid_utf8(pairs_map(t)[p]),
    }
}

/// Every path that differs can be read on both sides.
pub open spec fn readable(
    store: Map<Seq<char>, Seq<u8>>,
    tree: Option<Seq<(Seq<char>, Seq<u8>)>>,
    a: Map<Seq<char>, Seq<char>>,
    b: Map<Seq<char>, Seq<char>>,
) -> bool {
    forall|p: Seq<char>| #[trigger] differs(a, b, p) ==> sides_readable(store, tree, a, b, p)
}

/// The working tree a comparison reads, if it reads one.
pub open spec fn side_tree(side: NewSide) -> Option<Seq<(Seq<char>, Seq<u8>)>> {
    match side {
        NewSide::Stored => None,
        NewSide::Tree(t) => Some(files_view(t@)),
    }
}

/// Compares two manifests path by path, in path order over the paths either
/// lists: each path whose digest differs gets a unified-diff block. `None`
/// when no path differs.
pub fn diff_manifests(store: &ObjectStore, old: &Manifest, new: &Manifest, side: NewSide) -> (r: Result<
    Option<String>,
    Error,
>)
    requires
        store.wf(),
        old.wf(),
        new.wf(),
        side matches NewSide::Tree(t) ==> unique_keys(files_view(t@)),
    ensures
        r is Ok <==> readable(store@, side_tree(side), old.map(), new.map()),
        r matches Err(e) ==> e matches Error::ObjectNotFound(_) || e matches Error::NotText(_),
        r matches Ok(o) ==> (o is None <==> old.map() == new.map()),
        r matches Ok(o) ==> exists|u: Seq<Seq<char>>| #[trigger] in_path_order(u, old.map(), new.map())
            && (o matches Some(t) ==> t@ == blocks(store@, side_tree(side), old.map(), new.map(), u)),
        old.map() == new.map() ==> r == Ok::<Option<String>, Error>(None),
{
    let ghost tr = side_tree(side);
    let ghost a = old.map();
    let ghost b = new.map();
    let mut u: Vec<String> = Vec::new();
    let mut i: usize = 0;
    while i < old.entries.len()
        invariant
            i <= old@.len(),
            path_sorted(texts(u@)),
            forall|q: Seq<char>| #[trigger] texts(u@).contains(q) <==> exists|j: int| 0 <= j < i && old@[j].0 == q,
        decreases old@.len() - i,
    {
        insert_path(&mut u, &old.entries[i].0);
        proof {
            assert forall|q: Seq<char>| #[trigger] texts(u@).contains(q) <==> exists|j: int| 0 <= j < i + 1 && old@[j].0 == q by {
                if q == old@[i as int].0 {
                    assert(old@[i as int].0 == q);
                }
            }
        }
        i = i + 1;
    }
    let mut k: usize = 0;
    while k < new.entries.len()
        invariant
            k <= new@.len(),
            path_sorted(texts(u@)),
            forall|q: Seq<char>| #[trigger] texts(u@).contains(q) <==> (exists|j: int| 0 <= j < old@.len() && old@[j].0 == q)
                || (exists|j: int| 0 <= j < k && new@[j].0 == q),
        decreases new@.len() - k,
    {
        insert_path(&mut u, &new.entries[k].0);
        proof {
            assert forall|q: Seq<char>| #[trigger] texts(u@).contains(q) <==> (exists|j: int| 0 <= j < old@.len() && old@[j].0 == q)
                || (exists|j: int| 0 <= j < k + 1 && new@[j].0 == q) by {
                if q == new@[k as int].0 {
                    assert(new@[k as int].0 == q);
                }
            }
        }
        k = k + 1;
    }
    let ghost uv = texts(u@);
    proof {
        assert forall|q: Seq<char>| #[trigger] uv.contains(q) <==> (a.contains_key(q) || b.contains_key(q)) by {
            lemma_pairs_map_domain(old@, q);
            lemma_pairs_map_domain(new@, q);
        }
    }
    let mut out = string_of("");
    proof { reveal_strlit(""); }
    assert(in_path_order(uv, a, b));
    let mut x: usize = 0;
    while x < u.len()
        invariant
            old.wf(),
            new.wf(),
            store.wf(),
            a == old.map(),
            b == new.map(),
            tr == side_tree(side),
            side matches NewSide::Tree(t) ==> unique_keys(files_view(t@)),
            uv == texts(u@),
            x <= uv.len(),
            out@ == blocks(store@, tr, a, b, uv.subrange(0, x as int)),
            out@.len() == 0 <==> forall|y: int| 0 <= y < x ==> !differs(a, b, #[trigger] uv[y]),
            forall|y: int| 0 <= y < x && differs(a, b, #[trigger] uv[y]) ==> sides_readable(store@, tr, a, b, uv[y]),
            in_path_order(uv, a, b),
        decreases uv.len() - x,
    {
        let p = &u[x];
        proof {
            assert(uv.subrange(0, x + 1).drop_last() == uv.subrange(0, x as int));
            assert(uv.subrange(0, x + 1).last() == uv[x as int]);
        }
        let od = lookup(old, p);
        let nd = lookup(new, p);
        proof {
            assert(uv[x as int] == p@);
        }
        let differ = match (od, nd) {
            (Some(d1), Some(d2)) => *d1 != *d2,
            (None, None) => false,
            _ => true,
        };
        if differ {
            let ot = match od {
                Some(d) => match stored_text(store, d) {
                    Ok(t) => t,
                    Err(e) => {
                        proof {
                            assert(differs(a, b, uv[x as int]));
                            assert(!sides_readable(store@, tr, a, b, uv[x as int]));
                            assert(!readable(store@, tr, a, b));
                        }
                        return Err(e);
                    },
                },
                None => {
                    proof { reveal_strlit(""); }
                    string_of("")
                },
            };
            let nt_r = match nd {
                Some(d) => match side {
                    NewSide::Stored => stored_text(store, d),
                    NewSide::Tree(t) => tree_text(t, p),
                },
                None => {
                    proof { reveal_strlit(""); }
                    Ok(string_of(""))
                },
            };
            let nt = match nt_r {
                Ok(t) => t,
                Err(e) => {
                    proof {
                        assert(differs(a, b, uv[x as int]));
                        assert(!sides_readable(store@, tr, a, b, uv[x as int]));
                        assert(!readable(store@, tr, a, b));
                    }
                    return Err(e);
                },
            };
            let ghost prev = out@;
            let block = generate_diff(p, ot.as_str(), nt.as_str());
            push_text(&mut out, block.as_str());
            proof {
                let q = uv[x as int];
                assert(q == p@);
                assert(differs(a, b, q));
                let before = if a.contains_key(q) { decode_utf8(store@[a[q]]) } else { Seq::empty() };
                let after = if b.contains_key(q) { new_text(store@, tr, q, b[q]) } else { Seq::empty() };
                assert(ot@ == before);
                assert(nt@ == after);
                assert(out@ == prev + path_block(store@, tr, a, b, uv[x as int]));
            }
            assert(out@.len() > 0);
        }
        x = x + 1;
    }
    proof {
        assert(uv.subrange(0, uv.len() as int) == uv);
        assert(in_path_order(uv, a, b));
        assert forall|q: Seq<char>| #[trigger] differs(a, b, q) implies sides_readable(store@, tr, a, b, q) by {
            assert(uv.contains(q));
            let y = choose|y: int| 0 <= y < uv.len() && uv[y] == q;
            assert(differs(a, b, uv[y]));
        }
        if forall|y: int| 0 <= y < uv.len() ==> !differs(a, b, #[trigger] uv[y]) {
            assert forall|q: Seq<char>| #[trigger] a.contains_key(q) == b.contains_key(q) && (a.contains_key(q) ==> a[q]
                == b[q]) by {
                if a.contains_key(q) || b.contains_key(q) {
                    assert(uv.contains(q));
                    let y = choose|y: int| 0 <= y < uv.len() && uv[y] == q;
                    assert(!differs(a, b, uv[y]));
                }
            }
            assert(a =~= b);
        }
    }
    if out.as_str().unicode_len() == 0 {
        Ok(None)
    } else {
        Ok(Some(out))
    }
}

/// `m` is the manifest stored for the first snapshot numbered `id`.
pub open spec fn snapshot_lists(repo: &Repo, id: u32, m: Seq<(Seq<char>, Seq<char>)>) -> bool {
    exists|i: int| #![trigger repo.history.snapshots@[i]]
        0 <= i < repo.history.snapshots@.len() && repo.history.snapshots@[i].id == id
            && (forall|j: int| 0 <= j < i ==> repo.history.snapshots@[j].id != id)
            && repo.store@[repo.history.snapshots@[i].manifest_hash@] == manifest_json(pairs_map(m))
}

/// The id of the older side: the one given, or the latest snapshot's.
pub open spec fn older_id(repo: &Repo, args: &DiffArgs) -> u32 {
    match args.id1 {
        Some(a) => a,
        None => repo.history.snapshots@.last().id,
    }
}

/// The working tree the newer side reads, when it is not a snapshot.
pub open spec fn newer_tree(args: &DiffArgs, tree: Seq<(Seq<char>, Seq<u8>)>) -> Option<Seq<(Seq<char>, Seq<u8>)>> {
    if args.id2 is Some { None } else { Some(tree) }
}

/// `m1` and `m2` are the older and the newer manifest that `args` selects.
pub open spec fn sides_of(
    repo: &Repo,
    args: &DiffArgs,
    tree: Seq<(Seq<char>, Seq<u8>)>,
    m1: Seq<(Seq<char>, Seq<char>)>,
    m2: Seq<(Seq<char>, Seq<char>)>,
) -> bool {
    &&& snapshot_lists(repo, older_id(repo, args), m1)
    &&& args.id2 matches Some(b) ==> snapshot_lists(repo, b, m2)
    &&& args.id2 is None ==> m2 == manifest_of(tree)
}

/// A snapshot carries this id.
pub open spec fn has_id(repo: &Repo, id: u32) -> bool {
    exists|j: int| 0 <= j < repo.history.snapshots@.len() && repo.history.snapshots@[j].id == id
}

/// The ids of `args` name existing snapshots, in a supported combination.
pub open spec fn ids_resolve(repo: &Repo, args: &DiffArgs) -> bool {
    &&& !(args.id1 is None && args.id2 is Some)
    &&& args.id1 is None ==> repo.history.snapshots@.len() > 0
    &&& args.id1 matches Some(a) ==> has_id(repo, a)
    &&& args.id2 matches Some(b) ==> has_id(repo, b)
}

/// Resolves the two sides of a comparison and diffs them: two snapshots; a
/// snapshot against the working tree `tree`; or, with no id, the latest
/// snapshot against the working tree. Only a second id is a usage error.
pub fn run(repo: &Repo, args: &DiffArgs, tree: &Vec<(String, Vec<u8>)>) -> (r: Result<Option<String>, Error>)
    requires
        repo.wf(),
        unique_keys(files_view(tree@)),
    ensures
        args.id1 is None && args.id2 is Some ==> r == Err::<Option<String>, Error>(Error::Usage),
        args.id1 is None && args.id2 is None && repo.history.snapshots@.len() == 0 ==> r == Err::<
            Option<String>,
            Error,
        >(Error::NoSnapshots),
        forall|x: u32| #![auto] args.id1 == Some(x) && (args.id2 is None || args.id2 == Some(x)) && (forall|j: int|
            0 <= j < repo.history.snapshots@.len() ==> repo.history.snapshots@[j].id != x) ==> r == Err::<
            Option<String>,
            Error,
        >(Error::SnapshotIdNotFound(x)),
        forall|x: u32| #![auto] args.id1 == Some(x) && args.id2 == Some(x) && (exists|j: int|
            0 <= j < repo.history.snapshots@.len() && repo.history.snapshots@[j].id == x) ==> r == Ok::<
            Option<String>,
            Error,
        >(None),
        ids_resolve(repo, args) && (forall|m1: Seq<(Seq<char>, Seq<char>)>, m2: Seq<(Seq<char>, Seq<char>)>|
            #[trigger] sides_of(repo, args, files_view(tree@), m1, m2) ==> readable(
                repo.store@,
                newer_tree(args, files_view(tree@)),
                pairs_map(m1),
                pairs_map(m2),
            )) ==> r is Ok,
        r matches Err(e) ==> e matches Error::Usage || e matches Error::NoSnapshots || e matches Error::SnapshotIdNotFound(_)
            || e matches Error::ObjectNotFound(_) || e matches Error::NotText(_),
        r matches Ok(o) ==> exists|m1: Seq<(Seq<char>, Seq<char>)>, m2: Seq<(Seq<char>, Seq<char>)>, u: Seq<Seq<char>>|
            #![trigger sides_of(repo, args, files_view(tree@), m1, m2), in_path_order(u, pairs_map(m1), pairs_map(m2))] {
            &&& sides_of(repo, args, files_view(tree@), m1, m2)
            &&& in_path_order(u, pairs_map(m1), pairs_map(m2))
            &&& (o is None <==> pairs_map(m1) == pairs_map(m2))
            &&& o matches Some(t) ==> t@ == blocks(repo.store@, newer_tree(args, files_view(tree@)), pairs_map(m1), pairs_map(m2), u)
        },
{
    match (args.id1, args.id2) {
        (Some(a), Some(b)) => {
            let old = repo.snapshot_manifest(a)?;
            let new = repo.snapshot_manifest(b)?;
            proof {
                if a == b {
                    let snaps = repo.history.snapshots@;
                    let i = choose|i: int| 0 <= i < snaps.len() && snaps[i].id == a && (forall|j: int|
                        0 <= j < i ==> snaps[j].id != a) && repo.store@[snaps[i].manifest_hash@] == manifest_json(old.map())
                        && forall|w: Map<Seq<char>, Seq<char>>| w.dom().finite() && repo.store@[snaps[i].manifest_hash@] == manifest_json(w) ==> w == old.map();
                    let i2 = choose|i2: int| 0 <= i2 < snaps.len() && snaps[i2].id == b && (forall|j: int|
                        0 <= j < i2 ==> snaps[j].id != b) && repo.store@[snaps[i2].manifest_hash@] == manifest_json(new.map())
                        && forall|w: Map<Seq<char>, Seq<char>>| w.dom().finite() && repo.store@[snaps[i2].manifest_hash@] == manifest_json(w) ==> w == new.map();
                    assert(i == i2);
                    assert(new.map() == old.map());
                }
            }
            proof {
                assert(sides_of(repo, args, files_view(tree@), old@, new@));
            }
            let r = diff_manifests(&repo.store, &old, &new, NewSide::Stored);
            proof {
                if r is Ok {
                    let u = choose|u: Seq<Seq<char>>| #[trigger] in_path_order(u, old.map(), new.map())
                        && (r->Ok_0 matches Some(t) ==> t@ == blocks(repo.store@, newer_tree(args, files_view(tree@)), old.map(), new.map(), u));
                    assert(in_path_order(u, pairs_map(old@), pairs_map(new@)));
                }
            }
            r
        },
        (Some(a), None) => {
            let old = repo.snapshot_manifest(a)?;
            let new = build_manifest(tree);
            proof {
                assert(sides_of(repo, args, files_view(tree@), old@, new@));
            }
            let r = diff_manifests(&repo.store, &old, &new, NewSide::Tree(tree));
            proof {
                if r is Ok {
                    let u = choose|u: Seq<Seq<char>>| #[trigger] in_path_order(u, old.map(), new.map())
                        && (r->Ok_0 matches Some(t) ==> t@ == blocks(repo.store@, newer_tree(args, files_view(tree@)), old.map(), new.map(), u));
                    assert(in_path_order(u, pairs_map(old@), pairs_map(new@)));
                }
            }
            r
        },
        (None, None) => {
            let latest = repo.history.get_latest()?;
            let old = repo.snapshot_manifest(latest.id)?;
            let new = build_manifest(tree);
            proof {
                assert(sides_of(repo, args, files_view(tree@), old@, new@));
            }
            let r = diff_manifests(&repo.store, &old, &new, NewSide::Tree(tree));
            proof {
                if r is Ok {
                    let u = choose|u: Seq<Seq<char>>| #[trigger] in_path_order(u, old.map(), new.map())
                        && (r->Ok_0 matches Some(t) ==> t@ == blocks(repo.store@, newer_tree(args, files_view(tree@)), old.map(), new.map(), u));
                    assert(in_path_order(u, pairs_map(old@), pairs_map(new@)));
                }
            }
            r
        },
        (None, Some(_)) => Err(Error::Usage),
    }
}

} // verus!
