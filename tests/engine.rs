use devcat::config::{merge_excludes, Config};
use devcat::diff::{self, generate_diff, DiffArgs};
use devcat::error::Error;
use devcat::exclude::ExcludeSet;
use devcat::hashing::hash_content;
use devcat::history::{History, Snapshot, Timestamp};
use devcat::inspect::{self, InspectArgs};
use devcat::log_cmd::{self, LogArgs};
use devcat::manifest::{build_manifest, check_file_signature, Manifest};
use devcat::prune::{self, PruneArgs};
use devcat::repo::{Repo, SaveStatus};
use devcat::revert::{self, RevertArgs};
use devcat::save::{self, SaveArgs};
use devcat::store::ObjectStore;
use devcat::watch::{auto_message, is_metadata_path, should_trigger, step, ChangeKind, WatchState};

fn at(secs: i64) -> Timestamp {
    Timestamp { secs, nanos: 0 }
}

fn tree(files: &[(&str, &str)]) -> Vec<(String, Vec<u8>)> {
    files.iter().map(|(p, c)| (p.to_string(), c.as_bytes().to_vec())).collect()
}

fn snap(id: u32) -> Snapshot {
    Snapshot { id, timestamp: at(0), message: format!("m{}", id), manifest_hash: String::new() }
}

fn save_msg(repo: &mut Repo, files: &Vec<(String, Vec<u8>)>, msg: &str, secs: i64) -> SaveStatus {
    save::run(repo, SaveArgs { message: msg.to_string(), exclude: vec![] }, files, at(secs)).unwrap()
}

#[test]
fn hash_of_known_inputs() {
    assert_eq!(hash_content(b""), "e3b0c44298fc1c149afbf4c8996fb92427ae41e4649b934ca495991b7852b855");
    assert_eq!(hash_content(b"abc"), "ba7816bf8f01cfea414140de5dae2223b00361a396177a9cb410ff61f20015ad");
}

#[test]
fn history_assigns_sequential_ids() {
    let mut h = History::new();
    assert_eq!(h.get_latest().unwrap_err(), Error::NoSnapshots);
    h.add_snapshot("a".to_string(), "x".to_string(), at(1));
    h.add_snapshot("b".to_string(), "y".to_string(), at(2));
    assert_eq!(h.snapshots[0].id, 1);
    assert_eq!(h.snapshots[1].id, 2);
    assert_eq!(h.get_latest().unwrap().message, "b");
    assert_eq!(h.get_snapshot(1).unwrap().manifest_hash, "x");
    assert_eq!(h.get_snapshot(9).unwrap_err(), Error::SnapshotIdNotFound(9));
}

#[test]
fn history_load_sorts_by_id() {
    let h = History::from_snapshots(vec![snap(3), snap(1), snap(2)]);
    let ids: Vec<u32> = h.snapshots.iter().map(|s| s.id).collect();
    assert_eq!(ids, vec![1, 2, 3]);
}

#[test]
fn ids_not_reused_after_prune() {
    let mut h = History::from_snapshots(vec![snap(1), snap(2), snap(3)]);
    let gone = h.split_for_prune(1);
    assert_eq!(gone.len(), 2);
    assert_eq!(h.snapshots.len(), 1);
    h.add_snapshot("n".to_string(), String::new(), at(0));
    assert_eq!(h.snapshots[1].id, 4);
}

#[test]
fn split_for_prune_keeps_all_when_few() {
    let mut h = History::from_snapshots(vec![snap(1), snap(2)]);
    assert_eq!(h.split_for_prune(2).len(), 0);
    assert_eq!(h.snapshots.len(), 2);
}

#[test]
fn store_put_is_idempotent() {
    let mut s = ObjectStore::new();
    let d1 = s.put(b"hello".to_vec());
    let d2 = s.put(b"hello".to_vec());
    assert_eq!(d1, d2);
    assert_eq!(d1, hash_content(b"hello"));
    assert_eq!(s.objects.len(), 1);
    assert_eq!(s.get(&d1).unwrap(), &b"hello".to_vec());
    assert!(s.remove(&d1));
    assert_eq!(s.get(&d1).unwrap_err(), Error::ObjectNotFound(d1.clone()));
}

#[test]
fn signature_files_are_recognised() {
    assert!(check_file_signature(b"// DEVCAT-OUTPUT-FILE\nreport"));
    assert!(!check_file_signature(b"// DEVCAT"));
    assert!(!check_file_signature(b"plain text"));
}

#[test]
fn manifest_skips_reports_and_serialises_sorted() {
    let files = tree(&[("b.txt", "2"), ("a.txt", "1"), ("out.txt", "// DEVCAT-OUTPUT-FILE\nx")]);
    let m = build_manifest(&files);
    assert_eq!(m.entries.len(), 2);
    let bytes = m.to_bytes();
    let expected = format!("{{\"a.txt\":\"{}\",\"b.txt\":\"{}\"}}", hash_content(b"1"), hash_content(b"2"));
    assert_eq!(String::from_utf8(bytes.clone()).unwrap(), expected);
    let back = Manifest::from_bytes(&bytes).unwrap();
    assert_eq!(back.entries[0].0, "a.txt");
    assert!(Manifest::from_bytes(b"not json").is_none());
}

#[test]
fn save_twice_is_idempotent() {
    let mut repo = Repo::new();
    let files = tree(&[("a.txt", "1")]);
    assert_eq!(save_msg(&mut repo, &files, "one", 1), SaveStatus::Saved { id: 1, message: "one".to_string() });
    let objects = repo.store.objects.len();
    assert_eq!(save_msg(&mut repo, &files, "two", 2), SaveStatus::NoChanges);
    assert_eq!(repo.history.snapshots.len(), 1);
    assert_eq!(repo.store.objects.len(), objects);
}

#[test]
fn identical_files_share_one_object() {
    let mut repo = Repo::new();
    let files = tree(&[("a.txt", "same"), ("b.txt", "same")]);
    save_msg(&mut repo, &files, "dup", 1);
    // one blob for both files, plus the manifest
    assert_eq!(repo.store.objects.len(), 2);
}

#[test]
fn scenario_save_diff_revert_prune() {
    let mut repo = Repo::new();
    let first = tree(&[("a.txt", "1"), ("b.txt", "2")]);
    assert_eq!(save_msg(&mut repo, &first, "first", 1), SaveStatus::Saved { id: 1, message: "first".to_string() });
    assert_eq!(repo.store.objects.len(), 3);
    let second = tree(&[("a.txt", "1x"), ("b.txt", "2")]);
    assert_eq!(save_msg(&mut repo, &second, "second", 2), SaveStatus::Saved { id: 2, message: "second".to_string() });
    // only the new content of a.txt and the new manifest were stored
    assert_eq!(repo.store.objects.len(), 5);

    let args = DiffArgs { id1: Some(1), id2: Some(2), exclude: vec![] };
    let text = diff::run(&repo, &args, &second).unwrap().unwrap();
    assert_eq!(text, "--- a/a.txt\n+++ b/a.txt\n-1\n+1x\n");

    let plan = revert::run(&repo, RevertArgs { id: 1 }, &second).unwrap();
    assert_eq!(plan.writes, tree(&[("a.txt", "1"), ("b.txt", "2")]));
    assert!(plan.removals.is_empty());

    assert_eq!(prune::run(&mut repo, PruneArgs { keep: 1 }), 1);
    assert_eq!(repo.history.snapshots.len(), 1);
    assert_eq!(repo.history.snapshots[0].id, 2);
    assert!(!repo.store.contains(&hash_content(b"1")));
    assert!(repo.store.contains(&hash_content(b"1x")));
    assert!(repo.store.contains(&hash_content(b"2")));
    assert_eq!(repo.store.objects.len(), 3);
    let plan2 = revert::run(&repo, RevertArgs { id: 2 }, &first).unwrap();
    assert_eq!(plan2.writes, second);
}

#[test]
fn diff_of_snapshot_with_itself_is_empty() {
    let mut repo = Repo::new();
    save_msg(&mut repo, &tree(&[("a.txt", "1")]), "s", 1);
    let args = DiffArgs { id1: Some(1), id2: Some(1), exclude: vec![] };
    assert_eq!(diff::run(&repo, &args, &vec![]).unwrap(), None);
}

#[test]
fn diff_against_working_tree() {
    let mut repo = Repo::new();
    save_msg(&mut repo, &tree(&[("a.txt", "old\n")]), "s", 1);
    let now = tree(&[("a.txt", "old\n"), ("n.txt", "new\n")]);
    let args = DiffArgs { id1: None, id2: None, exclude: vec![] };
    let text = diff::run(&repo, &args, &now).unwrap().unwrap();
    assert_eq!(text, "--- a/n.txt\n+++ b/n.txt\n+new\n");
    let same = tree(&[("a.txt", "old\n")]);
    assert_eq!(diff::run(&repo, &args, &same).unwrap(), None);
}

#[test]
fn diff_argument_errors() {
    let repo = Repo::new();
    let only_second = DiffArgs { id1: None, id2: Some(1), exclude: vec![] };
    assert_eq!(diff::run(&repo, &only_second, &vec![]).unwrap_err(), Error::Usage);
    let neither = DiffArgs { id1: None, id2: None, exclude: vec![] };
    assert_eq!(diff::run(&repo, &neither, &vec![]).unwrap_err(), Error::NoSnapshots);
    let missing = DiffArgs { id1: Some(7), id2: None, exclude: vec![] };
    assert_eq!(diff::run(&repo, &missing, &vec![]).unwrap_err(), Error::SnapshotIdNotFound(7));
}

#[test]
fn diff_of_binary_content_is_refused() {
    let mut repo = Repo::new();
    let bin = vec![("a.bin".to_string(), vec![0xff, 0xfe])];
    save_msg(&mut repo, &bin, "s", 1);
    let next = vec![("a.bin".to_string(), vec![0xff])];
    let args = DiffArgs { id1: Some(1), id2: None, exclude: vec![] };
    assert_eq!(diff::run(&repo, &args, &next).unwrap_err(), Error::NotText(hash_content(&[0xff, 0xfe])));
}

#[test]
fn unified_diff_block() {
    let out = generate_diff(&"f.txt".to_string(), "a\nb\n", "a\nc\n");
    assert_eq!(out, "--- a/f.txt\n+++ b/f.txt\n a\n-b\n+c\n");
}

#[test]
fn revert_removes_files_not_in_snapshot() {
    let mut repo = Repo::new();
    save_msg(&mut repo, &tree(&[("a.txt", "1")]), "s", 1);
    let plan = revert::run(&repo, RevertArgs { id: 1 }, &tree(&[("a.txt", "9"), ("extra.txt", "e")])).unwrap();
    assert_eq!(plan.writes, tree(&[("a.txt", "1")]));
    assert_eq!(plan.removals, vec!["extra.txt".to_string()]);
    assert_eq!(revert::run(&repo, RevertArgs { id: 5 }, &vec![]).unwrap_err(), Error::SnapshotIdNotFound(5));
}

#[test]
fn revert_then_rebuild_gives_same_manifest_digest() {
    let mut repo = Repo::new();
    save_msg(&mut repo, &tree(&[("b.txt", "2"), ("a.txt", "1")]), "s", 1);
    let plan = revert::run(&repo, RevertArgs { id: 1 }, &vec![]).unwrap();
    let rebuilt = build_manifest(&plan.writes);
    assert_eq!(hash_content(&rebuilt.to_bytes()), repo.history.snapshots[0].manifest_hash);
}

#[test]
fn prune_keeps_shared_objects() {
    let mut repo = Repo::new();
    save_msg(&mut repo, &tree(&[("a.txt", "1")]), "s1", 1);
    save_msg(&mut repo, &tree(&[("a.txt", "1"), ("b.txt", "2")]), "s2", 2);
    save_msg(&mut repo, &tree(&[("b.txt", "2")]), "s3", 3);
    assert_eq!(prune::run(&mut repo, PruneArgs { keep: 2 }), 1);
    assert!(repo.store.contains(&hash_content(b"1")));
    assert_eq!(prune::run(&mut repo, PruneArgs { keep: 5 }), 0);
    assert_eq!(prune::run(&mut repo, PruneArgs { keep: 1 }), 1);
    assert!(!repo.store.contains(&hash_content(b"1")));
    assert!(repo.store.contains(&hash_content(b"2")));
    save_msg(&mut repo, &tree(&[("c.txt", "3")]), "s4", 4);
    assert_eq!(repo.history.snapshots[1].id, 4);
}

#[test]
fn inspect_lists_files() {
    let mut repo = Repo::new();
    save_msg(&mut repo, &tree(&[("b.txt", "2"), ("a.txt", "1")]), "first", 1);
    let text = inspect::run(&repo, InspectArgs { id: 1 }).unwrap();
    assert_eq!(text, "Files in snapshot 1 (first):\n- a.txt\n- b.txt\n");
    assert_eq!(inspect::run(&repo, InspectArgs { id: 12 }).unwrap_err(), Error::SnapshotIdNotFound(12));
}

#[test]
fn log_table() {
    let mut h = History::new();
    assert_eq!(log_cmd::run(&h, LogArgs {}), "No snapshots found. Run `devcat save <message>` to create one.\n");
    h.add_snapshot("first".to_string(), String::new(), at(0));
    h.add_snapshot("x".repeat(60), String::new(), at(86_400 + 3_661));
    let expected = format!(
        "ID  TIMESTAMP              MESSAGE\n{} {} {}\n2   1970-01-02 01:01:01    {}\n1   1970-01-01 00:00:00    first\n",
        "-".repeat(3),
        "-".repeat(22),
        "-".repeat(50),
        "x".repeat(50)
    );
    assert_eq!(log_cmd::run(&h, LogArgs {}), expected);
}

#[test]
fn watch_debounce_steps() {
    assert_eq!(step(WatchState::Idle, false, 100), (WatchState::Idle, false));
    assert_eq!(step(WatchState::Idle, true, 100), (WatchState::Pending { last_change: 100 }, false));
    assert_eq!(step(WatchState::Pending { last_change: 100 }, false, 1000), (WatchState::Pending { last_change: 100 }, false));
    assert_eq!(step(WatchState::Pending { last_change: 100 }, true, 1500), (WatchState::Pending { last_change: 1500 }, false));
    assert_eq!(step(WatchState::Pending { last_change: 1500 }, false, 3500), (WatchState::Idle, true));
}

#[test]
fn watch_event_filter() {
    assert!(should_trigger(ChangeKind::Modify, "./src/a.rs"));
    assert!(!should_trigger(ChangeKind::Other, "./src/a.rs"));
    assert!(!should_trigger(ChangeKind::Create, "./.devcat/objects/ab"));
    assert!(is_metadata_path("./.devcat"));
    assert!(!is_metadata_path("./.devcatrc"));
    assert_eq!(auto_message("2024-01-01 10:00:00"), "Auto-snapshot @ 2024-01-01 10:00:00");
}

#[test]
fn exclusion_patterns() {
    let set = ExcludeSet::new(&vec!["*.log".to_string(), "target".to_string()]).unwrap();
    assert!(set.is_excluded("./logs/run.log"));
    assert!(set.is_excluded("./target"));
    assert!(set.is_excluded("./.devcat/history.log"));
    assert!(!set.is_excluded("./src/main.rs"));
    match ExcludeSet::new(&vec!["a[".to_string()]) {
        Err(e) => assert_eq!(e, Error::InvalidGlob("a[".to_string())),
        Ok(_) => panic!("pattern should not compile"),
    }
}

#[test]
fn excludes_merge_in_order() {
    let c = Config { exclude: vec!["b".to_string()] };
    assert_eq!(merge_excludes(vec!["a".to_string()], &c), vec!["a".to_string(), "b".to_string()]);
    assert!(Config::empty().exclude.is_empty());
}

#[test]
fn file_sections() {
    let mut out = String::new();
    devcat::format::append_file_content("src/a.rs", Some("fn a() {}"), &mut out);
    assert_eq!(out, "--- START FILE: src/a.rs ---\nfn a() {}\n--- END FILE: src/a.rs ---\n\n");
    let mut bin = String::new();
    devcat::format::append_file_content("x.bin", None, &mut bin);
    assert_eq!(bin, "--- START FILE: x.bin ---\n[Skipped binary file]\n--- END FILE: x.bin ---\n\n");
}

#[test]
fn repo_open_checks_manifests() {
    let mut repo = Repo::new();
    save_msg(&mut repo, &tree(&[("a.txt", "1")]), "s", 1);
    let mh = repo.history.snapshots[0].manifest_hash.clone();
    let history = History::from_snapshots(vec![Snapshot { id: 1, timestamp: at(1), message: "s".to_string(), manifest_hash: mh.clone() }]);
    assert!(Repo::open(repo.store, history).is_ok());
    let lost = History::from_snapshots(vec![Snapshot { id: 1, timestamp: at(1), message: "s".to_string(), manifest_hash: mh.clone() }]);
    match Repo::open(ObjectStore::new(), lost) {
        Err(e) => assert_eq!(e, Error::ObjectNotFound(mh)),
        Ok(_) => panic!("a missing manifest must be reported"),
    }
    let mut junk = ObjectStore::new();
    let d = junk.put(b"not a manifest".to_vec());
    let bad = History::from_snapshots(vec![Snapshot { id: 1, timestamp: at(1), message: "s".to_string(), manifest_hash: d.clone() }]);
    match Repo::open(junk, bad) {
        Err(e) => assert_eq!(e, Error::MalformedManifest(d)),
        Ok(_) => panic!("a malformed manifest must be reported"),
    }
}

#[test]
fn diff_blocks_follow_path_order() {
    let mut repo = Repo::new();
    save_msg(&mut repo, &tree(&[("b.txt", "1\n")]), "s1", 1);
    save_msg(&mut repo, &tree(&[("b.txt", "2\n"), ("a.txt", "new\n")]), "s2", 2);
    let args = DiffArgs { id1: Some(1), id2: Some(2), exclude: vec![] };
    let text = diff::run(&repo, &args, &vec![]).unwrap().unwrap();
    assert_eq!(text, "--- a/a.txt\n+++ b/a.txt\n+new\n--- a/b.txt\n+++ b/b.txt\n-1\n+2\n");
}

#[test]
fn digests_are_lowercase_hex() {
    let d = hash_content(b"any bytes");
    assert_eq!(d.len(), 64);
    assert!(d.chars().all(|c| c.is_ascii_digit() || ('a'..='f').contains(&c)));
}

#[test]
fn metadata_directory_never_enters_a_manifest() {
    let files = tree(&[(".devcat/history.log", "x"), (".devcat", "y"), (".devcatrc", "exclude = []"), ("a.txt", "1")]);
    let m = build_manifest(&files);
    let paths: Vec<&str> = m.entries.iter().map(|e| e.0.as_str()).collect();
    assert_eq!(paths, vec![".devcatrc", "a.txt"]);
}

