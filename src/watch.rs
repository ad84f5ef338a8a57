use vstd::prelude::*;
use crate::manifest::HISTORY_DIR;
use crate::text::{push_text, string_of};

verus! {

/// What `watch` is asked to do; it takes no options of its own.
pub struct WatchArgs {}

/// The kind of a file-system notification.
#[derive(Debug, Clone, Copy, PartialEq, Eq)]
pub enum ChangeKind {
    Create,
    Modify,
    Remove,
    Other,
}

/// The state of the auto-save loop: idle, or waiting for a quiet period that
/// started at the last change (milliseconds on a monotonic clock).
#[derive(Debug, Clone, Copy, PartialEq, Eq)]
pub enum WatchState {
    Idle,
    Pending { last_change: u64 },
}

/// How long the tree must stay quiet before an auto-save, in milliseconds.
pub const DEBOUNCE_MS: u64 = 2000;

/// The path lies in the metadata directory `./.devcat` (component-wise).
pub open spec fn in_metadata_dir(path: Seq<char>) -> bool {
    let d = seq!['.', '/'] + HISTORY_DIR@;
    path.len() >= d.len() && path.subrange(0, d.len() as int) == d && (path.len() == d.len() || path[d.len() as int]
        == '/')
}

/// Whether `path` lies in the metadata directory `./.devcat`.
pub fn is_metadata_path(path: &str) -> (r: bool)
    ensures
        r == in_metadata_dir(path@),
{
    let mut d = string_of("./");
    proof { reveal_strlit("./"); }
    push_text(&mut d, HISTORY_DIR);
    let n = d.as_str().unicode_len();
    let len = path.unicode_len();
    if len < n {
        return false;
    }
    let mut i: usize = 0;
    while i < n
        invariant
            n == d@.len(),
            d@ == seq!['.', '/'] + HISTORY_DIR@,
            len == path@.len(),
            n <= len,
            i <= n,
            forall|j: int| 0 <= j < i ==> path@[j] == d@[j],
        decreases n - i,
    {
        if path.get_char(i) != d.as_str().get_char(i) {
            assert(path@.subrange(0, n as int)[i as int] != d@[i as int]);
            return false;
        }
        i = i + 1;
    }
    assert(path@.subrange(0, n as int) =~= d@);
    len == n || path.get_char(n) == '/'
}

/// A notification starts the quiet period when it creates, modifies or removes
/// something outside the metadata directory.
pub fn should_trigger(kind: ChangeKind, first_path: &str) -> (r: bool)
    ensures
        r == (kind != ChangeKind::Other && !in_metadata_dir(first_path@)),
{
    match kind {
        ChangeKind::Other => false,
        _ => !is_metadata_path(first_path),
    }
}

/// One turn of the auto-save loop at time `now`: a change (re)starts the
/// quiet period; once it has lasted `DEBOUNCE_MS` without a change, the loop
/// saves and goes idle. Returns the next state and whether to save now.
pub fn step(state: WatchState, changed: bool, now: u64) -> (r: (WatchState, bool))
    ensures
        ({
            let last = if changed { Some(now) } else {
                match state {
                    WatchState::Idle => None,
                    WatchState::Pending { last_change } => Some(last_change),
                }
            };
            match last {
                None => r == (WatchState::Idle, false),
                Some(t) => if now >= t && now - t >= DEBOUNCE_MS {
                    r == (WatchState::Idle, true)
                } else {
                    r == (WatchState::Pending { last_change: t }, false)
                },
            }
        }),
{
    let last = if changed {
        Some(now)
    } else {
        match state {
            WatchState::Idle => None,
            WatchState::Pending { last_change } => Some(last_change),
        }
    };
    match last {
        None => (WatchState::Idle, false),
        Some(t) => {
            if now >= t && now - t >= DEBOUNCE_MS {
                (WatchState::Idle, true)
            } else {
                (WatchState::Pending { last_change: t }, false)
            }
        },
    }
}

pub const AUTO_PREFIX: &'static str = "Auto-snapshot @ ";

/// The message of an auto-save made at the local time `stamp`.
pub fn auto_message(stamp: &str) -> (r: String)
    ensures
        r@ == AUTO_PREFIX@ + stamp@,
{
    let mut m = string_of(AUTO_PREFIX);
    push_text(&mut m, stamp);
    m
}

} // verus!
