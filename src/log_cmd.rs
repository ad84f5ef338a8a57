use vstd::prelude::*;
use chrono::{DateTime, Utc};
use crate::format::{decimal, padded, push_decimal, push_padded};
use crate::history::{History, Snapshot};
use crate::text::{push_text, string_of};

verus! {

/// What `log` is asked to do; it takes no options of its own.
pub struct LogArgs {}

pub const EMPTY_LOG: &'static str = "No snapshots found. Run `devcat save <message>` to create one.\n";
pub const LOG_HEADER: &'static str = "ID  TIMESTAMP              MESSAGE\n";
pub const LOG_RULE: &'static str = "--- ---------------------- --------------------------------------------------\n";
pub const SPACE: &'static str = " ";
pub const NEWLINE: &'static str = "\n";

/// `YYYY-MM-DD HH:MM:SS` for a UTC instant, or `None` where the instant is
/// outside the calendar's range.
pub uninterp spec fn utc_text(secs: i64, nanos: u32) -> Option<Seq<char>>;

/// Relies on chrono's `DateTime::<Utc>::from_timestamp` and `format`: the
/// text depends on the instant alone.
#[verifier::external_body]
fn format_utc(secs: i64, nanos: u32) -> (r: Option<String>)
    ensures
        r is Some <==> utc_text(secs, nanos) is Some,
        r matches Some(s) ==> utc_text(secs, nanos) == Some(s@),
{
    DateTime::<Utc>::from_timestamp(secs, nanos).map(|t| t.format("%Y-%m-%d %H:%M:%S").to_string())
}

/// The first 50 characters of a message.
pub open spec fn short(m: Seq<char>) -> Seq<char> {
    if m.len() <= 50 { m } else { m.subrange(0, 50) }
}

/// The timestamp column of a snapshot (empty for an instant out of range).
pub open spec fn time_column(s: Snapshot) -> Seq<char> {
    match utc_text(s.timestamp.secs, s.timestamp.nanos) {
        Some(t) => t,
        None => Seq::empty(),
    }
}

/// One row of the log.
pub open spec fn log_row(s: Snapshot) -> Seq<char> {
    padded(decimal(s.id as nat), 3) + SPACE@ + padded(time_column(s), 22) + SPACE@ + short(s.message@) + NEWLINE@
}

/// The rows of `s`, newest first.
pub open spec fn log_rows(s: Seq<Snapshot>) -> Seq<char>
    decreases s.len(),
{
    if s.len() == 0 {
        Seq::empty()
    } else {
        log_row(s.last()) + log_rows(s.drop_last())
    }
}

/// The whole log of a history.
pub open spec fn log_text(s: Seq<Snapshot>) -> Seq<char> {
    if s.len() == 0 {
        EMPTY_LOG@
    } else {
        LOG_HEADER@ + LOG_RULE@ + log_rows(s)
    }
}

/// The history as a table, newest snapshot first.
pub fn run(history: &History, args: LogArgs) -> (r: String)
    ensures
        r@ == log_text(history.snapshots@),
{
    let snaps = &history.snapshots;
    if snaps.len() == 0 {
        return string_of(EMPTY_LOG);
    }
    let mut out = string_of(LOG_HEADER);
    push_text(&mut out, LOG_RULE);
    let ghost head = out@;
    let mut k: usize = snaps.len();
    while k > 0
        invariant
            k <= snaps@.len(),
            out@ == head + log_rows_between(snaps@, k as int),
        decreases k,
    {
        k = k - 1;
        let s = &snaps[k];
        let mut idt = string_of("");
        proof { reveal_strlit(""); }
        push_decimal(&mut idt, s.id);
        push_padded(&mut out, idt.as_str(), 3);
        push_text(&mut out, SPACE);
        let ts = match format_utc(s.timestamp.secs, s.timestamp.nanos) {
            Some(t) => t,
            None => {
                proof { reveal_strlit(""); }
                string_of("")
            },
        };
        push_padded(&mut out, ts.as_str(), 22);
        push_text(&mut out, SPACE);
        let n = s.message.as_str().unicode_len();
        let cut = if n <= 50 { n } else { 50 };
        push_text(&mut out, s.message.as_str().substring_char(0, cut));
        push_text(&mut out, NEWLINE);
        proof {
            assert(s.message@.subrange(0, cut as int) == short(s.message@));
            lemma_rows_between_step(snaps@, k as int);
        }
    }
    proof {
        lemma_rows_between_all(snaps@);
    }
    out
}

/// The rows of the snapshots from position `k` on, newest first.
pub open spec fn log_rows_between(s: Seq<Snapshot>, k: int) -> Seq<char>
    decreases s.len() - k,
{
    if k >= s.len() || k < 0 {
        Seq::empty()
    } else {
        log_rows_between(s, k + 1) + log_row(s[k])
    }
}

proof fn lemma_rows_between_step(s: Seq<Snapshot>, k: int)
    requires
        0 <= k < s.len(),
    ensures
        log_rows_between(s, k) == log_rows_between(s, k + 1) + log_row(s[k]),
{
}

proof fn lemma_rows_between_all(s: Seq<Snapshot>)
    ensures
        log_rows_between(s, 0) == log_rows(s),
    decreases s.len(),
{
    if s.len() > 0 {
        lemma_rows_between_all(s.drop_last());
        lemma_rows_between_prefix(s, 0);
    }
}

proof fn lemma_rows_between_prefix(s: Seq<Snapshot>, k: int)
    requires
        s.len() > 0,
        0 <= k <= s.len() - 1,
    ensures
        log_rows_between(s, k) == log_row(s.last()) + log_rows_between(s.drop_last(), k),
    decreases s.len() - k,
{
    if k < s.len() - 1 {
        lemma_rows_between_prefix(s, k + 1);
        assert(s.drop_last()[k] == s[k]);
        assert(log_rows_between(s, k) == log_rows_between(s, k + 1) + log_row(s[k]));
        assert(log_rows_between(s.drop_last(), k) == log_rows_between(s.drop_last(), k + 1) + log_row(s[k]));
        assert(log_rows_between(s, k) =~= log_row(s.last()) + log_rows_between(s.drop_last(), k));
    } else {
        assert(log_rows_between(s.drop_last(), k) == Seq::<char>::empty());
        assert(log_rows_between(s, k + 1) == Seq::<char>::empty());
        assert(log_rows_between(s, k) =~= log_row(s.last()) + log_rows_between(s.drop_last(), k));
    }
}

} // verus!
