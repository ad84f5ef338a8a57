use vstd::prelude::*;
use vstd::multiset::Multiset;
use vstd::seq_lib::to_multiset_insert;
use crate::error::Error;

verus! {

/// A point in time, as seconds and nanoseconds since the Unix epoch (UTC).
#[derive(Debug, Clone, Copy, PartialEq, Eq)]
pub struct Timestamp {
    pub secs: i64,
    pub nanos: u32,
}

/// One saved state of the tree: a numbered, dated pointer to a manifest object.
#[derive(Debug)]
pub struct Snapshot {
    pub id: u32,
    pub timestamp: Timestamp,
    pub message: String,
    pub manifest_hash: String,
}

/// Ids never decrease along the sequence.
pub open spec fn sorted_by_id(s: Seq<Snapshot>) -> bool {
    forall|i: int, j: int| 0 <= i <= j < s.len() ==> s[i].id <= s[j].id
}

/// Ids strictly increase along the sequence (so each id appears once).
pub open spec fn strictly_increasing(s: Seq<Snapshot>) -> bool {
    forall|i: int, j: int| 0 <= i < j < s.len() ==> s[i].id < s[j].id
}

/// The id the next appended snapshot receives: one past the last id, or 1.
pub open spec fn next_id_of(s: Seq<Snapshot>) -> int {
    if s.len() == 0 { 1 } else { s.last().id + 1 }
}

/// The snapshots in id order, oldest first.
pub struct History {
    pub snapshots: Vec<Snapshot>,
}

impl History {
    pub open spec fn wf(&self) -> bool {
        sorted_by_id(self.snapshots@)
    }

    /// An empty history.
    pub fn new() -> (r: History)
        ensures
            r.snapshots@.len() == 0,
            r.wf(),
    {
        History { snapshots: Vec::new() }
    }

    /// Builds a history from records in any order, sorting them by id.
    pub fn from_snapshots(records: Vec<Snapshot>) -> (r: History)
        ensures
            r.wf(),
            r.snapshots@.to_multiset() == records@.to_multiset(),
    {
        broadcast use vstd::seq_lib::group_to_multiset_ensures, vstd::multiset::group_multiset_axioms;
        let mut rest = records;
        let mut sorted: Vec<Snapshot> = Vec::new();
        proof {
            assert(sorted@.to_multiset() =~= Multiset::empty());
            assert(sorted@.to_multiset().add(rest@.to_multiset()) =~= records@.to_multiset());
        }
        while rest.len() > 0
            invariant
                sorted_by_id(sorted@),
                sorted@.to_multiset().add(rest@.to_multiset()) == records@.to_multiset(),
            decreases rest.len(),
        {
            let ghost before_rest = rest@;
            let ghost before_sorted = sorted@;
            let x = rest.pop().unwrap();
            proof {
                assert(before_rest == rest@.push(x));
                to_multiset_insert(rest@, rest@.len() as int, x);
                assert(rest@.insert(rest@.len() as int, x) == before_rest);
            }
            let mut pos: usize = 0;
            while pos < sorted.len() && sorted[pos].id < x.id
                invariant
                    0 <= pos <= sorted@.len(),
                    forall|k: int| 0 <= k < pos ==> sorted@[k].id < x.id,
                decreases sorted@.len() - pos,
            {
                pos = pos + 1;
            }
            sorted.insert(pos, x);
            proof {
                to_multiset_insert(before_sorted, pos as int, x);
                assert(sorted@.to_multiset().add(rest@.to_multiset()) =~= records@.to_multiset());
                assert(sorted@ == before_sorted.insert(pos as int, x));
                assert forall|i: int, j: int| 0 <= i <= j < sorted@.len() implies
                    sorted@[i].id <= sorted@[j].id by {
                    if i < pos as int && j > pos as int {
                        assert(sorted@[i] == before_sorted[i]);
                        assert(sorted@[j] == before_sorted[j - 1]);
                    }
                }
            }
        }
        proof {
            assert(rest@.len() == 0);
            assert(rest@.to_multiset() =~= Multiset::empty());
            assert(sorted@.to_multiset().add(Multiset::empty()) =~= sorted@.to_multiset());
        }
        History { snapshots: sorted }
    }

    /// The id that `add_snapshot` assigns next.
    pub fn next_id(&self) -> (r: u32)
        requires
            self.wf(),
            next_id_of(self.snapshots@) <= u32::MAX,
        ensures
            r == next_id_of(self.snapshots@),
    {
        let n = self.snapshots.len();
        if n == 0 {
            1
        } else {
            self.snapshots[n - 1].id + 1
        }
    }

    /// Appends a snapshot numbered one past the current last id (1 when empty).
    pub fn add_snapshot(&mut self, message: String, manifest_hash: String, now: Timestamp)
        requires
            old(self).wf(),
            next_id_of(old(self).snapshots@) <= u32::MAX,
        ensures
            final(self).wf(),
            final(self).snapshots@ == old(self).snapshots@.push(
                Snapshot {
                    id: next_id_of(old(self).snapshots@) as u32,
                    timestamp: now,
                    message,
                    manifest_hash,
                },
            ),
    {
        let id = self.next_id();
        self.snapshots.push(Snapshot { id, timestamp: now, message, manifest_hash });
    }

    /// The position of the first snapshot with this id, if any.
    pub fn position_of(&self, id: u32) -> (r: Option<usize>)
        ensures
            r matches Some(i) ==> i < self.snapshots@.len() && self.snapshots@[i as int].id == id
                && forall|j: int| 0 <= j < i ==> self.snapshots@[j].id != id,
            r is None <==> forall|j: int| 0 <= j < self.snapshots@.len() ==> self.snapshots@[j].id != id,
    {
        let mut i: usize = 0;
        while i < self.snapshots.len()
            invariant
                i <= self.snapshots@.len(),
                forall|j: int| 0 <= j < i ==> self.snapshots@[j].id != id,
            decreases self.snapshots@.len() - i,
        {
            if self.snapshots[i].id == id {
                return Some(i);
            }
            i = i + 1;
        }
        None
    }

    /// The snapshot with this id.
    pub fn get_snapshot(&self, id: u32) -> (r: Result<&Snapshot, Error>)
        ensures
            r matches Ok(s) ==> s.id == id && exists|i: int|
                0 <= i < self.snapshots@.len() && self.snapshots@[i] == *s
                && forall|j: int| 0 <= j < i ==> self.snapshots@[j].id != id,
            r is Err <==> forall|j: int| 0 <= j < self.snapshots@.len() ==> self.snapshots@[j].id != id,
            r matches Err(e) ==> e == Error::SnapshotIdNotFound(id),
    {
        match self.position_of(id) {
            Some(i) => Ok(&self.snapshots[i]),
            None => Err(Error::SnapshotIdNotFound(id)),
        }
    }

    /// The most recent snapshot.
    pub fn get_latest(&self) -> (r: Result<&Snapshot, Error>)
        ensures
            r is Err <==> self.snapshots@.len() == 0,
            r matches Ok(s) ==> *s == self.snapshots@.last(),
            r matches Err(e) ==> e == Error::NoSnapshots,
    {
        let n = self.snapshots.len();
        if n == 0 {
            Err(Error::NoSnapshots)
        } else {
            Ok(&self.snapshots[n - 1])
        }
    }

    /// Keeps the `keep` most recent snapshots and hands back the older ones;
    /// when at most `keep` exist nothing changes and nothing is handed back.
    pub fn split_for_prune(&mut self, keep: usize) -> (deleted: Vec<Snapshot>)
        requires
            old(self).wf(),
        ensures
            final(self).wf(),
            old(self).snapshots@.len() <= keep ==> final(self).snapshots@ == old(self).snapshots@
                && deleted@.len() == 0,
            old(self).snapshots@.len() > keep ==> final(self).snapshots@ == old(self).snapshots@.subrange(
                old(self).snapshots@.len() - keep,
                old(self).snapshots@.len() as int,
            ) && deleted@ == old(self).snapshots@.subrange(0, old(self).snapshots@.len() - keep),
    {
        let n = self.snapshots.len();
        if n <= keep {
            return Vec::new();
        }
        let mut deleted = self.snapshots.split_off(0);
        let kept = deleted.split_off(n - keep);
        self.snapshots = kept;
        deleted
    }
}

/// Ids handed out by `add_snapshot` exceed every id already present, so a
/// history of strictly increasing ids stays strictly increasing.
pub proof fn lemma_added_id_is_fresh(s: Seq<Snapshot>, added: Snapshot)
    requires
        sorted_by_id(s),
        added.id == next_id_of(s),
    ensures
        forall|i: int| 0 <= i < s.len() ==> s[i].id < added.id,
        strictly_increasing(s) ==> strictly_increasing(s.push(added)),
{
    assert forall|i: int| 0 <= i < s.len() implies s[i].id < added.id by {
        assert(s[i].id <= s[s.len() - 1].id);
    }
}

/// Pruning keeps the newest snapshots, so when at least one is kept the next
/// id is the same as before the prune: an id removed by pruning is never
/// handed out again.
pub proof fn lemma_prune_keeps_next_id(s: Seq<Snapshot>, keep: nat)
    requires
        sorted_by_id(s),
        keep >= 1,
    ensures
        s.len() > keep ==> next_id_of(s.subrange(s.len() - keep, s.len() as int)) == next_id_of(s),
        s.len() > keep ==> forall|i: int| 0 <= i < s.len() ==> s[i].id < next_id_of(
            s.subrange(s.len() - keep, s.len() as int),
        ),
{
    if s.len() > keep {
        let k = s.subrange(s.len() - keep, s.len() as int);
        assert(k.last() == s.last());
        assert forall|i: int| 0 <= i < s.len() implies s[i].id < next_id_of(k) by {
            assert(s[i].id <= s[s.len() - 1].id);
        }
    }
}

} // verus!
