use vstd::prelude::*;
use crate::error::Error;
use crate::hashing::{hash_content, sha256_hex};

verus! {

/// The map that a list of (key, value) pairs describes, later pairs winning.
pub open spec fn pairs_map<K, V>(s: Seq<(K, V)>) -> Map<K, V>
    decreases s.len(),
{
    if s.len() == 0 {
        Map::empty()
    } else {
        pairs_map(s.drop_last()).insert(s.last().0, s.last().1)
    }
}

/// No key occurs twice in the list.
pub open spec fn unique_keys<K, V>(s: Seq<(K, V)>) -> bool {
    forall|i: int, j: int| 0 <= i < j < s.len() ==> s[i].0 != s[j].0
}

/// The map of a list has finitely many keys.
pub proof fn lemma_pairs_map_finite<K, V>(s: Seq<(K, V)>)
    ensures
        pairs_map(s).dom().finite(),
    decreases s.len(),
{
    if s.len() > 0 {
        lemma_pairs_map_finite(s.drop_last());
    }
}

/// In a list without repeated keys, each pair is what the map holds.
pub proof fn lemma_pairs_map_lookup<K, V>(s: Seq<(K, V)>, i: int)
    requires
        unique_keys(s),
        0 <= i < s.len(),
    ensures
        pairs_map(s).contains_key(s[i].0),
        pairs_map(s)[s[i].0] == s[i].1,
    decreases s.len(),
{
    if i < s.len() - 1 {
        lemma_pairs_map_lookup(s.drop_last(), i);
        assert(s.drop_last()[i] == s[i]);
    }
}

/// A key that no pair carries is not in the map.
pub proof fn lemma_pairs_map_absent<K, V>(s: Seq<(K, V)>, k: K)
    requires
        forall|i: int| 0 <= i < s.len() ==> s[i].0 != k,
    ensures
        !pairs_map(s).contains_key(k),
    decreases s.len(),
{
    if s.len() > 0 {
        lemma_pairs_map_absent(s.drop_last(), k);
    }
}

/// The keys of `pairs_map(s)` are exactly the keys that occur in `s`.
pub proof fn lemma_pairs_map_domain<K, V>(s: Seq<(K, V)>, k: K)
    ensures
        pairs_map(s).contains_key(k) <==> exists|i: int| 0 <= i < s.len() && s[i].0 == k,
    decreases s.len(),
{
    if s.len() > 0 {
        lemma_pairs_map_domain(s.drop_last(), k);
        if pairs_map(s.drop_last()).contains_key(k) {
            let i = choose|i: int| 0 <= i < s.drop_last().len() && s.drop_last()[i].0 == k;
            assert(s[i].0 == k);
        }
        if exists|i: int| 0 <= i < s.len() && s[i].0 == k {
            let i = choose|i: int| 0 <= i < s.len() && s[i].0 == k;
            if i < s.len() - 1 {
                assert(s.drop_last()[i].0 == k);
            }
        }
    }
}

/// Removing the pair of a key from a list without repeated keys removes the key from its map.
pub proof fn lemma_pairs_map_remove<K, V>(s: Seq<(K, V)>, i: int)
    requires
        unique_keys(s),
        0 <= i < s.len(),
    ensures
        unique_keys(s.remove(i)),
        pairs_map(s.remove(i)) == pairs_map(s).remove(s[i].0),
{
    let t = s.remove(i);
    let k = s[i].0;
    assert forall|a: int, b: int| 0 <= a < b < t.len() implies t[a].0 != t[b].0 by {
        let a2 = if a < i { a } else { a + 1 };
        let b2 = if b < i { b } else { b + 1 };
        assert(t[a] == s[a2] && t[b] == s[b2]);
    }
    assert forall|j: int| 0 <= j < t.len() implies t[j].0 != k by {
        let j2 = if j < i { j } else { j + 1 };
        assert(t[j] == s[j2]);
    }
    lemma_pairs_map_absent(t, k);
    assert forall|k2: K| #[trigger] pairs_map(t).contains_key(k2) == pairs_map(s).remove(k).contains_key(k2)
        && (pairs_map(t).contains_key(k2) ==> pairs_map(t)[k2] == pairs_map(s).remove(k)[k2]) by {
        if k2 != k {
            lemma_pairs_map_domain(t, k2);
            lemma_pairs_map_domain(s, k2);
            if pairs_map(s).contains_key(k2) {
                let j = choose|j: int| 0 <= j < s.len() && s[j].0 == k2;
                assert(j != i);
                let j2 = if j < i { j } else { j - 1 };
                assert(t[j2] == s[j]);
                lemma_pairs_map_lookup(t, j2);
                lemma_pairs_map_lookup(s, j);
            }
            if pairs_map(t).contains_key(k2) {
                let j = choose|j: int| 0 <= j < t.len() && t[j].0 == k2;
                let j2 = if j < i { j } else { j + 1 };
                assert(t[j] == s[j2]);
            }
        }
    }
    assert(pairs_map(t) =~= pairs_map(s).remove(k));
}

/// Every object sits under the digest of its own bytes.
pub open spec fn content_addressed(m: Map<Seq<char>, Seq<u8>>) -> bool {
    forall|k: Seq<char>| #[trigger] m.contains_key(k) ==> k == sha256_hex(m[k])
}

/// A content-addressed store of byte payloads.
pub struct ObjectStore {
    pub objects: Vec<(String, Vec<u8>)>,
}

impl ObjectStore {
    /// The stored pairs as plain values.
    pub open spec fn pairs(&self) -> Seq<(Seq<char>, Seq<u8>)> {
        self.objects@.map_values(|e: (String, Vec<u8>)| (e.0@, e.1@))
    }

    /// The objects, by digest.
    pub open spec fn view(&self) -> Map<Seq<char>, Seq<u8>> {
        pairs_map(self.pairs())
    }

    pub open spec fn wf(&self) -> bool {
        unique_keys(self.pairs()) && content_addressed(self@)
    }

    /// An empty store.
    pub fn new() -> (r: ObjectStore)
        ensures
            r.wf(),
            r@ == Map::<Seq<char>, Seq<u8>>::empty(),
    {
        let r = ObjectStore { objects: Vec::new() };
        assert(r.pairs().len() == 0);
        r
    }

    /// The position of the object under `digest`.
    fn position_of(&self, digest: &String) -> (r: Option<usize>)
        requires
            self.wf(),
        ensures
            r is None <==> !self@.contains_key(digest@),
            r matches Some(i) ==> i < self.objects@.len() && self.objects@[i as int].0@ == digest@
                && self@[digest@] == self.objects@[i as int].1@,
    {
        let mut i: usize = 0;
        while i < self.objects.len()
            invariant
                self.wf(),
                i <= self.objects@.len(),
                forall|j: int| 0 <= j < i ==> self.pairs()[j].0 != digest@,
            decreases self.objects@.len() - i,
        {
            if self.objects[i].0 == *digest {
                proof {
                    assert(self.pairs()[i as int].0 == digest@);
                    lemma_pairs_map_lookup(self.pairs(), i as int);
                }
                return Some(i);
            }
            i = i + 1;
        }
        proof {
            lemma_pairs_map_absent(self.pairs(), digest@);
        }
        None
    }

    /// Whether an object is stored under `digest`.
    pub fn contains(&self, digest: &String) -> (r: bool)
        requires
            self.wf(),
        ensures
            r == self@.contains_key(digest@),
    {
        self.position_of(digest).is_some()
    }

    /// The bytes stored under `digest`.
    pub fn get(&self, digest: &String) -> (r: Result<&Vec<u8>, Error>)
        requires
            self.wf(),
        ensures
            r is Ok <==> self@.contains_key(digest@),
            r matches Ok(b) ==> b@ == self@[digest@],
            r matches Err(e) ==> e == Error::ObjectNotFound(*digest),
    {
        match self.position_of(digest) {
            Some(i) => Ok(&self.objects[i].1),
            None => Err(Error::ObjectNotFound(digest.clone())),
        }
    }

    /// Stores `bytes` under their digest and returns the digest; when an object
    /// is already stored under it, nothing is written.
    pub fn put(&mut self, bytes: Vec<u8>) -> (r: String)
        requires
            old(self).wf(),
        ensures
            final(self).wf(),
            r@ == sha256_hex(bytes@),
            old(self)@.contains_key(r@) ==> final(self)@ == old(self)@,
            !old(self)@.contains_key(r@) ==> final(self)@ == old(self)@.insert(r@, bytes@),
    {
        let digest = hash_content(bytes.as_slice());
        if !self.contains(&digest) {
            let ghost old_pairs = self.pairs();
            let ghost b = bytes@;
            self.objects.push((digest.clone(), bytes));
            proof {
                assert(self.pairs() == old_pairs.push((digest@, b)));
                assert(self.pairs().drop_last() == old_pairs);
                assert forall|j: int| 0 <= j < old_pairs.len() implies old_pairs[j].0 != digest@ by {
                    lemma_pairs_map_domain(old_pairs, digest@);
                }
                assert(self@ == pairs_map(old_pairs).insert(digest@, b));
            }
        }
        digest
    }

    /// Deletes the object under `digest`, if there is one; reports whether there was.
    pub fn remove(&mut self, digest: &String) -> (r: bool)
        requires
            old(self).wf(),
        ensures
            final(self).wf(),
            r == old(self)@.contains_key(digest@),
            final(self)@ == old(self)@.remove(digest@),
    {
        match self.position_of(digest) {
            Some(i) => {
                let ghost old_pairs = self.pairs();
                let ghost old_map = self@;
                self.objects.remove(i);
                proof {
                    assert(self.pairs() == old_pairs.remove(i as int));
                    lemma_pairs_map_remove(old_pairs, i as int);
                }
                true
            },
            None => {
                assert(self@ == self@.remove(digest@));
                false
            },
        }
    }
}

} // verus!
