use vstd::prelude::*;
use crate::text::texts;

verus! {

/// Lexicographic order on character sequences, by code point.
pub open spec fn path_before(a: Seq<char>, b: Seq<char>) -> bool
    decreases a.len(),
{
    if a.len() == 0 {
        b.len() > 0
    } else if b.len() == 0 {
        false
    } else if a[0] != b[0] {
        a[0] < b[0]
    } else {
        path_before(a.drop_first(), b.drop_first())
    }
}

/// Path order is transitive.
pub proof fn lemma_path_before_transitive(a: Seq<char>, b: Seq<char>, c: Seq<char>)
    requires
        path_before(a, b),
        path_before(b, c),
    ensures
        path_before(a, c),
    decreases a.len(),
{
    if a.len() > 0 && b.len() > 0 && c.len() > 0 {
        if a[0] == b[0] && b[0] == c[0] {
            lemma_path_before_transitive(a.drop_first(), b.drop_first(), c.drop_first());
        }
    }
}

/// Any two different paths are ordered one way or the other.
pub proof fn lemma_path_before_total(a: Seq<char>, b: Seq<char>)
    requires
        a != b,
    ensures
        path_before(a, b) || path_before(b, a),
    decreases a.len(),
{
    if a.len() > 0 && b.len() > 0 {
        if a[0] == b[0] {
            if a.drop_first() == b.drop_first() {
                assert(a =~= seq![a[0]] + a.drop_first());
                assert(b =~= seq![b[0]] + b.drop_first());
            }
            lemma_path_before_total(a.drop_first(), b.drop_first());
        }
    } else if a.len() == 0 && b.len() == 0 {
        assert(a =~= b);
    }
}

/// Whether `a` comes before `b` in path order.
pub fn path_lt(a: &str, b: &str) -> (r: bool)
    ensures
        r == path_before(a@, b@),
{
    let na = a.unicode_len();
    let nb = b.unicode_len();
    let mut i: usize = 0;
    assert(a@.skip(0) =~= a@);
    assert(b@.skip(0) =~= b@);
    while i < na && i < nb
        invariant
            na == a@.len(),
            nb == b@.len(),
            i <= na,
            i <= nb,
            path_before(a@, b@) == path_before(a@.skip(i as int), b@.skip(i as int)),
        decreases na - i,
    {
        let ca = a.get_char(i);
        let cb = b.get_char(i);
        if ca != cb {
            assert(a@.skip(i as int)[0] == ca);
            assert(b@.skip(i as int)[0] == cb);
            return ca < cb;
        }
        assert(a@.skip(i as int).drop_first() =~= a@.skip(i + 1));
        assert(b@.skip(i as int).drop_first() =~= b@.skip(i + 1));
        i = i + 1;
    }
    i == na && i < nb
}

/// `u` lists paths in strictly increasing path order.
pub open spec fn path_sorted(u: Seq<Seq<char>>) -> bool {
    forall|i: int, j: int| 0 <= i < j < u.len() ==> path_before(u[i], u[j])
}

/// Inserts `p` into the path-ordered list `u`, unless it is already there.
pub fn insert_path(u: &mut Vec<String>, p: &String)
    requires
        path_sorted(texts(old(u)@)),
    ensures
        path_sorted(texts(final(u)@)),
        forall|q: Seq<char>| #[trigger] texts(final(u)@).contains(q) <==> (texts(old(u)@).contains(q) || q == p@),
{
    let ghost v = texts(u@);
    let mut pos: usize = 0;
    while pos < u.len() && path_lt(u[pos].as_str(), p.as_str())
        invariant
            v == texts(u@),
            pos <= v.len(),
            forall|k: int| 0 <= k < pos ==> path_before(v[k], p@),
        decreases v.len() - pos,
    {
        pos = pos + 1;
    }
    if pos < u.len() && u[pos] == *p {
        assert(v[pos as int] == p@);
        return;
    }
    proof {
        if pos < v.len() {
            lemma_path_before_total(v[pos as int], p@);
        }
    }
    u.insert(pos, p.clone());
    proof {
        let w = texts(u@);
        assert(w =~= v.insert(pos as int, p@));
        assert forall|i: int, j: int| 0 <= i < j < w.len() implies path_before(w[i], w[j]) by {
            if j < pos {
                assert(w[i] == v[i] && w[j] == v[j]);
            } else if j == pos {
                assert(w[i] == v[i]);
            } else if i < pos {
                assert(w[i] == v[i] && w[j] == v[j - 1]);
                lemma_path_before_transitive(v[i], p@, v[pos as int]);
                if j - 1 > pos {
                    lemma_path_before_transitive(v[i], v[pos as int], v[j - 1]);
                }
            } else if i == pos {
                assert(w[j] == v[j - 1]);
                if j - 1 > pos {
                    lemma_path_before_transitive(p@, v[pos as int], v[j - 1]);
                }
            } else {
                assert(w[i] == v[i - 1] && w[j] == v[j - 1]);
            }
        }
        assert forall|q: Seq<char>| #[trigger] w.contains(q) <==> (v.contains(q) || q == p@) by {
            if w.contains(q) {
                let k = choose|k: int| 0 <= k < w.len() && w[k] == q;
                if k < pos {
                    assert(v[k] == q);
                } else if k > pos {
                    assert(v[k - 1] == q);
                }
            }
            if v.contains(q) {
                let k = choose|k: int| 0 <= k < v.len() && v[k] == q;
                if k < pos {
                    assert(w[k] == q);
                } else {
                    assert(w[k + 1] == q);
                }
            }
            if q == p@ {
                assert(w[pos as int] == q);
            }
        }
    }
}

} // verus!
