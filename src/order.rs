//! Lexicographic order on texts, and sorted sequences without repeats.
use vstd::prelude::*;
use crate::text::chars_of;

verus! {

/// `a` comes before `b` in lexicographic order, comparing from position `k`.
pub open spec fn less_from(a: Seq<char>, b: Seq<char>, k: int) -> bool
    decreases a.len() - k,
{
    if k < 0 || k >= a.len() {
        k < b.len()
    } else if k >= b.len() {
        false
    } else if a[k] != b[k] {
        a[k] < b[k]
    } else {
        less_from(a, b, k + 1)
    }
}

/// Lexicographic order by character code: a proper prefix comes first.
pub open spec fn seq_less(a: Seq<char>, b: Seq<char>) -> bool {
    less_from(a, b, 0)
}

/// The texts of a sequence of strings.
pub open spec fn texts(v: Seq<String>) -> Seq<Seq<char>> {
    v.map_values(|x: String| x@)
}

/// Strictly ascending, hence without repeats.
pub open spec fn strictly_sorted(v: Seq<Seq<char>>) -> bool {
    forall|i: int, j: int| 0 <= i < j < v.len() ==> seq_less(#[trigger] v[i], #[trigger] v[j])
}

proof fn lemma_less_from_irreflexive(a: Seq<char>, k: int)
    requires
        0 <= k,
    ensures
        !less_from(a, a, k),
    decreases a.len() - k,
{
    if k < a.len() {
        lemma_less_from_irreflexive(a, k + 1);
    }
}

proof fn lemma_less_from_total(a: Seq<char>, b: Seq<char>, k: int)
    requires
        0 <= k <= a.len(),
        k <= b.len(),
        a.subrange(0, k) == b.subrange(0, k),
        !less_from(a, b, k),
        !less_from(b, a, k),
    ensures
        a == b,
    decreases a.len() - k,
{
    if k == a.len() {
        assert(a =~= b.subrange(0, k));
        assert(b =~= b.subrange(0, k));
    } else {
        assert(a.subrange(0, k + 1) =~= a.subrange(0, k).push(a[k]));
        assert(b.subrange(0, k + 1) =~= b.subrange(0, k).push(b[k]));
        lemma_less_from_total(a, b, k + 1);
    }
}

proof fn lemma_less_from_transitive(a: Seq<char>, b: Seq<char>, c: Seq<char>, k: int)
    requires
        0 <= k,
        less_from(a, b, k),
        less_from(b, c, k),
    ensures
        less_from(a, c, k),
    decreases a.len() - k,
{
    if k < a.len() && k < b.len() && k < c.len() && a[k] == b[k] && b[k] == c[k] {
        lemma_less_from_transitive(a, b, c, k + 1);
    }
}

/// The order is irreflexive.
pub proof fn lemma_less_irreflexive(a: Seq<char>)
    ensures
        !seq_less(a, a),
{
    lemma_less_from_irreflexive(a, 0);
}

/// Any two different texts are ordered one way or the other.
pub proof fn lemma_less_total(a: Seq<char>, b: Seq<char>)
    ensures
        a == b || seq_less(a, b) || seq_less(b, a),
{
    if !seq_less(a, b) && !seq_less(b, a) {
        assert(a.subrange(0, 0) =~= b.subrange(0, 0));
        lemma_less_from_total(a, b, 0);
    }
}

/// The order is transitive.
pub proof fn lemma_less_transitive(a: Seq<char>, b: Seq<char>, c: Seq<char>)
    requires
        seq_less(a, b),
        seq_less(b, c),
    ensures
        seq_less(a, c),
{
    lemma_less_from_transitive(a, b, c, 0);
}

/// Compares two texts in lexicographic order.
pub fn text_less(a: &str, b: &str) -> (r: bool)
    ensures
        r == seq_less(a@, b@),
{
    let x = chars_of(a);
    let y = chars_of(b);
    let mut k: usize = 0;
    while k < x.len() && k < y.len() && x[k] == y[k]
        invariant
            k <= x.len(),
            k <= y.len(),
            x@ == a@,
            y@ == b@,
            seq_less(a@, b@) == less_from(a@, b@, k as int),
        decreases x.len() - k,
    {
        k = k + 1;
    }
    if k == x.len() {
        k < y.len()
    } else if k == y.len() {
        false
    } else {
        x[k] < y[k]
    }
}

/// Adds `x` to a strictly sorted vector unless its text is already there,
/// and returns the position that holds it.
pub fn insert_sorted(v: &mut Vec<String>, x: String) -> (pos: usize)
    requires
        strictly_sorted(texts(old(v)@)),
    ensures
        strictly_sorted(texts(final(v)@)),
        forall|t: Seq<char>|
            texts(final(v)@).contains(t) <==> (texts(old(v)@).contains(t) || t == x@),
        pos < final(v).len(),
        final(v)@[pos as int]@ == x@,
        final(v)@ == old(v)@ || final(v)@ == old(v)@.insert(pos as int, x),
{
    let ghost old_t = texts(v@);
    let mut p: usize = 0;
    while p < v.len() && text_less(v[p].as_str(), x.as_str())
        invariant
            p <= v.len(),
            v@ == old(v)@,
            old_t == texts(v@),
            forall|k: int| 0 <= k < p ==> seq_less(#[trigger] old_t[k], x@),
        decreases v.len() - p,
    {
        p = p + 1;
    }
    if p < v.len() && v[p] == x {
        assert(old_t[p as int] == x@);
        assert forall|t: Seq<char>| texts(v@).contains(t) <==> (old_t.contains(t) || t == x@) by {
            if t == x@ {
                assert(old_t[p as int] == t);
            }
        }
        return p;
    }
    let ghost xv = x@;
    proof {
        if p < v.len() {
            lemma_less_total(old_t[p as int], xv);
        }
    }
    v.insert(p, x);
    let ghost new_t = texts(v@);
    assert(new_t =~= old_t.subrange(0, p as int).push(xv) + old_t.subrange(p as int, old_t.len() as int));
    assert forall|i: int, j: int| 0 <= i < j < new_t.len() implies seq_less(
        #[trigger] new_t[i],
        #[trigger] new_t[j],
    ) by {
        if j < p {
            assert(seq_less(old_t[i], old_t[j]));
        } else if j == p {
        } else if i < p {
            assert(seq_less(old_t[i], xv));
            if j - 1 > p {
                assert(seq_less(old_t[p as int], old_t[j - 1]));
                lemma_less_transitive(xv, old_t[p as int], old_t[j - 1]);
            }
            lemma_less_transitive(old_t[i], xv, old_t[j - 1]);
        } else if i == p {
            if j - 1 > p {
                assert(seq_less(old_t[p as int], old_t[j - 1]));
                lemma_less_transitive(xv, old_t[p as int], old_t[j - 1]);
            }
        } else {
            assert(seq_less(old_t[i - 1], old_t[j - 1]));
        }
    }
    assert forall|t: Seq<char>| new_t.contains(t) <==> (old_t.contains(t) || t == xv) by {
        if new_t.contains(t) {
            let k = choose|k: int| 0 <= k < new_t.len() && new_t[k] == t;
            if k < p {
                assert(old_t[k] == t);
            } else if k > p {
                assert(old_t[k - 1] == t);
            }
        }
        if old_t.contains(t) {
            let k = choose|k: int| 0 <= k < old_t.len() && old_t[k] == t;
            if k < p {
                assert(new_t[k] == t);
            } else {
                assert(new_t[k + 1] == t);
            }
        }
        if t == xv {
            assert(new_t[p as int] == t);
        }
    }
    p
}

} // verus!
