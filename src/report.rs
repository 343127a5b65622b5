//! Grouping of status entries by author into sorted, repeat-free reports.
use vstd::prelude::*;
use crate::order::{insert_sorted, lemma_less_irreflexive, seq_less, strictly_sorted, texts};
use crate::text::{normalize, normalize_spec};

verus! {

/// One status update: who wrote it and what it says.
pub struct StatusEntry {
    pub author: String,
    pub content: String,
}

impl StatusEntry {
    pub fn new(author: String, content: String) -> (r: StatusEntry)
        ensures
            r.author@ == author@,
            r.content@ == content@,
    {
        StatusEntry { author, content }
    }
}

/// The normalized lines of one author, ascending and without repeats.
pub struct AuthorReport {
    pub author: String,
    pub lines: Vec<String>,
}

/// Some entry in `es` is by `a`.
pub open spec fn has_author(es: Seq<StatusEntry>, a: Seq<char>) -> bool {
    exists|i: int| 0 <= i < es.len() && (#[trigger] es[i]).author@ == a
}

/// Some entry in `es` by `a` normalizes to `t`.
pub open spec fn has_line(es: Seq<StatusEntry>, a: Seq<char>, t: Seq<char>) -> bool {
    exists|i: int|
        0 <= i < es.len() && (#[trigger] es[i]).author@ == a && normalize_spec(es[i].content@) == t
}

/// `r` holds exactly the normalized lines of its author in `es`, ascending.
pub open spec fn reports_author(r: AuthorReport, es: Seq<StatusEntry>) -> bool {
    &&& strictly_sorted(texts(r.lines@))
    &&& forall|t: Seq<char>| texts(r.lines@).contains(t) <==> has_line(es, r.author@, t)
}

/// The authors of a sequence of reports.
pub open spec fn report_authors(rs: Seq<AuthorReport>) -> Seq<Seq<char>> {
    rs.map_values(|r: AuthorReport| r.author@)
}

proof fn lemma_has_author_step(es: Seq<StatusEntry>, k: int, a: Seq<char>)
    requires
        0 <= k < es.len(),
    ensures
        has_author(es.subrange(0, k + 1), a) <==> (has_author(es.subrange(0, k), a) || es[k].author@
            == a),
{
    let p = es.subrange(0, k);
    let q = es.subrange(0, k + 1);
    if has_author(q, a) {
        let i = choose|i: int| 0 <= i < q.len() && (#[trigger] q[i]).author@ == a;
        if i < k {
            assert(p[i] == q[i]);
        }
    }
    if has_author(p, a) {
        let i = choose|i: int| 0 <= i < p.len() && (#[trigger] p[i]).author@ == a;
        assert(q[i] == p[i]);
    }
    if es[k].author@ == a {
        assert(q[k] == es[k]);
    }
}

proof fn lemma_has_line_step(es: Seq<StatusEntry>, k: int, a: Seq<char>, t: Seq<char>)
    requires
        0 <= k < es.len(),
    ensures
        has_line(es.subrange(0, k + 1), a, t) <==> (has_line(es.subrange(0, k), a, t) || (
        es[k].author@ == a && normalize_spec(es[k].content@) == t)),
{
    let p = es.subrange(0, k);
    let q = es.subrange(0, k + 1);
    if has_line(q, a, t) {
        let i = choose|i: int|
            0 <= i < q.len() && (#[trigger] q[i]).author@ == a && normalize_spec(q[i].content@)
                == t;
        if i < k {
            assert(p[i] == q[i]);
        }
    }
    if has_line(p, a, t) {
        let i = choose|i: int|
            0 <= i < p.len() && (#[trigger] p[i]).author@ == a && normalize_spec(p[i].content@)
                == t;
        assert(q[i] == p[i]);
    }
    if es[k].author@ == a && normalize_spec(es[k].content@) == t {
        assert(q[k] == es[k]);
    }
}

/// The distinct authors of `entries`, ascending.
pub fn authors(entries: &Vec<StatusEntry>) -> (r: Vec<String>)
    ensures
        strictly_sorted(texts(r@)),
        forall|a: Seq<char>| texts(r@).contains(a) <==> has_author(entries@, a),
{
    let mut r: Vec<String> = Vec::new();
    let mut k: usize = 0;
    while k < entries.len()
        invariant
            k <= entries.len(),
            strictly_sorted(texts(r@)),
            forall|a: Seq<char>|
                texts(r@).contains(a) <==> has_author(entries@.subrange(0, k as int), a),
        decreases entries.len() - k,
    {
        let ghost before = texts(r@);
        insert_sorted(&mut r, entries[k].author.clone());
        assert forall|a: Seq<char>|
            texts(r@).contains(a) <==> has_author(entries@.subrange(0, k + 1), a) by {
            lemma_has_author_step(entries@, k as int, a);
        }
        k = k + 1;
    }
    assert(entries@.subrange(0, k as int) =~= entries@);
    r
}

/// The report of `author`: the normalized contents of their entries,
/// ascending and without repeats.
pub fn report_for(entries: &Vec<StatusEntry>, author: &String) -> (r: AuthorReport)
    ensures
        r.author@ == author@,
        reports_author(r, entries@),
{
    let mut lines: Vec<String> = Vec::new();
    let mut k: usize = 0;
    while k < entries.len()
        invariant
            k <= entries.len(),
            strictly_sorted(texts(lines@)),
            forall|t: Seq<char>|
                texts(lines@).contains(t) <==> has_line(entries@.subrange(0, k as int), author@, t),
        decreases entries.len() - k,
    {
        if entries[k].author == *author {
            let line = normalize(entries[k].content.as_str());
            insert_sorted(&mut lines, line);
        }
        assert forall|t: Seq<char>|
            texts(lines@).contains(t) <==> has_line(entries@.subrange(0, k + 1), author@, t) by {
            lemma_has_line_step(entries@, k as int, author@, t);
        }
        k = k + 1;
    }
    assert(entries@.subrange(0, k as int) =~= entries@);
    AuthorReport { author: author.clone(), lines }
}

/// One report per author, authors ascending.
pub fn aggregate(entries: &Vec<StatusEntry>) -> (r: Vec<AuthorReport>)
    ensures
        strictly_sorted(report_authors(r@)),
        forall|a: Seq<char>| report_authors(r@).contains(a) <==> has_author(entries@, a),
        forall|i: int| 0 <= i < r.len() ==> reports_author(#[trigger] r@[i], entries@),
{
    let names = authors(entries);
    let mut r: Vec<AuthorReport> = Vec::new();
    let mut k: usize = 0;
    while k < names.len()
        invariant
            k <= names.len(),
            r.len() == k,
            report_authors(r@) == texts(names@).subrange(0, k as int),
            forall|i: int| 0 <= i < r.len() ==> reports_author(#[trigger] r@[i], entries@),
        decreases names.len() - k,
    {
        let rep = report_for(entries, &names[k]);
        r.push(rep);
        assert(report_authors(r@) =~= texts(names@).subrange(0, k + 1));
        k = k + 1;
    }
    assert(report_authors(r@) =~= texts(names@));
    r
}

/// Two entries of one author whose contents normalize alike give exactly one
/// line of the author's report.
pub proof fn lemma_one_copy(es: Seq<StatusEntry>, r: AuthorReport, i: int, j: int)
    requires
        reports_author(r, es),
        0 <= i < es.len(),
        0 <= j < es.len(),
        es[i].author@ == r.author@,
        es[j].author@ == r.author@,
        normalize_spec(es[i].content@) == normalize_spec(es[j].content@),
    ensures
        exists|k: int| 0 <= k < r.lines.len() && r.lines@[k]@ == normalize_spec(es[i].content@),
        forall|k1: int, k2: int|
            0 <= k1 < r.lines.len() && 0 <= k2 < r.lines.len() && r.lines@[k1]@ == normalize_spec(
                es[i].content@,
            ) && r.lines@[k2]@ == normalize_spec(es[i].content@) ==> k1 == k2,
{
    let t = normalize_spec(es[i].content@);
    let ls = texts(r.lines@);
    assert(has_line(es, r.author@, t));
    let k = choose|k: int| 0 <= k < ls.len() && ls[k] == t;
    assert(r.lines@[k]@ == t);
    assert forall|k1: int, k2: int|
        0 <= k1 < r.lines.len() && 0 <= k2 < r.lines.len() && r.lines@[k1]@ == t
            && r.lines@[k2]@ == t implies k1 == k2 by {
        assert(ls[k1] == t && ls[k2] == t);
        lemma_less_irreflexive(t);
        if k1 < k2 {
            assert(seq_less(ls[k1], ls[k2]));
        } else if k2 < k1 {
            assert(seq_less(ls[k2], ls[k1]));
        }
    }
}

} // verus!
