//! The two textual forms of a report: plain text and wiki markup.
use vstd::prelude::*;
use crate::order::{insert_sorted, strictly_sorted, texts};
use crate::report::AuthorReport;
use crate::text::{append_chars, chars_of, extract_bug_numbers, refs_spec, string_of};

verus! {

/// The lines that mention one issue.
pub struct IssueLines {
    pub id: String,
    pub lines: Vec<String>,
}

/// Some line of `ls` references issue `id`.
pub open spec fn mentioned(ls: Seq<Seq<char>>, id: Seq<char>) -> bool {
    exists|i: int| 0 <= i < ls.len() && refs_spec(#[trigger] ls[i]).contains(id)
}

/// The lines of `ls` that reference `id`, in order.
pub open spec fn mentioning(ls: Seq<Seq<char>>, id: Seq<char>) -> Seq<Seq<char>>
    decreases ls.len(),
{
    if ls.len() == 0 {
        seq![]
    } else if refs_spec(ls.last()).contains(id) {
        mentioning(ls.drop_last(), id).push(ls.last())
    } else {
        mentioning(ls.drop_last(), id)
    }
}

/// Each line of `ls` after `prefix`, each ended by a newline.
pub open spec fn bullets(prefix: Seq<char>, ls: Seq<Seq<char>>) -> Seq<char>
    decreases ls.len(),
{
    if ls.len() == 0 {
        seq![]
    } else {
        bullets(prefix, ls.drop_last()) + prefix + ls.last() + "\n"@
    }
}

/// The line that describes one issue in plain text.
pub open spec fn detail_spec(id: Seq<char>, summary: Seq<char>) -> Seq<char> {
    "https://bugzil.la/"@ + id + " "@ + summary
}

pub open spec fn plain_header(author: Seq<char>) -> Seq<char> {
    "\n## "@ + author + " ##\n"@
}

/// An author's section in plain text: the heading, every line, then a blank
/// line and the issue details if there are any.
pub open spec fn plain_spec(author: Seq<char>, lines: Seq<Seq<char>>, details: Seq<Seq<char>>) -> Seq<
    char,
> {
    plain_header(author) + bullets("  * "@, lines) + if details.len() == 0 {
        seq![]
    } else {
        "\n"@ + bullets("  * "@, details)
    }
}

pub open spec fn wiki_header(author: Seq<char>) -> Seq<char> {
    "\n== "@ + author + " ==\n"@
}

/// One issue in wiki markup, with the lines that mention it nested below.
pub open spec fn wiki_group(id: Seq<char>, summary: Seq<char>, lines: Seq<Seq<char>>) -> Seq<char> {
    "* {{"@ + id + "}} "@ + summary + "\n"@ + bullets("** "@, lines)
}

/// The first `n` issue groups in wiki markup.
pub open spec fn wiki_body(gs: Seq<IssueLines>, sums: Seq<String>, n: nat) -> Seq<char>
    decreases n,
{
    if n == 0 {
        seq![]
    } else {
        wiki_body(gs, sums, (n - 1) as nat) + wiki_group(
            gs[n - 1].id@,
            sums[n - 1]@,
            texts(gs[n - 1].lines@),
        )
    }
}

/// An author's section in wiki markup: the heading, then each issue with
/// its lines. Lines that mention no issue do not appear.
pub open spec fn wiki_spec(author: Seq<char>, gs: Seq<IssueLines>, sums: Seq<String>) -> Seq<char> {
    wiki_header(author) + wiki_body(gs, sums, gs.len())
}

/// `gs` lists each issue that `ls` mentions once, ascending, with the lines
/// that mention it.
pub open spec fn groups_of(ls: Seq<Seq<char>>, gs: Seq<IssueLines>) -> bool {
    &&& strictly_sorted(gs.map_values(|g: IssueLines| g.id@))
    &&& forall|x: Seq<char>|
        gs.map_values(|g: IssueLines| g.id@).contains(x) <==> mentioned(ls, x)
    &&& forall|i: int|
        0 <= i < gs.len() ==> texts((#[trigger] gs[i]).lines@) == mentioning(ls, gs[i].id@)
}

fn push_str(out: &mut Vec<char>, s: &str)
    ensures
        final(out)@ == old(out)@ + s@,
{
    let v = chars_of(s);
    append_chars(out, &v);
}

/// Whether `line` references issue `id`.
pub fn mentions(line: &String, id: &String) -> (r: bool)
    ensures
        r == refs_spec(line@).contains(id@),
{
    let ids = extract_bug_numbers(line.as_str());
    let ghost tv = ids@.map_values(|x: String| x@);
    let mut k: usize = 0;
    while k < ids.len()
        invariant
            k <= ids.len(),
            tv == ids@.map_values(|x: String| x@),
            tv == refs_spec(line@),
            forall|m: int| 0 <= m < k ==> tv[m] != id@,
        decreases ids.len() - k,
    {
        if ids[k] == *id {
            assert(tv[k as int] == id@);
            return true;
        }
        k = k + 1;
    }
    false
}

/// The distinct issues that `lines` reference, ascending as text.
pub fn bug_ids(lines: &Vec<String>) -> (r: Vec<String>)
    ensures
        strictly_sorted(texts(r@)),
        forall|x: Seq<char>| texts(r@).contains(x) <==> mentioned(texts(lines@), x),
{
    let ghost ls = texts(lines@);
    let mut r: Vec<String> = Vec::new();
    let mut k: usize = 0;
    while k < lines.len()
        invariant
            k <= lines.len(),
            ls == texts(lines@),
            strictly_sorted(texts(r@)),
            forall|x: Seq<char>| texts(r@).contains(x) <==> mentioned(ls.subrange(0, k as int), x),
        decreases lines.len() - k,
    {
        let found = extract_bug_numbers(lines[k].as_str());
        let ghost fv = found@.map_values(|x: String| x@);
        let mut m: usize = 0;
        while m < found.len()
            invariant
                k < lines.len(),
                m <= found.len(),
                ls == texts(lines@),
                fv == found@.map_values(|x: String| x@),
                fv == refs_spec(ls[k as int]),
                strictly_sorted(texts(r@)),
                forall|x: Seq<char>|
                    texts(r@).contains(x) <==> (mentioned(ls.subrange(0, k as int), x)
                        || fv.subrange(0, m as int).contains(x)),
            decreases found.len() - m,
        {
            let item = found[m].clone();
            assert(item@ == fv[m as int]);
            insert_sorted(&mut r, item);
            assert forall|x: Seq<char>|
                texts(r@).contains(x) <==> (mentioned(ls.subrange(0, k as int), x)
                    || fv.subrange(0, m + 1).contains(x)) by {
                let a = fv.subrange(0, m as int);
                let b = fv.subrange(0, m + 1);
                if b.contains(x) {
                    let j = choose|j: int| 0 <= j < b.len() && b[j] == x;
                    if j < m {
                        assert(a[j] == x);
                    }
                }
                if a.contains(x) {
                    let j = choose|j: int| 0 <= j < a.len() && a[j] == x;
                    assert(b[j] == x);
                }
                if x == fv[m as int] {
                    assert(b[m as int] == x);
                }
            }
            m = m + 1;
        }
        assert forall|x: Seq<char>|
            texts(r@).contains(x) <==> mentioned(ls.subrange(0, k + 1), x) by {
            assert(fv.subrange(0, m as int) =~= fv);
            let p = ls.subrange(0, k as int);
            let q = ls.subrange(0, k + 1);
            if mentioned(q, x) {
                let i = choose|i: int| 0 <= i < q.len() && refs_spec(#[trigger] q[i]).contains(x);
                if i < k {
                    assert(p[i] == q[i]);
                }
            }
            if mentioned(p, x) {
                let i = choose|i: int| 0 <= i < p.len() && refs_spec(#[trigger] p[i]).contains(x);
                assert(q[i] == p[i]);
            }
            if fv.contains(x) {
                assert(q[k as int] == ls[k as int]);
            }
        }
        k = k + 1;
    }
    assert(ls.subrange(0, k as int) =~= ls);
    r
}

/// The lines of `lines` that reference `id`, in order.
pub fn lines_mentioning(lines: &Vec<String>, id: &String) -> (r: Vec<String>)
    ensures
        texts(r@) == mentioning(texts(lines@), id@),
{
    let ghost ls = texts(lines@);
    let mut r: Vec<String> = Vec::new();
    let mut k: usize = 0;
    while k < lines.len()
        invariant
            k <= lines.len(),
            ls == texts(lines@),
            texts(r@) == mentioning(ls.subrange(0, k as int), id@),
        decreases lines.len() - k,
    {
        assert(ls.subrange(0, k + 1).drop_last() =~= ls.subrange(0, k as int));
        assert(ls.subrange(0, k + 1).last() == ls[k as int]);
        if mentions(&lines[k], id) {
            let line = lines[k].clone();
            r.push(line);
            assert(texts(r@) =~= mentioning(ls.subrange(0, k as int), id@).push(ls[k as int]));
        }
        k = k + 1;
    }
    assert(ls.subrange(0, k as int) =~= ls);
    r
}

/// For each issue that `lines` reference, ascending, the lines that mention it.
pub fn issue_lines(lines: &Vec<String>) -> (r: Vec<IssueLines>)
    ensures
        groups_of(texts(lines@), r@),
{
    let ids = bug_ids(lines);
    let mut r: Vec<IssueLines> = Vec::new();
    let mut k: usize = 0;
    while k < ids.len()
        invariant
            k <= ids.len(),
            r.len() == k,
            r@.map_values(|g: IssueLines| g.id@) == texts(ids@).subrange(0, k as int),
            forall|i: int|
                0 <= i < r.len() ==> texts((#[trigger] r@[i]).lines@) == mentioning(
                    texts(lines@),
                    r@[i].id@,
                ),
        decreases ids.len() - k,
    {
        let ls = lines_mentioning(lines, &ids[k]);
        let g = IssueLines { id: ids[k].clone(), lines: ls };
        r.push(g);
        assert(r@.map_values(|g: IssueLines| g.id@) =~= texts(ids@).subrange(0, k + 1));
        k = k + 1;
    }
    assert(r@.map_values(|g: IssueLines| g.id@) =~= texts(ids@));
    r
}

/// For each issue, the line "https://bugzil.la/ID SUMMARY", where
/// `summaries[i]` describes `bugs[i]`.
pub fn extract_bug_details(bugs: &Vec<String>, summaries: &Vec<String>) -> (r: Vec<String>)
    requires
        bugs.len() == summaries.len(),
    ensures
        r.len() == bugs.len(),
        forall|i: int| 0 <= i < r.len() ==> (#[trigger] r@[i])@ == detail_spec(bugs@[i]@, summaries@[i]@),
{
    let mut r: Vec<String> = Vec::new();
    let mut k: usize = 0;
    while k < bugs.len()
        invariant
            k <= bugs.len(),
            bugs.len() == summaries.len(),
            r.len() == k,
            forall|i: int| 0 <= i < k ==> (#[trigger] r@[i])@ == detail_spec(bugs@[i]@, summaries@[i]@),
        decreases bugs.len() - k,
    {
        let mut out: Vec<char> = Vec::new();
        push_str(&mut out, "https://bugzil.la/");
        push_str(&mut out, bugs[k].as_str());
        push_str(&mut out, " ");
        push_str(&mut out, summaries[k].as_str());
        assert(out@ =~= detail_spec(bugs@[k as int]@, summaries@[k as int]@));
        r.push(string_of(&out));
        k = k + 1;
    }
    r
}

fn push_bullets(out: &mut Vec<char>, prefix: &str, ls: &Vec<String>)
    ensures
        final(out)@ == old(out)@ + bullets(prefix@, texts(ls@)),
{
    let ghost lt = texts(ls@);
    let mut k: usize = 0;
    while k < ls.len()
        invariant
            k <= ls.len(),
            lt == texts(ls@),
            out@ == old(out)@ + bullets(prefix@, lt.subrange(0, k as int)),
        decreases ls.len() - k,
    {
        let ghost before = out@;
        push_str(out, prefix);
        push_str(out, ls[k].as_str());
        push_str(out, "\n");
        assert(lt.subrange(0, k + 1).drop_last() =~= lt.subrange(0, k as int));
        assert(out@ =~= old(out)@ + bullets(prefix@, lt.subrange(0, k + 1)));
        k = k + 1;
    }
    assert(lt.subrange(0, k as int) =~= lt);
}

/// An author's section in plain text; `details` are the issue lines of
/// `extract_bug_details` for the issues that the report mentions.
pub fn plain_section(report: &AuthorReport, details: &Vec<String>) -> (r: String)
    ensures
        r@ == plain_spec(report.author@, texts(report.lines@), texts(details@)),
{
    let mut out: Vec<char> = Vec::new();
    push_str(&mut out, "\n## ");
    push_str(&mut out, report.author.as_str());
    push_str(&mut out, " ##\n");
    push_bullets(&mut out, "  * ", &report.lines);
    if details.len() > 0 {
        push_str(&mut out, "\n");
        push_bullets(&mut out, "  * ", details);
    }
    assert(out@ =~= plain_spec(report.author@, texts(report.lines@), texts(details@)));
    string_of(&out)
}

/// An author's section in wiki markup; `summaries[i]` describes the issue
/// of `groups[i]`.
pub fn wiki_section(author: &String, groups: &Vec<IssueLines>, summaries: &Vec<String>) -> (r:
    String)
    requires
        groups.len() == summaries.len(),
    ensures
        r@ == wiki_spec(author@, groups@, summaries@),
{
    let mut out: Vec<char> = Vec::new();
    push_str(&mut out, "\n== ");
    push_str(&mut out, author.as_str());
    push_str(&mut out, " ==\n");
    let ghost head = out@;
    let mut k: usize = 0;
    while k < groups.len()
        invariant
            k <= groups.len(),
            groups.len() == summaries.len(),
            out@ == head + wiki_body(groups@, summaries@, k as nat),
        decreases groups.len() - k,
    {
        push_str(&mut out, "* {{");
        push_str(&mut out, groups[k].id.as_str());
        push_str(&mut out, "}} ");
        push_str(&mut out, summaries[k].as_str());
        push_str(&mut out, "\n");
        push_bullets(&mut out, "** ", &groups[k].lines);
        assert(out@ =~= head + wiki_body(groups@, summaries@, (k + 1) as nat));
        k = k + 1;
    }
    assert(out@ =~= wiki_spec(author@, groups@, summaries@));
    string_of(&out)
}

/// The closing lines of a whole report, in wiki markup or in plain text.
pub fn report_trailer(wiki: bool) -> (r: String)
    ensures
        r@ == (if wiki {
            "\n\n<small>\nThis report is automatically generated by https://github.com/kanru/standups_weekly\n</small>\n"@
        } else {
            "\n\n\nThis report is automatically generated by https://github.com/kanru/standups_weekly\n"@
        }),
{
    let mut out: Vec<char> = Vec::new();
    if wiki {
        push_str(&mut out, "\n\n<small>\nThis report is automatically generated by https://github.com/kanru/standups_weekly\n</small>\n");
    } else {
        push_str(&mut out, "\n\n\nThis report is automatically generated by https://github.com/kanru/standups_weekly\n");
    }
    string_of(&out)
}

/// Lines that mention no issue are left out of the wiki section, which is
/// then the heading alone, while the plain section shows every line.
pub proof fn lemma_wiki_omits_unreferenced(
    author: Seq<char>,
    ls: Seq<Seq<char>>,
    gs: Seq<IssueLines>,
    sums: Seq<String>,
)
    requires
        forall|i: int| 0 <= i < ls.len() ==> refs_spec(#[trigger] ls[i]).len() == 0,
        groups_of(ls, gs),
    ensures
        gs.len() == 0,
        wiki_spec(author, gs, sums) == wiki_header(author),
        plain_spec(author, ls, seq![]) == plain_header(author) + bullets("  * "@, ls),
{
    if gs.len() > 0 {
        let ids = gs.map_values(|g: IssueLines| g.id@);
        assert(ids[0] == gs[0].id@);
        assert(ids.contains(gs[0].id@));
        assert(mentioned(ls, gs[0].id@));
        let i = choose|i: int| 0 <= i < ls.len() && refs_spec(#[trigger] ls[i]).contains(gs[0].id@);
        assert(refs_spec(ls[i]).len() == 0);
    }
    assert(wiki_spec(author, gs, sums) =~= wiki_header(author));
    assert(plain_spec(author, ls, seq![]) =~= plain_header(author) + bullets("  * "@, ls));
}

} // verus!
