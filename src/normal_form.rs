//! Facts about normalized text: a second pass of link collapsing and number
//! wrapping leaves it as it is, only numbers of five or more digits get the
//! "bug " prefix, and the case of a leading "bug" changes no issue number
//! found.
use vstd::prelude::*;
use crate::text::{
    bug_prefix, bug_word_at, collapse_from, is_ref_at, occurs_at, ref_digits_end, ref_digits_start,
    refs_from, refs_spec, in_class, is_digit, is_link_at, is_space, run_len, space_before,
    textify_spec, wrap_from, wrapped_at, CharClass,
};

verus! {

/// Length of the run of non-digits that ends just before `i`.
pub open spec fn nondigit_before(s: Seq<char>, i: int) -> nat
    decreases i,
{
    if 0 < i <= s.len() && !is_digit(s[i - 1]) {
        1 + nondigit_before(s, i - 1)
    } else {
        0
    }
}

/// The run of non-digits that ends just before `i`.
pub open spec fn stretch(s: Seq<char>, i: int) -> Seq<char> {
    s.subrange(i - nondigit_before(s, i), i)
}

proof fn lemma_run(s: Seq<char>, j: int, k: CharClass)
    requires
        0 <= j <= s.len(),
    ensures
        j + run_len(s, j, k) <= s.len(),
        forall|m: int| j <= m < j + run_len(s, j, k) ==> in_class(k, #[trigger] s[m]),
        j + run_len(s, j, k) < s.len() ==> !in_class(k, s[j + run_len(s, j, k)]),
    decreases s.len() - j,
{
    if j < s.len() && in_class(k, s[j]) {
        lemma_run(s, j + 1, k);
    }
}

proof fn lemma_run_exact(s: Seq<char>, j: int, n: int, k: CharClass)
    requires
        0 <= j,
        0 <= n,
        j + n <= s.len(),
        forall|m: int| j <= m < j + n ==> in_class(k, #[trigger] s[m]),
        j + n == s.len() || !in_class(k, s[j + n]),
    ensures
        run_len(s, j, k) == n,
    decreases n,
{
    if n > 0 {
        lemma_run_exact(s, j + 1, n - 1, k);
    }
}

proof fn lemma_nondigit(s: Seq<char>, i: int)
    requires
        0 <= i <= s.len(),
    ensures
        nondigit_before(s, i) <= i,
        forall|m: int| i - nondigit_before(s, i) <= m < i ==> !is_digit(#[trigger] s[m]),
        i - nondigit_before(s, i) > 0 ==> is_digit(s[i - nondigit_before(s, i) - 1]),
    decreases i,
{
    if i > 0 && !is_digit(s[i - 1]) {
        lemma_nondigit(s, i - 1);
    }
}

proof fn lemma_nondigit_prefix(s: Seq<char>, x: Seq<char>, j: int)
    requires
        0 <= j <= s.len(),
    ensures
        nondigit_before(s + x, j) == nondigit_before(s, j),
    decreases j,
{
    if j > 0 {
        assert((s + x)[j - 1] == s[j - 1]);
        lemma_nondigit_prefix(s, x, j - 1);
    }
}

proof fn lemma_stretch_prefix(s: Seq<char>, x: Seq<char>)
    ensures
        stretch(s + x, s.len() as int) == stretch(s, s.len() as int),
{
    lemma_nondigit_prefix(s, x, s.len() as int);
    lemma_nondigit(s, s.len() as int);
    assert(stretch(s + x, s.len() as int) =~= stretch(s, s.len() as int));
}

proof fn lemma_stretch_push(s: Seq<char>, c: char)
    requires
        !is_digit(c),
    ensures
        stretch(s.push(c), (s.len() + 1) as int) == stretch(s, s.len() as int).push(c),
{
    let t = s.push(c);
    assert(t =~= s + seq![c]);
    lemma_nondigit_prefix(s, seq![c], s.len() as int);
    lemma_nondigit(s, s.len() as int);
    assert(stretch(t, (s.len() + 1) as int) =~= stretch(s, s.len() as int).push(c));
}

proof fn lemma_stretch_after_digit(s: Seq<char>, i: int)
    requires
        0 < i <= s.len(),
        is_digit(s[i - 1]),
    ensures
        stretch(s, i) == Seq::<char>::empty(),
{
    assert(stretch(s, i) =~= Seq::<char>::empty());
}

proof fn lemma_space_in_stretch(s: Seq<char>, i: int, j: int)
    requires
        0 <= i <= s.len(),
        i - nondigit_before(s, i) <= j <= i,
    ensures
        space_before(s, j) == space_before(stretch(s, i), j - (i - nondigit_before(s, i))),
        space_before(s, j) <= j - (i - nondigit_before(s, i)),
    decreases j,
{
    lemma_nondigit(s, i);
    let k0 = i - nondigit_before(s, i);
    let st = stretch(s, i);
    if j > k0 {
        assert(st[j - k0 - 1] == s[j - 1]);
        lemma_space_in_stretch(s, i, j - 1);
    } else if k0 > 0 {
        assert(is_digit(s[k0 - 1]));
    }
}

/// Whether a run is already wrapped depends on the non-digits before it alone.
proof fn lemma_wrapped_by_stretch(s: Seq<char>, i: int)
    requires
        0 <= i <= s.len(),
    ensures
        wrapped_at(s, i) == wrapped_at(stretch(s, i), stretch(s, i).len() as int),
{
    lemma_nondigit(s, i);
    lemma_space_in_stretch(s, i, i);
    let m = nondigit_before(s, i) as int;
    let k0 = i - m;
    let st = stretch(s, i);
    assert(st.len() == m);
    let n = space_before(s, i) as int;
    let p = i - n - 3;
    if p >= k0 {
        assert(st[p - k0] == s[p]);
        assert(st[p - k0 + 1] == s[p + 1]);
        assert(st[p - k0 + 2] == s[p + 2]);
    } else if p >= 0 {
        assert(is_digit(s[k0 - 1]));
        assert(!bug_word_at(s, p));
    }
}

proof fn lemma_wrap_starts(t: Seq<char>, j: int)
    requires
        0 <= j < t.len(),
        !is_digit(t[j]),
    ensures
        wrap_from(t, j).len() > 0,
        wrap_from(t, j)[0] == t[j],
{
}

/// Wrapping the output of wrapping from a point that starts no run in the
/// middle, after any prefix with the same non-digits before it, changes nothing.
proof fn lemma_wrap_again(t: Seq<char>, i: int, p: Seq<char>)
    requires
        0 <= i <= t.len(),
        i < t.len() && is_digit(t[i]) && i > 0 ==> !is_digit(t[i - 1]),
        stretch(p, p.len() as int) == stretch(t, i),
    ensures
        wrap_from(p + wrap_from(t, i), p.len() as int) == wrap_from(t, i),
    decreases t.len() - i, 1int,
{
    if i >= t.len() {
        assert(wrap_from(t, i) =~= Seq::<char>::empty());
    } else if !is_digit(t[i]) {
        lemma_wrap_again_char(t, i, p);
    } else {
        lemma_wrap_again_run(t, i, p);
    }
}

proof fn lemma_wrap_again_char(t: Seq<char>, i: int, p: Seq<char>)
    requires
        0 <= i < t.len(),
        !is_digit(t[i]),
        stretch(p, p.len() as int) == stretch(t, i),
    ensures
        wrap_from(p + wrap_from(t, i), p.len() as int) == wrap_from(t, i),
    decreases t.len() - i, 0int,
{
    let w = wrap_from(t, i);
    let o = p + w;
    let pl = p.len() as int;
    let c = t[i];
    let w1 = wrap_from(t, i + 1);
    let p1 = p.push(c);
    assert(w =~= seq![c] + w1);
    assert(o[pl] == c);
    assert(o =~= p1 + w1);
    lemma_stretch_push(p, c);
    let a = t.subrange(0, i);
    assert(t.subrange(0, i + 1) =~= a.push(c));
    lemma_stretch_push(a, c);
    assert(t =~= t.subrange(0, i + 1) + t.subrange(i + 1, t.len() as int));
    lemma_stretch_prefix(t.subrange(0, i + 1), t.subrange(i + 1, t.len() as int));
    assert(t =~= a + t.subrange(i, t.len() as int));
    lemma_stretch_prefix(a, t.subrange(i, t.len() as int));
    lemma_wrap_again(t, i + 1, p1);
    assert(wrap_from(o, pl) == seq![c] + wrap_from(o, pl + 1));
}

proof fn lemma_emits_prefix(o: Seq<char>, pl: int)
    requires
        0 <= pl,
        pl + 4 < o.len(),
        o[pl] == 'b' && o[pl + 1] == 'u' && o[pl + 2] == 'g' && o[pl + 3] == ' ',
    ensures
        wrap_from(o, pl) == seq!['b', 'u', 'g', ' '] + wrap_from(o, pl + 4),
        wrapped_at(o, pl + 4),
{
    assert(space_before(o, pl + 3) == 0);
    assert(space_before(o, pl + 4) == 1);
    assert(wrap_from(o, pl + 3) == seq![' '] + wrap_from(o, pl + 4));
    assert(wrap_from(o, pl + 2) == seq!['g'] + wrap_from(o, pl + 3));
    assert(wrap_from(o, pl + 1) == seq!['u'] + wrap_from(o, pl + 2));
    assert(wrap_from(o, pl) == seq!['b'] + wrap_from(o, pl + 1));
    assert(wrap_from(o, pl) =~= seq!['b', 'u', 'g', ' '] + wrap_from(o, pl + 4));
}

#[verifier::rlimit(50)]
proof fn lemma_wrap_again_run(t: Seq<char>, i: int, p: Seq<char>)
    requires
        0 <= i < t.len(),
        is_digit(t[i]),
        i > 0 ==> !is_digit(t[i - 1]),
        stretch(p, p.len() as int) == stretch(t, i),
    ensures
        wrap_from(p + wrap_from(t, i), p.len() as int) == wrap_from(t, i),
    decreases t.len() - i, 0int,
{
    let w = wrap_from(t, i);
    let o = p + w;
    let pl = p.len() as int;
    let n = 1 + run_len(t, i + 1, CharClass::Digit);
    lemma_run(t, i + 1, CharClass::Digit);
    let run = t.subrange(i, i + n);
    let w1 = wrap_from(t, i + n);
    if i + n < t.len() {
        lemma_wrap_starts(t, i + n);
    }
    lemma_stretch_after_digit(t, i + n);
    let wrap = n >= 5 && !wrapped_at(t, i);
    let pre = if wrap {
        seq!['b', 'u', 'g', ' ']
    } else {
        Seq::<char>::empty()
    };
    let q = pl + pre.len();
    assert(w =~= pre + run + w1);
    let p2 = p + pre + run;
    assert(o =~= p2 + w1);
    assert(forall|m: int| q <= m < q + n ==> o[m] == t[i + (m - q)]);
    assert(forall|m: int| q + 1 <= m < q + n ==> is_digit(#[trigger] o[m])) by {
        assert(forall|m: int| i < m < i + n ==> is_digit(#[trigger] t[m]));
    }
    assert(q + n == o.len() || !is_digit(o[q + n])) by {
        if q + n < o.len() {
            assert(o[q + n] == w1[0]);
        }
    }
    lemma_run_exact(o, q + 1, n - 1, CharClass::Digit);
    assert(p2[p2.len() - 1] == t[i + n - 1]);
    lemma_stretch_after_digit(p2, p2.len() as int);
    lemma_wrap_again(t, i + n, p2);
    assert(o[q] == t[i]);
    assert(o.subrange(q, q + n) =~= run);
    if wrap {
        lemma_emits_prefix(o, pl);
        assert(wrap_from(o, q) == run + wrap_from(o, q + n));
        assert(wrap_from(o, pl) =~= w);
    } else {
        lemma_stretch_prefix(p, w);
        lemma_wrapped_by_stretch(o, pl);
        lemma_wrapped_by_stretch(t, i);
        assert(wrap_from(o, q) == run + wrap_from(o, q + n));
        assert(wrap_from(o, pl) =~= w);
    }
}

/// Number wrapping leaves its own output unchanged.
pub proof fn lemma_wrap_idempotent(t: Seq<char>)
    ensures
        wrap_from(wrap_from(t, 0), 0) == wrap_from(t, 0),
{
    let e = Seq::<char>::empty();
    assert(stretch(e, 0) =~= stretch(t, 0));
    lemma_wrap_again(t, 0, e);
    assert(e + wrap_from(t, 0) =~= wrap_from(t, 0));
}

proof fn lemma_collapse_without_links(s: Seq<char>, i: int)
    requires
        0 <= i <= s.len(),
        forall|j: int| 0 <= j < s.len() ==> !is_link_at(s, j),
    ensures
        collapse_from(s, i) == s.subrange(i, s.len() as int),
    decreases s.len() - i,
{
    if i < s.len() {
        lemma_collapse_without_links(s, i + 1);
        assert(collapse_from(s, i) =~= s.subrange(i, s.len() as int));
    } else {
        assert(s.subrange(i, s.len() as int) =~= Seq::<char>::empty());
    }
}

/// Collapsing links and wrapping numbers a second time changes nothing,
/// unless the first pass left an issue link in the text (wrapping a bare
/// number inside a link to the tracker can make one).
pub proof fn lemma_textify_idempotent(s: Seq<char>)
    requires
        forall|j: int| 0 <= j < textify_spec(s).len() ==> !is_link_at(textify_spec(s), j),
    ensures
        textify_spec(textify_spec(s)) == textify_spec(s),
{
    let t = textify_spec(s);
    lemma_collapse_without_links(t, 0);
    assert(t.subrange(0, t.len() as int) =~= t);
    lemma_wrap_idempotent(collapse_from(s, 0));
}

/// A bare number is wrapped exactly when it has five or more digits.
pub proof fn lemma_bare_number_threshold(d: Seq<char>)
    requires
        d.len() > 0,
        forall|i: int| 0 <= i < d.len() ==> is_digit(#[trigger] d[i]),
    ensures
        textify_spec(d) == if d.len() >= 5 {
            bug_prefix() + d
        } else {
            d
        },
{
    assert forall|j: int| 0 <= j < d.len() implies !is_link_at(d, j) by {
        if is_link_at(d, j) {
            assert(d.subrange(j, j + 24)[0] == d[j]);
        }
    }
    lemma_collapse_without_links(d, 0);
    assert(d.subrange(0, d.len() as int) =~= d);
    lemma_run_exact(d, 1, d.len() - 1, CharClass::Digit);
    assert(space_before(d, 0) == 0);
    assert(wrap_from(d, d.len() as int) =~= Seq::<char>::empty());
    assert(d.subrange(0, d.len() as int) =~= d);
    if d.len() >= 5 {
        assert(wrap_from(d, 0) =~= bug_prefix() + d);
    } else {
        assert(wrap_from(d, 0) =~= d);
    }
}

/// `s` and `u` are alike but for the case of a leading `b`.
pub open spec fn differ_in_leading_b(s: Seq<char>, u: Seq<char>) -> bool {
    &&& s.len() == u.len()
    &&& s.len() > 0
    &&& (s[0] == 'b' || s[0] == 'B')
    &&& (u[0] == 'b' || u[0] == 'B')
    &&& forall|i: int| 1 <= i < s.len() ==> s[i] == u[i]
}

proof fn lemma_alike_run(s: Seq<char>, u: Seq<char>, j: int, k: CharClass)
    requires
        differ_in_leading_b(s, u),
        1 <= j,
    ensures
        run_len(s, j, k) == run_len(u, j, k),
    decreases s.len() - j,
{
    if j < s.len() {
        lemma_alike_run(s, u, j + 1, k);
    }
}

proof fn lemma_alike_occurs(s: Seq<char>, u: Seq<char>, i: int, p: Seq<char>)
    requires
        differ_in_leading_b(s, u),
        1 <= i,
    ensures
        occurs_at(s, i, p) == occurs_at(u, i, p),
{
    if 0 <= i && i + p.len() <= s.len() {
        assert(s.subrange(i, i + p.len()) =~= u.subrange(i, i + p.len()));
    }
}

proof fn lemma_alike_bug_word(s: Seq<char>, u: Seq<char>, p: int)
    requires
        differ_in_leading_b(s, u),
    ensures
        bug_word_at(s, p) == bug_word_at(u, p),
{
}

proof fn lemma_alike_link(s: Seq<char>, u: Seq<char>, i: int)
    requires
        differ_in_leading_b(s, u),
        0 <= i,
    ensures
        is_link_at(s, i) == is_link_at(u, i),
        crate::text::link_digits_start(s, i) == crate::text::link_digits_start(u, i),
        crate::text::link_digits_end(s, i) == crate::text::link_digits_end(u, i),
{
    let q = crate::text::link_quote(s, i);
    lemma_alike_run(s, u, i + 24, CharClass::NotQuote);
    lemma_alike_run(s, u, q + 5, CharClass::Space);
    lemma_alike_run(s, u, crate::text::link_digits_start(s, i), CharClass::Digit);
    if i == 0 {
        if occurs_at(s, 0, crate::text::link_open()) {
            assert(s.subrange(0, 24)[0] == s[0]);
        }
        if occurs_at(u, 0, crate::text::link_open()) {
            assert(u.subrange(0, 24)[0] == u[0]);
        }
    } else {
        lemma_alike_occurs(s, u, i, crate::text::link_open());
    }
    lemma_alike_occurs(s, u, q, crate::text::tag_end());
    lemma_alike_occurs(s, u, crate::text::link_digits_end(s, i), crate::text::link_close());
}

proof fn lemma_alike_collapse(s: Seq<char>, u: Seq<char>, i: int)
    requires
        differ_in_leading_b(s, u),
        1 <= i <= s.len(),
    ensures
        collapse_from(s, i) == collapse_from(u, i),
    decreases s.len() - i,
{
    if i < s.len() {
        lemma_alike_link(s, u, i);
        if is_link_at(s, i) {
            let a = crate::text::link_digits_start(s, i);
            let b = crate::text::link_digits_end(s, i);
            assert(s.subrange(a, b) =~= u.subrange(a, b));
            lemma_alike_collapse(s, u, b + 4);
        } else {
            lemma_alike_collapse(s, u, i + 1);
        }
    }
}

proof fn lemma_alike_space(s: Seq<char>, u: Seq<char>, i: int)
    requires
        differ_in_leading_b(s, u),
    ensures
        space_before(s, i) == space_before(u, i),
    decreases i,
{
    if 1 < i <= s.len() {
        lemma_alike_space(s, u, i - 1);
    }
}

proof fn lemma_alike_wrap(s: Seq<char>, u: Seq<char>, i: int)
    requires
        differ_in_leading_b(s, u),
        1 <= i <= s.len(),
    ensures
        wrap_from(s, i) == wrap_from(u, i),
    decreases s.len() - i,
{
    if i < s.len() {
        lemma_alike_run(s, u, i + 1, CharClass::Digit);
        lemma_run(s, i + 1, CharClass::Digit);
        lemma_alike_space(s, u, i);
        let n = 1 + run_len(s, i + 1, CharClass::Digit);
        lemma_alike_bug_word(s, u, i - space_before(s, i) - 3);
        if is_digit(s[i]) {
            assert(s.subrange(i, i + n) =~= u.subrange(i, i + n));
            lemma_alike_wrap(s, u, i + n);
        } else {
            lemma_alike_wrap(s, u, i + 1);
        }
    }
}

proof fn lemma_alike_refs(s: Seq<char>, u: Seq<char>, i: int)
    requires
        differ_in_leading_b(s, u),
        0 <= i <= s.len(),
    ensures
        refs_from(s, i) == refs_from(u, i),
    decreases s.len() - i,
{
    if i < s.len() {
        lemma_alike_bug_word(s, u, i);
        lemma_alike_run(s, u, i + 3, CharClass::Space);
        lemma_alike_run(s, u, ref_digits_start(s, i), CharClass::Digit);
        if is_ref_at(s, i) {
            let a = ref_digits_start(s, i);
            let b = ref_digits_end(s, i);
            lemma_run(s, i + 3, CharClass::Space);
            lemma_run(s, a, CharClass::Digit);
            assert(s.subrange(a, b) =~= u.subrange(a, b));
            lemma_alike_refs(s, u, b);
        } else {
            lemma_alike_refs(s, u, i + 1);
        }
    }
}

/// Link collapsing and number wrapping keep a leading `b` in its place and
/// in its case, and treat the rest alike whatever that case.
proof fn lemma_alike_textify(s: Seq<char>, u: Seq<char>)
    requires
        differ_in_leading_b(s, u),
    ensures
        differ_in_leading_b(textify_spec(s), textify_spec(u)),
        textify_spec(s)[0] == s[0],
        textify_spec(u)[0] == u[0],
{
    lemma_alike_link(s, u, 0);
    assert(!is_link_at(s, 0)) by {
        if occurs_at(s, 0, crate::text::link_open()) {
            assert(s.subrange(0, 24)[0] == s[0]);
        }
    }
    lemma_alike_collapse(s, u, 1);
    let cs = collapse_from(s, 0);
    let cu = collapse_from(u, 0);
    assert(differ_in_leading_b(cs, cu));
    lemma_alike_wrap(cs, cu, 1);
    let ts = textify_spec(s);
    let tu = textify_spec(u);
    assert(ts == seq![cs[0]] + wrap_from(cs, 1));
    assert(tu == seq![cu[0]] + wrap_from(cu, 1));
    assert forall|i: int| 1 <= i < ts.len() implies ts[i] == tu[i] by {
        assert(ts[i] == wrap_from(cs, 1)[i - 1]);
    }
}

/// Whether a text starts with "bug" or "Bug", link collapsing and number
/// wrapping leave the same issue numbers to be found in it.
pub proof fn lemma_bug_case_same_refs(rest: Seq<char>)
    ensures
        refs_spec(textify_spec(seq!['b'] + rest)) == refs_spec(textify_spec(seq!['B'] + rest)),
{
    let s = seq!['b'] + rest;
    let u = seq!['B'] + rest;
    assert forall|i: int| 1 <= i < s.len() implies s[i] == u[i] by {
        assert(s[i] == rest[i - 1]);
    }
    lemma_alike_textify(s, u);
    lemma_alike_refs(textify_spec(s), textify_spec(u), 0);
}

/// A text without issue links is only number-wrapped: each run of five or
/// more digits that does not follow "bug" and whitespace gets "bug " in
/// front, and every other character stays in place.
pub proof fn lemma_textify_without_links(s: Seq<char>)
    requires
        forall|j: int| 0 <= j < s.len() ==> !is_link_at(s, j),
    ensures
        textify_spec(s) == wrap_from(s, 0),
{
    lemma_collapse_without_links(s, 0);
    assert(s.subrange(0, s.len() as int) =~= s);
}

} // verus!
