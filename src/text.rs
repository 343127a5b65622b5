//! Normalization of status text and extraction of issue references.
use vstd::prelude::*;

verus! {

/// Character classes that the scanners read runs of.
#[derive(Clone, Copy, PartialEq, Eq, Structural)]
pub enum CharClass {
    Digit,
    Space,
    NotQuote,
}

/// `x` lies in the block of ten digits that starts at `zero`.
pub open spec fn in_ten(x: u32, zero: u32) -> bool {
    zero <= x && x <= zero + 9
}

/// A decimal digit of any script: the Unicode category Nd (Unicode 15.0),
/// as the pattern class `\d` reads it.
pub open spec fn is_digit(c: char) -> bool {
    let x = c as u32;
    in_ten(x, 0x30) || in_ten(x, 0x660) || in_ten(x, 0x6F0) || in_ten(x, 0x7C0) ||
    in_ten(x, 0x966) || in_ten(x, 0x9E6) || in_ten(x, 0xA66) || in_ten(x, 0xAE6) ||
    in_ten(x, 0xB66) || in_ten(x, 0xBE6) || in_ten(x, 0xC66) || in_ten(x, 0xCE6) ||
    in_ten(x, 0xD66) || in_ten(x, 0xDE6) || in_ten(x, 0xE50) || in_ten(x, 0xED0) ||
    in_ten(x, 0xF20) || in_ten(x, 0x1040) || in_ten(x, 0x1090) || in_ten(x, 0x17E0) ||
    in_ten(x, 0x1810) || in_ten(x, 0x1946) || in_ten(x, 0x19D0) || in_ten(x, 0x1A80) ||
    in_ten(x, 0x1A90) || in_ten(x, 0x1B50) || in_ten(x, 0x1BB0) || in_ten(x, 0x1C40) ||
    in_ten(x, 0x1C50) || in_ten(x, 0xA620) || in_ten(x, 0xA8D0) || in_ten(x, 0xA900) ||
    in_ten(x, 0xA9D0) || in_ten(x, 0xA9F0) || in_ten(x, 0xAA50) || in_ten(x, 0xABF0) ||
    in_ten(x, 0xFF10) || in_ten(x, 0x104A0) || in_ten(x, 0x10D30) || in_ten(x, 0x11066) ||
    in_ten(x, 0x110F0) || in_ten(x, 0x11136) || in_ten(x, 0x111D0) || in_ten(x, 0x112F0) ||
    in_ten(x, 0x11450) || in_ten(x, 0x114D0) || in_ten(x, 0x11650) || in_ten(x, 0x116C0) ||
    in_ten(x, 0x11730) || in_ten(x, 0x118E0) || in_ten(x, 0x11950) || in_ten(x, 0x11C50) ||
    in_ten(x, 0x11D50) || in_ten(x, 0x11DA0) || in_ten(x, 0x11F50) || in_ten(x, 0x16A60) ||
    in_ten(x, 0x16AC0) || in_ten(x, 0x16B50) || (0x1D7CE <= x && x <= 0x1D7FF) ||
    in_ten(x, 0x1E140) || in_ten(x, 0x1E2F0) || in_ten(x, 0x1E4F0) || in_ten(x, 0x1E950) ||
    in_ten(x, 0x1FBF0)
}

/// Whitespace: the Unicode White_Space characters, as the pattern class `\s`
/// reads it.
pub open spec fn is_space(c: char) -> bool {
    let x = c as u32;
    (0x09 <= x && x <= 0x0D) || x == 0x20 || x == 0x85 || x == 0xA0 || x == 0x1680 || (0x2000
        <= x && x <= 0x200A) || x == 0x2028 || x == 0x2029 || x == 0x202F || x == 0x205F || x
        == 0x3000
}

pub open spec fn in_class(k: CharClass, c: char) -> bool {
    match k {
        CharClass::Digit => is_digit(c),
        CharClass::Space => is_space(c),
        CharClass::NotQuote => c != '"',
    }
}

/// Length of the longest run of class `k` that starts at `j`.
pub open spec fn run_len(s: Seq<char>, j: int, k: CharClass) -> nat
    decreases s.len() - j,
{
    if 0 <= j < s.len() && in_class(k, s[j]) {
        1 + run_len(s, j + 1, k)
    } else {
        0
    }
}

/// `p` occurs in `s` at position `i`.
pub open spec fn occurs_at(s: Seq<char>, i: int, p: Seq<char>) -> bool {
    0 <= i && i + p.len() <= s.len() && s.subrange(i, i + p.len()) == p
}

/// The word "bug", in any mix of cases, at position `i`.
pub open spec fn bug_word_at(s: Seq<char>, i: int) -> bool {
    &&& 0 <= i && i + 3 <= s.len()
    &&& (s[i] == 'b' || s[i] == 'B')
    &&& (s[i + 1] == 'u' || s[i + 1] == 'U')
    &&& (s[i + 2] == 'g' || s[i + 2] == 'G')
}

/// The opening of a link into the issue tracker.
pub open spec fn link_open() -> Seq<char> {
    seq![
        '<', 'a', ' ', 'h', 'r', 'e', 'f', '=', '"', 'h', 't', 't', 'p', ':', '/', '/', 'b', 'u',
        'g', 'z', 'i', 'l', 'l', 'a',
    ]
}

/// The end of an HTML anchor.
pub open spec fn link_close() -> Seq<char> {
    seq!['<', '/', 'a', '>']
}

/// The end of an anchor's opening tag.
pub open spec fn tag_end() -> Seq<char> {
    seq!['"', '>']
}

/// What is put in front of a bare issue number.
pub open spec fn bug_prefix() -> Seq<char> {
    seq!['b', 'u', 'g', ' ']
}

/// End of the link target of an anchor that starts at `i`.
pub open spec fn link_quote(s: Seq<char>, i: int) -> int {
    i + 24 + run_len(s, i + 24, CharClass::NotQuote)
}

/// Start of the digits of an anchor that starts at `i`.
pub open spec fn link_digits_start(s: Seq<char>, i: int) -> int {
    link_quote(s, i) + 5 + run_len(s, link_quote(s, i) + 5, CharClass::Space)
}

/// End of the digits of an anchor that starts at `i`.
pub open spec fn link_digits_end(s: Seq<char>, i: int) -> int {
    link_digits_start(s, i) + run_len(s, link_digits_start(s, i), CharClass::Digit)
}

/// An issue link `<a href="http://bugzilla...">bug N</a>` starts at `i`.
pub open spec fn is_link_at(s: Seq<char>, i: int) -> bool {
    let q = link_quote(s, i);
    let w = link_digits_start(s, i);
    let d = link_digits_end(s, i);
    &&& occurs_at(s, i, link_open())
    &&& q > i + 24
    &&& occurs_at(s, q, tag_end())
    &&& bug_word_at(s, q + 2)
    &&& w > q + 5
    &&& d > w
    &&& occurs_at(s, d, link_close())
}

/// Step one of normalization, from position `i` on: each issue link is
/// replaced by its number.
pub open spec fn collapse_from(s: Seq<char>, i: int) -> Seq<char>
    decreases s.len() - i,
{
    if i < 0 || i >= s.len() {
        seq![]
    } else {
        if is_link_at(s, i) {
            s.subrange(link_digits_start(s, i), link_digits_end(s, i)) + collapse_from(
                s,
                link_digits_end(s, i) + 4,
            )
        } else {
            seq![s[i]] + collapse_from(s, i + 1)
        }
    }
}

/// Length of the run of whitespace that ends just before `i`.
pub open spec fn space_before(s: Seq<char>, i: int) -> nat
    decreases i,
{
    if 0 < i <= s.len() && is_space(s[i - 1]) {
        1 + space_before(s, i - 1)
    } else {
        0
    }
}

/// A run never reaches past the end of the text.
pub proof fn lemma_run_len_bound(s: Seq<char>, j: int, k: CharClass)
    requires
        0 <= j <= s.len(),
    ensures
        j + run_len(s, j, k) <= s.len(),
    decreases s.len() - j,
{
    if j < s.len() {
        lemma_run_len_bound(s, j + 1, k);
    }
}

#[via_fn]
proof fn wrap_from_decreases(s: Seq<char>, i: int) {
    if 0 <= i < s.len() {
        lemma_run_len_bound(s, i + 1, CharClass::Digit);
    }
}

#[via_fn]
proof fn refs_from_decreases(s: Seq<char>, i: int) {
    if 0 <= i < s.len() && bug_word_at(s, i) {
        lemma_run_len_bound(s, i + 3, CharClass::Space);
        lemma_run_len_bound(s, ref_digits_start(s, i), CharClass::Digit);
    }
}

/// Position `i` is preceded by "bug" (any case) and at least one whitespace.
pub open spec fn wrapped_at(s: Seq<char>, i: int) -> bool {
    let n = space_before(s, i);
    n > 0 && bug_word_at(s, i - n - 3)
}

/// Step two of normalization, from position `i` on: each run of five or
/// more digits that does not already follow "bug" gets "bug " in front.
pub open spec fn wrap_from(s: Seq<char>, i: int) -> Seq<char>
    decreases s.len() - i via wrap_from_decreases
{
    if i < 0 || i >= s.len() {
        seq![]
    } else if is_digit(s[i]) {
        let n = 1 + run_len(s, i + 1, CharClass::Digit);
        let run = s.subrange(i, i + n);
        if n >= 5 && !wrapped_at(s, i) {
            bug_prefix() + run + wrap_from(s, i + n)
        } else {
            run + wrap_from(s, i + n)
        }
    } else {
        seq![s[i]] + wrap_from(s, i + 1)
    }
}

/// Steps one and two.
pub open spec fn textify_spec(s: Seq<char>) -> Seq<char> {
    wrap_from(collapse_from(s, 0), 0)
}

/// What `char::to_uppercase` yields first for `c`.
pub uninterp spec fn upper_of(c: char) -> char;

pub open spec fn is_ascii_lower(c: char) -> bool {
    'a' <= c && c <= 'z'
}

/// The ASCII capital of an ASCII small letter.
pub open spec fn ascii_upper(c: char) -> char {
    ((c as u32) - 32) as char
}

/// On ASCII, upper-casing maps `a`..`z` to `A`..`Z` and keeps the rest.
pub open spec fn ascii_upper_case(c: char, u: char) -> bool {
    &&& is_ascii_lower(c) ==> u == ascii_upper(c)
    &&& (c as u32) < 128 && !is_ascii_lower(c) ==> u == c
}

/// The first character upper-cased, the others left alone.
pub open spec fn titlecase_spec(s: Seq<char>) -> Seq<char> {
    if s.len() == 0 {
        s
    } else {
        s.update(0, upper_of(s[0]))
    }
}

/// The whole normalization of a status text.
pub open spec fn normalize_spec(s: Seq<char>) -> Seq<char> {
    titlecase_spec(textify_spec(s))
}

/// Start of the digits of a reference that starts at `i`.
pub open spec fn ref_digits_start(s: Seq<char>, i: int) -> int {
    i + 3 + run_len(s, i + 3, CharClass::Space)
}

/// End of the digits of a reference that starts at `i`.
pub open spec fn ref_digits_end(s: Seq<char>, i: int) -> int {
    ref_digits_start(s, i) + run_len(s, ref_digits_start(s, i), CharClass::Digit)
}

/// A reference "bug N" (any case, at least one whitespace) starts at `i`.
pub open spec fn is_ref_at(s: Seq<char>, i: int) -> bool {
    &&& bug_word_at(s, i)
    &&& ref_digits_start(s, i) > i + 3
    &&& ref_digits_end(s, i) > ref_digits_start(s, i)
}

/// The issue numbers referenced from position `i` on, in order, repeats kept.
pub open spec fn refs_from(s: Seq<char>, i: int) -> Seq<Seq<char>>
    decreases s.len() - i via refs_from_decreases
{
    if i < 0 || i >= s.len() {
        seq![]
    } else {
        if is_ref_at(s, i) {
            seq![s.subrange(ref_digits_start(s, i), ref_digits_end(s, i))] + refs_from(
                s,
                ref_digits_end(s, i),
            )
        } else {
            refs_from(s, i + 1)
        }
    }
}

pub open spec fn refs_spec(s: Seq<char>) -> Seq<Seq<char>> {
    refs_from(s, 0)
}

/// Relies on `char::to_uppercase`: the first character of the upper-case
/// mapping, which depends on `c` alone. On ASCII it maps `a`..`z` to
/// `A`..`Z` and keeps every other character.
#[verifier::external_body]
fn upper_first(c: char) -> (r: char)
    ensures
        r == upper_of(c),
        is_ascii_lower(c) ==> r == ascii_upper(c),
        (c as u32) < 128 && !is_ascii_lower(c) ==> r == c,
{
    c.to_uppercase().next().unwrap_or(c)
}

/// Relies on `FromIterator<&char>` for `String`: the characters in order.
#[verifier::external_body]
pub(crate) fn string_of(v: &Vec<char>) -> (r: String)
    ensures
        r@ == v@,
{
    v.iter().collect()
}

pub(crate) fn chars_of(s: &str) -> (r: Vec<char>)
    ensures
        r@ == s@,
{
    let mut r: Vec<char> = Vec::new();
    for c in it: s.chars()
        invariant
            r@ == it.seq().subrange(0, it.index() as int),
    {
        r.push(c);
    }
    r
}

fn link_open_chars() -> (r: Vec<char>)
    ensures
        r@ == link_open(),
{
    let r = vec![
        '<', 'a', ' ', 'h', 'r', 'e', 'f', '=', '"', 'h', 't', 't', 'p', ':', '/', '/', 'b', 'u',
        'g', 'z', 'i', 'l', 'l', 'a',
    ];
    assert(r@ =~= link_open());
    r
}

fn link_close_chars() -> (r: Vec<char>)
    ensures
        r@ == link_close(),
{
    let r = vec!['<', '/', 'a', '>'];
    assert(r@ =~= link_close());
    r
}

fn tag_end_chars() -> (r: Vec<char>)
    ensures
        r@ == tag_end(),
{
    let r = vec!['"', '>'];
    assert(r@ =~= tag_end());
    r
}

fn ten(x: u32, zero: u32) -> (r: bool)
    requires
        zero <= 0x10FFF0,
    ensures
        r == in_ten(x, zero),
{
    zero <= x && x <= zero + 9
}

fn digit_char(c: char) -> (r: bool)
    ensures
        r == is_digit(c),
{
    let x = c as u32;
    ten(x, 0x30) || ten(x, 0x660) || ten(x, 0x6F0) || ten(x, 0x7C0) || ten(x, 0x966) ||
    ten(x, 0x9E6) || ten(x, 0xA66) || ten(x, 0xAE6) || ten(x, 0xB66) || ten(x, 0xBE6) ||
    ten(x, 0xC66) || ten(x, 0xCE6) || ten(x, 0xD66) || ten(x, 0xDE6) || ten(x, 0xE50) ||
    ten(x, 0xED0) || ten(x, 0xF20) || ten(x, 0x1040) || ten(x, 0x1090) || ten(x, 0x17E0) ||
    ten(x, 0x1810) || ten(x, 0x1946) || ten(x, 0x19D0) || ten(x, 0x1A80) || ten(x, 0x1A90) ||
    ten(x, 0x1B50) || ten(x, 0x1BB0) || ten(x, 0x1C40) || ten(x, 0x1C50) || ten(x, 0xA620) ||
    ten(x, 0xA8D0) || ten(x, 0xA900) || ten(x, 0xA9D0) || ten(x, 0xA9F0) || ten(x, 0xAA50) ||
    ten(x, 0xABF0) || ten(x, 0xFF10) || ten(x, 0x104A0) || ten(x, 0x10D30) ||
    ten(x, 0x11066) || ten(x, 0x110F0) || ten(x, 0x11136) || ten(x, 0x111D0) ||
    ten(x, 0x112F0) || ten(x, 0x11450) || ten(x, 0x114D0) || ten(x, 0x11650) ||
    ten(x, 0x116C0) || ten(x, 0x11730) || ten(x, 0x118E0) || ten(x, 0x11950) ||
    ten(x, 0x11C50) || ten(x, 0x11D50) || ten(x, 0x11DA0) || ten(x, 0x11F50) ||
    ten(x, 0x16A60) || ten(x, 0x16AC0) || ten(x, 0x16B50) || (0x1D7CE <= x && x <= 0x1D7FF) ||
    ten(x, 0x1E140) || ten(x, 0x1E2F0) || ten(x, 0x1E4F0) || ten(x, 0x1E950) || ten(x, 0x1FBF0)
}

fn space_char(c: char) -> (r: bool)
    ensures
        r == is_space(c),
{
    let x = c as u32;
    (0x09 <= x && x <= 0x0D) || x == 0x20 || x == 0x85 || x == 0xA0 || x == 0x1680 || (0x2000
        <= x && x <= 0x200A) || x == 0x2028 || x == 0x2029 || x == 0x202F || x == 0x205F || x
        == 0x3000
}

fn class_holds(k: CharClass, c: char) -> (r: bool)
    ensures
        r == in_class(k, c),
{
    match k {
        CharClass::Digit => digit_char(c),
        CharClass::Space => space_char(c),
        CharClass::NotQuote => c != '"',
    }
}

/// End of the run of class `k` that starts at `j`.
fn run_end(s: &Vec<char>, j: usize, k: CharClass) -> (r: usize)
    requires
        j <= s.len(),
    ensures
        r == j + run_len(s@, j as int, k),
        r <= s.len(),
{
    let mut e = j;
    while e < s.len() && class_holds(k, s[e])
        invariant
            j <= e <= s.len(),
            run_len(s@, j as int, k) == (e - j) + run_len(s@, e as int, k),
        decreases s.len() - e,
    {
        e = e + 1;
    }
    e
}

fn occurs(s: &Vec<char>, i: usize, p: &Vec<char>) -> (r: bool)
    ensures
        r == occurs_at(s@, i as int, p@),
{
    if i > s.len() || p.len() > s.len() - i {
        return false;
    }
    let mut k: usize = 0;
    while k < p.len()
        invariant
            i + p.len() <= s.len(),
            k <= p.len(),
            forall|m: int| 0 <= m < k ==> s@[i + m] == p@[m],
        decreases p.len() - k,
    {
        if s[i + k] != p[k] {
            assert(s@.subrange(i as int, i + p.len())[k as int] != p@[k as int]);
            return false;
        }
        k = k + 1;
    }
    assert(s@.subrange(i as int, i + p.len()) =~= p@);
    true
}

fn bug_word(s: &Vec<char>, i: usize) -> (r: bool)
    ensures
        r == bug_word_at(s@, i as int),
{
    i <= s.len() && s.len() - i >= 3 && (s[i] == 'b' || s[i] == 'B') && (s[i + 1] == 'u' || s[i
        + 1] == 'U') && (s[i + 2] == 'g' || s[i + 2] == 'G')
}

/// The characters of `s` from `a` up to `b`.
fn sub_chars(s: &Vec<char>, a: usize, b: usize) -> (r: Vec<char>)
    requires
        a <= b <= s.len(),
    ensures
        r@ == s@.subrange(a as int, b as int),
{
    let mut r: Vec<char> = Vec::new();
    let mut k = a;
    while k < b
        invariant
            a <= k <= b <= s.len(),
            r@ == s@.subrange(a as int, k as int),
        decreases b - k,
    {
        r.push(s[k]);
        assert(r@ =~= s@.subrange(a as int, k + 1));
        k = k + 1;
    }
    r
}

pub(crate) fn append_chars(out: &mut Vec<char>, v: &Vec<char>)
    ensures
        final(out)@ == old(out)@ + v@,
{
    let mut k: usize = 0;
    while k < v.len()
        invariant
            k <= v.len(),
            out@ == old(out)@ + v@.subrange(0, k as int),
        decreases v.len() - k,
    {
        out.push(v[k]);
        assert(v@.subrange(0, k + 1) =~= v@.subrange(0, k as int).push(v@[k as int]));
        k = k + 1;
    }
    assert(v@.subrange(0, v.len() as int) =~= v@);
}

/// The digits of an issue link that starts at `i`, if one does.
fn link_at(s: &Vec<char>, i: usize) -> (r: Option<(usize, usize)>)
    ensures
        r is Some <==> is_link_at(s@, i as int),
        r matches Some((w, d)) ==> w == link_digits_start(s@, i as int) && d == link_digits_end(
            s@,
            i as int,
        ),
{
    let open = link_open_chars();
    if !occurs(s, i, &open) {
        return None;
    }
    assert(open@.len() == 24);
    assert(occurs_at(s@, i as int, open@));
    assert(i + 24 <= s.len());
    let h = i + 24;
    let q = run_end(s, h, CharClass::NotQuote);
    if q == h || !occurs(s, q, &tag_end_chars()) || !bug_word(s, q + 2) {
        return None;
    }
    let w = run_end(s, q + 5, CharClass::Space);
    if w == q + 5 {
        return None;
    }
    let d = run_end(s, w, CharClass::Digit);
    if d == w || !occurs(s, d, &link_close_chars()) {
        return None;
    }
    Some((w, d))
}

fn collapse_links(s: &Vec<char>) -> (r: Vec<char>)
    ensures
        r@ == collapse_from(s@, 0),
{
    let mut out: Vec<char> = Vec::new();
    let mut i: usize = 0;
    while i < s.len()
        invariant
            i <= s.len(),
            collapse_from(s@, 0) == out@ + collapse_from(s@, i as int),
        decreases s.len() - i,
    {
        match link_at(s, i) {
            Some((w, d)) => {
                let digits = sub_chars(s, w, d);
                append_chars(&mut out, &digits);
                i = d + 4;
            },
            None => {
                out.push(s[i]);
                i = i + 1;
            },
        }
    }
    assert(out@ =~= out@ + collapse_from(s@, i as int));
    out
}

/// Whether the run at `i` already follows "bug" and whitespace.
fn wrapped(s: &Vec<char>, i: usize) -> (r: bool)
    requires
        i <= s.len(),
    ensures
        r == wrapped_at(s@, i as int),
{
    let mut m = i;
    while m > 0 && class_holds(CharClass::Space, s[m - 1])
        invariant
            m <= i <= s.len(),
            space_before(s@, i as int) == (i - m) + space_before(s@, m as int),
        decreases m,
    {
        m = m - 1;
    }
    m < i && m >= 3 && bug_word(s, m - 3)
}

fn wrap_numbers(s: &Vec<char>) -> (r: Vec<char>)
    ensures
        r@ == wrap_from(s@, 0),
{
    let mut out: Vec<char> = Vec::new();
    let mut i: usize = 0;
    while i < s.len()
        invariant
            i <= s.len(),
            wrap_from(s@, 0) == out@ + wrap_from(s@, i as int),
        decreases s.len() - i,
    {
        if class_holds(CharClass::Digit, s[i]) {
            let e = run_end(s, i + 1, CharClass::Digit);
            if e - i >= 5 && !wrapped(s, i) {
                out.push('b');
                out.push('u');
                out.push('g');
                out.push(' ');
            }
            let digits = sub_chars(s, i, e);
            append_chars(&mut out, &digits);
            i = e;
        } else {
            out.push(s[i]);
            i = i + 1;
        }
    }
    assert(out@ =~= out@ + wrap_from(s@, i as int));
    out
}

/// Upper-cases the first character of `input` and keeps the rest.
pub fn titlecase(input: &str) -> (r: String)
    ensures
        r@ == titlecase_spec(input@),
        input@.len() > 0 ==> ascii_upper_case(input@[0], r@[0]),
{
    let mut v = chars_of(input);
    if v.len() > 0 {
        let c = upper_first(v[0]);
        v.set(0, c);
    }
    proof {
        if v.len() > 0 {
            assert(v@ =~= titlecase_spec(input@));
        }
    }
    string_of(&v)
}

/// Steps one and two of normalization: issue links become bare numbers, and
/// bare numbers of five or more digits get "bug " in front.
pub fn textify(maybe_html: &str) -> (r: String)
    ensures
        r@ == textify_spec(maybe_html@),
{
    let s = chars_of(maybe_html);
    let collapsed = collapse_links(&s);
    let wrapped = wrap_numbers(&collapsed);
    string_of(&wrapped)
}

/// The normalized form of a status text.
pub fn normalize(content: &str) -> (r: String)
    ensures
        r@ == normalize_spec(content@),
        textify_spec(content@).len() > 0 ==> ascii_upper_case(textify_spec(content@)[0], r@[0]),
{
    let t = textify(content);
    titlecase(t.as_str())
}

/// The issue numbers that `input` references as "bug N", in order of
/// occurrence, repeats kept.
pub fn extract_bug_numbers(input: &str) -> (r: Vec<String>)
    ensures
        r@.map_values(|x: String| x@) == refs_spec(input@),
{
    let s = chars_of(input);
    let mut out: Vec<String> = Vec::new();
    let mut i: usize = 0;
    while i < s.len()
        invariant
            i <= s.len(),
            s@ == input@,
            refs_spec(input@) == out@.map_values(|x: String| x@) + refs_from(s@, i as int),
        decreases s.len() - i,
    {
        if bug_word(&s, i) {
            let w = run_end(&s, i + 3, CharClass::Space);
            let d = run_end(&s, w, CharClass::Digit);
            if w > i + 3 && d > w {
                let digits = sub_chars(&s, w, d);
                let id = string_of(&digits);
                let ghost before = out@.map_values(|x: String| x@);
                out.push(id);
                assert(out@.map_values(|x: String| x@) =~= before.push(id@));
                i = d;
            } else {
                i = i + 1;
            }
        } else {
            i = i + 1;
        }
    }
    assert(out@.map_values(|x: String| x@) =~= out@.map_values(|x: String| x@) + refs_from(
        s@,
        i as int,
    ));
    out
}

} // verus!
