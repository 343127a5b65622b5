use standups_weekly::text::{extract_bug_numbers, normalize, textify, titlecase};

#[test]
fn titlecase_upper_cases_first_char_only() {
    assert_eq!(titlecase("zeta alpha"), "Zeta alpha");
    assert_eq!(titlecase("already Up"), "Already Up");
    assert_eq!(titlecase(""), "");
    assert_eq!(titlecase("élan"), "Élan");
    assert_eq!(titlecase("1 thing"), "1 thing");
}

#[test]
fn four_digit_number_stays_bare() {
    assert_eq!(textify("1234"), "1234");
    assert_eq!(normalize("1234"), "1234");
}

#[test]
fn five_digit_number_becomes_bug_reference() {
    assert_eq!(textify("12345"), "bug 12345");
    assert_eq!(normalize("12345"), "Bug 12345");
    assert_eq!(textify("see 1234567 now"), "see bug 1234567 now");
}

#[test]
fn already_wrapped_number_is_kept() {
    assert_eq!(textify("fixed bug 54321 today"), "fixed bug 54321 today");
    assert_eq!(textify("Bug\t54321"), "Bug\t54321");
    assert_eq!(textify("bug54321"), "bugbug 54321");
    assert_eq!(textify("bugbug 54321"), "bugbug 54321");
}

#[test]
fn issue_link_collapses_to_number() {
    let html = "<a href=\"http://bugzilla.mozilla.org/show_bug.cgi?id=123\">Bug 123</a> fixed";
    assert_eq!(textify(html), "123 fixed");
    let html = "landed <a href=\"http://bugzilla.mozilla.org/show_bug.cgi?id=12345\">bug  12345</a>";
    assert_eq!(textify(html), "landed bug 12345");
    assert_eq!(normalize(html), "Landed bug 12345");
    let html = "<a href=\"http://bugzilla.mozilla.org/x\">BUG 777</a>";
    assert_eq!(textify(html), "777");
}

#[test]
fn other_links_are_left_alone() {
    let html = "<a href=\"http://example.org/x\">bug 123</a>";
    assert_eq!(textify(html), html);
    let html = "<a href=\"http://bugzilla.mozilla.org/x\">issue 123</a>";
    assert_eq!(textify(html), html);
}

#[test]
fn normalizing_twice_changes_nothing() {
    let inputs = [
        "fixed bug 54321 today",
        "12345",
        "1234",
        "numbers 123456 and 98765 and bug 11111",
        "<a href=\"http://bugzilla.mozilla.org/show_bug.cgi?id=12345\">Bug 12345</a> landed",
        "",
    ];
    for s in inputs.iter() {
        let once = normalize(s);
        assert_eq!(normalize(&once), once);
        let t = textify(s);
        assert_eq!(textify(&t), t);
    }
}

#[test]
fn case_of_bug_word_does_not_matter() {
    let lower = extract_bug_numbers(&normalize("bug 123 fixed"));
    let upper = extract_bug_numbers(&normalize("Bug 123 fixed"));
    assert_eq!(lower, vec!["123".to_string()]);
    assert_eq!(upper, vec!["123".to_string()]);
}

#[test]
fn references_in_order_with_repeats() {
    let ids = extract_bug_numbers("bug 2 and Bug 1 and BUG\n2, not bug x or bug");
    assert_eq!(ids, vec!["2".to_string(), "1".to_string(), "2".to_string()]);
    assert!(extract_bug_numbers("nothing here 12345").is_empty());
    assert_eq!(extract_bug_numbers("debug 42"), vec!["42".to_string()]);
}

#[test]
fn unicode_whitespace_after_bug_word() {
    assert_eq!(extract_bug_numbers("bug\u{a0}7"), vec!["7".to_string()]);
    assert_eq!(extract_bug_numbers("Bug\u{3000}\u{2009}42 done"), vec!["42".to_string()]);
    assert_eq!(textify("bug\u{a0}54321"), "bug\u{a0}54321");
    assert!(extract_bug_numbers("bug\u{1c}7").is_empty());
}

#[test]
fn unicode_digits_count_as_digits() {
    assert_eq!(textify("\u{661}\u{662}\u{663}\u{664}\u{665}"), "bug \u{661}\u{662}\u{663}\u{664}\u{665}");
    assert_eq!(textify("\u{661}\u{662}\u{663}\u{664}"), "\u{661}\u{662}\u{663}\u{664}");
    assert_eq!(extract_bug_numbers("bug \u{FF11}\u{FF12}"), vec!["\u{FF11}\u{FF12}".to_string()]);
    assert_eq!(textify("x 1234\u{1D7CE}"), "x bug 1234\u{1D7CE}");
}

#[test]
fn leading_bug_case_gives_same_ids() {
    let rest = "ug 7 and <a href=\"http://bugzilla.mozilla.org/x\">bug 12345</a>, 654321";
    let lower = format!("b{}", rest);
    let upper = format!("B{}", rest);
    let ids = vec!["7".to_string(), "12345".to_string(), "654321".to_string()];
    assert_eq!(extract_bug_numbers(&textify(&lower)), ids);
    assert_eq!(extract_bug_numbers(&textify(&upper)), ids);
    assert_eq!(extract_bug_numbers(&normalize(&lower)), ids);
    assert_eq!(extract_bug_numbers(&normalize(&upper)), ids);
}
