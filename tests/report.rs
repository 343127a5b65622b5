use standups_weekly::order::text_less;
use standups_weekly::render::{
    bug_ids, extract_bug_details, issue_lines, lines_mentioning, mentions, plain_section,
    report_trailer, wiki_section,
};
use standups_weekly::report::{aggregate, authors, report_for, StatusEntry};

fn entry(author: &str, content: &str) -> StatusEntry {
    StatusEntry::new(author.to_string(), content.to_string())
}

fn strings(v: &[&str]) -> Vec<String> {
    v.iter().map(|s| s.to_string()).collect()
}

#[test]
fn identical_contents_give_one_line() {
    let es = vec![entry("ann", "fixed bug 12345"), entry("ann", "Fixed bug 12345"), entry("ann", "fixed 12345")];
    let r = report_for(&es, &"ann".to_string());
    assert_eq!(r.lines, strings(&["Fixed bug 12345"]));
}

#[test]
fn lines_sorted_after_normalizing() {
    let es = vec![entry("ann", "zeta"), entry("ann", "alpha")];
    let r = aggregate(&es);
    assert_eq!(r.len(), 1);
    assert_eq!(r[0].author, "ann");
    assert_eq!(r[0].lines, strings(&["Alpha", "Zeta"]));
}

#[test]
fn capitals_sort_before_lower_case() {
    assert!(text_less("Zeta", "alpha"));
    assert!(!text_less("alpha", "Zeta"));
    assert!(text_less("ab", "abc"));
    assert!(!text_less("abc", "abc"));
    assert!(text_less("100000", "99999"));
}

#[test]
fn authors_grouped_and_sorted() {
    let es = vec![entry("zed", "one"), entry("amy", "two"), entry("zed", "three")];
    assert_eq!(authors(&es), strings(&["amy", "zed"]));
    let r = aggregate(&es);
    assert_eq!(r.len(), 2);
    assert_eq!(r[0].author, "amy");
    assert_eq!(r[0].lines, strings(&["Two"]));
    assert_eq!(r[1].author, "zed");
    assert_eq!(r[1].lines, strings(&["One", "Three"]));
    assert!(aggregate(&Vec::new()).is_empty());
}

#[test]
fn plain_section_end_to_end() {
    let es = vec![entry("bob", "fixed bug 54321 today")];
    let r = aggregate(&es);
    assert_eq!(r.len(), 1);
    let ids = bug_ids(&r[0].lines);
    assert_eq!(ids, strings(&["54321"]));
    let details = extract_bug_details(&ids, &strings(&["Crash on start"]));
    assert_eq!(details, strings(&["https://bugzil.la/54321 Crash on start"]));
    let text = plain_section(&r[0], &details);
    assert_eq!(
        text,
        "\n## bob ##\n  * Fixed bug 54321 today\n\n  * https://bugzil.la/54321 Crash on start\n"
    );
}

#[test]
fn plain_section_without_issues_has_no_blank_line() {
    let es = vec![entry("amy", "did reviews")];
    let r = aggregate(&es);
    let ids = bug_ids(&r[0].lines);
    assert!(ids.is_empty());
    let details = extract_bug_details(&ids, &Vec::new());
    assert_eq!(plain_section(&r[0], &details), "\n## amy ##\n  * Did reviews\n");
}

#[test]
fn wiki_leaves_out_lines_without_issues() {
    let es = vec![entry("amy", "did reviews")];
    let r = aggregate(&es);
    let groups = issue_lines(&r[0].lines);
    assert!(groups.is_empty());
    assert_eq!(wiki_section(&r[0].author, &groups, &Vec::new()), "\n== amy ==\n");
    assert_eq!(plain_section(&r[0], &Vec::new()), "\n## amy ##\n  * Did reviews\n");
}

#[test]
fn wiki_groups_lines_by_issue() {
    let es = vec![
        entry("cy", "bug 2 and bug 10"),
        entry("cy", "more on bug 2"),
        entry("cy", "lunch"),
    ];
    let r = report_for(&es, &"cy".to_string());
    assert_eq!(r.lines, strings(&["Bug 2 and bug 10", "Lunch", "More on bug 2"]));
    let groups = issue_lines(&r.lines);
    assert_eq!(groups.len(), 2);
    assert_eq!(groups[0].id, "10");
    assert_eq!(groups[0].lines, strings(&["Bug 2 and bug 10"]));
    assert_eq!(groups[1].id, "2");
    assert_eq!(groups[1].lines, strings(&["Bug 2 and bug 10", "More on bug 2"]));
    let text = wiki_section(&r.author, &groups, &strings(&["Ten", "Two"]));
    assert_eq!(
        text,
        "\n== cy ==\n* {{10}} Ten\n** Bug 2 and bug 10\n* {{2}} Two\n** Bug 2 and bug 10\n** More on bug 2\n"
    );
}

#[test]
fn issue_ids_distinct_and_sorted_as_text() {
    let lines = strings(&["Bug 99999 and bug 100000", "Bug 99999 again"]);
    assert_eq!(bug_ids(&lines), strings(&["100000", "99999"]));
}

#[test]
fn details_line_per_issue() {
    let ids = strings(&["1", "22"]);
    let sums = strings(&["One", "Two two"]);
    assert_eq!(
        extract_bug_details(&ids, &sums),
        strings(&["https://bugzil.la/1 One", "https://bugzil.la/22 Two two"])
    );
}

#[test]
fn mentions_and_lines_mentioning() {
    assert!(mentions(&"Bug 12 done".to_string(), &"12".to_string()));
    assert!(!mentions(&"Bug 123 done".to_string(), &"12".to_string()));
    let lines = strings(&["Bug 1", "Bug 2", "Bug 1 and bug 2"]);
    assert_eq!(lines_mentioning(&lines, &"1".to_string()), strings(&["Bug 1", "Bug 1 and bug 2"]));
}

#[test]
fn trailers() {
    assert_eq!(
        report_trailer(false),
        "\n\n\nThis report is automatically generated by https://github.com/kanru/standups_weekly\n"
    );
    assert_eq!(
        report_trailer(true),
        "\n\n<small>\nThis report is automatically generated by https://github.com/kanru/standups_weekly\n</small>\n"
    );
}
