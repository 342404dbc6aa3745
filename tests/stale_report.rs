use branch_hygiene::age::{
    branch_record, commit_instant, cutoff_instant, extract_timestamp, is_stale, select_stale,
};
use branch_hygiene::filter::{filter_excluded, is_excluded, BranchRecord};
use branch_hygiene::listing::parse_branch_list;
use branch_hygiene::render::{render_report, stale_report};
use branch_hygiene::report::{group_by_author, order_by_count, AuthorGroup};

const JAN_1_2023: i64 = 1672531200;
const FEB_1_2023: i64 = 1675209600;

fn strings(v: &[&str]) -> Vec<String> {
    v.iter().map(|s| s.to_string()).collect()
}

fn rec(name: &str, author: &str, committed: i64) -> BranchRecord {
    BranchRecord { name: name.to_string(), author: author.to_string(), committed }
}

fn names(rs: &[BranchRecord]) -> Vec<String> {
    rs.iter().map(|r| r.name.clone()).collect()
}

#[test]
fn listing_drops_head_pointer_and_blanks() {
    let text = "  origin/HEAD -> origin/main\n  origin/main\n\n  origin/feature-x  \n";
    assert_eq!(parse_branch_list(text), strings(&["origin/main", "origin/feature-x"]));
    assert_eq!(parse_branch_list(""), Vec::<String>::new());
    assert_eq!(parse_branch_list("origin/a"), strings(&["origin/a"]));
}

#[test]
fn exclusion_is_prefix_and_case_sensitive() {
    let ex = strings(&["origin/release", "origin/wip-"]);
    assert!(is_excluded("origin/release-1.0", &ex));
    assert!(is_excluded("  origin/wip-x", &ex));
    assert!(!is_excluded("origin/Release-1.0", &ex));
    assert!(!is_excluded("upstream/origin/release", &ex));
    assert!(!is_excluded("origin/release", &Vec::new()));
}

#[test]
fn exclusion_filter_twice_equals_once() {
    let list = strings(&["origin/a", "origin/tmp-1", "origin/b", "origin/tmp-2", "origin/c"]);
    let ex = strings(&["origin/tmp-"]);
    let once = filter_excluded(&list, &ex);
    assert_eq!(once, strings(&["origin/a", "origin/b", "origin/c"]));
    assert_eq!(filter_excluded(&once, &ex), once);
    assert_eq!(filter_excluded(&list, &Vec::new()), list);
}

#[test]
fn timestamp_is_first_line_unquoted() {
    assert_eq!(
        extract_timestamp("\"2023-01-01 00:00:00 +0000\"\nmore\n"),
        "2023-01-01 00:00:00 +0000"
    );
    assert_eq!(extract_timestamp("  2023-01-01 00:00:00 +0000\n"), "2023-01-01 00:00:00 +0000");
}

#[test]
fn timestamp_parses_to_utc_seconds() {
    assert_eq!(commit_instant("\"2023-01-01 00:00:00 +0000\"\n"), Ok(JAN_1_2023));
    assert_eq!(commit_instant("2023-01-01 01:00:00 +0100"), Ok(JAN_1_2023));
    assert_eq!(commit_instant("2022-12-31 19:00:00 -0500\n"), Ok(JAN_1_2023));
}

#[test]
fn malformed_timestamp_is_an_error() {
    let e = commit_instant("yesterday\n").unwrap_err();
    assert_eq!(e.text, "yesterday");
    assert!(commit_instant("2023-01-01T00:00:00Z").is_err());
}

#[test]
fn cutoff_is_days_before_now() {
    assert_eq!(cutoff_instant(FEB_1_2023, 30), Some(FEB_1_2023 - 30 * 86400));
    assert_eq!(cutoff_instant(FEB_1_2023, 0), Some(FEB_1_2023));
    assert_eq!(cutoff_instant(0, -1), Some(86400));
    assert_eq!(cutoff_instant(i64::MIN, 1), None);
    assert_eq!(cutoff_instant(0, i64::MAX), None);
}

#[test]
fn thirty_one_day_old_commit_is_stale() {
    let t = commit_instant("\"2023-01-01 00:00:00 +0000\"").unwrap();
    let cutoff = cutoff_instant(FEB_1_2023, 30).unwrap();
    assert!(is_stale(t, cutoff));
    assert!(!is_stale(cutoff, cutoff));
    assert!(!is_stale(FEB_1_2023, cutoff));
}

#[test]
fn branch_record_reads_both_outputs() {
    let r = branch_record("origin/x", "2023-01-01 00:00:00 +0000\n", "Alice \n").unwrap();
    assert_eq!(r.name, "origin/x");
    assert_eq!(r.author, "Alice ");
    assert_eq!(r.committed, JAN_1_2023);
    assert!(branch_record("origin/x", "bad", "Alice\n").is_err());
}

#[test]
fn older_cutoff_keeps_subset() {
    let rs = vec![rec("a", "A", 100), rec("b", "B", 200), rec("c", "C", 300)];
    let early = select_stale(&rs, 201);
    let late = select_stale(&rs, 301);
    assert_eq!(names(&early), strings(&["a", "b"]));
    assert_eq!(names(&late), strings(&["a", "b", "c"]));
    assert!(names(&early).iter().all(|n| names(&late).contains(n)));
    assert_eq!(names(&select_stale(&rs, 100)), Vec::<String>::new());
}

#[test]
fn grouping_keeps_processing_order() {
    let rs = vec![
        rec("b1", "Bob", 1),
        rec("a1", "Alice", 1),
        rec("b2", "Bob", 1),
        rec("a2", "Alice", 1),
    ];
    let g = group_by_author(&rs);
    assert_eq!(g.len(), 2);
    assert_eq!(g[0].author, "Bob");
    assert_eq!(g[0].branches, strings(&["b1", "b2"]));
    assert_eq!(g[1].author, "Alice");
    assert_eq!(g[1].branches, strings(&["a1", "a2"]));
    let sum: usize = g.iter().map(|x| x.count()).sum();
    assert_eq!(sum, rs.len());
}

#[test]
fn ordering_puts_larger_groups_first_ties_by_first_appearance() {
    let g = vec![
        AuthorGroup { author: "Carol".to_string(), branches: strings(&["c1"]) },
        AuthorGroup { author: "Bob".to_string(), branches: strings(&["b1", "b2"]) },
        AuthorGroup { author: "Dan".to_string(), branches: strings(&["d1"]) },
    ];
    let o = order_by_count(&g);
    let authors: Vec<&str> = o.iter().map(|x| x.author.as_str()).collect();
    assert_eq!(authors, vec!["Bob", "Carol", "Dan"]);
}

#[test]
fn empty_report_is_one_sentence() {
    let r = stale_report(&Vec::new(), FEB_1_2023, 30);
    assert_eq!(r, "No Branches were found older than 30 days with the given criteria.\n");
    let rs = vec![rec("x", "A", FEB_1_2023)];
    assert_eq!(
        stale_report(&rs, FEB_1_2023, 30),
        "No Branches were found older than 30 days with the given criteria.\n"
    );
}

#[test]
fn alice_before_bob_by_count() {
    let rs = vec![
        rec("origin/b1", "Bob", 10),
        rec("origin/a1", "Alice", 10),
        rec("origin/a2", "Alice", 20),
        rec("origin/a3", "Alice", 30),
        rec("origin/new", "Alice", 5000),
    ];
    let r = stale_report(&rs, 1000, 30);
    let expected = "Found a total of 4 branches older than 30 days with the given criteria\n\n\
Alice\t3 old branches\torigin/a1, origin/a2, origin/a3\n\
Bob  \t1 old branches\torigin/b1\n";
    assert_eq!(r, expected);
}

#[test]
fn report_counts_every_stale_branch() {
    let rs = vec![
        rec("p", "Pat", 1),
        rec("q", "Quinn", 2),
        rec("r", "Pat", 3),
        rec("s", "Sam", 4),
        rec("t", "Quinn", 5),
    ];
    let groups = order_by_count(&group_by_author(&select_stale(&rs, 100)));
    let sum: usize = groups.iter().map(|g| g.count()).sum();
    assert_eq!(sum, 5);
    let r = render_report(&groups, 7);
    assert!(r.starts_with("Found a total of 5 branches older than 7 days"));
    assert_eq!(r.lines().count(), 2 + groups.len());
}

#[test]
fn report_handles_negative_and_large_numbers() {
    let g = vec![AuthorGroup {
        author: "Zed".to_string(),
        branches: (0..12).map(|i| format!("b{}", i)).collect(),
    }];
    let r = render_report(&g, -5);
    assert!(r.starts_with("Found a total of 12 branches older than -5 days with the given criteria\n\n"));
    assert!(r.contains("Zed\t12 old branches\tb0, b1, "));
    let empty = render_report(&Vec::new(), i64::MIN);
    assert_eq!(
        empty,
        "No Branches were found older than -9223372036854775808 days with the given criteria.\n"
    );
}
