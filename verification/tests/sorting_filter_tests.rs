// The entry filter and the sort policy

use glob::Pattern;
use rust_tree::rust_tree::entry::{Entry, EntryKind, Timestamp};
use rust_tree::rust_tree::filter::{decide_skip, hidden_check, should_skip_entry, skip_name};
use rust_tree::rust_tree::options::TreeOptions;
use rust_tree::rust_tree::sorting::{entry_le_check, sort_entries, sort_entries_group};
use rust_tree::rust_tree::traversal::{arrange, level_allows_check, over_limit_check};

fn default_options() -> TreeOptions {
    TreeOptions {
        all_files: false,
        level: None,
        full_path: false,
        dir_only: false,
        no_indent: false,
        print_size: false,
        human_readable: false,
        pattern_glob: None,
        exclude_pattern: None,
        color: false,
        no_color: false,
        ascii: false,
        sort_by_time: false,
        reverse: false,
        print_mod_date: false,
        output_file: None,
        file_limit: None,
        dirs_first: false,
        classify: false,
        no_report: false,
        print_permissions: false,
        from_file: false,
    }
}

fn file(name: &str, secs: Option<i64>) -> Entry {
    Entry {
        name: name.to_string(),
        path: name.to_string(),
        kind: EntryKind::File,
        target_is_dir: false,
        size: Some(1),
        modified: secs.map(|s| Timestamp { secs: s, nanos: 0 }),
        mode: None,
        executable: false,
    }
}

fn dir(name: &str, secs: Option<i64>) -> Entry {
    Entry { kind: EntryKind::Directory, target_is_dir: true, ..file(name, secs) }
}

fn names(entries: &[Entry]) -> Vec<String> {
    entries.iter().map(|e| e.name.clone()).collect()
}

#[test]
fn hidden_names_begin_with_a_dot() {
    assert!(hidden_check(".git"));
    assert!(hidden_check("."));
    assert!(!hidden_check("a.b"));
    assert!(!hidden_check(""));
}

#[test]
fn the_first_rule_that_applies_decides() {
    let mut o = default_options();
    // hidden
    assert!(decide_skip(&o, true, false, false, false));
    assert!(decide_skip(&o, true, true, false, true));
    assert!(!decide_skip(&o, false, false, false, false));
    o.all_files = true;
    assert!(!decide_skip(&o, true, false, false, false));
    // the answers of patterns that are not set do not count
    assert!(!decide_skip(&o, false, false, true, false));
    // exclusion wins over inclusion
    o.exclude_pattern = Some(Pattern::new("*").unwrap());
    o.pattern_glob = Some(Pattern::new("*").unwrap());
    assert!(decide_skip(&o, false, false, true, true));
    assert!(decide_skip(&o, false, true, true, true));
    assert!(!decide_skip(&o, false, false, false, true));
    // files that the include pattern does not match go, directories stay
    assert!(decide_skip(&o, false, false, false, false));
    assert!(!decide_skip(&o, false, true, false, false));
    // directories only
    o.dir_only = true;
    assert!(decide_skip(&o, false, false, false, true));
    assert!(!decide_skip(&o, false, true, false, true));
}

#[test]
fn the_filter_asks_the_patterns() {
    let mut o = default_options();
    o.pattern_glob = Some(Pattern::new("*.rs").unwrap());
    assert!(!should_skip_entry(&file("main.rs", None), &o, 0));
    assert!(should_skip_entry(&file("main.txt", None), &o, 3));
    assert!(!should_skip_entry(&dir("docs", None), &o, 0));
    assert!(should_skip_entry(&file(".hidden.rs", None), &o, 0));

    o.exclude_pattern = Some(Pattern::new("ma?n.*").unwrap());
    assert!(should_skip_entry(&file("main.rs", None), &o, 0));
    assert!(!should_skip_entry(&file("lib.rs", None), &o, 0));
    o.exclude_pattern = Some(Pattern::new("docs").unwrap());
    assert!(should_skip_entry(&dir("docs", None), &o, 0));

    // a link to a directory counts as a directory for the filter
    let mut link = file("link", None);
    link.kind = EntryKind::Symlink;
    assert!(should_skip_entry(&link, &o, 0));
    link.target_is_dir = true;
    assert!(!should_skip_entry(&link, &o, 0));

    assert!(skip_name(&o, "notes.txt", false));
    assert!(!skip_name(&o, "notes.txt", true));
}

#[test]
fn names_are_ordered_byte_by_byte() {
    let le = |a: &str, b: &str| entry_le_check(&file(a, None), &file(b, None), false);
    assert!(le("a", "b") && !le("b", "a"));
    assert!(le("a", "a"));
    assert!(le("a", "ab") && !le("ab", "a"));
    assert!(le("", "a") && !le("a", ""));
    assert!(le("Z", "a") && !le("a", "Z"));
    assert!(le("z", "é") && !le("é", "z"));
    assert!(le("file10", "file2"));
}

#[test]
fn times_are_ordered_before_names() {
    let old = file("z", Some(10));
    let new = file("a", Some(20));
    assert!(entry_le_check(&old, &new, true));
    assert!(!entry_le_check(&new, &old, true));
    assert!(entry_le_check(&new, &old, false));
    // equal times: the names decide
    assert!(entry_le_check(&file("a", Some(5)), &file("b", Some(5)), true));
    assert!(!entry_le_check(&file("b", Some(5)), &file("a", Some(5)), true));
    // nanoseconds count
    let mut early = file("b", Some(5));
    early.modified = Some(Timestamp { secs: 5, nanos: 1 });
    let mut late = file("a", Some(5));
    late.modified = Some(Timestamp { secs: 5, nanos: 2 });
    assert!(entry_le_check(&early, &late, true));
    assert!(!entry_le_check(&late, &early, true));
    // an entry without a time is older than any time
    assert!(entry_le_check(&file("z", None), &file("a", Some(-1_000_000)), true));
    assert!(!entry_le_check(&file("a", Some(i64::MIN + 1)), &file("z", None), true));
}

#[test]
fn sorting_by_name() {
    let input = vec![file("pear", None), dir("apple", None), file("Zebra", None), file("fig", None)];
    let sorted = sort_entries(&input, &default_options());
    assert_eq!(names(&sorted), vec!["Zebra", "apple", "fig", "pear"]);
    assert_eq!(names(&sort_entries_group(&input, false)), vec!["Zebra", "apple", "fig", "pear"]);
    assert!(sort_entries(&vec![], &default_options()).is_empty());
}

#[test]
fn sorting_by_time_with_ties_broken_by_name() {
    let input = vec![
        file("d", Some(30)),
        file("c", Some(10)),
        file("b", Some(30)),
        file("a", None),
        file("e", Some(20)),
    ];
    let mut o = default_options();
    o.sort_by_time = true;
    assert_eq!(names(&sort_entries(&input, &o)), vec!["a", "c", "e", "b", "d"]);
    o.reverse = true;
    assert_eq!(names(&sort_entries(&input, &o)), vec!["d", "b", "e", "c", "a"]);
}

#[test]
fn directories_first_and_reversed() {
    let input = vec![
        file("b.txt", Some(1)),
        dir("zeta", Some(9)),
        file("a.txt", Some(2)),
        dir("alpha", Some(8)),
    ];
    let mut o = default_options();
    o.dirs_first = true;
    assert_eq!(names(&sort_entries(&input, &o)), vec!["alpha", "zeta", "a.txt", "b.txt"]);
    o.sort_by_time = true;
    assert_eq!(names(&sort_entries(&input, &o)), vec!["alpha", "zeta", "b.txt", "a.txt"]);
    // the whole list is turned round, so the directories come last
    o.reverse = true;
    assert_eq!(names(&sort_entries(&input, &o)), vec!["a.txt", "b.txt", "zeta", "alpha"]);
}

#[test]
fn entries_that_compare_equal_keep_their_order() {
    let mut first = file("same", Some(1));
    first.size = Some(100);
    let mut second = file("same", Some(1));
    second.size = Some(200);
    let sorted = sort_entries(&vec![first, file("a", Some(1)), second], &default_options());
    assert_eq!(names(&sorted), vec!["a", "same", "same"]);
    assert_eq!(sorted[1].size, Some(100));
    assert_eq!(sorted[2].size, Some(200));
}

#[test]
fn the_arrangement_does_not_go_by_the_order_of_reading() {
    let one = vec![
        file("b", Some(3)),
        dir("x", Some(1)),
        file(".hidden", Some(2)),
        file("a", Some(3)),
        dir("c", None),
    ];
    let mut other: Vec<Entry> = one.iter().rev().cloned().collect();
    other.swap(1, 3);
    for sort_by_time in [false, true] {
        for dirs_first in [false, true] {
            for reverse in [false, true] {
                let mut o = default_options();
                o.sort_by_time = sort_by_time;
                o.dirs_first = dirs_first;
                o.reverse = reverse;
                let left = arrange(&one, &o);
                let right = arrange(&other, &o);
                assert_eq!(names(&left), names(&right));
                assert_eq!(left.len(), 4);
            }
        }
    }
}

#[test]
fn depth_and_fan_out_limits() {
    let mut o = default_options();
    assert!(level_allows_check(&o, 0));
    assert!(level_allows_check(&o, usize::MAX));
    assert!(!over_limit_check(&o, u64::MAX));
    o.level = Some(0);
    assert!(!level_allows_check(&o, 0));
    o.level = Some(1);
    assert!(!level_allows_check(&o, 0));
    o.level = Some(2);
    assert!(level_allows_check(&o, 0));
    assert!(!level_allows_check(&o, 1));
    o.level = Some(u32::MAX);
    assert!(level_allows_check(&o, 4294967293));
    assert!(!level_allows_check(&o, 4294967294));
    o.file_limit = Some(3);
    assert!(!over_limit_check(&o, 3));
    assert!(over_limit_check(&o, 4));
    o.file_limit = Some(0);
    assert!(!over_limit_check(&o, 0));
    assert!(over_limit_check(&o, 1));
}
