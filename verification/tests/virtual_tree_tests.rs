// The walk over a virtual tree

use glob::Pattern;
use rust_tree::rust_tree::fromfile::{
    build_virtual_tree, parse_file_listing, parse_tar_listing, FileEntry,
};
use rust_tree::rust_tree::options::TreeOptions;
use rust_tree::rust_tree::virtual_tree::{
    children, count_lines, display_virtual_entries, display_virtual_entry, display_virtual_tree,
    should_skip_virtual_entry, to_entry, TreeLine,
};

fn default_options() -> TreeOptions {
    TreeOptions {
        all_files: false,
        level: None,
        full_path: false,
        dir_only: false,
        no_indent: false,
        print_size: false,
        human_readable: false,
        pattern_glob: None,
        exclude_pattern: None,
        color: false,
        no_color: false,
        ascii: false,
        sort_by_time: false,
        reverse: false,
        print_mod_date: false,
        output_file: None,
        file_limit: None,
        dirs_first: false,
        classify: false,
        no_report: false,
        print_permissions: false,
        from_file: true,
    }
}

fn lines(text: &str) -> Vec<String> {
    text.lines().map(|l| l.to_string()).collect()
}

fn sample() -> Vec<FileEntry> {
    parse_file_listing(lines("src/\nsrc/main.rs\nREADME.md\ndocs/guide/intro.md\n.github/ci.yml"))
}

#[test]
fn a_listing_is_shown_as_a_tree() {
    let o = default_options();
    let tree = build_virtual_tree(sample(), &o);
    let expected = vec![
        ".",
        "├── README.md",
        "├── docs",
        "│   └── guide",
        "│       └── intro.md",
        "└── src",
        "    └── main.rs",
        "",
        "3 directories, 3 files",
    ];
    assert_eq!(display_virtual_tree(&tree, &o), expected);
}

#[test]
fn the_order_of_the_lines_of_the_listing_does_not_count() {
    let o = default_options();
    let forward = build_virtual_tree(sample(), &o);
    let backward = build_virtual_tree(
        parse_file_listing(lines(".github/ci.yml\ndocs/guide/intro.md\nREADME.md\nsrc/main.rs\nsrc/")),
        &o,
    );
    assert_eq!(display_virtual_tree(&forward, &o), display_virtual_tree(&backward, &o));
}

#[test]
fn options_apply_to_a_virtual_tree() {
    let mut o = default_options();
    o.all_files = true;
    o.dirs_first = true;
    o.classify = true;
    o.ascii = true;
    let tree = build_virtual_tree(sample(), &o);
    let expected = vec![
        ".",
        "\\---.github/",
        "|   +---ci.yml",
        "\\---docs/",
        "|   +---guide/",
        "|       +---intro.md",
        "\\---src/",
        "|   +---main.rs",
        "+---README.md",
        "",
        "4 directories, 4 files",
    ];
    assert_eq!(display_virtual_tree(&tree, &o), expected);
}

#[test]
fn depth_limit_on_a_virtual_tree() {
    let mut o = default_options();
    o.level = Some(2);
    o.no_report = true;
    let tree = build_virtual_tree(sample(), &o);
    let expected = vec![".", "├── README.md", "├── docs", "│   └── guide", "└── src", "    └── main.rs"];
    assert_eq!(display_virtual_tree(&tree, &o), expected);
    o.level = Some(1);
    assert_eq!(display_virtual_tree(&tree, &o), vec![".", "├── README.md", "├── docs", "└── src"]);
    o.level = Some(0);
    assert_eq!(display_virtual_tree(&tree, &o), vec![".", "├── README.md", "├── docs", "└── src"]);
}

#[test]
fn patterns_on_a_virtual_tree() {
    let mut o = default_options();
    o.pattern_glob = Some(Pattern::new("*.md").unwrap());
    let tree = build_virtual_tree(sample(), &o);
    let expected = vec![
        ".",
        "├── README.md",
        "├── docs",
        "│   └── guide",
        "│       └── intro.md",
        "└── src",
        "",
        "3 directories, 2 files",
    ];
    assert_eq!(display_virtual_tree(&tree, &o), expected);
    o.exclude_pattern = Some(Pattern::new("docs").unwrap());
    o.dir_only = true;
    assert_eq!(display_virtual_tree(&tree, &o), vec![".", "└── src", "", "1 directory, 0 files"]);
}

#[test]
fn sizes_of_a_tar_listing() {
    let entries = parse_tar_listing(lines(
        "drwxr-xr-x user/group 0 2023-01-01 12:00 pkg/\n-rw-r--r-- user/group 2048 2023-01-01 12:00 pkg/data.bin\n-rw-r--r-- user/group 7 2023-01-01 12:00 pkg/note",
    ));
    let mut o = default_options();
    o.print_size = true;
    let tree = build_virtual_tree(entries, &o);
    let expected = vec![
        ".",
        "└── pkg",
        "    ├── data.bin [ 2048B]",
        "    └── note [    7B]",
        "",
        "1 directory, 2 files",
    ];
    assert_eq!(display_virtual_tree(&tree, &o), expected);
    o.human_readable = true;
    o.full_path = true;
    let shown = display_virtual_tree(&tree, &o);
    assert_eq!(shown[2], "    ├── pkg/data.bin [2.0 KB]");
    assert_eq!(shown[3], "    └── pkg/note [7 B]");
}

#[test]
fn an_empty_tree_has_a_root_and_a_summary() {
    let o = default_options();
    let tree = build_virtual_tree(vec![], &o);
    assert_eq!(display_virtual_tree(&tree, &o), vec![".", "", "0 directories, 0 files"]);
}

#[test]
fn entries_without_a_path_and_orphans_are_not_shown() {
    let o = default_options();
    let entries = vec![
        FileEntry { path: "".to_string(), is_dir: true, size: None },
        FileEntry { path: "lost/child.txt".to_string(), is_dir: false, size: None },
        FileEntry { path: "top.txt".to_string(), is_dir: false, size: None },
        FileEntry { path: "file/below".to_string(), is_dir: false, size: None },
        FileEntry { path: "file".to_string(), is_dir: false, size: None },
    ];
    let tree = build_virtual_tree(entries, &o);
    assert_eq!(
        display_virtual_tree(&tree, &o),
        vec![".", "├── file", "└── top.txt", "", "0 directories, 2 files"]
    );
}

#[test]
fn children_are_found_by_their_parent_path() {
    let entries = sample();
    let root: Vec<char> = Vec::new();
    let mut top: Vec<String> = children(&entries, &root).iter().map(|e| e.name.clone()).collect();
    top.sort();
    assert_eq!(top, vec![".github", "README.md", "docs", "src"]);
    let docs: Vec<char> = "docs".chars().collect();
    let below = children(&entries, &docs);
    assert_eq!(below.len(), 1);
    assert_eq!(below[0].name, "guide");
    assert_eq!(below[0].path, "docs/guide");
    assert!(below[0].target_is_dir);
    let none: Vec<char> = "doc".chars().collect();
    assert!(children(&entries, &none).is_empty());
}

#[test]
fn a_virtual_entry_is_named_by_its_last_component() {
    let e = to_entry(&FileEntry { path: "a/b/c.txt".to_string(), is_dir: false, size: Some(9) });
    assert_eq!(e.name, "c.txt");
    assert_eq!(e.path, "a/b/c.txt");
    assert_eq!(e.size, Some(9));
    assert!(e.modified.is_none() && e.mode.is_none() && !e.executable);
    let d = to_entry(&FileEntry { path: "top".to_string(), is_dir: true, size: None });
    assert_eq!(d.name, "top");
    assert!(d.target_is_dir);
}

#[test]
fn one_line_of_a_virtual_entry() {
    let mut o = default_options();
    let e = FileEntry { path: "a/b/c.txt".to_string(), is_dir: false, size: Some(9) };
    assert_eq!(display_virtual_entry(&e, &o, &vec![false], true), "│   └── c.txt");
    o.full_path = true;
    o.print_size = true;
    assert_eq!(display_virtual_entry(&e, &o, &vec![], false), "├── a/b/c.txt [    9B]");
}

#[test]
fn the_filter_goes_by_the_last_component() {
    let mut o = default_options();
    let hidden = FileEntry { path: "a/.secret".to_string(), is_dir: false, size: None };
    let inside = FileEntry { path: ".git/config".to_string(), is_dir: false, size: None };
    assert!(should_skip_virtual_entry(&hidden, &o));
    assert!(!should_skip_virtual_entry(&inside, &o));
    o.exclude_pattern = Some(Pattern::new("con*").unwrap());
    assert!(should_skip_virtual_entry(&inside, &o));
}

#[test]
fn counts_add_up_to_the_number_of_lines() {
    let o = default_options();
    let entries = sample();
    let mut out: Vec<TreeLine> = Vec::new();
    display_virtual_entries(&entries, &o, &Vec::new(), &Vec::new(), &mut out);
    let (directories, files) = count_lines(&out);
    assert_eq!((directories, files), (3, 3));
    assert_eq!(directories + files, out.len() as u64);
    let depths: Vec<usize> = out.iter().map(|l| l.depth).collect();
    assert_eq!(depths, vec![0, 0, 1, 2, 0, 1]);
    let kinds: Vec<bool> = out.iter().map(|l| l.is_dir).collect();
    assert_eq!(kinds, vec![false, true, true, false, true, false]);
}
