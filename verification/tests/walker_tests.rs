// The traversal engine, driven over a directory tree that is held in memory.

use glob::Pattern;
use rust_tree::rust_tree::entry::{Entry, EntryKind, Timestamp};
use rust_tree::rust_tree::options::TreeOptions;
use rust_tree::rust_tree::render::format_closing;
use rust_tree::rust_tree::walker::{Action, Event, Phase, Walker};

struct Node {
    name: &'static str,
    children: Option<Vec<Node>>,
    size: u64,
    secs: i64,
}

fn dir(name: &'static str, children: Vec<Node>) -> Node {
    Node { name, children: Some(children), size: 0, secs: 0 }
}

fn file(name: &'static str) -> Node {
    Node { name, children: None, size: 0, secs: 0 }
}

fn sized(name: &'static str, size: u64) -> Node {
    Node { name, children: None, size, secs: 0 }
}

fn timed(name: &'static str, secs: i64) -> Node {
    Node { name, children: None, size: 0, secs }
}

fn default_options() -> TreeOptions {
    TreeOptions {
        all_files: false,
        level: None,
        full_path: false,
        dir_only: false,
        no_indent: false,
        print_size: false,
        human_readable: false,
        pattern_glob: None,
        exclude_pattern: None,
        color: false,
        no_color: false,
        ascii: false,
        sort_by_time: false,
        reverse: false,
        print_mod_date: false,
        output_file: None,
        file_limit: None,
        dirs_first: false,
        classify: false,
        no_report: false,
        print_permissions: false,
        from_file: false,
    }
}

fn find<'a>(root: &'a Node, path: &str) -> Option<&'a Node> {
    let mut node = root;
    let rest = path.strip_prefix(root.name)?;
    for part in rest.split('/').filter(|p| !p.is_empty()) {
        node = node.children.as_ref()?.iter().find(|c| c.name == part)?;
    }
    Some(node)
}

fn listing(root: &Node, path: &str) -> Option<Vec<Entry>> {
    let node = find(root, path)?;
    let children = node.children.as_ref()?;
    // handed over in reverse, as a file system may hand them over in any order
    Some(
        children
            .iter()
            .rev()
            .map(|c| Entry {
                name: c.name.to_string(),
                path: format!("{}/{}", path, c.name),
                kind: if c.children.is_some() { EntryKind::Directory } else { EntryKind::File },
                target_is_dir: c.children.is_some(),
                size: Some(c.size),
                modified: Some(Timestamp { secs: c.secs, nanos: 0 }),
                mode: Some(if c.children.is_some() { 0o755 } else { 0o644 }),
                executable: false,
            })
            .collect(),
    )
}

struct Run {
    lines: Vec<String>,
    depths: Vec<usize>,
    directories: u64,
    files: u64,
    reads: Vec<String>,
}

fn walk(root: &Node, options: TreeOptions) -> Run {
    let mut walker = Walker::new(options);
    let mut lines = vec![root.name.to_string()];
    let mut depths = Vec::new();
    let mut reads = vec![root.name.to_string()];
    let mut event = match listing(root, root.name) {
        Some(entries) => Event::Listing(entries),
        None => Event::ReadFailed,
    };
    loop {
        assert!(walker.has_room());
        match walker.step(event) {
            Action::ReadDir { path } => {
                reads.push(path.clone());
                event = match listing(root, &path) {
                    Some(entries) => Event::Listing(entries),
                    None => Event::ReadFailed,
                };
            }
            Action::CountEntries { path } => {
                event = match find(root, &path).and_then(|n| n.children.as_ref()) {
                    Some(children) => Event::Count(children.len() as u64),
                    None => Event::CountFailed,
                };
            }
            Action::Emit { line, depth } => {
                lines.push(line);
                depths.push(depth);
                event = Event::Written;
            }
            Action::Finish => break,
        }
    }
    assert!(walker.phase() == Phase::Finished);
    let directories = walker.directories();
    let files = walker.files();
    lines.extend(format_closing(walker.options(), directories, files));
    Run { lines, depths, directories, files, reads }
}

fn basic_tree() -> Node {
    dir(
        "root",
        vec![
            dir("dir1", vec![dir("dir1_1", vec![]), file("file2.txt")]),
            dir("dir2", vec![file("file3.txt")]),
            file("file1.txt"),
        ],
    )
}

#[test]
fn scenario_default_options_show_the_whole_tree() {
    let run = walk(&basic_tree(), default_options());
    let expected = vec![
        "root",
        "├── dir1",
        "│   ├── dir1_1",
        "│   └── file2.txt",
        "├── dir2",
        "│   └── file3.txt",
        "└── file1.txt",
        "",
        "3 directories, 3 files",
    ];
    assert_eq!(run.lines, expected);
    assert_eq!(run.directories, 3);
    assert_eq!(run.files, 3);
}

#[test]
fn scenario_depth_limit_of_one_shows_the_first_level_only() {
    let mut options = default_options();
    options.level = Some(1);
    let run = walk(&basic_tree(), options);
    let expected = vec![
        "root",
        "├── dir1",
        "├── dir2",
        "└── file1.txt",
        "",
        "2 directories, 1 file",
    ];
    assert_eq!(run.lines, expected);
    assert!(run.depths.iter().all(|d| *d == 0));
    // no directory below the root was read
    assert_eq!(run.reads, vec!["root".to_string()]);
}

#[test]
fn scenario_hidden_file_is_shown_only_on_request() {
    let tree = dir("root", vec![file(".gitignore"), file("visible.txt")]);
    let run = walk(&tree, default_options());
    assert!(!run.lines.iter().any(|l| l.contains(".gitignore")));
    assert_eq!(run.files, 1);

    let mut options = default_options();
    options.all_files = true;
    let run = walk(&tree, options);
    assert_eq!(run.lines[1], "├── .gitignore");
    assert_eq!(run.lines[2], "└── visible.txt");
    assert_eq!(run.files, 2);
}

#[test]
fn scenario_sizes_in_bytes_and_human_readable() {
    let tree = dir(
        "root",
        vec![sized("a", 3), sized("b", 1024), sized("c", 1048576), sized("d", 0)],
    );
    let mut options = default_options();
    options.print_size = true;
    let run = walk(&tree, options);
    assert_eq!(run.lines[1], "├── a [    3B]");
    assert_eq!(run.lines[2], "├── b [ 1024B]");
    assert_eq!(run.lines[3], "├── c [1048576B]");
    assert_eq!(run.lines[4], "└── d [    0B]");

    let mut options = default_options();
    options.human_readable = true;
    let run = walk(&tree, options);
    assert_eq!(run.lines[1], "├── a [3 B]");
    assert_eq!(run.lines[2], "├── b [1.0 KB]");
    assert_eq!(run.lines[3], "├── c [1.0 MB]");
    assert_eq!(run.lines[4], "└── d [0 B]");
}

#[test]
fn counts_add_up_to_the_number_of_entry_lines() {
    for level in [None, Some(0), Some(1), Some(2), Some(3)] {
        for dir_only in [false, true] {
            let mut options = default_options();
            options.level = level;
            options.dir_only = dir_only;
            options.no_report = true;
            let run = walk(&basic_tree(), options);
            assert_eq!(run.directories + run.files, run.lines.len() as u64 - 1);
            assert_eq!(run.depths.len() as u64, run.directories + run.files);
        }
    }
}

#[test]
fn no_line_lies_at_or_below_the_depth_limit() {
    let deep = dir(
        "root",
        vec![dir("a", vec![dir("b", vec![dir("c", vec![dir("d", vec![file("e")])])])])],
    );
    for limit in 1..=6u32 {
        let mut options = default_options();
        options.level = Some(limit);
        let run = walk(&deep, options);
        assert!(run.depths.iter().all(|d| (*d as u32) < limit));
        assert_eq!(run.depths.len() as u32, limit.min(5));
    }
    // a limit of zero still shows the entries of the root
    let mut options = default_options();
    options.level = Some(0);
    let run = walk(&deep, options);
    assert_eq!(run.depths, vec![0]);
}

#[test]
fn two_walks_over_the_same_tree_give_the_same_lines() {
    let first = walk(&basic_tree(), default_options());
    let second = walk(&basic_tree(), default_options());
    assert_eq!(first.lines, second.lines);
}

#[test]
fn fan_out_limit_counts_raw_entries_and_skips_large_directories() {
    let tree = dir(
        "root",
        vec![
            dir("big", vec![file("a"), file("b"), file(".c")]),
            dir("small", vec![file("x"), file(".y")]),
        ],
    );
    let mut options = default_options();
    options.file_limit = Some(2);
    let run = walk(&tree, options);
    let expected = vec![
        "root",
        "├── big",
        "└── small",
        "    └── x",
        "",
        "2 directories, 1 file",
    ];
    assert_eq!(run.lines, expected);
    assert_eq!(run.reads, vec!["root".to_string(), "root/small".to_string()]);
}

#[test]
fn an_unreadable_directory_is_passed_by() {
    // "ghost" is listed as a directory, but reading it fails
    let mut walker = Walker::new(default_options());
    let ghost = Entry {
        name: "ghost".to_string(),
        path: "root/ghost".to_string(),
        kind: EntryKind::Directory,
        target_is_dir: true,
        size: None,
        modified: None,
        mode: None,
        executable: false,
    };
    let after = Entry {
        name: "later.txt".to_string(),
        path: "root/later.txt".to_string(),
        kind: EntryKind::File,
        target_is_dir: false,
        size: None,
        modified: None,
        mode: None,
        executable: false,
    };
    let first = walker.step(Event::Listing(vec![after, ghost]));
    assert!(matches!(first, Action::Emit { ref line, depth: 0 } if line == "├── ghost"));
    let second = walker.step(Event::Written);
    assert!(matches!(second, Action::ReadDir { ref path } if path == "root/ghost"));
    let third = walker.step(Event::ReadFailed);
    assert!(matches!(third, Action::Emit { ref line, depth: 0 } if line == "└── later.txt"));
    assert!(matches!(walker.step(Event::Written), Action::Finish));
    assert!(matches!(walker.step(Event::Written), Action::Finish));
    assert_eq!((walker.directories(), walker.files()), (1, 1));
}

#[test]
fn an_unreadable_root_gives_an_empty_tree() {
    let mut walker = Walker::new(default_options());
    assert!(walker.phase() == Phase::Reading);
    assert!(matches!(walker.step(Event::ReadFailed), Action::Finish));
    assert_eq!((walker.directories(), walker.files()), (0, 0));
}

#[test]
fn patterns_filter_files_but_keep_directories() {
    let tree = dir(
        "root",
        vec![
            dir("src", vec![file("main.rs"), file("notes.txt")]),
            file("README.md"),
            file("build.rs"),
        ],
    );
    let mut options = default_options();
    options.pattern_glob = Some(Pattern::new("*.rs").unwrap());
    let run = walk(&tree, options);
    let expected = vec![
        "root",
        "├── build.rs",
        "└── src",
        "    └── main.rs",
        "",
        "1 directory, 2 files",
    ];
    assert_eq!(run.lines, expected);

    let mut options = default_options();
    options.pattern_glob = Some(Pattern::new("*.rs").unwrap());
    options.exclude_pattern = Some(Pattern::new("main*").unwrap());
    let run = walk(&tree, options);
    assert_eq!(run.lines[1], "├── build.rs");
    assert_eq!(run.lines[2], "└── src");
    assert_eq!(run.lines.len(), 5);
}

#[test]
fn sort_options_order_the_siblings() {
    let tree = dir(
        "root",
        vec![timed("new", 300), dir("zdir", vec![]), timed("old", 100), timed("mid", 200)],
    );
    let names = |run: &Run| -> Vec<String> {
        run.lines[1..5].iter().map(|l| l.chars().skip(4).collect()).collect()
    };

    let run = walk(&tree, default_options());
    assert_eq!(names(&run), vec!["mid", "new", "old", "zdir"]);

    let mut options = default_options();
    options.sort_by_time = true;
    let run = walk(&tree, options);
    assert_eq!(names(&run), vec!["zdir", "old", "mid", "new"]);

    let mut options = default_options();
    options.dirs_first = true;
    let run = walk(&tree, options);
    assert_eq!(names(&run), vec!["zdir", "mid", "new", "old"]);

    let mut options = default_options();
    options.dirs_first = true;
    options.reverse = true;
    let run = walk(&tree, options);
    assert_eq!(names(&run), vec!["old", "new", "mid", "zdir"]);

    let mut options = default_options();
    options.reverse = true;
    let run = walk(&tree, options);
    assert_eq!(names(&run), vec!["zdir", "old", "new", "mid"]);
}

#[test]
fn summary_can_be_switched_off() {
    let mut options = default_options();
    options.no_report = true;
    let run = walk(&basic_tree(), options);
    assert_eq!(run.lines.len(), 7);
    assert!(!run.lines.iter().any(|l| l.contains("directories")));
}
