use coffee_break::insight::{analyze_project, DirEntry, EntryKind, ProjectInsight};
use coffee_break::walker::{Listed, WalkStep, Walker};

fn file(name: &str) -> DirEntry {
    DirEntry { name: name.to_string(), kind: EntryKind::File }
}

fn dir(name: &str, children: Vec<DirEntry>) -> DirEntry {
    DirEntry { name: name.to_string(), kind: EntryKind::Dir(children) }
}

fn names(list: &[&str]) -> Vec<String> {
    list.iter().map(|s| s.to_string()).collect()
}

fn listing(entries: &[DirEntry]) -> Vec<Listed> {
    entries
        .iter()
        .map(|e| Listed { name: e.name.clone(), is_dir: matches!(e.kind, EntryKind::Dir(_)) })
        .collect()
}

fn find<'a>(root: &'a [DirEntry], path: &[String]) -> &'a [DirEntry] {
    let mut here = root;
    for name in path {
        let entry = here.iter().find(|e| &e.name == name).expect("a listed name");
        here = match &entry.kind {
            EntryKind::Dir(children) => children,
            EntryKind::File => panic!("a file was asked for"),
        };
    }
    here
}

fn walk(present: &[&str], root: &[DirEntry]) -> (ProjectInsight, Vec<Vec<String>>) {
    let mut walker = Walker::for_project(&names(present));
    let mut asked = Vec::new();
    let mut step = walker.enter(listing(root));
    loop {
        match step {
            WalkStep::Read(path) => {
                step = walker.enter(listing(find(root, &path)));
                asked.push(path);
            }
            WalkStep::Done => break,
            WalkStep::Stopped => panic!("the walk stopped"),
        }
    }
    assert!(walker.levels.is_empty());
    (walker.insight, asked)
}

fn sample() -> Vec<DirEntry> {
    vec![
        file("Cargo.toml"),
        dir("src", vec![file("main.rs"), file("lib.rs"), dir("bin", vec![file("tool.rs")])]),
        dir("target", vec![dir("debug", vec![file("x")])]),
        dir(".git", vec![file("HEAD")]),
        dir(
            "docs",
            vec![dir(
                "a",
                vec![dir("b", vec![file("deep.md"), dir("c", vec![file("deeper.md")])])],
            )],
        ),
        file("README.md"),
        dir("empty", vec![]),
    ]
}

#[test]
fn the_walker_asks_for_one_directory_after_the_other() {
    let root = vec![
        file("Cargo.toml"),
        dir("src", vec![file("main.rs"), file("lib.rs")]),
        dir("target", vec![dir("debug", vec![file("x")])]),
    ];
    let (insight, asked) = walk(&["Cargo.toml"], &root);
    assert_eq!(asked, vec![names(&["src"])]);
    assert_eq!(insight.project_type, "Rust");
    assert_eq!(insight.total_files, 3);
    assert_eq!(insight.file_counts, vec![("toml".to_string(), 1), ("rs".to_string(), 2)]);
    assert_eq!(insight.dependencies, names(&["Cargo.toml"]));
    assert_eq!(insight.structure, names(&["Cargo.toml", "src/", "  main.rs", "  lib.rs"]));
}

#[test]
fn the_walker_records_what_the_walk_over_the_tree_records() {
    let root = sample();
    let (insight, asked) = walk(&["Cargo.toml"], &root);
    assert_eq!(Some(insight), analyze_project(&names(&["Cargo.toml"]), &root));
    assert_eq!(
        asked,
        vec![
            names(&["src"]),
            names(&["src", "bin"]),
            names(&["docs"]),
            names(&["docs", "a"]),
            names(&["docs", "a", "b"]),
            names(&["empty"]),
        ]
    );
}

#[test]
fn the_walker_reads_nothing_that_is_skipped_or_too_deep() {
    let (_, asked) = walk(&[], &sample());
    for path in &asked {
        assert!(path.len() <= 3);
        for name in path {
            assert!(!name.starts_with('.'));
            assert!(name != "target" && name != "node_modules" && name != "__pycache__");
        }
    }
}

#[test]
fn a_directory_that_cannot_be_read_counts_as_empty() {
    let mut walker = Walker::for_project(&names(&[]));
    let root = vec![
        Listed { name: "locked".to_string(), is_dir: true },
        Listed { name: "a.txt".to_string(), is_dir: false },
    ];
    assert_eq!(walker.enter(root), WalkStep::Read(names(&["locked"])));
    assert_eq!(walker.enter(Vec::new()), WalkStep::Done);
    assert_eq!(walker.insight.total_files, 1);
    assert_eq!(walker.insight.structure, names(&["locked/", "a.txt"]));
}

#[test]
fn an_empty_root_ends_the_walk_at_once() {
    let mut walker = Walker::for_project(&names(&["go.mod"]));
    assert_eq!(walker.enter(Vec::new()), WalkStep::Done);
    assert_eq!(walker.insight, ProjectInsight::new("Go".to_string()));
    assert_eq!(walker.advance(), WalkStep::Done);
}

#[test]
fn a_listing_that_was_not_asked_for_is_dropped() {
    let mut walker = Walker::new("x".to_string(), 0);
    let root = vec![Listed { name: "d".to_string(), is_dir: true }];
    assert_eq!(walker.enter(root), WalkStep::Done);
    assert_eq!(walker.insight.structure, names(&["d/"]));

    let mut other = Walker::new("x".to_string(), 3);
    other.levels.push(coffee_break::walker::Level {
        entries: vec![Listed { name: "first".to_string(), is_dir: false }],
        next: 0,
    });
    let unasked = vec![Listed { name: "second".to_string(), is_dir: false }];
    assert_eq!(other.enter(unasked), WalkStep::Done);
    assert_eq!(other.insight.structure, names(&["first"]));
}

#[test]
fn the_walker_stops_where_the_count_would_overflow() {
    let mut walker = Walker::new("x".to_string(), 3);
    walker.insight.total_files = usize::MAX;
    walker.insight.file_counts = vec![("txt".to_string(), usize::MAX)];
    let root = vec![
        Listed { name: "dir".to_string(), is_dir: true },
        Listed { name: "a.txt".to_string(), is_dir: false },
    ];
    assert_eq!(walker.enter(root), WalkStep::Read(names(&["dir"])));
    assert_eq!(walker.enter(Vec::new()), WalkStep::Stopped);
    assert_eq!(walker.advance(), WalkStep::Stopped);
}
