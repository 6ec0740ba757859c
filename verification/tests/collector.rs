use docgen::collector::{join_path, Collector, Demand, DirEntry, ListOutcome, ReadOutcome, Step};
use docgen::error::Failure;
use docgen::file_map::FileMap;

/// A node of a project tree held in memory.
enum Node {
    Dir(Vec<(&'static str, Node)>),
    Text(&'static str),
    Binary,
    Unreadable(&'static str),
    LockedDir(&'static str),
}

fn find<'a>(root: &'a Node, path: &str) -> Option<&'a Node> {
    let mut node = root;
    if path.is_empty() {
        return Some(node);
    }
    for part in path.split('/') {
        match node {
            Node::Dir(entries) => {
                node = &entries.iter().find(|(name, _)| *name == part)?.1;
            }
            _ => return None,
        }
    }
    Some(node)
}

fn list(root: &Node, path: &str) -> ListOutcome {
    match find(root, path) {
        Some(Node::Dir(entries)) => ListOutcome::Entries(
            entries
                .iter()
                .map(|(name, node)| DirEntry {
                    name: name.to_string(),
                    is_dir: matches!(node, Node::Dir(_) | Node::LockedDir(_)),
                })
                .collect(),
        ),
        Some(Node::LockedDir(message)) => ListOutcome::Failed(message.to_string()),
        _ => ListOutcome::NotFound(format!("{}: no such directory", path)),
    }
}

fn read(root: &Node, path: &str) -> ReadOutcome {
    match find(root, path) {
        Some(Node::Text(text)) => ReadOutcome::Text(text.to_string()),
        Some(Node::Binary) => ReadOutcome::InvalidEncoding,
        Some(Node::Unreadable(message)) => ReadOutcome::Failed(message.to_string()),
        _ => ReadOutcome::Failed(format!("{}: no such file", path)),
    }
}

/// Drives the collector against the tree and records each request.
fn walk(root: &Node, requests: &mut Vec<String>) -> Result<FileMap, Failure> {
    let first = Collector::begin();
    requests.push(format!("list {}", first.path()));
    let outcome = list(root, first.path());
    let mut walk = first.resolve(outcome)?;
    loop {
        assert!(requests.len() < 10_000, "the walk does not end");
        walk = match walk.proceed() {
            Demand::List(pending) => {
                requests.push(format!("list {}", pending.path()));
                let outcome = list(root, pending.path());
                pending.resolve(outcome)?
            }
            Demand::Read(pending) => {
                requests.push(format!("read {}", pending.path()));
                let outcome = read(root, pending.path());
                pending.resolve(outcome)?
            }
            Demand::Finished(files) => return Ok(files),
        };
    }
}

/// Drives the collector against the tree one step at a time.
fn walk_by_steps(root: &Node) -> Result<FileMap, Failure> {
    let first = Collector::begin();
    let outcome = list(root, first.path());
    let mut walk = first.resolve(outcome)?;
    let mut steps = 0;
    loop {
        steps += 1;
        assert!(steps < 10_000, "the walk does not end");
        walk = match walk.advance() {
            Step::List(pending) => {
                let outcome = list(root, pending.path());
                pending.resolve(outcome)?
            }
            Step::Read(pending) => {
                let outcome = read(root, pending.path());
                pending.resolve(outcome)?
            }
            Step::Pass(next) => next,
            Step::Finished(files) => return Ok(files),
        };
    }
}

fn collect(root: &Node) -> Result<FileMap, Failure> {
    walk(root, &mut Vec::new())
}

fn pairs(files: &FileMap) -> Vec<(String, String)> {
    files.entries().iter().map(|e| (e.path.clone(), e.content.clone())).collect()
}

fn pair(path: &str, content: &str) -> (String, String) {
    (path.to_string(), content.to_string())
}

#[test]
fn join_path_of_root_and_below() {
    assert_eq!(join_path("", "main.rs"), "main.rs");
    assert_eq!(join_path("src", "main.rs"), "src/main.rs");
    assert_eq!(join_path("a/b", "c"), "a/b/c");
    assert_eq!(join_path("", ""), "");
    assert_eq!(join_path("a", ""), "a/");
}

#[test]
fn first_request_is_for_the_root() {
    let first = Collector::begin();
    assert_eq!(first.path(), "");
}

#[test]
fn empty_root_gives_empty_map() {
    let files = collect(&Node::Dir(vec![])).unwrap();
    assert!(files.is_empty());
}

#[test]
fn every_allowed_file_has_one_entry_under_its_relative_path() {
    let tree = Node::Dir(vec![
        ("README.md", Node::Text("# Project")),
        ("src", Node::Dir(vec![
            ("main.rs", Node::Text("fn main() {}")),
            ("util", Node::Dir(vec![
                ("mod.rs", Node::Text("pub mod helper;")),
                ("helper.rs", Node::Text("pub fn help() {}")),
            ])),
            ("lib.rs", Node::Text("pub mod util;")),
        ])),
        ("docs", Node::Dir(vec![
            ("guide.txt", Node::Text("Guide")),
            ("empty", Node::Dir(vec![])),
        ])),
        ("Cargo.toml", Node::Text("[package]")),
    ]);
    let files = collect(&tree).unwrap();
    assert_eq!(
        pairs(&files),
        vec![
            pair("Cargo.toml", "[package]"),
            pair("README.md", "# Project"),
            pair("docs/guide.txt", "Guide"),
            pair("src/lib.rs", "pub mod util;"),
            pair("src/main.rs", "fn main() {}"),
            pair("src/util/helper.rs", "pub fn help() {}"),
            pair("src/util/mod.rs", "pub mod helper;"),
        ]
    );
    assert_eq!(files.len(), 7);
}

#[test]
fn walking_by_single_steps_collects_the_same() {
    let tree = Node::Dir(vec![
        ("skip.bin", Node::Binary),
        (".git", Node::Dir(vec![("x.rs", Node::Text("x"))])),
        ("src", Node::Dir(vec![
            ("main.rs", Node::Text("fn main() {}")),
            ("blob.json", Node::Binary),
            ("deep", Node::Dir(vec![("a.py", Node::Text("a"))])),
        ])),
        ("z.md", Node::Text("z")),
    ]);
    let by_requests = collect(&tree).unwrap();
    let by_steps = walk_by_steps(&tree).unwrap();
    assert_eq!(pairs(&by_requests), pairs(&by_steps));
    assert_eq!(
        pairs(&by_steps),
        vec![pair("src/deep/a.py", "a"), pair("src/main.rs", "fn main() {}"), pair("z.md", "z")]
    );
}

#[test]
fn proceed_passes_over_what_is_not_collected() {
    let walk = Collector::begin()
        .resolve(ListOutcome::Entries(vec![
            DirEntry { name: ".git".to_string(), is_dir: true },
            DirEntry { name: "logo.png".to_string(), is_dir: false },
            DirEntry { name: "notes".to_string(), is_dir: false },
            DirEntry { name: "keep.md".to_string(), is_dir: false },
        ]))
        .unwrap();
    let pending = match walk.proceed() {
        Demand::Read(pending) => pending,
        _ => panic!("the first file with an allowed extension is read"),
    };
    assert_eq!(pending.path(), "keep.md");
    let walk = pending.resolve(ReadOutcome::Text("kept".to_string())).unwrap();
    match walk.proceed() {
        Demand::Finished(files) => assert_eq!(pairs(&files), vec![pair("keep.md", "kept")]),
        _ => panic!("the walk is finished"),
    }
}

#[test]
fn files_of_the_same_name_in_different_directories_are_kept_apart() {
    let tree = Node::Dir(vec![
        ("a", Node::Dir(vec![("mod.rs", Node::Text("in a"))])),
        ("b", Node::Dir(vec![("mod.rs", Node::Text("in b"))])),
        ("mod.rs", Node::Text("at the root")),
    ]);
    let files = collect(&tree).unwrap();
    assert_eq!(
        pairs(&files),
        vec![pair("a/mod.rs", "in a"), pair("b/mod.rs", "in b"), pair("mod.rs", "at the root")]
    );
}

#[test]
fn directories_are_visited_depth_first_in_listing_order() {
    let tree = Node::Dir(vec![
        ("b.rs", Node::Text("b")),
        ("sub", Node::Dir(vec![
            ("inner.rs", Node::Text("inner")),
            ("deep", Node::Dir(vec![("x.py", Node::Text("x"))])),
            ("last.md", Node::Text("last")),
        ])),
        ("a.rs", Node::Text("a")),
    ]);
    let mut requests = Vec::new();
    let files = walk(&tree, &mut requests).unwrap();
    assert_eq!(
        requests,
        vec![
            "list ",
            "read b.rs",
            "list sub",
            "read sub/inner.rs",
            "list sub/deep",
            "read sub/deep/x.py",
            "read sub/last.md",
            "read a.rs",
        ]
    );
    assert_eq!(files.len(), 5);
}

#[test]
fn version_control_metadata_is_neither_listed_nor_read() {
    let tree = Node::Dir(vec![
        (".git", Node::Dir(vec![
            ("config.toml", Node::Text("secret")),
            ("hooks", Node::Dir(vec![("pre-commit.sh", Node::Text("#!/bin/sh"))])),
        ])),
        ("src", Node::Dir(vec![
            (".git", Node::Dir(vec![("nested.rs", Node::Text("nested"))])),
            ("main.rs", Node::Text("fn main() {}")),
        ])),
        (".github", Node::Dir(vec![("ci.yml", Node::Text("on: push"))])),
    ]);
    let mut requests = Vec::new();
    let files = walk(&tree, &mut requests).unwrap();
    assert_eq!(
        pairs(&files),
        vec![pair(".github/ci.yml", "on: push"), pair("src/main.rs", "fn main() {}")]
    );
    assert_eq!(requests, vec!["list ", "list src", "read src/main.rs", "list .github", "read .github/ci.yml"]);
}

#[test]
fn files_without_an_allowed_extension_are_not_read() {
    let tree = Node::Dir(vec![
        ("logo.png", Node::Unreadable("must not be read")),
        ("Makefile", Node::Unreadable("must not be read")),
        (".gitignore", Node::Unreadable("must not be read")),
        ("notes.TXT", Node::Text("notes")),
        ("build.lock", Node::Binary),
    ]);
    let mut requests = Vec::new();
    let files = walk(&tree, &mut requests).unwrap();
    assert_eq!(pairs(&files), vec![pair("notes.TXT", "notes")]);
    assert_eq!(requests, vec!["list ", "read notes.TXT"]);
}

#[test]
fn a_directory_is_entered_whatever_its_name() {
    let tree = Node::Dir(vec![("assets.png", Node::Dir(vec![("readme.md", Node::Text("r"))]))]);
    let files = collect(&tree).unwrap();
    assert_eq!(pairs(&files), vec![pair("assets.png/readme.md", "r")]);
}

#[test]
fn missing_root_is_not_found() {
    let first = Collector::begin();
    let outcome = first.resolve(ListOutcome::NotFound("no such directory".to_string()));
    match outcome {
        Err(failure) => assert_eq!(failure, Failure::NotFound("no such directory".to_string())),
        Ok(_) => panic!("a walk of a missing root must fail"),
    }
}

#[test]
fn unreadable_root_is_an_io_failure() {
    let first = Collector::begin();
    let outcome = first.resolve(ListOutcome::Failed("permission denied".to_string()));
    match outcome {
        Err(failure) => assert_eq!(failure, Failure::Io("permission denied".to_string())),
        Ok(_) => panic!("a walk of an unreadable root must fail"),
    }
}

#[test]
fn directory_that_cannot_be_listed_ends_the_walk() {
    let tree = Node::Dir(vec![
        ("a.rs", Node::Text("a")),
        ("locked", Node::LockedDir("permission denied")),
        ("b.rs", Node::Text("b")),
    ]);
    let mut requests = Vec::new();
    let outcome = walk(&tree, &mut requests);
    match outcome {
        Err(failure) => assert_eq!(failure, Failure::Io("permission denied".to_string())),
        Ok(_) => panic!("the walk must fail"),
    }
    assert_eq!(requests, vec!["list ", "read a.rs", "list locked"]);
}

#[test]
fn directory_that_vanished_below_the_root_is_an_io_failure() {
    let walk = Collector::begin()
        .resolve(ListOutcome::Entries(vec![DirEntry { name: "gone".to_string(), is_dir: true }]))
        .unwrap();
    let pending = match walk.advance() {
        Step::List(pending) => pending,
        _ => panic!("the directory is to be listed"),
    };
    assert_eq!(pending.path(), "gone");
    match pending.resolve(ListOutcome::NotFound("gone: no such directory".to_string())) {
        Err(failure) => assert_eq!(failure, Failure::Io("gone: no such directory".to_string())),
        Ok(_) => panic!("the walk must fail"),
    }
}

#[test]
fn file_that_cannot_be_read_ends_the_walk() {
    let tree = Node::Dir(vec![
        ("a.rs", Node::Text("a")),
        ("b.rs", Node::Unreadable("input/output error")),
        ("c.rs", Node::Text("c")),
    ]);
    let mut requests = Vec::new();
    match walk(&tree, &mut requests) {
        Err(failure) => {
            assert_eq!(failure, Failure::Io("input/output error".to_string()));
            assert_eq!(failure.message(), "input/output error");
        }
        Ok(_) => panic!("the walk must fail"),
    }
    assert_eq!(requests, vec!["list ", "read a.rs", "read b.rs"]);
}

#[test]
fn file_that_is_not_text_is_passed_over() {
    let tree = Node::Dir(vec![
        ("a.rs", Node::Text("a")),
        ("blob.json", Node::Binary),
        ("c.rs", Node::Text("c")),
    ]);
    let mut requests = Vec::new();
    let files = walk(&tree, &mut requests).unwrap();
    assert_eq!(pairs(&files), vec![pair("a.rs", "a"), pair("c.rs", "c")]);
    assert_eq!(requests, vec!["list ", "read a.rs", "read blob.json", "read c.rs"]);
}

#[test]
fn pass_steps_ask_for_nothing() {
    let walk = Collector::begin()
        .resolve(ListOutcome::Entries(vec![
            DirEntry { name: "skip.bin".to_string(), is_dir: false },
            DirEntry { name: "keep.md".to_string(), is_dir: false },
        ]))
        .unwrap();
    let walk = match walk.advance() {
        Step::Pass(next) => next,
        _ => panic!("the first entry is passed over"),
    };
    let pending = match walk.advance() {
        Step::Read(pending) => pending,
        _ => panic!("the second entry is read"),
    };
    assert_eq!(pending.path(), "keep.md");
    let walk = pending.resolve(ReadOutcome::Text("kept".to_string())).unwrap();
    let walk = match walk.advance() {
        Step::Pass(next) => next,
        _ => panic!("the directory is left"),
    };
    match walk.advance() {
        Step::Finished(files) => assert_eq!(pairs(&files), vec![pair("keep.md", "kept")]),
        _ => panic!("the walk is finished"),
    }
}
