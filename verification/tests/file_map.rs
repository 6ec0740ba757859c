use docgen::file_map::FileMap;

#[test]
fn new_map_is_empty() {
    let files = FileMap::new();
    assert!(files.is_empty());
    assert_eq!(files.len(), 0);
    assert!(files.get("a.rs").is_none());
    assert!(!files.contains("a.rs"));
    assert!(files.entries().is_empty());
}

#[test]
fn insert_then_get() {
    let mut files = FileMap::new();
    files.insert("src/main.rs".to_string(), "fn main() {}".to_string());
    assert_eq!(files.len(), 1);
    assert!(!files.is_empty());
    assert!(files.contains("src/main.rs"));
    assert_eq!(files.get("src/main.rs").map(|s| s.as_str()), Some("fn main() {}"));
    assert!(files.get("src/lib.rs").is_none());
    assert!(files.get("src/main.r").is_none());
    assert!(files.get("src/main.rss").is_none());
}

#[test]
fn insert_replaces_the_content_of_a_known_path() {
    let mut files = FileMap::new();
    files.insert("a.md".to_string(), "old".to_string());
    files.insert("b.md".to_string(), "other".to_string());
    files.insert("a.md".to_string(), "new".to_string());
    assert_eq!(files.len(), 2);
    assert_eq!(files.get("a.md").map(|s| s.as_str()), Some("new"));
    assert_eq!(files.get("b.md").map(|s| s.as_str()), Some("other"));
}

#[test]
fn entries_are_ordered_by_path_whatever_the_order_of_insertion() {
    let mut files = FileMap::new();
    for path in ["m.rs", "z.rs", "a.rs", "src/b.rs", "src/a.rs", "a", "ab", ""] {
        files.insert(path.to_string(), format!("content of {}", path));
    }
    let paths: Vec<&str> = files.entries().iter().map(|e| e.path.as_str()).collect();
    assert_eq!(paths, vec!["", "a", "a.rs", "ab", "m.rs", "src/a.rs", "src/b.rs", "z.rs"]);
    for entry in files.entries() {
        assert_eq!(entry.content, format!("content of {}", entry.path));
    }
}

#[test]
fn order_is_by_character_not_by_length() {
    let mut files = FileMap::new();
    for path in ["b", "aa", "a\u{e9}", "az", "B"] {
        files.insert(path.to_string(), String::new());
    }
    let paths: Vec<&str> = files.entries().iter().map(|e| e.path.as_str()).collect();
    let mut expected = vec!["b", "aa", "a\u{e9}", "az", "B"];
    expected.sort();
    assert_eq!(paths, expected);
    assert_eq!(paths, vec!["B", "aa", "az", "a\u{e9}", "b"]);
}
