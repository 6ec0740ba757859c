use docgen::error::Failure;
use docgen::sanitize::{is_whitespace_char, sanitize, trim};

#[test]
fn strips_reasoning_block_and_trims() {
    let clean = sanitize("preface <think>hidden</think> rest").unwrap();
    assert_eq!(clean, "preface  rest");
}

#[test]
fn text_without_blocks_is_only_trimmed() {
    assert_eq!(sanitize("  plain answer\n").unwrap(), "plain answer");
    assert_eq!(sanitize("").unwrap(), "");
    assert_eq!(sanitize(" \t\r\n ").unwrap(), "");
}

#[test]
fn block_markers_match_in_any_letter_case() {
    assert_eq!(sanitize("<THINK>a</THINK>b").unwrap(), "b");
    assert_eq!(sanitize("<Think>a</tHiNk>b").unwrap(), "b");
}

#[test]
fn block_may_span_lines() {
    let raw = "<think>\nfirst line\nsecond line\n</think>\n# Title\n\nBody\n";
    assert_eq!(sanitize(raw).unwrap(), "# Title\n\nBody");
}

#[test]
fn every_block_is_removed_and_each_ends_at_the_nearest_end_marker() {
    let raw = "a<think>1</think>b<think>2</think>c</think>d";
    assert_eq!(sanitize(raw).unwrap(), "abc</think>d");
}

#[test]
fn unclosed_block_is_kept() {
    assert_eq!(sanitize("before <think>never closed").unwrap(), "before <think>never closed");
    assert_eq!(sanitize("stray </think> marker").unwrap(), "stray </think> marker");
}

#[test]
fn sanitizing_twice_matches_once_when_once_leaves_no_block() {
    for raw in [
        "preface <think>hidden</think> rest",
        "  <think>x</think>  ",
        "no markers at all",
        "<think>a</think><think>b</think>tail ",
    ] {
        let once = sanitize(raw).unwrap();
        let twice = sanitize(&once).unwrap();
        assert_eq!(twice, once);
    }
}

#[test]
fn removing_a_block_can_join_the_markers_of_a_new_one() {
    let once = sanitize("<thi<think>x</think>nk>y</think>").unwrap();
    assert_eq!(once, "<think>y</think>");
    let twice = sanitize(&once).unwrap();
    assert_eq!(twice, "");
}

#[test]
fn sanitize_never_fails_with_the_built_in_pattern() {
    let outcome: Result<String, Failure> = sanitize("anything");
    assert!(outcome.is_ok());
}

#[test]
fn trim_removes_white_space_at_both_ends_only() {
    assert_eq!(trim("  a  b  "), "a  b");
    assert_eq!(trim("\n\tword\r\n"), "word");
    assert_eq!(trim("word"), "word");
    assert_eq!(trim(""), "");
    assert_eq!(trim("   "), "");
}

#[test]
fn trim_knows_white_space_beyond_ascii() {
    assert_eq!(trim("\u{3000}\u{a0}x\u{2003}\u{85}"), "x");
    assert_eq!(trim("\u{200b}x"), "\u{200b}x");
}

#[test]
fn trim_agrees_with_the_standard_library() {
    for text in ["", " ", " a", "a ", " a b ", "\u{2028}a\u{2029}", "\u{1680}\u{205f}\u{202f}z", "\u{feff}a"] {
        assert_eq!(trim(text), text.trim());
    }
}

#[test]
fn white_space_is_what_the_standard_library_calls_white_space() {
    let mut code: u32 = 0;
    while code <= 0x3100 {
        if let Some(c) = char::from_u32(code) {
            assert_eq!(is_whitespace_char(c), c.is_whitespace());
        }
        code += 1;
    }
}
