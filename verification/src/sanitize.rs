//! The output sanitizer: reasoning blocks are cut out of what the model
//! returned, and the rest is trimmed.
//!
//! A reasoning block starts with `<think>` and runs to the nearest `</think>`,
//! in any letter case and across lines. Finding the blocks is left to the
//! pattern engine; trimming is done here.

use vstd::prelude::*;
use crate::error::{text_or_failure, Failure, FailureView};
use crate::text::{chars_of, string_of};

verus! {

/// The error with which the pattern engine rejects a pattern.
#[verifier::external_type_specification]
#[verifier::external_body]
pub struct ExPatternError(regex::Error);

/// Whether the pattern engine accepts `pattern`.
pub uninterp spec fn regex_accepts(pattern: Seq<char>) -> bool;

/// The text that the pattern engine gives when each match of `pattern` in
/// `text`, from left to right and without overlap, is replaced by
/// `replacement`.
pub uninterp spec fn regex_replace_all(
    pattern: Seq<char>,
    text: Seq<char>,
    replacement: Seq<char>,
) -> Seq<char>;

/// Replaces every match of `pattern` in `text` by `replacement`.
///
/// Trusted: compiles the pattern with `regex::Regex::new` and calls
/// `Regex::replace_all` on the result. Whether the engine accepts a pattern
/// depends on the pattern alone, and what replacing gives on the three texts
/// alone; the contract only names the two.
#[verifier::external_body]
fn replace_all(pattern: &str, text: &str, replacement: &str) -> (replaced: Result<
    String,
    regex::Error,
>)
    ensures
        replaced is Ok <==> regex_accepts(pattern@),
        replaced matches Ok(result) ==> result@ == regex_replace_all(
            pattern@,
            text@,
            replacement@,
        ),
{
    Ok(regex::Regex::new(pattern)?.replace_all(text, replacement).into_owned())
}

/// The pattern of a reasoning block: `<think>`, then as little as possible of
/// anything, line breaks included, then `</think>`; letter case is ignored.
pub open spec fn reasoning_block_pattern() -> Seq<char> {
    "(?si)<think>.*?</think>"@
}

/// `text` with its reasoning blocks cut out.
pub open spec fn without_reasoning_blocks(text: Seq<char>) -> Seq<char> {
    regex_replace_all(reasoning_block_pattern(), text, ""@)
}

/// Whether `c` is white space: a character with the Unicode property
/// `White_Space`.
pub open spec fn is_whitespace(c: char) -> bool {
    ||| '\u{9}' <= c <= '\u{D}'
    ||| c == ' '
    ||| c == '\u{85}'
    ||| c == '\u{A0}'
    ||| c == '\u{1680}'
    ||| '\u{2000}' <= c <= '\u{200A}'
    ||| c == '\u{2028}'
    ||| c == '\u{2029}'
    ||| c == '\u{202F}'
    ||| c == '\u{205F}'
    ||| c == '\u{3000}'
}

/// Whether `c` is white space.
pub fn is_whitespace_char(c: char) -> (white: bool)
    ensures
        white == is_whitespace(c),
{
    ('\u{9}' <= c && c <= '\u{D}') || c == ' ' || c == '\u{85}' || c == '\u{A0}' || c
        == '\u{1680}' || ('\u{2000}' <= c && c <= '\u{200A}') || c == '\u{2028}' || c
        == '\u{2029}' || c == '\u{202F}' || c == '\u{205F}' || c == '\u{3000}'
}

/// `text` without its leading white space.
pub open spec fn trim_start(text: Seq<char>) -> Seq<char>
    decreases text.len(),
{
    if text.len() > 0 && is_whitespace(text[0]) {
        trim_start(text.skip(1))
    } else {
        text
    }
}

/// `text` without its trailing white space.
pub open spec fn trim_end(text: Seq<char>) -> Seq<char>
    decreases text.len(),
{
    if text.len() > 0 && is_whitespace(text.last()) {
        trim_end(text.drop_last())
    } else {
        text
    }
}

/// `text` without its leading and trailing white space.
pub open spec fn trimmed(text: Seq<char>) -> Seq<char> {
    trim_end(trim_start(text))
}

/// What sanitizing makes of the raw output of the model: the reasoning blocks
/// are cut out, then the text is trimmed.
pub open spec fn sanitized(raw: Seq<char>) -> Seq<char> {
    trimmed(without_reasoning_blocks(raw))
}

/// Skipping white space at the start does not change what `trim_start` gives.
proof fn lemma_trim_start_skips(text: Seq<char>, n: int)
    requires
        0 <= n <= text.len(),
        forall|i: int| 0 <= i < n ==> is_whitespace(text[i]),
    ensures
        trim_start(text) == trim_start(text.skip(n)),
    decreases n,
{
    if n > 0 {
        assert(text.skip(1).skip(n - 1) == text.skip(n));
        lemma_trim_start_skips(text.skip(1), n - 1);
    } else {
        assert(text.skip(0) == text);
    }
}

/// Dropping white space at the end does not change what `trim_end` gives.
proof fn lemma_trim_end_drops(text: Seq<char>, n: int)
    requires
        0 <= n <= text.len(),
        forall|i: int| n <= i < text.len() ==> is_whitespace(text[i]),
    ensures
        trim_end(text) == trim_end(text.take(n)),
    decreases text.len() - n,
{
    if n < text.len() {
        assert(text.drop_last().take(n) == text.take(n));
        lemma_trim_end_drops(text.drop_last(), n);
    } else {
        assert(text.take(n) == text);
    }
}

/// What `trim_end` gives is the start of the text, and does not end in white
/// space.
proof fn lemma_trim_end_is_prefix(text: Seq<char>)
    ensures
        trim_end(text).len() <= text.len(),
        trim_end(text) == text.take(trim_end(text).len() as int),
        trim_end(text).len() > 0 ==> !is_whitespace(trim_end(text).last()),
    decreases text.len(),
{
    if text.len() > 0 && is_whitespace(text.last()) {
        lemma_trim_end_is_prefix(text.drop_last());
        let kept = trim_end(text).len() as int;
        assert(text.drop_last().take(kept) == text.take(kept));
    } else {
        assert(text.take(text.len() as int) == text);
    }
}

/// What `trim_start` gives does not start with white space.
proof fn lemma_trim_start_is_bare(text: Seq<char>)
    ensures
        trim_start(text).len() > 0 ==> !is_whitespace(trim_start(text)[0]),
    decreases text.len(),
{
    if text.len() > 0 && is_whitespace(text[0]) {
        lemma_trim_start_is_bare(text.skip(1));
    }
}

/// Trimming a trimmed text changes nothing.
pub proof fn lemma_trimmed_is_fixed(text: Seq<char>)
    ensures
        trimmed(trimmed(text)) == trimmed(text),
{
    let inner = trim_start(text);
    let result = trimmed(text);
    lemma_trim_start_is_bare(text);
    lemma_trim_end_is_prefix(inner);
    if result.len() > 0 {
        assert(result[0] == inner[0]);
    }
    assert(trim_start(result) == result);
    assert(trim_end(result) == result);
}

/// Removes the leading and trailing white space of `text`.
pub fn trim(text: &str) -> (result: String)
    ensures
        result@ == trimmed(text@),
{
    let chars = chars_of(text);
    let n: usize = chars.len();
    let mut start: usize = 0;
    while start < n && is_whitespace_char(chars[start])
        invariant
            start <= n,
            n == chars.len(),
            forall|i: int| 0 <= i < start ==> is_whitespace(chars@[i]),
        decreases n - start,
    {
        start += 1;
    }
    let mut end: usize = n;
    while end > start && is_whitespace_char(chars[end - 1])
        invariant
            start <= end <= n,
            n == chars.len(),
            forall|i: int| end <= i < n ==> is_whitespace(chars@[i]),
        decreases end,
    {
        end -= 1;
    }
    let mut kept: Vec<char> = Vec::new();
    let mut i: usize = start;
    while i < end
        invariant
            start <= i <= end <= n,
            n == chars.len(),
            kept@ == chars@.subrange(start as int, i as int),
        decreases end - i,
    {
        kept.push(chars[i]);
        i += 1;
    }
    proof {
        let whole = chars@;
        let inner = whole.skip(start as int);
        lemma_trim_start_skips(whole, start as int);
        assert(trim_start(whole) == inner);
        assert(forall|j: int| end - start <= j < inner.len() ==> is_whitespace(inner[j])) by {
            assert(forall|j: int| 0 <= j < inner.len() ==> inner[j] == whole[j + start]);
        }
        lemma_trim_end_drops(inner, end - start);
        assert(inner.take(end - start) == whole.subrange(start as int, end as int));
        if end > start {
            assert(kept@.last() == whole[end - 1]);
        }
        assert(trim_end(kept@) == kept@);
    }
    string_of(&kept)
}

/// What cleaning up the raw output of the model gives: the sanitized text; or,
/// if the pattern engine does not accept the pattern of a reasoning block, the
/// failure `Pattern`, whatever the raw output.
pub open spec fn sanitize_outcome(raw: Seq<char>) -> Result<Seq<char>, FailureView> {
    if regex_accepts(reasoning_block_pattern()) {
        Ok(sanitized(raw))
    } else {
        Err(FailureView::Pattern)
    }
}

/// Cleans up the raw output of the model: cuts out the reasoning blocks and
/// trims the rest.
pub fn sanitize(raw: &str) -> (clean: Result<String, Failure>)
    ensures
        text_or_failure(clean) == sanitize_outcome(raw@),
{
    match replace_all("(?si)<think>.*?</think>", raw, "") {
        Ok(stripped) => Ok(trim(stripped.as_str())),
        Err(_) => Err(Failure::Pattern),
    }
}

/// Whether sanitizing finds no reasoning block in `text`.
pub open spec fn free_of_reasoning_blocks(text: Seq<char>) -> bool {
    without_reasoning_blocks(text) == text
}

/// Sanitizing is idempotent on every raw output whose sanitized form is free
/// of reasoning blocks: sanitizing that form again changes nothing.
pub proof fn lemma_sanitize_idempotent(raw: Seq<char>)
    requires
        free_of_reasoning_blocks(sanitized(raw)),
    ensures
        sanitized(sanitized(raw)) == sanitized(raw),
{
    lemma_trimmed_is_fixed(without_reasoning_blocks(raw));
}

} // verus!
