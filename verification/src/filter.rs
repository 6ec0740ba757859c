//! Which entries of a directory are collected: version-control metadata is
//! passed over, and a file is taken only if its extension is on the allow-list.

use vstd::prelude::*;
use crate::text::{chars_of, same_text, string_of};

verus! {

/// The name of the version-control metadata directory.
pub open spec fn vcs_marker() -> Seq<char> {
    ".git"@
}

/// Whether `name` is the name of the version-control metadata directory.
pub fn is_vcs_marker(name: &str) -> (marker: bool)
    ensures
        marker == (name@ == vcs_marker()),
{
    same_text(name, ".git")
}

/// The index of the last `.` in `name`, or -1 if there is none.
pub open spec fn last_dot(name: Seq<char>) -> int
    decreases name.len(),
{
    if name.len() == 0 {
        -1
    } else if name.last() == '.' {
        name.len() - 1
    } else {
        last_dot(name.drop_last())
    }
}

/// The extension of a file name: what follows its last `.`, unless the name has
/// no `.`, or its only `.` is its first character, or it is `..`.
pub open spec fn extension_of(name: Seq<char>) -> Option<Seq<char>> {
    let dot = last_dot(name);
    if dot <= 0 || name == seq!['.', '.'] {
        None
    } else {
        Some(name.skip(dot + 1))
    }
}

/// Characters other than `.` at the end of a name do not move its last `.`.
proof fn lemma_last_dot(name: Seq<char>, from: int)
    requires
        0 <= from <= name.len(),
        forall|j: int| from <= j < name.len() ==> name[j] != '.',
    ensures
        last_dot(name) == last_dot(name.take(from)),
    decreases name.len() - from,
{
    if from < name.len() {
        assert(name.drop_last().take(from) == name.take(from));
        lemma_last_dot(name.drop_last(), from);
    } else {
        assert(name.take(from) == name);
    }
}

/// The extension of the file name `name`, if it has one.
pub fn extension(name: &str) -> (ext: Option<String>)
    ensures
        match ext {
            Some(e) => extension_of(name@) == Some(e@),
            None => extension_of(name@) is None,
        },
{
    let chars = chars_of(name);
    let n: usize = chars.len();
    let mut end: usize = n;
    while end > 0 && chars[end - 1] != '.'
        invariant
            end <= n,
            n == chars.len(),
            forall|j: int| end <= j < n ==> chars@[j] != '.',
        decreases end,
    {
        end -= 1;
    }
    proof {
        lemma_last_dot(chars@, end as int);
        if end > 0 {
            assert(chars@.take(end as int).last() == '.');
        }
        assert(last_dot(name@) == end - 1);
    }
    if end <= 1 || (n == 2 && chars[0] == '.') {
        proof {
            if end > 1 {
                assert(chars@ =~= seq!['.', '.']);
            }
        }
        return None;
    }
    let mut tail: Vec<char> = Vec::new();
    let mut i: usize = end;
    while i < n
        invariant
            end <= i <= n,
            n == chars.len(),
            tail@ == chars@.subrange(end as int, i as int),
        decreases n - i,
    {
        tail.push(chars[i]);
        i += 1;
    }
    proof {
        assert(chars@.subrange(end as int, n as int) == chars@.skip(end as int));
        assert(chars@[0] != '.' || chars@.len() != 2);
    }
    Some(string_of(&tail))
}

/// The lower-case form of a text, as the standard library computes it.
pub uninterp spec fn lowercase_of(text: Seq<char>) -> Seq<char>;

/// The lower-case form of `text`.
///
/// Trusted: calls `str::to_lowercase`, whose result is determined by `text`
/// through the Unicode case mappings; the contract only names that result.
#[verifier::external_body]
fn to_lowercase(text: &str) -> (lower: String)
    ensures
        lower@ == lowercase_of(text@),
{
    text.to_lowercase()
}

/// The extensions, in lower case, of the files that are collected: documents
/// and common source code.
pub open spec fn allowed_extensions() -> Seq<Seq<char>> {
    seq![
        "md"@, "markdown"@, "txt"@, "rst"@, "adoc"@,
        "rs"@, "py"@, "java"@, "js"@, "jsx"@, "ts"@, "tsx"@, "go"@, "c"@, "cpp"@, "h"@, "hpp"@,
        "swift"@, "kt"@, "kts"@, "rb"@, "php"@,
        "html"@, "htm"@, "xml"@, "yaml"@, "yml"@, "json"@, "toml"@, "ini"@, "cfg"@,
        "sh"@, "bash"@, "zsh"@,
    ]
}

/// Whether `lowered`, an extension already in lower case, is on the allow-list.
pub fn is_allowed_extension(lowered: &str) -> (allowed: bool)
    ensures
        allowed == allowed_extensions().contains(lowered@),
{
    let list: [&str; 34] = [
        "md", "markdown", "txt", "rst", "adoc",
        "rs", "py", "java", "js", "jsx", "ts", "tsx", "go", "c", "cpp", "h", "hpp",
        "swift", "kt", "kts", "rb", "php",
        "html", "htm", "xml", "yaml", "yml", "json", "toml", "ini", "cfg",
        "sh", "bash", "zsh",
    ];
    assert(list@.len() == allowed_extensions().len());
    assert(forall|j: int| 0 <= j < list@.len() ==> (#[trigger] list@[j])@ == allowed_extensions()[j]);
    let mut i: usize = 0;
    while i < list.len()
        invariant
            i <= list.len(),
            list@.len() == allowed_extensions().len(),
            forall|j: int| 0 <= j < list@.len() ==> (#[trigger] list@[j])@ == allowed_extensions()[j],
            forall|j: int| 0 <= j < i ==> allowed_extensions()[j] != lowered@,
        decreases list.len() - i,
    {
        if same_text(list[i], lowered) {
            assert(allowed_extensions()[i as int] == lowered@);
            return true;
        }
        i += 1;
    }
    false
}

/// Whether a file of this name is collected: it has an extension whose
/// lower-case form is on the allow-list.
pub open spec fn is_collectable(name: Seq<char>) -> bool {
    match extension_of(name) {
        Some(ext) => allowed_extensions().contains(lowercase_of(ext)),
        None => false,
    }
}

/// Whether a file named `name` is collected.
pub fn has_allowed_extension(name: &str) -> (collectable: bool)
    ensures
        collectable == is_collectable(name@),
{
    match extension(name) {
        Some(ext) => {
            let lowered = to_lowercase(ext.as_str());
            is_allowed_extension(lowered.as_str())
        },
        None => false,
    }
}

} // verus!
