//! The mapping from relative path to file content that a traversal produces.
//!
//! The entries are kept in a vector ordered by path, so that a map has one
//! representation and everything derived from it is reproducible.

use vstd::prelude::*;
use crate::text::{
    lemma_precedes_asymmetric, lemma_precedes_transitive, precedes, text_order, TextOrder,
};

verus! {

/// One collected file: its path relative to the root, and its text.
#[derive(Debug)]
pub struct FileEntry {
    pub path: String,
    pub content: String,
}

impl FileEntry {
    /// The entry as a pair of character sequences.
    pub open spec fn pair(&self) -> (Seq<char>, Seq<char>) {
        (self.path@, self.content@)
    }
}

/// The pairs of a sequence of entries.
pub open spec fn pairs_of(entries: Seq<FileEntry>) -> Seq<(Seq<char>, Seq<char>)> {
    Seq::new(entries.len(), |i: int| entries[i].pair())
}

/// The paths of `listing` are strictly increasing.
pub open spec fn ordered_by_path(listing: Seq<(Seq<char>, Seq<char>)>) -> bool {
    forall|i: int, j: int|
        0 <= i < j < listing.len() ==> precedes(#[trigger] listing[i].0, #[trigger] listing[j].0)
}

/// `listing` has an entry for `path` at index `i`.
pub open spec fn holds_at(listing: Seq<(Seq<char>, Seq<char>)>, path: Seq<char>, i: int) -> bool {
    0 <= i < listing.len() && listing[i].0 == path
}

/// The mapping that a listing stands for: each path is mapped to the content
/// listed with it.
pub open spec fn map_of(listing: Seq<(Seq<char>, Seq<char>)>) -> Map<Seq<char>, Seq<char>> {
    Map::new(
        |path: Seq<char>| exists|i: int| holds_at(listing, path, i),
        |path: Seq<char>| listing[choose|i: int| holds_at(listing, path, i)].1,
    )
}

/// In an ordered listing a path occurs at most once.
pub proof fn lemma_ordered_unique(listing: Seq<(Seq<char>, Seq<char>)>, i: int, j: int)
    requires
        ordered_by_path(listing),
        0 <= i < listing.len(),
        0 <= j < listing.len(),
        listing[i].0 == listing[j].0,
    ensures
        i == j,
{
    if i < j {
        lemma_precedes_asymmetric(listing[i].0, listing[j].0);
    } else if j < i {
        lemma_precedes_asymmetric(listing[j].0, listing[i].0);
    }
}

/// In an ordered listing, the mapping sends the path at index `i` to the
/// content at index `i`.
pub proof fn lemma_map_of_at(listing: Seq<(Seq<char>, Seq<char>)>, i: int)
    requires
        ordered_by_path(listing),
        0 <= i < listing.len(),
    ensures
        map_of(listing).contains_key(listing[i].0),
        map_of(listing)[listing[i].0] == listing[i].1,
{
    let path = listing[i].0;
    assert(holds_at(listing, path, i));
    let j = choose|j: int| holds_at(listing, path, j);
    lemma_ordered_unique(listing, i, j);
}

/// Putting a new path into an ordered listing at its place keeps the listing
/// ordered and adds the path to the mapping.
proof fn lemma_insert_new(
    listing: Seq<(Seq<char>, Seq<char>)>,
    at: int,
    path: Seq<char>,
    content: Seq<char>,
)
    requires
        ordered_by_path(listing),
        0 <= at <= listing.len(),
        forall|j: int| 0 <= j < at ==> precedes(#[trigger] listing[j].0, path),
        at < listing.len() ==> precedes(path, listing[at].0),
    ensures
        ordered_by_path(listing.insert(at, (path, content))),
        map_of(listing.insert(at, (path, content))) == map_of(listing).insert(path, content),
{
    let grown = listing.insert(at, (path, content));
    assert forall|j: int| at <= j < listing.len() implies precedes(path, #[trigger] listing[j].0) by {
        if at < j {
            lemma_precedes_transitive(path, listing[at].0, listing[j].0);
        }
    }
    assert forall|i: int, j: int| 0 <= i < j < grown.len() implies precedes(
        #[trigger] grown[i].0,
        #[trigger] grown[j].0,
    ) by {
        let a = if i < at { i } else { i - 1 };
        let b = if j < at { j } else { j - 1 };
        if i != at && j != at {
            assert(grown[i] == listing[a] && grown[j] == listing[b]);
        } else if i == at {
            assert(grown[j] == listing[b]);
        } else {
            assert(grown[i] == listing[a]);
        }
    }
    let before = map_of(listing);
    let after = map_of(grown);
    assert forall|k: Seq<char>| after.contains_key(k) <==> before.insert(path, content).contains_key(
        k,
    ) by {
        if after.contains_key(k) {
            let i = choose|i: int| holds_at(grown, k, i);
            if i != at {
                let a = if i < at { i } else { i - 1 };
                assert(holds_at(listing, k, a));
            }
        }
        if before.contains_key(k) {
            let a = choose|a: int| holds_at(listing, k, a);
            let i = if a < at { a } else { a + 1 };
            assert(holds_at(grown, k, i));
        }
        if k == path {
            assert(holds_at(grown, k, at));
        }
    }
    assert forall|k: Seq<char>| after.contains_key(k) implies after[k] == before.insert(
        path,
        content,
    )[k] by {
        let i = choose|i: int| holds_at(grown, k, i);
        lemma_map_of_at(grown, i);
        if i != at {
            if k == path {
                lemma_ordered_unique(grown, i, at);
            }
            let a = if i < at { i } else { i - 1 };
            assert(grown[i] == listing[a]);
            lemma_map_of_at(listing, a);
        }
    }
    assert(after =~= before.insert(path, content));
}

/// Replacing the content listed with a path keeps the listing ordered and
/// updates the mapping at that path.
proof fn lemma_replace_content(
    listing: Seq<(Seq<char>, Seq<char>)>,
    at: int,
    content: Seq<char>,
)
    requires
        ordered_by_path(listing),
        0 <= at < listing.len(),
    ensures
        ordered_by_path(listing.update(at, (listing[at].0, content))),
        map_of(listing.update(at, (listing[at].0, content))) == map_of(listing).insert(
            listing[at].0,
            content,
        ),
{
    let path = listing[at].0;
    let changed = listing.update(at, (path, content));
    assert forall|i: int, j: int| 0 <= i < j < changed.len() implies precedes(
        #[trigger] changed[i].0,
        #[trigger] changed[j].0,
    ) by {
        assert(changed[i].0 == listing[i].0 && changed[j].0 == listing[j].0);
    }
    let before = map_of(listing);
    let after = map_of(changed);
    assert forall|k: Seq<char>| after.contains_key(k) <==> before.insert(path, content).contains_key(
        k,
    ) by {
        if after.contains_key(k) {
            let i = choose|i: int| holds_at(changed, k, i);
            assert(holds_at(listing, k, i));
        }
        if before.contains_key(k) {
            let i = choose|i: int| holds_at(listing, k, i);
            assert(holds_at(changed, k, i));
        }
        if k == path {
            assert(holds_at(changed, k, at));
        }
    }
    assert forall|k: Seq<char>| after.contains_key(k) implies after[k] == before.insert(
        path,
        content,
    )[k] by {
        let i = choose|i: int| holds_at(changed, k, i);
        lemma_map_of_at(changed, i);
        if i != at {
            lemma_map_of_at(listing, i);
        }
    }
    assert(after =~= before.insert(path, content));
}

/// Without its first entry, an ordered listing stands for the mapping without
/// the first path.
proof fn lemma_map_of_rest(listing: Seq<(Seq<char>, Seq<char>)>)
    requires
        ordered_by_path(listing),
        listing.len() > 0,
    ensures
        ordered_by_path(listing.skip(1)),
        map_of(listing.skip(1)) == map_of(listing).remove(listing[0].0),
{
    let rest = listing.skip(1);
    assert forall|i: int, j: int| 0 <= i < j < rest.len() implies precedes(
        #[trigger] rest[i].0,
        #[trigger] rest[j].0,
    ) by {
        assert(rest[i] == listing[i + 1] && rest[j] == listing[j + 1]);
    }
    let whole = map_of(listing);
    let part = map_of(rest);
    assert forall|k: Seq<char>| part.contains_key(k) <==> whole.remove(listing[0].0).contains_key(
        k,
    ) by {
        if part.contains_key(k) {
            let i = choose|i: int| holds_at(rest, k, i);
            assert(holds_at(listing, k, i + 1));
            if k == listing[0].0 {
                lemma_ordered_unique(listing, 0, i + 1);
            }
        }
        if whole.contains_key(k) && k != listing[0].0 {
            let i = choose|i: int| holds_at(listing, k, i);
            assert(holds_at(rest, k, i - 1));
        }
    }
    assert forall|k: Seq<char>| part.contains_key(k) implies part[k] == whole.remove(
        listing[0].0,
    )[k] by {
        let i = choose|i: int| holds_at(rest, k, i);
        lemma_map_of_at(rest, i);
        lemma_map_of_at(listing, i + 1);
    }
    assert(part =~= whole.remove(listing[0].0));
}

/// A mapping has at most one ordered listing.
pub proof fn lemma_ordered_listing_unique(
    a: Seq<(Seq<char>, Seq<char>)>,
    b: Seq<(Seq<char>, Seq<char>)>,
)
    requires
        ordered_by_path(a),
        ordered_by_path(b),
        map_of(a) == map_of(b),
    ensures
        a == b,
    decreases a.len(),
{
    if a.len() == 0 {
        if b.len() > 0 {
            assert(holds_at(b, b[0].0, 0));
            assert(map_of(b).contains_key(b[0].0));
            let i = choose|i: int| holds_at(a, b[0].0, i);
        }
        assert(a =~= b);
    } else {
        assert(holds_at(a, a[0].0, 0));
        assert(map_of(b).contains_key(a[0].0));
        let j = choose|j: int| holds_at(b, a[0].0, j);
        assert(holds_at(b, b[0].0, 0));
        assert(map_of(a).contains_key(b[0].0));
        let i = choose|i: int| holds_at(a, b[0].0, i);
        if j > 0 {
            lemma_precedes_asymmetric(b[0].0, b[j].0);
            if i > 0 {
                lemma_precedes_asymmetric(a[0].0, a[i].0);
            }
        }
        lemma_map_of_at(a, 0);
        lemma_map_of_at(b, 0);
        lemma_map_of_rest(a);
        lemma_map_of_rest(b);
        lemma_ordered_listing_unique(a.skip(1), b.skip(1));
        assert(a =~= seq![a[0]] + a.skip(1));
        assert(b =~= seq![b[0]] + b.skip(1));
    }
}

/// An ordered listing has as many entries as its mapping has paths.
pub proof fn lemma_ordered_listing_counts(listing: Seq<(Seq<char>, Seq<char>)>)
    requires
        ordered_by_path(listing),
    ensures
        map_of(listing).dom().finite(),
        map_of(listing).dom().len() == listing.len(),
    decreases listing.len(),
{
    if listing.len() == 0 {
        assert(map_of(listing).dom() =~= Set::empty());
    } else {
        lemma_map_of_rest(listing);
        lemma_ordered_listing_counts(listing.skip(1));
        assert(holds_at(listing, listing[0].0, 0));
        assert(map_of(listing).dom() =~= map_of(listing.skip(1)).dom().insert(listing[0].0));
    }
}

/// The listing of a mapping: its pairs of path and content in the order of
/// their paths.
pub open spec fn listing_of(files: Map<Seq<char>, Seq<char>>) -> Seq<(Seq<char>, Seq<char>)> {
    choose|listing: Seq<(Seq<char>, Seq<char>)>|
        ordered_by_path(listing) && map_of(listing) == files
}

/// The listing of the mapping that an ordered listing stands for is that
/// listing.
pub proof fn lemma_listing_of_map_of(listing: Seq<(Seq<char>, Seq<char>)>)
    requires
        ordered_by_path(listing),
    ensures
        listing_of(map_of(listing)) == listing,
{
    lemma_ordered_listing_unique(listing_of(map_of(listing)), listing);
}

/// A mapping from relative path to file content, with each path at most once.
#[derive(Debug)]
pub struct FileMap {
    entries: Vec<FileEntry>,
}

impl View for FileMap {
    type V = Map<Seq<char>, Seq<char>>;

    closed spec fn view(&self) -> Map<Seq<char>, Seq<char>> {
        map_of(pairs_of(self.entries@))
    }
}

impl FileMap {
    /// The entries as pairs of path and content, in the order of their paths.
    pub open spec fn listing(&self) -> Seq<(Seq<char>, Seq<char>)> {
        listing_of(self@)
    }

    #[verifier::type_invariant]
    spec fn well_formed(&self) -> bool {
        ordered_by_path(pairs_of(self.entries@))
    }

    /// The stored entries are the listing of the mapping.
    proof fn lemma_stored(&self)
        requires
            ordered_by_path(pairs_of(self.entries@)),
        ensures
            self.listing() == pairs_of(self.entries@),
            ordered_by_path(self.listing()),
            map_of(self.listing()) == self@,
    {
        lemma_listing_of_map_of(pairs_of(self.entries@));
    }

    /// The empty mapping.
    pub fn new() -> (files: FileMap)
        ensures
            files@ == Map::<Seq<char>, Seq<char>>::empty(),
    {
        let files = FileMap { entries: Vec::new() };
        assert(files@ =~= Map::empty());
        files
    }

    /// The number of paths in the mapping.
    pub fn len(&self) -> (n: usize)
        ensures
            self@.dom().finite(),
            n == self@.dom().len(),
            n == self.listing().len(),
    {
        proof {
            use_type_invariant(self);
            self.lemma_stored();
            lemma_ordered_listing_counts(self.listing());
        }
        self.entries.len()
    }

    /// Whether the mapping holds no path.
    pub fn is_empty(&self) -> (empty: bool)
        ensures
            empty == (self@ == Map::<Seq<char>, Seq<char>>::empty()),
    {
        proof {
            let stored = pairs_of(self.entries@);
            if stored.len() == 0 {
                assert(self@ =~= Map::empty());
            } else {
                assert(holds_at(stored, stored[0].0, 0));
                assert(self@.contains_key(stored[0].0));
            }
        }
        self.entries.len() == 0
    }

    /// The entries in the order of their paths.
    pub fn entries(&self) -> (entries: &Vec<FileEntry>)
        ensures
            pairs_of(entries@) == self.listing(),
            ordered_by_path(self.listing()),
            map_of(self.listing()) == self@,
    {
        proof {
            use_type_invariant(self);
            self.lemma_stored();
        }
        &self.entries
    }

    /// The index of the first entry whose path does not come before `path`,
    /// and whether that entry's path is `path`.
    fn locate(&self, path: &str) -> (found: (usize, bool))
        ensures
            found.0 <= self.entries@.len(),
            forall|j: int|
                0 <= j < found.0 ==> precedes(#[trigger] pairs_of(self.entries@)[j].0, path@),
            found.1 ==> holds_at(pairs_of(self.entries@), path@, found.0 as int),
            !found.1 && found.0 < self.entries@.len() ==> precedes(
                path@,
                pairs_of(self.entries@)[found.0 as int].0,
            ),
    {
        let mut i: usize = 0;
        while i < self.entries.len()
            invariant
                i <= self.entries.len(),
                forall|j: int| 0 <= j < i ==> precedes(#[trigger] pairs_of(self.entries@)[j].0, path@),
            decreases self.entries.len() - i,
        {
            match text_order(self.entries[i].path.as_str(), path) {
                TextOrder::Before => {
                    i += 1;
                },
                TextOrder::Same => {
                    return (i, true);
                },
                TextOrder::After => {
                    return (i, false);
                },
            }
        }
        (i, false)
    }

    /// The content stored for `path`, if any.
    pub fn get(&self, path: &str) -> (content: Option<&String>)
        ensures
            match content {
                Some(text) => self@.contains_key(path@) && text@ == self@[path@],
                None => !self@.contains_key(path@),
            },
    {
        proof {
            use_type_invariant(self);
        }
        let ghost stored = pairs_of(self.entries@);
        let (at, present) = self.locate(path);
        if present {
            proof {
                lemma_map_of_at(stored, at as int);
            }
            Some(&self.entries[at].content)
        } else {
            proof {
                if self@.contains_key(path@) {
                    let i = choose|i: int| holds_at(stored, path@, i);
                    if i < at {
                        lemma_precedes_asymmetric(stored[i].0, path@);
                    } else if i == at {
                        lemma_precedes_asymmetric(path@, stored[i].0);
                    } else {
                        lemma_precedes_transitive(path@, stored[at as int].0, stored[i].0);
                        lemma_precedes_asymmetric(path@, stored[i].0);
                    }
                }
            }
            None
        }
    }

    /// Whether the mapping has an entry for `path`.
    pub fn contains(&self, path: &str) -> (present: bool)
        ensures
            present == self@.contains_key(path@),
    {
        self.get(path).is_some()
    }

    /// Maps `path` to `content`, replacing what was stored for `path` before.
    pub fn insert(&mut self, path: String, content: String)
        ensures
            final(self)@ == old(self)@.insert(path@, content@),
    {
        proof {
            use_type_invariant(&*self);
        }
        let (at, present) = self.locate(path.as_str());
        let ghost before = pairs_of(self.entries@);
        let mut entries: Vec<FileEntry> = Vec::new();
        std::mem::swap(&mut entries, &mut self.entries);
        if present {
            entries.set(at, FileEntry { path, content });
            proof {
                lemma_replace_content(before, at as int, content@);
                assert(pairs_of(entries@) =~= before.update(at as int, (path@, content@)));
            }
        } else {
            entries.insert(at, FileEntry { path, content });
            proof {
                lemma_insert_new(before, at as int, path@, content@);
                assert(pairs_of(entries@) =~= before.insert(at as int, (path@, content@)));
            }
        }
        self.entries = entries;
    }
}

} // verus!
