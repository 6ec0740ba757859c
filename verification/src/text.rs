//! Conversions between strings and character sequences, and the order on text
//! that the file map is kept in.

use vstd::prelude::*;
use vstd::std_specs::iter::IteratorSpec;

verus! {

/// Appends one character to a string.
///
/// Trusted: calls `String::push`, which the standard library documents as
/// appending the given character to the end of the string.
#[verifier::external_body]
fn push_char(s: &mut String, c: char)
    ensures
        final(s)@ == old(s)@.push(c),
{
    s.push(c)
}

/// The characters of `s`, in order.
pub fn chars_of(s: &str) -> (chars: Vec<char>)
    ensures
        chars@ == s@,
{
    broadcast use vstd::string::group_string_axioms;

    let mut chars: Vec<char> = Vec::new();
    let source = s.chars();
    for c in it: source
        invariant
            it.seq() == s@,
            chars@ == s@.take(it.index()),
    {
        chars.push(c);
    }
    chars
}

/// The string made of `chars`, in order.
pub fn string_of(chars: &Vec<char>) -> (s: String)
    ensures
        s@ == chars@,
{
    let mut s = String::new();
    let mut i: usize = 0;
    while i < chars.len()
        invariant
            i <= chars.len(),
            s@ == chars@.take(i as int),
        decreases chars.len() - i,
    {
        push_char(&mut s, chars[i]);
        i += 1;
    }
    s
}

/// How one text stands to another in the order on text.
#[derive(Clone, Copy, Debug, PartialEq, Eq, Structural)]
pub enum TextOrder {
    Before,
    Same,
    After,
}

/// `a` comes strictly before `b`: at the first position where they differ `a`
/// has the smaller character, or `a` is a proper prefix of `b`.
pub open spec fn precedes(a: Seq<char>, b: Seq<char>) -> bool {
    exists|k: int| #[trigger] diverge_at(a, b, k)
}

/// `a` and `b` agree on their first `k` characters, and there `a` ends while
/// `b` goes on, or `a` has the smaller character.
pub open spec fn diverge_at(a: Seq<char>, b: Seq<char>, k: int) -> bool {
    &&& 0 <= k <= a.len()
    &&& k < b.len()
    &&& a.take(k) == b.take(k)
    &&& (k == a.len() || a[k] < b[k])
}

/// Compares two texts character by character.
pub fn text_order(a: &str, b: &str) -> (order: TextOrder)
    ensures
        order == TextOrder::Before <==> precedes(a@, b@),
        order == TextOrder::Same <==> a@ == b@,
        order == TextOrder::After <==> precedes(b@, a@),
{
    broadcast use vstd::string::group_string_axioms;

    let mut left = a.chars();
    let mut right = b.chars();
    let ghost mut k: int = 0;
    loop
        invariant
            0 <= k <= a@.len(),
            k <= b@.len(),
            left.remaining() == a@.skip(k),
            right.remaining() == b@.skip(k),
            a@.take(k) == b@.take(k),
        decreases a@.len() - k,
    {
        let x = left.next();
        let y = right.next();
        match (x, y) {
            (None, None) => {
                proof {
                    assert(a@ == a@.take(k));
                    assert(b@ == b@.take(k));
                    lemma_precedes_irreflexive(a@);
                }
                return TextOrder::Same;
            },
            (None, Some(_)) => {
                proof {
                    assert(diverge_at(a@, b@, k));
                    lemma_precedes_asymmetric(a@, b@);
                }
                return TextOrder::Before;
            },
            (Some(_), None) => {
                proof {
                    assert(diverge_at(b@, a@, k));
                    lemma_precedes_asymmetric(b@, a@);
                }
                return TextOrder::After;
            },
            (Some(p), Some(q)) => {
                assert(p == a@[k] && q == b@[k]);
                if p < q {
                    proof {
                        assert(diverge_at(a@, b@, k));
                        lemma_precedes_asymmetric(a@, b@);
                    }
                    return TextOrder::Before;
                } else if q < p {
                    proof {
                        assert(diverge_at(b@, a@, k));
                        lemma_precedes_asymmetric(b@, a@);
                    }
                    return TextOrder::After;
                }
                proof {
                    assert(a@.take(k + 1) == a@.take(k).push(a@[k]));
                    assert(b@.take(k + 1) == b@.take(k).push(b@[k]));
                    assert(a@.skip(k).drop_first() == a@.skip(k + 1));
                    assert(b@.skip(k).drop_first() == b@.skip(k + 1));
                    k = k + 1;
                }
            },
        }
    }
}

/// Whether two texts hold the same characters.
pub fn same_text(a: &str, b: &str) -> (same: bool)
    ensures
        same == (a@ == b@),
{
    text_order(a, b) == TextOrder::Same
}

/// If `a` diverges from `b` towards the smaller side, then `b` does not diverge
/// from `a` that way at any position.
proof fn lemma_diverge_exclusive(a: Seq<char>, b: Seq<char>, i: int, j: int)
    requires
        diverge_at(a, b, i),
    ensures
        !diverge_at(b, a, j),
{
    if diverge_at(b, a, j) {
        if i < j {
            assert(b.take(j)[i] == a.take(j)[i]);
        } else if j < i {
            assert(a.take(i)[j] == b.take(i)[j]);
        }
    }
}

/// No text comes before itself.
pub proof fn lemma_precedes_irreflexive(a: Seq<char>)
    ensures
        !precedes(a, a),
{
    if precedes(a, a) {
        let k = choose|k: int| diverge_at(a, a, k);
        lemma_diverge_exclusive(a, a, k, k);
    }
}

/// If `a` comes before `b`, then `b` does not come before `a`, and they differ.
pub proof fn lemma_precedes_asymmetric(a: Seq<char>, b: Seq<char>)
    requires
        precedes(a, b),
    ensures
        !precedes(b, a),
        a != b,
{
    let i = choose|k: int| diverge_at(a, b, k);
    if precedes(b, a) {
        let j = choose|k: int| diverge_at(b, a, k);
        lemma_diverge_exclusive(a, b, i, j);
    }
    if a == b {
        lemma_precedes_irreflexive(a);
    }
}

/// The order on text is transitive.
pub proof fn lemma_precedes_transitive(a: Seq<char>, b: Seq<char>, c: Seq<char>)
    requires
        precedes(a, b),
        precedes(b, c),
    ensures
        precedes(a, c),
{
    let i = choose|k: int| diverge_at(a, b, k);
    let j = choose|k: int| diverge_at(b, c, k);
    let k = if i <= j { i } else { j };
    assert forall|n: int| 0 <= n < k implies a[n] == c[n] by {
        assert(a.take(i)[n] == b.take(i)[n]);
        assert(b.take(j)[n] == c.take(j)[n]);
    }
    assert(a.take(k) =~= c.take(k));
    if i < j {
        assert(b.take(j)[i] == c.take(j)[i]);
    } else if j < i {
        assert(a.take(i)[j] == b.take(i)[j]);
    }
    assert(diverge_at(a, c, k));
}

} // verus!
