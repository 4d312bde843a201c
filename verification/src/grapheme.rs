//! Grapheme clusters: what a reader takes for one character.
//!
//! Where one cluster ends and the next begins is decided by the
//! `unicode-segmentation` crate. This module gives that decision a name,
//! [`clusters`], and states the one thing the rest of the library relies on:
//! the clusters of a text, joined in order, are the text.

use unicode_segmentation::UnicodeSegmentation;
use vstd::prelude::*;

verus! {

/// The extended grapheme clusters of `text`, in order, as
/// `UnicodeSegmentation::graphemes(text, true)` yields them.
pub uninterp spec fn clusters(text: Seq<char>) -> Seq<Seq<char>>;

/// The pieces laid end to end.
pub open spec fn joined(parts: Seq<Seq<char>>) -> Seq<char>
    decreases parts.len(),
{
    if parts.len() == 0 {
        Seq::empty()
    } else {
        joined(parts.drop_last()) + parts.last()
    }
}

/// The texts that a sequence of strings holds.
pub open spec fn texts(parts: Seq<String>) -> Seq<Seq<char>> {
    Seq::new(parts.len(), |i: int| parts[i]@)
}

/// Calls `UnicodeSegmentation::graphemes(text, true)` and copies each cluster
/// into a string of its own.
///
/// Trusted, not proved: the strings are the clusters that [`clusters`] names,
/// and laid end to end they are `text` again. The iterator hands out
/// consecutive slices of `text`, from its first byte to its last.
#[verifier::external_body]
pub(crate) fn split_clusters(text: &str) -> (parts: Vec<String>)
    ensures
        texts(parts@) == clusters(text@),
        joined(texts(parts@)) == text@,
{
    text.graphemes(true).map(String::from).collect()
}

/// Joining distributes over concatenation.
pub proof fn lemma_joined_concat(a: Seq<Seq<char>>, b: Seq<Seq<char>>)
    ensures
        joined(a + b) == joined(a) + joined(b),
    decreases b.len(),
{
    if b.len() == 0 {
        assert(a + b =~= a);
        assert(joined(a) + joined(b) =~= joined(a));
    } else {
        lemma_joined_concat(a, b.drop_last());
        assert((a + b).drop_last() =~= a + b.drop_last());
        assert((a + b).last() == b.last());
        assert(joined(a + b) =~= joined(a) + joined(b));
    }
}

/// Cutting a sequence of pieces in two and joining each half gives the two
/// halves of the joined whole.
pub proof fn lemma_joined_split(parts: Seq<Seq<char>>, k: int)
    requires
        0 <= k <= parts.len(),
    ensures
        joined(parts) == joined(parts.take(k)) + joined(parts.skip(k)),
{
    assert(parts =~= parts.take(k) + parts.skip(k));
    lemma_joined_concat(parts.take(k), parts.skip(k));
}

} // verus!
