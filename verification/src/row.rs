//! One line of text, addressed by grapheme cluster.

use crate::grapheme::{clusters, joined, lemma_joined_split, split_clusters, texts};
use crate::position::Position;
use vstd::prelude::*;
use vstd::std_specs::convert::FromSpecImpl;
use vstd::string::StringExecFns;

verus! {

/// What a cluster looks like on screen: a tab becomes four spaces, every
/// other cluster is shown as it is.
pub open spec fn expanded(cluster: Seq<char>) -> Seq<char> {
    if cluster == seq!['\t'] {
        seq![' ', ' ', ' ', ' ']
    } else {
        cluster
    }
}

/// The clusters as shown on screen, laid end to end.
pub open spec fn rendered(parts: Seq<Seq<char>>) -> Seq<char> {
    joined(parts.map_values(|p: Seq<char>| expanded(p)))
}

/// The smaller of two numbers.
pub open spec fn least(a: int, b: int) -> int {
    if a <= b {
        a
    } else {
        b
    }
}

/// What is shown of a line with the clusters `g` between the columns
/// `start` and `end`: `end` is first cut down to the number of clusters,
/// then `start` to `end`.
pub open spec fn shown_of(g: Seq<Seq<char>>, start: int, end: int) -> Seq<char> {
    let e = least(end, g.len() as int);
    let s = least(start, e);
    rendered(g.subrange(s, e))
}

/// What is shown of `text` between the columns `start` and `end`.
pub open spec fn shown(text: Seq<char>, start: int, end: int) -> Seq<char> {
    shown_of(clusters(text), start, end)
}

/// The clusters `g` laid end to end, with `c` put in before the cluster at
/// column `at`, or at the end where there is no such cluster.
pub open spec fn inserted_among(g: Seq<Seq<char>>, at: int, c: char) -> Seq<char> {
    let k = least(at, g.len() as int);
    joined(g.take(k)) + seq![c] + joined(g.skip(k))
}

/// `text` with `c` put in before the cluster at column `at`, or at the end
/// where there is no such cluster.
pub open spec fn inserted(text: Seq<char>, at: int, c: char) -> Seq<char> {
    inserted_among(clusters(text), at, c)
}

/// The clusters `g` laid end to end, without the one at column `at`; all of
/// them where there is no such cluster.
pub open spec fn deleted_among(g: Seq<Seq<char>>, at: int) -> Seq<char> {
    if at >= g.len() {
        joined(g)
    } else {
        joined(g.take(at)) + joined(g.skip(at + 1))
    }
}

/// `text` without the cluster at column `at`; `text` itself where there is
/// no such cluster.
pub open spec fn deleted(text: Seq<char>, at: int) -> Seq<char> {
    if at >= clusters(text).len() {
        text
    } else {
        deleted_among(clusters(text), at)
    }
}

/// A line of text with the number of its grapheme clusters kept beside it.
pub struct Row {
    string: String,
    len: usize,
}

impl View for Row {
    type V = Seq<char>;

    /// The characters of the line.
    closed spec fn view(&self) -> Seq<char> {
        self.string@
    }
}

/// Calls `String::push`.
///
/// Trusted, not proved: the string afterwards is the string before with `c`
/// at its end.
#[verifier::external_body]
pub(crate) fn push_char(s: &mut String, c: char)
    ensures
        final(s)@ == old(s)@.push(c),
{
    s.push(c)
}

/// Appends the texts of `parts[from..to]` to `out`.
fn push_parts(out: &mut String, parts: &Vec<String>, from: usize, to: usize)
    requires
        from <= to <= parts.len(),
    ensures
        final(out)@ == old(out)@ + joined(texts(parts@).subrange(from as int, to as int)),
{
    let mut i: usize = from;
    assert(texts(parts@).subrange(from as int, from as int) =~= Seq::<Seq<char>>::empty());
    assert(out@ + joined(Seq::<Seq<char>>::empty()) =~= out@);
    while i < to
        invariant
            from <= i <= to <= parts.len(),
            out@ == old(out)@ + joined(texts(parts@).subrange(from as int, i as int)),
        decreases to - i,
    {
        proof {
            let before = texts(parts@).subrange(from as int, i as int);
            let after = texts(parts@).subrange(from as int, i + 1);
            assert(after.drop_last() =~= before);
            assert(after.last() == parts@[i as int]@);
            assert(old(out)@ + (joined(before) + parts@[i as int]@) =~= (old(out)@ + joined(before))
                + parts@[i as int]@);
        }
        out.append(parts[i].as_str());
        i += 1;
    }
}

/// What is shown of a line between the columns `start` and `end`, given the
/// line's clusters: see [`shown_of`].
pub fn render_clusters(parts: &Vec<String>, start: usize, end: usize) -> (out: String)
    ensures
        out@ == shown_of(texts(parts@), start as int, end as int),
{
    let n = parts.len();
    assert(texts(parts@).len() == parts@.len());
    let e = if end < n { end } else { n };
    let s = if start < e { start } else { e };
    let tab = "\t".to_owned();
    let mut out = String::new();
    let mut i: usize = s;
    proof {
        reveal_strlit("\t");
        reveal_strlit("    ");
        assert(tab@ =~= seq!['\t']);
        assert("    "@ =~= seq![' ', ' ', ' ', ' ']);
        assert(texts(parts@).subrange(s as int, s as int).map_values(|p: Seq<char>| expanded(p))
            =~= Seq::<Seq<char>>::empty());
    }
    while i < e
        invariant
            s <= i <= e <= parts.len(),
            tab@ == seq!['\t'],
            "    "@ == seq![' ', ' ', ' ', ' '],
            out@ == rendered(texts(parts@).subrange(s as int, i as int)),
        decreases e - i,
    {
        proof {
            let f = |p: Seq<char>| expanded(p);
            let before = texts(parts@).subrange(s as int, i as int);
            let after = texts(parts@).subrange(s as int, i + 1);
            assert(after.map_values(f).drop_last() =~= before.map_values(f));
            assert(after.map_values(f).last() == expanded(parts@[i as int]@));
        }
        if parts[i] == tab {
            out.append("    ");
        } else {
            out.append(parts[i].as_str());
        }
        i += 1;
    }
    out
}

/// The text of a line after `c` was put in at column `at`, given the line's
/// clusters: see [`inserted_among`].
pub fn insert_among(parts: &Vec<String>, at: usize, c: char) -> (out: String)
    ensures
        out@ == inserted_among(texts(parts@), at as int, c),
{
    let n = parts.len();
    assert(texts(parts@).len() == parts@.len());
    let k = if at < n { at } else { n };
    let mut out = String::new();
    push_parts(&mut out, parts, 0, k);
    push_char(&mut out, c);
    push_parts(&mut out, parts, k, n);
    proof {
        let g = texts(parts@);
        assert(g.subrange(0, k as int) =~= g.take(k as int));
        assert(g.subrange(k as int, n as int) =~= g.skip(k as int));
        assert(out@ =~= inserted_among(g, at as int, c));
    }
    out
}

/// The text of a line after the cluster at column `at` was taken out, given
/// the line's clusters: see [`deleted_among`].
pub fn delete_among(parts: &Vec<String>, at: usize) -> (out: String)
    ensures
        out@ == deleted_among(texts(parts@), at as int),
{
    let n = parts.len();
    assert(texts(parts@).len() == parts@.len());
    let mut out = String::new();
    if at >= n {
        push_parts(&mut out, parts, 0, n);
        proof {
            let g = texts(parts@);
            assert(g.subrange(0, n as int) =~= g);
            assert(out@ =~= joined(g));
        }
    } else {
        push_parts(&mut out, parts, 0, at);
        push_parts(&mut out, parts, at + 1, n);
        proof {
            let g = texts(parts@);
            assert(g.subrange(0, at as int) =~= g.take(at as int));
            assert(g.subrange(at + 1, n as int) =~= g.skip(at + 1));
            assert(out@ =~= deleted_among(g, at as int));
        }
    }
    out
}

impl Row {
    /// The number of clusters kept beside the text.
    pub closed spec fn cached_len(&self) -> nat {
        self.len as nat
    }

    /// The grapheme clusters of the line.
    pub open spec fn graphemes(&self) -> Seq<Seq<char>> {
        clusters(self@)
    }

    /// The number kept beside the text is the number of its clusters, and the
    /// clusters laid end to end are the text. Every row that this library
    /// hands out is well formed.
    #[verifier::type_invariant]
    pub open spec fn wf(&self) -> bool {
        &&& self.cached_len() == clusters(self@).len()
        &&& joined(clusters(self@)) == self@
    }

    /// The clusters of a well-formed line can be counted in a `usize`.
    pub proof fn lemma_len_fits(&self)
        requires
            self.wf(),
        ensures
            self.graphemes().len() <= usize::MAX,
    {
    }

    /// The number of grapheme clusters in the line.
    pub fn len(&self) -> (n: usize)
        ensures
            n == self.graphemes().len(),
            self.wf(),
    {
        proof {
            use_type_invariant(self);
        }
        self.len
    }

    /// Counts the clusters again. The count is kept up to date by every
    /// operation, so this changes nothing.
    pub fn update_len(&mut self)
        ensures
            *final(self) == *old(self),
            final(self).wf(),
    {
        proof {
            use_type_invariant(&*self);
        }
        let parts = split_clusters(self.string.as_str());
        assert(texts(parts@).len() == parts@.len());
        self.len = parts.len();
    }

    /// The line that holds `string`, with its clusters counted.
    fn holding(string: String) -> (row: Row)
        ensures
            row@ == string@,
            row.wf(),
    {
        let parts = split_clusters(string.as_str());
        assert(texts(parts@).len() == parts@.len());
        Row { string, len: parts.len() }
    }

    /// The part of the line that lies between the columns `start` and `end`,
    /// as shown on screen: tabs become four spaces. A range that reaches past
    /// the end of the line is cut down to it, and one that ends before it
    /// starts is empty.
    pub fn render(&self, start: usize, end: usize) -> (out: String)
        ensures
            out@ == shown(self@, start as int, end as int),
    {
        let parts = split_clusters(self.string.as_str());
        render_clusters(&parts, start, end)
    }

    /// Puts the text of `row` at the end of this line.
    pub fn append(&mut self, row: &Row)
        ensures
            final(self)@ == old(self)@ + row@,
            final(self).wf(),
    {
        let mut string = self.string.clone();
        string.append(row.string.as_str());
        *self = Row::holding(string);
    }

    /// Puts `c` in before the cluster at column `at`, or at the end of the
    /// line where `at` is not below the number of clusters.
    pub fn insert(&mut self, at: usize, c: char)
        ensures
            final(self)@ == inserted(old(self)@, at as int, c),
            final(self).wf(),
    {
        let parts = split_clusters(self.string.as_str());
        *self = Row::holding(insert_among(&parts, at, c));
    }

    /// Takes out the cluster at column `at.x`. Where the line has no such
    /// cluster, nothing changes. `at.y` is not looked at.
    pub fn delete(&mut self, at: &Position)
        ensures
            final(self)@ == deleted(old(self)@, at.x as int),
            final(self).wf(),
    {
        proof {
            use_type_invariant(&*self);
        }
        if at.x >= self.len {
            return ;
        }
        let parts = split_clusters(self.string.as_str());
        *self = Row::holding(delete_among(&parts, at.x));
    }

    /// Whether the line holds no character at all.
    pub fn is_empty(&self) -> (b: bool)
        ensures
            b == (self@.len() == 0),
    {
        self.string.as_str().is_empty()
    }
}

/// How many characters stand before column `at` of `text`.
pub open spec fn offset_of(text: Seq<char>, at: int) -> nat {
    joined(clusters(text).take(at)).len()
}

/// Whether `c`, once put in at column `at` of `text`, stands there as a
/// cluster of its own, with the clusters before it as they were. A character
/// that combines with a neighbour does not.
pub open spec fn stands_alone(text: Seq<char>, at: int, c: char) -> bool {
    let g = clusters(text);
    let h = clusters(inserted(text, at, c));
    &&& at < h.len()
    &&& h[at] == seq![c]
    &&& h.take(at) == g.take(at)
}

/// Shown from its first column to its last, a line is all its clusters as
/// they look on screen. Where no cluster is a tab, that is the text itself.
pub proof fn lemma_render_whole(line: Row)
    requires
        line.wf(),
    ensures
        shown(line@, 0, line.graphemes().len() as int) == rendered(line.graphemes()),
        (forall|i: int| 0 <= i < line.graphemes().len() ==> line.graphemes()[i] != seq!['\t'])
            ==> shown(line@, 0, line.graphemes().len() as int) == line@,
{
    let g = line.graphemes();
    assert(g.subrange(0, g.len() as int) =~= g);
    if forall|i: int| 0 <= i < g.len() ==> g[i] != seq!['\t'] {
        assert(g.map_values(|p: Seq<char>| expanded(p)) =~= g);
    }
}

/// A range that ends where it starts shows nothing.
pub proof fn lemma_render_nothing(text: Seq<char>, a: usize)
    ensures
        shown(text, a as int, a as int) == Seq::<char>::empty(),
{
    let g = clusters(text);
    let e = least(a as int, g.len() as int);
    assert(g.subrange(e, e).map_values(|p: Seq<char>| expanded(p)) =~= Seq::<Seq<char>>::empty());
}

/// A range that ends before it starts, or starts past the end of the line,
/// shows nothing.
pub proof fn lemma_render_out_of_range(text: Seq<char>, start: usize, end: usize)
    requires
        end <= start || clusters(text).len() <= start,
    ensures
        shown(text, start as int, end as int) == Seq::<char>::empty(),
{
    let g = clusters(text);
    let e = least(end as int, g.len() as int);
    assert(g.subrange(e, e).map_values(|p: Seq<char>| expanded(p)) =~= Seq::<Seq<char>>::empty());
}

/// A delete takes a whole cluster out and nothing else: the characters
/// before the cluster and those after it close up.
pub proof fn lemma_delete_takes_whole_cluster(line: Row, at: usize)
    requires
        line.wf(),
        at < line.graphemes().len(),
    ensures
        ({
            let start = offset_of(line@, at as int) as int;
            let end = offset_of(line@, at + 1) as int;
            &&& 0 <= start <= end <= line@.len()
            &&& line@.subrange(start, end) == line.graphemes()[at as int]
            &&& deleted(line@, at as int) == line@.subrange(0, start) + line@.subrange(
                end,
                line@.len() as int,
            )
        }),
{
    let g = line.graphemes();
    let a = joined(g.take(at as int));
    let b = joined(g.skip(at + 1));
    assert(g.take(at + 1).drop_last() =~= g.take(at as int));
    assert(g.take(at + 1).last() == g[at as int]);
    lemma_joined_split(g, at + 1);
    assert(line@ =~= a + g[at as int] + b);
    assert(line@.subrange(a.len() as int, (a.len() + g[at as int].len()) as int) =~= g[at as int]);
    assert(line@.subrange(0, a.len() as int) =~= a);
    assert(line@.subrange((a.len() + g[at as int].len()) as int, line@.len() as int) =~= b);
}

/// An insert lands between two clusters and splits none: the characters
/// before column `at` stay before the new one, the others follow it.
pub proof fn lemma_insert_lands_between_clusters(line: Row, at: usize, c: char)
    requires
        line.wf(),
    ensures
        ({
            let k = least(at as int, line.graphemes().len() as int);
            let start = offset_of(line@, k) as int;
            &&& 0 <= start <= line@.len()
            &&& inserted(line@, at as int, c) == line@.subrange(0, start) + seq![c] + line@.subrange(
                start,
                line@.len() as int,
            )
        }),
{
    let g = line.graphemes();
    let k = least(at as int, g.len() as int);
    lemma_joined_split(g, k);
    let a = joined(g.take(k));
    let b = joined(g.skip(k));
    assert(line@ =~= a + b);
    assert(line@.subrange(0, a.len() as int) =~= a);
    assert(line@.subrange(a.len() as int, line@.len() as int) =~= b);
}

/// Putting a character in and deleting at the same column gives the line
/// back, provided the character stands alone where it was put. `mid` is the
/// line in between.
pub proof fn lemma_insert_then_delete(line: Row, mid: Row, at: usize, c: char)
    requires
        line.wf(),
        mid.wf(),
        at <= line.graphemes().len(),
        mid@ == inserted(line@, at as int, c),
        stands_alone(line@, at as int, c),
    ensures
        deleted(mid@, at as int) == line@,
        clusters(deleted(mid@, at as int)).len() == line.cached_len(),
{
    let g = line.graphemes();
    let h = mid.graphemes();
    let a = joined(g.take(at as int));
    let b = joined(g.skip(at as int));
    let tail = joined(h.skip(at + 1));
    lemma_joined_split(g, at as int);
    lemma_joined_split(h, at + 1);
    assert(h.take(at + 1).drop_last() =~= h.take(at as int));
    assert(h.take(at + 1).last() == h[at as int]);
    assert(mid@ =~= a + seq![c] + tail);
    assert(mid@ =~= a + seq![c] + b);
    assert(tail =~= mid@.subrange((a.len() + 1) as int, mid@.len() as int));
    assert(b =~= mid@.subrange((a.len() + 1) as int, mid@.len() as int));
    assert(line@ =~= a + b);
}

impl Default for Row {
    /// The empty line.
    fn default() -> (row: Row)
        ensures
            row@ == Seq::<char>::empty(),
            row.wf(),
    {
        Row::holding(String::new())
    }
}

/// A row cannot be written down as a value in a contract, so the general
/// statement about conversions is left unused: `from` itself says what it
/// returns.
impl FromSpecImpl<&str> for Row {
    open spec fn obeys_from_spec() -> bool {
        false
    }

    open spec fn from_spec(s: &str) -> Row {
        arbitrary()
    }
}

impl From<&str> for Row {
    /// The line that holds the text `s`.
    fn from(s: &str) -> (row: Row)
        ensures
            row@ == s@,
            row.wf(),
    {
        Row::holding(s.to_owned())
    }
}

} // verus!
