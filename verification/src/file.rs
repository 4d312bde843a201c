//! A document: its lines in order, and the edits that may touch two of them.

use crate::grapheme::clusters;
use crate::position::Position;
use crate::row::{deleted, inserted, push_char, Row};
use vstd::prelude::*;

verus! {

/// The lines after `c` was typed at `at`.
///
/// One line past the last, a new line holding `c` alone is added. On a line
/// that exists, `c` goes in at column `at.x` of it. Farther down nothing
/// happens: no line is ever created with a gap above it.
pub open spec fn inserted_at(lines: Seq<Seq<char>>, at: Position, c: char) -> Seq<Seq<char>> {
    if at.y == lines.len() {
        lines.push(seq![c])
    } else if at.y < lines.len() {
        lines.update(at.y as int, inserted(lines[at.y as int], at.x as int, c))
    } else {
        lines
    }
}

/// Whether a delete at `at` joins the line below onto the line `at.y`: the
/// place is the end of a line that is not the last.
pub open spec fn joins_next(lines: Seq<Seq<char>>, at: Position) -> bool {
    &&& at.y + 1 < lines.len()
    &&& at.x == clusters(lines[at.y as int]).len()
}

/// The lines after a delete at `at`.
///
/// Below the last line nothing happens. At the end of a line that is not
/// the last, the next line is joined onto it. Anywhere else the cluster at
/// column `at.x` leaves its line, if there is one.
pub open spec fn deleted_at(lines: Seq<Seq<char>>, at: Position) -> Seq<Seq<char>> {
    if at.y >= lines.len() {
        lines
    } else if joins_next(lines, at) {
        lines.update(at.y as int, lines[at.y as int] + lines[at.y + 1]).remove(at.y + 1)
    } else {
        lines.update(at.y as int, deleted(lines[at.y as int], at.x as int))
    }
}

/// The number of clusters in line `y`, and zero where there is no such line.
pub open spec fn width_at(lines: Seq<Seq<char>>, y: int) -> nat {
    if 0 <= y < lines.len() {
        clusters(lines[y]).len()
    } else {
        0
    }
}

/// A delete at the end of a line that is not the last joins the two lines
/// into one: the document is one line shorter, the line holds the text of
/// both, and every other line is as it was.
pub proof fn lemma_delete_joins_lines(lines: Seq<Seq<char>>, at: Position)
    requires
        joins_next(lines, at),
    ensures
        deleted_at(lines, at).len() == lines.len() - 1,
        deleted_at(lines, at)[at.y as int] == lines[at.y as int] + lines[at.y + 1],
        forall|i: int| 0 <= i < at.y ==> deleted_at(lines, at)[i] == lines[i],
        forall|i: int| at.y < i < lines.len() - 1 ==> deleted_at(lines, at)[i] == lines[i + 1],
{
}

/// Typing one line below the last adds a line that holds the character
/// alone, whatever the column; every line above is as it was.
pub proof fn lemma_insert_below_adds_line(lines: Seq<Seq<char>>, at: Position, c: char)
    requires
        at.y == lines.len(),
    ensures
        inserted_at(lines, at, c).len() == lines.len() + 1,
        inserted_at(lines, at, c).last() == seq![c],
        forall|i: int| 0 <= i < lines.len() ==> inserted_at(lines, at, c)[i] == lines[i],
{
}

/// An edit that neither joins two lines nor starts a new one keeps the
/// number of lines, and touches no line but the one it is made on.
pub proof fn lemma_edit_stays_on_its_line(lines: Seq<Seq<char>>, at: Position, c: char)
    requires
        at.y != lines.len(),
        !joins_next(lines, at),
    ensures
        inserted_at(lines, at, c).len() == lines.len(),
        deleted_at(lines, at).len() == lines.len(),
        forall|i: int|
            0 <= i < lines.len() && i != at.y ==> inserted_at(lines, at, c)[i] == lines[i]
                && deleted_at(lines, at)[i] == lines[i],
{
}

/// How many characters stand before the first line feed of `text`; the
/// length of `text` where it has none.
pub open spec fn first_break(text: Seq<char>) -> int
    decreases text.len(),
{
    if text.len() == 0 || text[0] == '\n' {
        0
    } else {
        1 + first_break(text.drop_first())
    }
}

/// The line without the carriage return at its end, if it has one.
pub open spec fn without_return(line: Seq<char>) -> Seq<char> {
    if line.len() > 0 && line.last() == '\r' {
        line.drop_last()
    } else {
        line
    }
}

/// The lines of `text`.
///
/// A line ends at a line feed, or at a carriage return that a line feed
/// follows; neither belongs to the line. What follows the last line feed is
/// a line too, unless it is empty. A carriage return elsewhere is a
/// character like any other.
pub open spec fn lines_of(text: Seq<char>) -> Seq<Seq<char>>
    decreases text.len(),
{
    let k = first_break(text);
    if text.len() == 0 {
        Seq::empty()
    } else if 0 <= k < text.len() {
        seq![without_return(text.take(k))] + lines_of(text.skip(k + 1))
    } else {
        seq![text]
    }
}

/// Whether `text` holds no line feed.
pub open spec fn unbroken(text: Seq<char>) -> bool {
    forall|i: int| 0 <= i < text.len() ==> text[i] != '\n'
}

/// The first line feed of a text that starts with an unbroken piece lies
/// past that piece.
pub proof fn lemma_first_break_after(head: Seq<char>, tail: Seq<char>)
    requires
        unbroken(head),
    ensures
        first_break(head + tail) == head.len() + first_break(tail),
        0 <= first_break(tail) <= tail.len(),
    decreases head.len() + tail.len(),
{
    if head.len() == 0 {
        assert(head + tail =~= tail);
        if tail.len() > 0 && tail[0] != '\n' {
            lemma_first_break_after(head, tail.drop_first());
        }
    } else {
        assert((head + tail).drop_first() =~= head.drop_first() + tail);
        lemma_first_break_after(head.drop_first(), tail);
    }
}

/// An unbroken piece, a line feed and more text: the piece is the first
/// line, less its carriage return, and the rest gives the other lines.
pub proof fn lemma_lines_after_break(head: Seq<char>, tail: Seq<char>)
    requires
        unbroken(head),
    ensures
        lines_of(head + seq!['\n'] + tail) == seq![without_return(head)] + lines_of(tail),
{
    let text = head + seq!['\n'] + tail;
    lemma_first_break_after(head, seq!['\n'] + tail);
    assert(text =~= head + (seq!['\n'] + tail));
    assert(first_break(seq!['\n'] + tail) == 0);
    assert(text.take(head.len() as int) =~= head);
    assert(text.skip((head.len() + 1) as int) =~= tail);
}

/// An unbroken text is one line, or none where it is empty.
pub proof fn lemma_lines_unbroken(text: Seq<char>)
    requires
        unbroken(text),
    ensures
        lines_of(text) == if text.len() == 0 {
            Seq::<Seq<char>>::empty()
        } else {
            seq![text]
        },
{
    lemma_first_break_after(text, Seq::empty());
    assert(text + Seq::<char>::empty() =~= text);
}

/// The text of each row.
pub open spec fn row_texts(rows: Seq<Row>) -> Seq<Seq<char>> {
    Seq::new(rows.len(), |i: int| rows[i]@)
}

/// What has been read of the line in hand: the characters kept so far, and
/// a carriage return held back until the next character shows whether it
/// ends the line.
pub open spec fn in_hand(kept: Seq<char>, held: bool) -> Seq<char> {
    if held {
        kept.push('\r')
    } else {
        kept
    }
}

/// Cuts `text` into its lines: see [`lines_of`].
fn split_lines(text: &str) -> (rows: Vec<Row>)
    ensures
        row_texts(rows@) == lines_of(text@),
        forall|i: int| 0 <= i < rows@.len() ==> (#[trigger] rows@[i]).wf(),
{
    let mut rows: Vec<Row> = Vec::new();
    let mut kept = String::new();
    let mut held = false;
    proof {
        assert(row_texts(rows@) =~= Seq::<Seq<char>>::empty());
        assert(in_hand(kept@, held) + text@.skip(0) =~= text@);
        assert(Seq::<Seq<char>>::empty() + lines_of(text@) =~= lines_of(text@));
    }
    for c in it: text.chars()
        invariant
            it.seq() == text@,
            unbroken(kept@),
            !held ==> kept@.len() == 0 || kept@.last() != '\r',
            lines_of(text@) == row_texts(rows@) + lines_of(
                in_hand(kept@, held) + text@.skip(it.index()),
            ),
            forall|i: int| 0 <= i < rows@.len() ==> (#[trigger] rows@[i]).wf(),
    {
        let ghost rest = text@.skip(it.index() + 1);
        let ghost hand = in_hand(kept@, held);
        let ghost done = row_texts(rows@);
        proof {
            assert(text@.skip(it.index()) =~= seq![c] + rest);
        }
        if c == '\n' {
            proof {
                assert(hand + (seq![c] + rest) =~= hand + seq!['\n'] + rest);
                lemma_lines_after_break(hand, rest);
                assert(without_return(hand) =~= kept@);
            }
            rows.push(Row::from(kept.as_str()));
            kept = String::new();
            held = false;
            proof {
                assert(row_texts(rows@) =~= done + seq![without_return(hand)]);
                assert(in_hand(kept@, held) + rest =~= rest);
                assert(done + (seq![without_return(hand)] + lines_of(rest)) =~= (done
                    + seq![without_return(hand)]) + lines_of(rest));
            }
        } else {
            if held {
                push_char(&mut kept, '\r');
            }
            if c == '\r' {
                held = true;
            } else {
                push_char(&mut kept, c);
                held = false;
            }
            proof {
                assert(in_hand(kept@, held) =~= hand + seq![c]);
                assert(in_hand(kept@, held) + rest =~= hand + (seq![c] + rest));
            }
        }
    }
    proof {
        assert(text@.skip(text@.len() as int) =~= Seq::<char>::empty());
        assert(in_hand(kept@, held) + Seq::<char>::empty() =~= in_hand(kept@, held));
        lemma_lines_unbroken(in_hand(kept@, held));
    }
    let ghost done = row_texts(rows@);
    if held {
        push_char(&mut kept, '\r');
    }
    if !kept.as_str().is_empty() {
        rows.push(Row::from(kept.as_str()));
        proof {
            assert(row_texts(rows@) =~= done + seq![kept@]);
        }
    } else {
        proof {
            assert(done + Seq::<Seq<char>>::empty() =~= done);
        }
    }
    rows
}

/// The lines of a document, and the name it was read from, if any.
pub struct File {
    pub rows: Vec<Row>,
    pub file_name: Option<String>,
}

impl View for File {
    type V = Seq<Seq<char>>;

    /// The text of each line, top to bottom.
    open spec fn view(&self) -> Seq<Seq<char>> {
        row_texts(self.rows@)
    }
}

impl Default for File {
    /// A document without lines and without a name.
    fn default() -> (file: File)
        ensures
            file@ == Seq::<Seq<char>>::empty(),
            file.file_name is None,
            file.wf(),
    {
        let file = File { rows: Vec::new(), file_name: None };
        assert(file@ =~= Seq::<Seq<char>>::empty());
        file
    }
}

impl File {
    /// Every line is well formed.
    pub open spec fn wf(&self) -> bool {
        forall|i: int| 0 <= i < self.rows@.len() ==> (#[trigger] self.rows@[i]).wf()
    }

    /// The document to start with, given what reading `file_path` gave.
    ///
    /// Where the text was read, the document holds its lines under that name:
    /// see [`lines_of`]. Where reading failed, the document is new and
    /// unnamed, and holds one empty line.
    pub fn open(file_path: &str, contents: Option<&str>) -> (file: File)
        ensures
            match contents {
                Some(text) => {
                    &&& file@ == lines_of(text@)
                    &&& file.file_name matches Some(name) && name@ == file_path@
                },
                None => {
                    &&& file@ == seq![Seq::<char>::empty()]
                    &&& file.file_name is None
                },
            },
            file.wf(),
    {
        match contents {
            Some(text) => File { rows: split_lines(text), file_name: Some(file_path.to_owned()) },
            None => {
                let mut rows: Vec<Row> = Vec::new();
                rows.push(Row::default());
                let file = File { rows, file_name: None };
                assert(file@ =~= seq![Seq::<char>::empty()]);
                file
            },
        }
    }

    /// Types `c` at `at`: see [`inserted_at`].
    pub fn insert(&mut self, at: &Position, c: char)
        ensures
            final(self)@ == inserted_at(old(self)@, *at, c),
            final(self).file_name == old(self).file_name,
            old(self).wf() ==> final(self).wf(),
    {
        if at.y == self.len() {
            let mut row = Row::default();
            row.insert(0, c);
            proof {
                let g = clusters(Seq::<char>::empty());
                assert(g.take(0) =~= Seq::<Seq<char>>::empty());
                assert(g.skip(0) =~= g);
                assert(row@ =~= seq![c]);
            }
            self.rows.push(row);
            assert(self@ =~= inserted_at(old(self)@, *at, c));
        } else if at.y < self.len() {
            self.rows[at.y].insert(at.x, c);
            assert(self@ =~= inserted_at(old(self)@, *at, c));
        }
    }

    /// Deletes at `at`: see [`deleted_at`].
    ///
    /// A caller that deletes backwards moves the place one step to the left
    /// first; the end of a line then stands for the line break after it.
    pub fn delete(&mut self, at: &Position)
        ensures
            final(self)@ == deleted_at(old(self)@, *at),
            final(self).file_name == old(self).file_name,
            old(self).wf() ==> final(self).wf(),
    {
        let file_len = self.len();
        if at.y >= file_len {
            return ;
        }
        let row_len = self.rows[at.y].len();
        if at.x == row_len && at.y < file_len - 1 {
            let next_row = self.rows.remove(at.y + 1);
            self.rows[at.y].append(&next_row);
            assert(self@ =~= deleted_at(old(self)@, *at));
        } else {
            self.rows[at.y].delete(at);
            assert(self@ =~= deleted_at(old(self)@, *at));
        }
    }

    /// The line at `index`, if there is one. That there is none is an
    /// ordinary answer: the window may reach below the last line.
    pub fn row(&self, index: usize) -> (found: Option<&Row>)
        ensures
            index < self.rows@.len() ==> found == Some(&self.rows@[index as int]),
            index >= self.rows@.len() ==> found is None,
            found matches Some(row) ==> row.wf(),
    {
        if index < self.rows.len() {
            let row = &self.rows[index];
            proof {
                use_type_invariant(row);
            }
            Some(row)
        } else {
            None
        }
    }

    /// Whether the document has no line.
    pub fn is_empty(&self) -> (b: bool)
        ensures
            b == (self@.len() == 0),
    {
        self.rows.is_empty()
    }

    /// The number of lines.
    pub fn len(&self) -> (n: usize)
        ensures
            n == self@.len(),
    {
        self.rows.len()
    }
}

} // verus!
