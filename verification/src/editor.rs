//! The cursor and the window: how each key moves them over the document.
//!
//! Every key is handled in three steps that do not know of one another. The
//! key first acts: it moves the cursor freely or edits the document. The
//! cursor is then cut back to the line it stands on. Last, the window is
//! shifted by the least amount that shows the cursor again.

use crate::file::{deleted_at, inserted_at, width_at, File};
use crate::position::{Position, Size};
use crate::row::{least, shown, Row};
use vstd::prelude::*;

verus! {

/// A key as the terminal reports it.
#[derive(Clone, Copy, Debug, PartialEq, Eq, Structural)]
pub enum Key {
    Backspace,
    Left,
    Right,
    Up,
    Down,
    Home,
    End,
    PageUp,
    PageDown,
    BackTab,
    Delete,
    Insert,
    F(u8),
    Char(char),
    Alt(char),
    Ctrl(char),
    Null,
    Esc,
}

/// What an editor amounts to: the text of each line, where the cursor is,
/// where the window starts, and whether the user asked to leave.
pub struct State {
    pub lines: Seq<Seq<char>>,
    pub cursor: Position,
    pub offset: Position,
    pub quit: bool,
}

/// The position with the given column and line.
pub open spec fn place(x: int, y: int) -> Position {
    Position { x: x as usize, y: y as usize }
}

/// Where a key sends the cursor before the cursor is cut back to its line,
/// given what the move depends on: `height` is the number of lines that a
/// page key jumps, `count` the number of lines in the document, `width` the
/// number of clusters in the cursor's line and `width_above` the number in
/// the line above it.
///
/// Going up or down keeps the column: no wished-for column is remembered
/// from line to line. Going down may reach the place one below the last
/// line, where typing starts a new line. Going left from the start of a
/// line leads to the end of the line above, going right from the end of a
/// line to the start of the line below.
pub open spec fn aimed_on(
    cursor: Position,
    key: Key,
    height: int,
    count: int,
    width: int,
    width_above: int,
) -> Position {
    let x = cursor.x as int;
    let y = cursor.y as int;
    match key {
        Key::Up => place(x, if y > 0 { y - 1 } else { 0 }),
        Key::Down => place(x, least(y + 1, count)),
        Key::Left => if x > 0 {
            place(x - 1, y)
        } else if y > 0 {
            place(width_above, y - 1)
        } else {
            cursor
        },
        Key::Right => if x < width {
            place(x + 1, y)
        } else if y < count {
            place(0, y + 1)
        } else {
            cursor
        },
        Key::PageUp => place(x, if y > height { y - height } else { 0 }),
        Key::PageDown => place(x, least(y + height, count)),
        Key::Home => place(0, y),
        Key::End => place(width, y),
        _ => cursor,
    }
}

/// Where a key sends the cursor in a document with the given lines, before
/// the cursor is cut back to its line.
pub open spec fn aimed(lines: Seq<Seq<char>>, cursor: Position, key: Key, height: int) -> Position {
    aimed_on(
        cursor,
        key,
        height,
        lines.len() as int,
        width_at(lines, cursor.y as int) as int,
        width_at(lines, cursor.y - 1) as int,
    )
}

/// The position with its column cut back to `width`.
pub open spec fn clamped_to(p: Position, width: int) -> Position {
    Position { x: least(p.x as int, width) as usize, y: p.y }
}

/// The position cut back to the line it stands on: the column is at most the
/// number of clusters in that line, which is zero where there is no line.
pub open spec fn clamped(lines: Seq<Seq<char>>, p: Position) -> Position {
    clamped_to(p, width_at(lines, p.y as int) as int)
}

/// Where a key leaves the cursor.
pub open spec fn moved(lines: Seq<Seq<char>>, cursor: Position, key: Key, height: int) -> Position {
    clamped(lines, aimed(lines, cursor, key, height))
}

/// Where the window starts along one axis once it has followed the cursor.
///
/// `at` is the cursor, `off` the start of the window and `extent` its size
/// along that axis. A cursor before the window pulls the start back to
/// itself. A cursor more than `extent` past the start pushes the start to
/// `at - extent + 1`. Otherwise the window stays.
pub open spec fn scrolled_axis(at: usize, off: usize, extent: usize) -> usize {
    if at < off {
        at
    } else if at > off + extent {
        least(at - extent + 1, usize::MAX as int) as usize
    } else {
        off
    }
}

/// Where the window starts once it has followed the cursor.
pub open spec fn scrolled(cursor: Position, offset: Position, size: Size) -> Position {
    Position {
        x: scrolled_axis(cursor.x, offset.x, size.w as usize),
        y: scrolled_axis(cursor.y, offset.y, size.h as usize),
    }
}

/// What a key does before the window follows.
///
/// Ctrl-Q asks to leave. The arrow, page, Home and End keys move the cursor.
/// Delete deletes at the cursor and leaves the cursor where it is. Backspace
/// does nothing at the very start of the document; anywhere else it moves
/// the cursor one step to the left and deletes there. A character is put in
/// at the cursor, and the cursor then moves one step to the right. Any other
/// key does nothing.
pub open spec fn acted(s: State, key: Key, size: Size) -> State {
    let h = size.h as int;
    match key {
        Key::Ctrl(c) => if c == 'q' {
            State { quit: true, ..s }
        } else {
            s
        },
        Key::Up | Key::Down | Key::Left | Key::Right | Key::PageDown | Key::PageUp | Key::Home | Key::End => State {
            cursor: moved(s.lines, s.cursor, key, h),
            ..s
        },
        Key::Delete => State { lines: deleted_at(s.lines, s.cursor), ..s },
        Key::Backspace => if s.cursor.x > 0 || s.cursor.y > 0 {
            let cursor = moved(s.lines, s.cursor, Key::Left, h);
            State { lines: deleted_at(s.lines, cursor), cursor, ..s }
        } else {
            s
        },
        Key::Char(c) => {
            let lines = inserted_at(s.lines, s.cursor, c);
            State { lines, cursor: moved(lines, s.cursor, Key::Right, h), ..s }
        },
        _ => s,
    }
}

/// What a key does, the window following included.
pub open spec fn stepped(s: State, key: Key, size: Size) -> State {
    let t = acted(s, key, size);
    State { offset: scrolled(t.cursor, t.offset, size), ..t }
}

/// Whether the cursor lies in the window along one axis: not before its
/// start, and at most `extent` past it.
pub open spec fn in_view_axis(at: usize, off: usize, extent: usize) -> bool {
    off <= at <= off + extent
}

/// The one case in which the window cannot follow the cursor along an axis:
/// the window has no extent there, and the cursor is past its start. The
/// start is then pushed one beyond the cursor.
pub open spec fn beyond_reach(at: usize, off: usize, extent: usize) -> bool {
    extent == 0 && off < at < usize::MAX
}

/// The state after each of `keys` was handled in turn.
pub open spec fn replayed(s: State, keys: Seq<Key>, size: Size) -> State
    decreases keys.len(),
{
    if keys.len() == 0 {
        s
    } else {
        stepped(replayed(s, keys.drop_last(), size), keys.last(), size)
    }
}

/// Once the window has followed the cursor along an axis, the cursor lies
/// in it, except where the window has no extent and the cursor was past it.
pub proof fn lemma_scroll_axis_shows_cursor(at: usize, off: usize, extent: usize)
    ensures
        in_view_axis(at, scrolled_axis(at, off, extent), extent) <==> !beyond_reach(at, off, extent),
        extent > 0 ==> in_view_axis(at, scrolled_axis(at, off, extent), extent),
{
}

/// A window that already shows the cursor is not moved.
pub proof fn lemma_scroll_axis_is_lazy(at: usize, off: usize, extent: usize)
    requires
        in_view_axis(at, off, extent),
    ensures
        scrolled_axis(at, off, extent) == off,
{
}

/// After any key, the cursor lies in the window, line by line and column by
/// column, except along an axis where the window has no extent and the
/// cursor ended up past it.
pub proof fn lemma_step_shows_cursor(s: State, key: Key, size: Size)
    ensures
        ({
            let t = acted(s, key, size);
            let u = stepped(s, key, size);
            &&& in_view_axis(u.cursor.y, u.offset.y, size.h as usize) <==> !beyond_reach(
                t.cursor.y,
                t.offset.y,
                size.h as usize,
            )
            &&& in_view_axis(u.cursor.x, u.offset.x, size.w as usize) <==> !beyond_reach(
                t.cursor.x,
                t.offset.x,
                size.w as usize,
            )
        }),
{
    let t = acted(s, key, size);
    lemma_scroll_axis_shows_cursor(t.cursor.y, t.offset.y, size.h as usize);
    lemma_scroll_axis_shows_cursor(t.cursor.x, t.offset.x, size.w as usize);
}

/// After any run of keys that is not empty, the cursor lies in the window,
/// line by line and column by column, except along an axis where the window
/// has no extent and the last key left the cursor past it. In a window that
/// has a height the cursor's line is always in it; in one that has a width,
/// so is its column.
pub proof fn lemma_replay_shows_cursor(s: State, keys: Seq<Key>, size: Size)
    requires
        keys.len() > 0,
    ensures
        ({
            let t = acted(replayed(s, keys.drop_last(), size), keys.last(), size);
            let u = replayed(s, keys, size);
            &&& in_view_axis(u.cursor.y, u.offset.y, size.h as usize) <==> !beyond_reach(
                t.cursor.y,
                t.offset.y,
                size.h as usize,
            )
            &&& in_view_axis(u.cursor.x, u.offset.x, size.w as usize) <==> !beyond_reach(
                t.cursor.x,
                t.offset.x,
                size.w as usize,
            )
            &&& size.h > 0 ==> in_view_axis(u.cursor.y, u.offset.y, size.h as usize)
            &&& size.w > 0 ==> in_view_axis(u.cursor.x, u.offset.x, size.w as usize)
        }),
{
    lemma_step_shows_cursor(replayed(s, keys.drop_last(), size), keys.last(), size);
}

/// Backspace at the very start of the document changes neither the document
/// nor the cursor.
pub proof fn lemma_backspace_at_origin(s: State, size: Size)
    requires
        s.cursor == (Position { x: 0, y: 0 }),
    ensures
        stepped(s, Key::Backspace, size).lines == s.lines,
        stepped(s, Key::Backspace, size).cursor == s.cursor,
        stepped(s, Key::Backspace, size).quit == s.quit,
{
}

/// However the cursor is moved, its column is at most the number of
/// clusters in the line it ends on. This holds because the cursor is cut
/// back after every move, also one that leaves the column alone: the line it
/// lands on may be the shorter one.
pub proof fn lemma_move_keeps_column(lines: Seq<Seq<char>>, cursor: Position, key: Key, height: int)
    ensures
        moved(lines, cursor, key, height).x <= width_at(
            lines,
            moved(lines, cursor, key, height).y as int,
        ),
{
}

/// However the cursor is moved, it stays at or above the place one below
/// the last line, if it was there before.
pub proof fn lemma_move_keeps_line(lines: Seq<Seq<char>>, cursor: Position, key: Key, height: int)
    requires
        lines.len() <= usize::MAX,
        cursor.y <= lines.len(),
        0 <= height,
    ensures
        moved(lines, cursor, key, height).y <= lines.len(),
{
}

/// After any key, the cursor stands at or above the place one below the
/// last line, if it stood there before.
pub proof fn lemma_step_keeps_line(s: State, key: Key, size: Size)
    requires
        s.lines.len() < usize::MAX,
        s.cursor.y <= s.lines.len(),
    ensures
        stepped(s, key, size).cursor.y <= stepped(s, key, size).lines.len(),
{
    let h = size.h as int;
    match key {
        Key::Backspace => {
            if s.cursor.x > 0 || s.cursor.y > 0 {
                let cursor = moved(s.lines, s.cursor, Key::Left, h);
                lemma_move_keeps_line(s.lines, s.cursor, Key::Left, h);
                if s.cursor.x == 0 {
                    assert(cursor.y + 1 == s.cursor.y);
                }
            }
        },
        Key::Char(c) => {
            lemma_move_keeps_line(inserted_at(s.lines, s.cursor, c), s.cursor, Key::Right, h);
        },
        _ => {
            lemma_move_keeps_line(s.lines, s.cursor, key, h);
        },
    }
}

/// After a key that moves the cursor or types a character, the cursor's
/// column is at most the number of clusters in its line.
///
/// Delete and Backspace are left out: they leave the cursor where the
/// deleted cluster stood, and whether that column is still on the line
/// depends on how the shortened text falls into clusters.
pub proof fn lemma_step_keeps_column(s: State, key: Key, size: Size)
    requires
        !(key is Delete),
        !(key is Backspace),
        s.cursor.x <= width_at(s.lines, s.cursor.y as int),
    ensures
        stepped(s, key, size).cursor.x <= width_at(
            stepped(s, key, size).lines,
            stepped(s, key, size).cursor.y as int,
        ),
{
}

/// What the window shows of a line: the columns from the window's left edge
/// on, as many as the window is wide.
pub open spec fn shown_in_window(line: Seq<char>, offset: Position, size: Size) -> Seq<char> {
    shown(line, offset.x as int, offset.x + size.w)
}

/// What row `r` of the window shows, counted from its top: a line of the
/// document, or nothing where the document has ended.
pub open spec fn window_row(s: State, r: int, size: Size) -> Option<Seq<char>> {
    let y = s.offset.y + r;
    if y < s.lines.len() {
        Some(shown_in_window(s.lines[y], s.offset, size))
    } else {
        None
    }
}

/// The text that a string holds, if there is one.
pub open spec fn text_of(row: Option<String>) -> Option<Seq<char>> {
    match row {
        Some(text) => Some(text@),
        None => None,
    }
}

/// A document with a cursor in it and a window onto it.
pub struct Editor {
    pub will_quit: bool,
    pub cursor_position: Position,
    pub file: File,
    pub file_offset: Position,
}

impl View for Editor {
    type V = State;

    open spec fn view(&self) -> State {
        State {
            lines: self.file@,
            cursor: self.cursor_position,
            offset: self.file_offset,
            quit: self.will_quit,
        }
    }
}

/// Where a key sends the cursor before the cursor is cut back to its line:
/// see [`aimed_on`].
pub fn aim(
    cursor: Position,
    key: Key,
    height: usize,
    count: usize,
    width: usize,
    width_above: usize,
) -> (p: Position)
    ensures
        p == aimed_on(cursor, key, height as int, count as int, width as int, width_above as int),
{
    let Position { mut x, mut y } = cursor;
    match key {
        Key::Up => {
            if y > 0 {
                y = y - 1;
            }
        },
        Key::Down => {
            if y < count {
                y = y + 1;
            } else {
                y = count;
            }
        },
        Key::Left => {
            if x > 0 {
                x = x - 1;
            } else if y > 0 {
                y = y - 1;
                x = width_above;
            }
        },
        Key::Right => {
            if x < width {
                x = x + 1;
            } else if y < count {
                y = y + 1;
                x = 0;
            }
        },
        Key::PageUp => {
            y = if y > height {
                y - height
            } else {
                0
            };
        },
        Key::PageDown => {
            y = if y < count && height < count - y {
                y + height
            } else {
                count
            };
        },
        Key::Home => {
            x = 0;
        },
        Key::End => {
            x = width;
        },
        _ => {},
    }
    Position { x, y }
}

/// The position with its column cut back to `width`.
pub fn clamp(p: Position, width: usize) -> (q: Position)
    ensures
        q == clamped_to(p, width as int),
{
    Position { x: if p.x > width { width } else { p.x }, y: p.y }
}

/// Where the window starts along one axis once it has followed the cursor:
/// see [`scrolled_axis`].
pub fn scroll_axis(at: usize, off: usize, extent: usize) -> (start: usize)
    ensures
        start == scrolled_axis(at, off, extent),
{
    if at < off {
        at
    } else if at > off.saturating_add(extent) {
        at.saturating_sub(extent).saturating_add(1)
    } else {
        off
    }
}

impl Editor {
    /// An editor at rest on `file`: cursor and window at the top left.
    pub fn default(file: File) -> (editor: Editor)
        ensures
            editor.file == file,
            editor.cursor_position == (Position { x: 0, y: 0 }),
            editor.file_offset == (Position { x: 0, y: 0 }),
            !editor.will_quit,
    {
        Editor {
            will_quit: false,
            cursor_position: Position { x: 0, y: 0 },
            file,
            file_offset: Position { x: 0, y: 0 },
        }
    }

    /// The number of clusters in line `y`, zero where there is no such line.
    fn width(&self, y: usize) -> (w: usize)
        ensures
            w == width_at(self.file@, y as int),
    {
        match self.file.row(y) {
            Some(row) => row.len(),
            None => 0,
        }
    }

    /// Moves the cursor as `key` asks and cuts it back to its line: see
    /// [`moved`]. `size.h` is the number of lines that a page key jumps.
    pub fn move_cursor(&mut self, key: Key, size: &Size)
        ensures
            final(self).cursor_position == moved(
                old(self).file@,
                old(self).cursor_position,
                key,
                size.h as int,
            ),
            final(self).file == old(self).file,
            final(self).file_offset == old(self).file_offset,
            final(self).will_quit == old(self).will_quit,
    {
        let cursor = self.cursor_position;
        let width = self.width(cursor.y);
        let width_above = if cursor.y > 0 {
            self.width(cursor.y - 1)
        } else {
            0
        };
        let p = aim(cursor, key, size.h as usize, self.file.len(), width, width_above);
        self.cursor_position = clamp(p, self.width(p.y));
    }

    /// Shifts the window by the least amount that shows the cursor: see
    /// [`scrolled`].
    pub fn scroll(&mut self, size: &Size)
        ensures
            final(self).file_offset == scrolled(
                old(self).cursor_position,
                old(self).file_offset,
                *size,
            ),
            final(self).file == old(self).file,
            final(self).cursor_position == old(self).cursor_position,
            final(self).will_quit == old(self).will_quit,
    {
        let Position { x, y } = self.cursor_position;
        let width = size.w as usize;
        let height = size.h as usize;
        let ox = scroll_axis(x, self.file_offset.x, width);
        let oy = scroll_axis(y, self.file_offset.y, height);
        self.file_offset = Position { x: ox, y: oy };
    }

    /// What the window shows of `row`: see [`shown_in_window`].
    pub fn draw_row(&self, row: &Row, size: &Size) -> (out: String)
        ensures
            out@ == shown_in_window(row@, self.file_offset, *size),
    {
        proof {
            use_type_invariant(row);
            row.lemma_len_fits();
        }
        let start = self.file_offset.x;
        let end = start.saturating_add(size.w as usize);
        row.render(start, end)
    }

    /// What each row of the window shows, top to bottom: see [`window_row`].
    pub fn draw_rows(&self, size: &Size) -> (out: Vec<Option<String>>)
        ensures
            out@.len() == size.h,
            forall|r: int| 0 <= r < size.h ==> text_of(#[trigger] out@[r]) == window_row(self@, r, *size),
    {
        let mut out: Vec<Option<String>> = Vec::new();
        let mut r: u16 = 0;
        let n = self.file.len();
        while r < size.h
            invariant
                r <= size.h,
                n == self.file@.len(),
                out@.len() == r,
                forall|i: int| 0 <= i < r ==> text_of(#[trigger] out@[i]) == window_row(self@, i, *size),
            decreases size.h - r,
        {
            let text = match self.file_offset.y.checked_add(r as usize) {
                Some(y) => match self.file.row(y) {
                    Some(row) => {
                        assert(self.file@[y as int] == row@);
                        Some(self.draw_row(row, size))
                    },
                    None => None,
                },
                None => None,
            };
            assert(text_of(text) == window_row(self@, r as int, *size));
            out.push(text);
            r += 1;
        }
        out
    }

    /// Where the cursor stands in the window, counted from its top left
    /// corner; a cursor before the window counts as standing on its edge.
    pub fn screen_position(&self) -> (p: Position)
        ensures
            p.x == if self.cursor_position.x >= self.file_offset.x {
                self.cursor_position.x - self.file_offset.x
            } else {
                0
            },
            p.y == if self.cursor_position.y >= self.file_offset.y {
                self.cursor_position.y - self.file_offset.y
            } else {
                0
            },
    {
        Position {
            x: self.cursor_position.x.saturating_sub(self.file_offset.x),
            y: self.cursor_position.y.saturating_sub(self.file_offset.y),
        }
    }

    /// Handles one key and lets the window follow: see [`stepped`].
    pub fn process_keypress(&mut self, key: Key, size: &Size)
        ensures
            final(self)@ == stepped(old(self)@, key, *size),
            final(self).file.file_name == old(self).file.file_name,
            old(self).file.wf() ==> final(self).file.wf(),
    {
        match key {
            Key::Ctrl(c) => {
                if c == 'q' {
                    self.will_quit = true;
                }
            },
            Key::Up | Key::Down | Key::Left | Key::Right | Key::PageDown | Key::PageUp | Key::Home | Key::End => {
                self.move_cursor(key, size);
            },
            Key::Delete => {
                let at = self.cursor_position;
                self.file.delete(&at);
            },
            Key::Backspace => {
                if self.cursor_position.x > 0 || self.cursor_position.y > 0 {
                    self.move_cursor(Key::Left, size);
                    let at = self.cursor_position;
                    self.file.delete(&at);
                }
            },
            Key::Char(c) => {
                let at = self.cursor_position;
                self.file.insert(&at, c);
                self.move_cursor(Key::Right, size);
            },
            _ => {},
        }
        self.scroll(size);
    }
}

} // verus!
