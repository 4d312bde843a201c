//! The text buffer of a small terminal editor, and the rules that keep its
//! cursor and its window in step with it.
//!
//! A [`Row`] is one line of text, addressed by grapheme cluster: what a
//! reader takes for one character moves and leaves as one. A [`File`] is the
//! ordered lines of a document, with the edits that may touch two of them.
//! An [`Editor`] holds a file, a cursor and the start of the visible window,
//! and says what each key does to them.
//!
//! Nothing here reads a key, asks the terminal for its size or writes to the
//! screen. The caller hands in keys and sizes and paints what it gets back.

pub mod editor;
pub mod file;
pub mod grapheme;
pub mod position;
pub mod row;

pub use editor::{Editor, Key};
pub use file::File;
pub use position::{Position, Size};
pub use row::Row;
