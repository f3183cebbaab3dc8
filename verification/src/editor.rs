use std::ops::Range;
use vstd::prelude::*;
use vstd::utf8::*;

use crate::text::{byte_len, cuts_at, prefix, prefix_of, spliced, splice, text_len};

verus! {

broadcast use {encode_utf8_valid_utf8, encode_utf8_decode_utf8, is_char_boundary_start_end_of_seq};

/// Where the caret stands: a line index and a byte offset into that line.
/// The offset may run past the end of the line; it is clamped where a key
/// needs it to be inside.
#[derive(Clone, Copy, PartialEq, Eq, Debug, Structural)]
pub struct Cursor {
    pub line: u32,
    pub char: u32,
}

/// The keys the editor reacts to; every other key is `Other`.
#[derive(Clone, Copy, PartialEq, Eq, Debug, Structural)]
pub enum Key {
    Up,
    Down,
    End,
    Home,
    Left,
    Right,
    Delete,
    Backspace,
    Other,
}

/// A buffer of text lines with a caret.
pub struct Editor {
    pub lines: Vec<String>,
    pub cursor: Cursor,
}

/// `v` clamped into `lo..=hi` (with `lo <= hi`).
pub open spec fn clamp_int(v: int, lo: int, hi: int) -> int {
    if v < lo {
        lo
    } else if v > hi {
        hi
    } else {
        v
    }
}

// ----- moving the caret -----
/// `v` moved by `amount` through `i32` arithmetic and floored at zero.
pub open spec fn moved(v: u32, amount: i32) -> u32 {
    let t = (v as i32) + amount;
    if t < 0 {
        0
    } else {
        t as u32
    }
}

/// The move of `v` by `amount` stays in `i32` range (the original code
/// overflows, and so panics, otherwise).
pub open spec fn move_ok(v: u32, amount: i32) -> bool {
    i32::MIN <= (v as i32) + amount <= i32::MAX
}

/// The caret with its byte offset clamped to its line, when that line exists.
pub open spec fn clamp_horizontal(text: Seq<Seq<char>>, c: Cursor) -> Cursor {
    if (c.line as int) < text.len() {
        Cursor {
            line: c.line,
            char: clamp_int(c.char as int, 0, (byte_len(text[c.line as int]) as u32) as int) as u32,
        }
    } else {
        c
    }
}

/// The caret with its line clamped to the last line (`lines.len() as u32 - 1`).
pub open spec fn clamp_vertical(text: Seq<Seq<char>>, c: Cursor) -> Cursor {
    Cursor { line: clamp_int(c.line as int, 0, (text.len() as u32) - 1) as u32, char: c.char }
}

/// `clamp_vertical` does not underflow: `lines.len() as u32` is at least one.
pub open spec fn clamp_vertical_ok(text: Seq<Seq<char>>) -> bool {
    (text.len() as u32) >= 1
}

/// The caret as `paste_lines` clamps it: its line to the last line, and its
/// byte offset to the length of the first line.
pub open spec fn clamp_for_paste(text: Seq<Seq<char>>, c: Cursor) -> Cursor {
    Cursor {
        line: clamp_int(c.line as int, 0, ((text.len() - 1) as u32) as int) as u32,
        char: clamp_int(c.char as int, 0, (byte_len(text[0]) as u32) as int) as u32,
    }
}

// ----- deleting -----
/// The byte offset that `delete` cuts at for a range bound `v` on a line of
/// `len` bytes: `v` clamped into `0..=len as i32`.
pub open spec fn delete_bound(len: int, v: i32) -> int {
    clamp_int(v as int, 0, (len as i32) as int)
}

/// `delete` on these arguments does not panic: the line length as `i32` is
/// not negative and both cuts fall on character boundaries.
pub open spec fn delete_ok(text: Seq<Seq<char>>, line: u32, range: Range<i32>) -> bool {
    (line as int) < text.len() ==> {
        let s = text[line as int];
        &&& (byte_len(s) as i32) >= 0
        &&& cuts_at(s, delete_bound(byte_len(s), range.start))
        &&& cuts_at(s, delete_bound(byte_len(s), range.end))
    }
}

/// The lines after `delete(line, range)`: the line, if it exists, keeps its
/// bytes before the clamped start and from the clamped end on.
pub open spec fn deleted(text: Seq<Seq<char>>, line: u32, range: Range<i32>) -> Seq<Seq<char>> {
    if (line as int) < text.len() {
        let s = text[line as int];
        text.update(
            line as int,
            spliced(
                s,
                delete_bound(byte_len(s), range.start),
                delete_bound(byte_len(s), range.end),
                Seq::empty(),
            ),
        )
    } else {
        text
    }
}

// ----- typing -----
/// The byte offset that typed text goes to: the caret offset, or the end of
/// the line when the caret is past it.
pub open spec fn insert_at(text: Seq<Seq<char>>, c: Cursor) -> int {
    let len = byte_len(text[c.line as int]);
    if c.char >= len {
        len
    } else {
        c.char as int
    }
}

/// `handle_text` does not panic: the caret line exists, the insertion point
/// is a character boundary and the caret offset does not overflow.
pub open spec fn insert_ok(text: Seq<Seq<char>>, c: Cursor, typed: Seq<char>) -> bool {
    &&& (c.line as int) < text.len()
    &&& cuts_at(text[c.line as int], insert_at(text, c))
    &&& c.char + (byte_len(typed) as u32) <= u32::MAX
}

/// The lines after typing `typed` at the caret.
pub open spec fn inserted(text: Seq<Seq<char>>, c: Cursor, typed: Seq<char>) -> Seq<Seq<char>> {
    let k = insert_at(text, c);
    text.update(c.line as int, spliced(text[c.line as int], k, k, typed))
}

// ----- the caret line up to the caret -----
/// How many bytes of the caret line lie before the caret: the caret offset,
/// or the whole line when the offset reaches `len as u32`.
pub open spec fn prefix_len(text: Seq<Seq<char>>, c: Cursor) -> int {
    let len = byte_len(text[c.line as int]);
    if c.char >= (len as u32) {
        len
    } else {
        c.char as int
    }
}

/// `cursor_prefix` does not panic: when the caret line exists, the caret
/// falls on a character boundary of it.
pub open spec fn prefix_ok(text: Seq<Seq<char>>, c: Cursor) -> bool {
    (c.line as int) < text.len() ==> cuts_at(text[c.line as int], prefix_len(text, c))
}

// ----- keys -----
/// The byte range that the Delete key removes from the caret line.
pub open spec fn delete_key_range(c: Cursor) -> Range<i32> {
    Range { start: c.char as i32, end: (c.char + 1) as i32 }
}

/// The byte range that the Backspace key removes from the caret line.
pub open spec fn backspace_key_range(c: Cursor) -> Range<i32> {
    Range { start: ((c.char as i32) - 1) as i32, end: c.char as i32 }
}

/// The state, lines and caret, after pressing `key`, before the final
/// vertical clamp.
pub open spec fn key_step(text: Seq<Seq<char>>, c: Cursor, key: Key) -> (Seq<Seq<char>>, Cursor) {
    match key {
        Key::Up => (text, Cursor { line: moved(c.line, -1i32), char: c.char }),
        Key::Down => (text, Cursor { line: moved(c.line, 1i32), char: c.char }),
        Key::End => (text, clamp_horizontal(text, Cursor { line: c.line, char: moved(c.char, 20000i32) })),
        Key::Home => (text, Cursor { line: c.line, char: moved(c.char, -20000i32) }),
        Key::Left => {
            let h = clamp_horizontal(text, c);
            (text, Cursor { line: h.line, char: moved(h.char, -1i32) })
        },
        Key::Right => {
            let h = clamp_horizontal(text, c);
            (text, clamp_horizontal(text, Cursor { line: h.line, char: moved(h.char, 1i32) }))
        },
        Key::Delete => {
            let h = clamp_horizontal(text, c);
            (deleted(text, h.line, delete_key_range(h)), h)
        },
        Key::Backspace => {
            let h = clamp_horizontal(text, c);
            (deleted(text, h.line, backspace_key_range(h)), Cursor { line: h.line, char: moved(h.char, -1i32) })
        },
        Key::Other => (text, c),
    }
}

/// The lines and caret after `handle_input(key)`.
pub open spec fn after_key(text: Seq<Seq<char>>, c: Cursor, key: Key) -> (Seq<Seq<char>>, Cursor) {
    let (t, d) = key_step(text, c, key);
    (t, clamp_vertical(t, d))
}

/// `handle_input(key)` does not panic on this state.
pub open spec fn key_ok(text: Seq<Seq<char>>, c: Cursor, key: Key) -> bool {
    &&& clamp_vertical_ok(text)
    &&& match key {
        Key::Up => move_ok(c.line, -1i32),
        Key::Down => move_ok(c.line, 1i32),
        Key::End => move_ok(c.char, 20000i32),
        Key::Home => move_ok(c.char, -20000i32),
        Key::Left => move_ok(clamp_horizontal(text, c).char, -1i32),
        Key::Right => move_ok(clamp_horizontal(text, c).char, 1i32),
        Key::Delete => {
            let h = clamp_horizontal(text, c);
            &&& h.char < u32::MAX
            &&& delete_ok(text, h.line, delete_key_range(h))
        },
        Key::Backspace => {
            let h = clamp_horizontal(text, c);
            &&& (h.char as i32) > i32::MIN
            &&& delete_ok(text, h.line, backspace_key_range(h))
            &&& move_ok(h.char, -1i32)
        },
        Key::Other => true,
    }
}

/// `v` clamped into `lo..=hi`, as `Ord::clamp` computes it.
fn clamp_u32(v: u32, lo: u32, hi: u32) -> (r: u32)
    requires
        lo <= hi,
    ensures
        r == clamp_int(v as int, lo as int, hi as int),
{
    if v < lo {
        lo
    } else if v > hi {
        hi
    } else {
        v
    }
}

/// `v` clamped into `lo..=hi`, as `Ord::clamp` computes it.
fn clamp_i32(v: i32, lo: i32, hi: i32) -> (r: i32)
    requires
        lo <= hi,
    ensures
        r == clamp_int(v as int, lo as int, hi as int),
{
    if v < lo {
        lo
    } else if v > hi {
        hi
    } else {
        v
    }
}

/// `max(v, 0)` as an unsigned value.
fn floor_zero(v: i32) -> (r: u32)
    ensures
        r == (if v < 0 { 0 } else { v as u32 }),
{
    if v < 0 {
        0
    } else {
        v as u32
    }
}

/// Whether moving `v` by `amount` stays in `i32` range.
fn move_allowed(v: u32, amount: i32) -> (r: bool)
    ensures
        r == move_ok(v, amount),
{
    let t = (v as i32) as i64 + amount as i64;
    i32::MIN as i64 <= t && t <= i32::MAX as i64
}

impl Default for Editor {
    /// An editor with one empty line and the caret at its start.
    fn default() -> (e: Editor)
        ensures
            e.text() == seq![Seq::<char>::empty()],
            e.cursor == (Cursor { line: 0, char: 0 }),
    {
        let lines = vec![String::new()];
        let e = Editor { lines, cursor: Cursor { line: 0, char: 0 } };
        assert(e.text() =~= seq![Seq::<char>::empty()]);
        e
    }
}

impl Editor {
    /// The lines as texts.
    pub open spec fn text(&self) -> Seq<Seq<char>> {
        self.lines.deep_view()
    }

    fn cursor_horizontal(&mut self, amount: i32)
        requires
            move_ok(old(self).cursor.char, amount),
        ensures
            final(self).lines == old(self).lines,
            final(self).cursor == (Cursor { line: old(self).cursor.line, char: moved(old(self).cursor.char, amount) }),
    {
        self.cursor.char = floor_zero(self.cursor.char as i32 + amount);
    }

    fn cursor_vertical(&mut self, amount: i32)
        requires
            move_ok(old(self).cursor.line, amount),
        ensures
            final(self).lines == old(self).lines,
            final(self).cursor == (Cursor { line: moved(old(self).cursor.line, amount), char: old(self).cursor.char }),
    {
        self.cursor.line = floor_zero(self.cursor.line as i32 + amount);
    }

    fn cursor_clamp_horizontal(&mut self)
        ensures
            final(self).lines == old(self).lines,
            final(self).cursor == clamp_horizontal(old(self).text(), old(self).cursor),
    {
        self.cursor = self.clamped_horizontal();
    }

    fn clamped_horizontal(&self) -> (c: Cursor)
        ensures
            c == clamp_horizontal(self.text(), self.cursor),
    {
        let i = self.cursor.line as usize;
        if i < self.lines.len() {
            let len = text_len(&self.lines[i]);
            Cursor { line: self.cursor.line, char: clamp_u32(self.cursor.char, 0, len as u32) }
        } else {
            self.cursor
        }
    }

    fn cursor_clamp_vertical(&mut self)
        requires
            clamp_vertical_ok(old(self).text()),
        ensures
            final(self).lines == old(self).lines,
            final(self).cursor == clamp_vertical(old(self).text(), old(self).cursor),
    {
        self.cursor.line = clamp_u32(self.cursor.line, 0, self.lines.len() as u32 - 1);
    }

    /// Removes the bytes `range` of line `line`, the range clamped into the
    /// line; a line that does not exist is left alone.
    pub fn delete(&mut self, line: u32, range: Range<i32>)
        requires
            delete_ok(old(self).text(), line, range),
        ensures
            final(self).text() == deleted(old(self).text(), line, range),
            final(self).lines.len() == old(self).lines.len(),
            final(self).cursor == old(self).cursor,
    {
        let i = line as usize;
        if i < self.lines.len() {
            let len = text_len(&self.lines[i]);
            let limit = len as i32;
            let start = clamp_i32(range.start, 0, limit) as usize;
            let end = clamp_i32(range.end, 0, limit) as usize;
            let empty = String::new();
            let new_line = splice(&self.lines[i], start, end, empty.as_str());
            let ghost before = self.text();
            self.lines[i] = new_line;
            assert(self.text() =~= deleted(before, line, range));
        }
    }

    /// Inserts `text` at the caret (or at the end of the line when the caret
    /// is past it) and moves the caret forward by its length in bytes.
    pub fn handle_text(&mut self, text: String)
        requires
            insert_ok(old(self).text(), old(self).cursor, text@),
        ensures
            final(self).text() == inserted(old(self).text(), old(self).cursor, text@),
            final(self).cursor == (Cursor {
                line: old(self).cursor.line,
                char: (old(self).cursor.char + (byte_len(text@) as u32)) as u32,
            }),
    {
        let len = text_len(&text);
        let char_at = self.cursor.char as usize;
        let i = self.cursor.line as usize;
        let line_len = text_len(&self.lines[i]);
        let at = if char_at >= line_len { line_len } else { char_at };
        let line = splice(&self.lines[i], at, at, text.as_str());
        let ghost before = self.text();
        self.lines[i] = line;
        assert(self.text() =~= inserted(before, old(self).cursor, text@));
        self.cursor.char += len as u32;
    }

    fn clamp_cursor(&mut self)
        requires
            old(self).lines.len() >= 1,
        ensures
            final(self).lines == old(self).lines,
            final(self).cursor == clamp_for_paste(old(self).text(), old(self).cursor),
    {
        let lines = clamp_u32(self.cursor.line, 0, (self.lines.len() - 1) as u32);
        let first_len = text_len(&self.lines[0]);
        self.cursor.line = lines;
        self.cursor.char = clamp_u32(self.cursor.char, 0, first_len as u32);
    }

    /// Inserts `lines` before the caret line (after clamping the caret).
    pub fn paste_lines(&mut self, lines: Vec<String>)
        requires
            old(self).lines.len() >= 1,
        ensures
            final(self).cursor == clamp_for_paste(old(self).text(), old(self).cursor),
            (old(self).cursor.line as int) < old(self).lines.len() && old(self).lines.len() <= u32::MAX + 1
                ==> final(self).cursor.line == old(self).cursor.line,
            final(self).text() == old(self).text().subrange(0, final(self).cursor.line as int)
                + lines.deep_view() + old(self).text().subrange(
                final(self).cursor.line as int,
                old(self).text().len() as int,
            ),
    {
        let mut lines = lines;
        let ghost pasted = lines.deep_view();
        let mut new_lines: Vec<String> = Vec::new();
        self.clamp_cursor();
        let line_cursor = self.cursor.line as usize;
        let ghost text = self.text();
        let n = self.lines.len();
        let mut index: usize = 0;
        while index < n
            invariant
                n == self.lines.len(),
                text == self.text(),
                line_cursor < n,
                index <= n,
                index <= line_cursor ==> lines.deep_view() == pasted && new_lines.deep_view() == text.subrange(0, index as int),
                index > line_cursor ==> new_lines.deep_view() == text.subrange(0, line_cursor as int) + pasted + text.subrange(line_cursor as int, index as int),
            decreases n - index,
        {
            if index == line_cursor {
                let ghost before = new_lines.deep_view();
                new_lines.append(&mut lines);
                assert(new_lines.deep_view() =~= before + pasted);
            }
            let ghost before = new_lines.deep_view();
            new_lines.push(self.lines[index].clone());
            assert(new_lines.deep_view() =~= before.push(text[index as int]));
            index += 1;
            assert(text.subrange(0, index as int) =~= text.subrange(0, index - 1).push(text[index - 1]));
            if index > line_cursor + 1 {
                assert(text.subrange(line_cursor as int, index as int) =~= text.subrange(line_cursor as int, index - 1).push(text[index - 1]));
            } else if index == line_cursor + 1 {
                assert(text.subrange(line_cursor as int, index as int) =~= seq![text[index - 1]]);
                assert(text.subrange(0, line_cursor as int) =~= text.subrange(0, index - 1));
            }
        }
        self.lines = new_lines;
    }

    /// Reacts to a key: Up/Down move the caret between lines, Home/End jump
    /// within the line, Left/Right step by one byte, Delete and Backspace
    /// remove the byte after or before the caret. The caret always ends on an
    /// existing line.
    pub fn handle_input(&mut self, key: Key)
        requires
            key_ok(old(self).text(), old(self).cursor, key),
        ensures
            (final(self).text(), final(self).cursor) == after_key(old(self).text(), old(self).cursor, key),
            final(self).lines.len() == old(self).lines.len(),
            (final(self).cursor.line as int) < final(self).lines.len(),
            key != Key::Up && key != Key::Down && (old(self).cursor.line as int) < old(self).lines.len()
                && old(self).lines.len() <= u32::MAX ==> final(self).cursor.line == old(self).cursor.line,
    {
        match key {
            Key::Up => {
                self.cursor_vertical(-1);
            },
            Key::Down => {
                self.cursor_vertical(1);
            },
            Key::End => {
                self.cursor_horizontal(20000);
                self.cursor_clamp_horizontal();
            },
            Key::Home => {
                self.cursor_horizontal(-20000);
            },
            Key::Left => {
                self.cursor_clamp_horizontal();
                self.cursor_horizontal(-1);
            },
            Key::Right => {
                self.cursor_clamp_horizontal();
                self.cursor_horizontal(1);
                self.cursor_clamp_horizontal();
            },
            Key::Delete => {
                self.cursor_clamp_horizontal();
                let line = self.cursor.line;
                let range = self.cursor.char as i32..(self.cursor.char + 1) as i32;
                self.delete(line, range);
            },
            Key::Backspace => {
                self.cursor_clamp_horizontal();
                let line = self.cursor.line;
                let range = (self.cursor.char as i32 - 1)..self.cursor.char as i32;
                self.delete(line, range);
                self.cursor_horizontal(-1);
            },
            Key::Other => {},
        }
        self.cursor_clamp_vertical();
        let n = self.lines.len();
        assert((n as u32) <= n) by (bit_vector);
    }

    /// The caret line up to the caret (the whole line when the caret is at
    /// or past its end), or `None` when the caret line does not exist. This
    /// is the text whose width places the caret on screen.
    pub fn cursor_prefix(&self) -> (r: Option<String>)
        requires
            prefix_ok(self.text(), self.cursor),
        ensures
            r is Some <==> (self.cursor.line as int) < self.lines.len(),
            r matches Some(p) ==> p@ == prefix_of(self.text()[self.cursor.line as int], prefix_len(self.text(), self.cursor)),
            r matches Some(p) ==> encode_utf8(p@) == encode_utf8(self.text()[self.cursor.line as int]).subrange(
                0,
                prefix_len(self.text(), self.cursor),
            ),
    {
        let i = self.cursor.line as usize;
        if i < self.lines.len() {
            let len = text_len(&self.lines[i]);
            let end = if self.cursor.char >= len as u32 { len } else { self.cursor.char as usize };
            Some(prefix(&self.lines[i], end))
        } else {
            None
        }
    }

    /// Whether `delete(line, range)` may be called: the checks that keep it
    /// from panicking.
    pub fn delete_allowed(&self, line: u32, range: &Range<i32>) -> (r: bool)
        ensures
            r == delete_ok(self.text(), line, *range),
    {
        let i = line as usize;
        if i >= self.lines.len() {
            return true;
        }
        let s = self.lines[i].as_str();
        let limit = text_len(&self.lines[i]) as i32;
        if limit < 0 {
            return false;
        }
        let start = clamp_i32(range.start, 0, limit) as usize;
        let end = clamp_i32(range.end, 0, limit) as usize;
        s.is_char_boundary(start) && s.is_char_boundary(end)
    }

    /// Whether `handle_input(key)` may be called.
    pub fn input_allowed(&self, key: Key) -> (r: bool)
        ensures
            r == key_ok(self.text(), self.cursor, key),
    {
        if (self.lines.len() as u32) < 1 {
            return false;
        }
        let c = self.cursor;
        let h = self.clamped_horizontal();
        match key {
            Key::Up => move_allowed(c.line, -1),
            Key::Down => move_allowed(c.line, 1),
            Key::End => move_allowed(c.char, 20000),
            Key::Home => move_allowed(c.char, -20000),
            Key::Left => move_allowed(h.char, -1),
            Key::Right => move_allowed(h.char, 1),
            Key::Delete => {
                if h.char == u32::MAX {
                    return false;
                }
                let range = h.char as i32..(h.char + 1) as i32;
                self.delete_allowed(h.line, &range)
            },
            Key::Backspace => {
                if h.char as i32 == i32::MIN {
                    return false;
                }
                let range = (h.char as i32 - 1)..h.char as i32;
                self.delete_allowed(h.line, &range) && move_allowed(h.char, -1)
            },
            Key::Other => true,
        }
    }

    /// Whether `handle_text(text)` may be called.
    pub fn text_allowed(&self, text: &String) -> (r: bool)
        ensures
            r == insert_ok(self.text(), self.cursor, text@),
    {
        let i = self.cursor.line as usize;
        if i >= self.lines.len() {
            return false;
        }
        let line_len = text_len(&self.lines[i]);
        let char_at = self.cursor.char as usize;
        let at = if char_at >= line_len { line_len } else { char_at };
        let added = text_len(text) as u32;
        self.lines[i].as_str().is_char_boundary(at) && self.cursor.char as u64 + added as u64 <= u32::MAX as u64
    }

    /// Whether `cursor_prefix` may be called.
    pub fn prefix_allowed(&self) -> (r: bool)
        ensures
            r == prefix_ok(self.text(), self.cursor),
    {
        let i = self.cursor.line as usize;
        if i >= self.lines.len() {
            return true;
        }
        let len = text_len(&self.lines[i]);
        let end = if self.cursor.char >= len as u32 { len } else { self.cursor.char as usize };
        self.lines[i].as_str().is_char_boundary(end)
    }
}

} // verus!
