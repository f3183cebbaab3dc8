use std::ops::Range;
use vstd::prelude::*;
use vstd::utf8::*;

use crate::editor::{
    after_key, clamp_for_paste, clamp_horizontal, delete_ok, deleted, inserted, insert_ok, key_ok,
    prefix_len, Cursor, Key,
};
use crate::text::{byte_len, cuts_at, lemma_boundary_at_join, prefix_of, spliced};

verus! {

broadcast use {
    encode_utf8_valid_utf8,
    encode_utf8_decode_utf8,
    decode_utf8_encode_utf8,
    is_char_boundary_start_end_of_seq,
};

/// The bytes of a spliced text are the spliced bytes, which form valid UTF-8.
proof fn lemma_spliced_bytes(s: Seq<char>, start: int, end: int, mid: Seq<char>)
    requires
        cuts_at(s, start),
        cuts_at(s, end),
        0 <= start <= end,
    ensures
        valid_utf8(
            encode_utf8(s).subrange(0, start) + encode_utf8(mid) + encode_utf8(s).subrange(
                end,
                byte_len(s),
            ),
        ),
        encode_utf8(spliced(s, start, end, mid)) == encode_utf8(s).subrange(0, start)
            + encode_utf8(mid) + encode_utf8(s).subrange(end, byte_len(s)),
{
    let b = encode_utf8(s);
    valid_utf8_split(b, start);
    valid_utf8_split(b, end);
    valid_utf8_concat(b.subrange(0, start), encode_utf8(mid));
    valid_utf8_concat(b.subrange(0, start) + encode_utf8(mid), b.subrange(end, b.len() as int));
}

/// Deleting exactly the bytes that were just typed at the caret gives the
/// lines back: `delete(line, c..c + len)` undoes `handle_text` when the caret
/// was inside its line and the line stays within `i32` range.
pub proof fn lemma_delete_undoes_typing(text: Seq<Seq<char>>, c: Cursor, typed: Seq<char>)
    requires
        insert_ok(text, c, typed),
        c.char <= byte_len(text[c.line as int]),
        byte_len(text[c.line as int]) + byte_len(typed) <= i32::MAX,
    ensures
        delete_ok(
            inserted(text, c, typed),
            c.line,
            Range { start: c.char as i32, end: (c.char + byte_len(typed)) as i32 },
        ),
        deleted(
            inserted(text, c, typed),
            c.line,
            Range { start: c.char as i32, end: (c.char + byte_len(typed)) as i32 },
        ) == text,
{
    let s = text[c.line as int];
    let b = encode_utf8(s);
    let k = c.char as int;
    let tb = encode_utf8(typed);
    let n = b.len() as int;
    lemma_spliced_bytes(s, k, k, typed);
    let t = spliced(s, k, k, typed);
    let nb = encode_utf8(t);
    assert(nb == b.subrange(0, k) + tb + b.subrange(k, n));
    valid_utf8_split(b, k);
    valid_utf8_concat(tb, b.subrange(k, n));
    lemma_boundary_at_join(b.subrange(0, k), tb + b.subrange(k, n));
    assert(b.subrange(0, k) + (tb + b.subrange(k, n)) =~= nb);
    valid_utf8_concat(b.subrange(0, k), tb);
    lemma_boundary_at_join(b.subrange(0, k) + tb, b.subrange(k, n));
    assert(cuts_at(t, k));
    assert(cuts_at(t, k + tb.len()));
    let e = k + tb.len();
    assert(nb.len() == n + tb.len());
    lemma_spliced_bytes(t, k, e, Seq::empty());
    assert(encode_utf8(Seq::<char>::empty()) =~= Seq::<u8>::empty());
    assert(nb.subrange(0, k) =~= b.subrange(0, k));
    assert(nb.subrange(e, nb.len() as int) =~= b.subrange(k, n));
    assert(b.subrange(0, k) + Seq::<u8>::empty() + b.subrange(k, n) =~= b);
    let u = spliced(t, k, e, Seq::empty());
    assert(encode_utf8(u) == b);
    crate::text::lemma_encode_injective(u, s);
    let text2 = inserted(text, c, typed);
    assert(text2[c.line as int] == t);
    assert(deleted(text2, c.line, Range { start: c.char as i32, end: (c.char + byte_len(typed)) as i32 }) =~= text);
}

/// Deleting an empty byte range leaves the lines as they were.
pub proof fn lemma_delete_empty_range(text: Seq<Seq<char>>, line: u32, at: i32)
    requires
        delete_ok(text, line, Range { start: at, end: at }),
    ensures
        deleted(text, line, Range { start: at, end: at }) == text,
{
    if (line as int) < text.len() {
        let s = text[line as int];
        let b = encode_utf8(s);
        let x = crate::editor::delete_bound(byte_len(s), at);
        assert(encode_utf8(Seq::<char>::empty()) =~= Seq::<u8>::empty());
        assert(b.subrange(0, x) + Seq::<u8>::empty() + b.subrange(x, b.len() as int) =~= b);
        assert(spliced(s, x, x, Seq::empty()) == s);
        assert(deleted(text, line, Range { start: at, end: at }) =~= text);
    }
}

/// Pressing Backspace right after typing a one-byte character (an ASCII
/// character, say) gives back both the lines and the caret, when the caret
/// was inside its line and the sizes stay within `i32` and `u32` range.
pub proof fn lemma_backspace_undoes_typing(text: Seq<Seq<char>>, c: Cursor, typed: Seq<char>)
    requires
        insert_ok(text, c, typed),
        byte_len(typed) == 1,
        c.char <= byte_len(text[c.line as int]),
        byte_len(text[c.line as int]) + 1 <= i32::MAX,
        text.len() <= u32::MAX,
    ensures
        key_ok(inserted(text, c, typed), Cursor { line: c.line, char: (c.char + 1) as u32 }, Key::Backspace),
        after_key(inserted(text, c, typed), Cursor { line: c.line, char: (c.char + 1) as u32 }, Key::Backspace)
            == (text, c),
{
    let s = text[c.line as int];
    let k = c.char as int;
    lemma_spliced_bytes(s, k, k, typed);
    let t2 = inserted(text, c, typed);
    let c1 = Cursor { line: c.line, char: (c.char + 1) as u32 };
    assert(byte_len(t2[c.line as int]) == byte_len(s) + 1);
    let h = clamp_horizontal(t2, c1);
    assert(h == c1);
    lemma_delete_undoes_typing(text, c, typed);
    assert(crate::editor::backspace_key_range(h) == Range { start: c.char as i32, end: (c.char + byte_len(typed)) as i32 });
    assert(t2.len() == text.len());
}

/// Keys other than Delete and Backspace only move the caret: the lines are
/// left exactly as they were.
pub proof fn lemma_navigation_keeps_text(text: Seq<Seq<char>>, c: Cursor, key: Key)
    requires
        key != Key::Delete,
        key != Key::Backspace,
    ensures
        after_key(text, c, key).0 == text,
{
}

/// Home brings a caret that is at most 20000 bytes into its line back to
/// the start of the line, on the same line when that line exists.
pub proof fn lemma_home_goes_to_line_start(text: Seq<Seq<char>>, c: Cursor)
    requires
        c.char <= 20000,
        (c.line as int) < text.len(),
        text.len() <= u32::MAX,
    ensures
        after_key(text, c, Key::Home).1 == (Cursor { line: c.line, char: 0 }),
{
}

/// End brings the caret to the end of its line when the line is at most
/// 20000 bytes longer than the caret offset and shorter than 2^31 bytes.
pub proof fn lemma_end_goes_to_line_end(text: Seq<Seq<char>>, c: Cursor)
    requires
        (c.line as int) < text.len(),
        text.len() <= u32::MAX,
        c.char <= i32::MAX - 20000,
        byte_len(text[c.line as int]) <= c.char + 20000,
        byte_len(text[c.line as int]) <= i32::MAX,
    ensures
        after_key(text, c, Key::End).1 == (Cursor { line: c.line, char: byte_len(text[c.line as int]) as u32 }),
{
}

// ----- caret movement -----
/// Up moves the caret exactly one line up, keeping its column and the text.
pub proof fn lemma_up_moves_one_line(text: Seq<Seq<char>>, c: Cursor)
    requires
        1 <= c.line,
        (c.line as int) < text.len(),
        text.len() <= u32::MAX,
        c.line <= i32::MAX,
    ensures
        after_key(text, c, Key::Up) == (text, Cursor { line: (c.line - 1) as u32, char: c.char }),
{
}

/// Up on the first line leaves the caret where it is.
pub proof fn lemma_up_on_first_line(text: Seq<Seq<char>>, c: Cursor)
    requires
        c.line == 0,
        text.len() >= 1,
        text.len() <= u32::MAX,
    ensures
        after_key(text, c, Key::Up) == (text, c),
{
}

/// Down moves the caret exactly one line down when there is a line below,
/// keeping its column and the text.
pub proof fn lemma_down_moves_one_line(text: Seq<Seq<char>>, c: Cursor)
    requires
        (c.line as int) + 1 < text.len(),
        text.len() <= u32::MAX,
        c.line < i32::MAX,
    ensures
        after_key(text, c, Key::Down) == (text, Cursor { line: (c.line + 1) as u32, char: c.char }),
{
}

/// Down on the last line leaves the caret where it is.
pub proof fn lemma_down_on_last_line(text: Seq<Seq<char>>, c: Cursor)
    requires
        (c.line as int) + 1 == text.len(),
        text.len() <= u32::MAX,
        c.line < i32::MAX,
    ensures
        after_key(text, c, Key::Down) == (text, c),
{
}

/// Left steps the caret one byte back when it is inside its line (past its
/// first byte), keeping the line and the text.
pub proof fn lemma_left_steps_back(text: Seq<Seq<char>>, c: Cursor)
    requires
        (c.line as int) < text.len(),
        text.len() <= u32::MAX,
        0 < c.char <= byte_len(text[c.line as int]),
        byte_len(text[c.line as int]) <= i32::MAX,
    ensures
        after_key(text, c, Key::Left) == (text, Cursor { line: c.line, char: (c.char - 1) as u32 }),
{
}

/// Right steps the caret one byte forward when it is before the end of its
/// line, keeping the line and the text.
pub proof fn lemma_right_steps_forward(text: Seq<Seq<char>>, c: Cursor)
    requires
        (c.line as int) < text.len(),
        text.len() <= u32::MAX,
        c.char < byte_len(text[c.line as int]),
        byte_len(text[c.line as int]) <= i32::MAX,
    ensures
        after_key(text, c, Key::Right) == (text, Cursor { line: c.line, char: (c.char + 1) as u32 }),
{
}

/// Right at or past the end of the line puts the caret at the end of the line.
pub proof fn lemma_right_at_line_end(text: Seq<Seq<char>>, c: Cursor)
    requires
        (c.line as int) < text.len(),
        text.len() <= u32::MAX,
        c.char >= byte_len(text[c.line as int]),
        byte_len(text[c.line as int]) <= i32::MAX,
    ensures
        after_key(text, c, Key::Right) == (text, Cursor { line: c.line, char: byte_len(text[c.line as int]) as u32 }),
{
}

/// Every key keeps the caret on the line it was on, when that line exists,
/// except Up and Down.
pub proof fn lemma_keys_keep_caret_line(text: Seq<Seq<char>>, c: Cursor, key: Key)
    requires
        (c.line as int) < text.len(),
        text.len() <= u32::MAX,
        key != Key::Up,
        key != Key::Down,
    ensures
        after_key(text, c, key).1.line == c.line,
        after_key(text, c, key).0.len() == text.len(),
{
}

// ----- Backspace and Delete -----
/// The bytes of the text made of the bytes of `s` before offset `a`.
proof fn lemma_prefix_bytes(s: Seq<char>, a: int)
    requires
        cuts_at(s, a),
    ensures
        encode_utf8(prefix_of(s, a)) == encode_utf8(s).subrange(0, a),
{
    valid_utf8_split(encode_utf8(s), a);
}

/// Backspace with the caret at the start of an existing line changes
/// nothing: neither the text nor the caret.
pub proof fn lemma_backspace_at_line_start(text: Seq<Seq<char>>, c: Cursor)
    requires
        c.char == 0,
        (c.line as int) < text.len(),
        text.len() <= u32::MAX,
        byte_len(text[c.line as int]) <= i32::MAX,
    ensures
        after_key(text, c, Key::Backspace) == (text, c),
{
    let s = text[c.line as int];
    let b = encode_utf8(s);
    assert(encode_utf8(Seq::<char>::empty()) =~= Seq::<u8>::empty());
    assert(b.subrange(0, 0) + Seq::<u8>::empty() + b.subrange(0, b.len() as int) =~= b);
    assert(spliced(s, 0, 0, Seq::empty()) == s);
    assert(after_key(text, c, Key::Backspace).0 =~= text);
}

/// Backspace inside a line removes exactly the byte before the caret from
/// the caret line, steps the caret back one byte on the same line, and
/// leaves every other line alone.
pub proof fn lemma_backspace_removes_previous_byte(text: Seq<Seq<char>>, c: Cursor)
    requires
        (c.line as int) < text.len(),
        text.len() <= u32::MAX,
        0 < c.char <= byte_len(text[c.line as int]),
        byte_len(text[c.line as int]) <= i32::MAX,
        cuts_at(text[c.line as int], c.char - 1),
        cuts_at(text[c.line as int], c.char as int),
    ensures
        after_key(text, c, Key::Backspace).1 == (Cursor { line: c.line, char: (c.char - 1) as u32 }),
        after_key(text, c, Key::Backspace).0.len() == text.len(),
        forall|j: int| 0 <= j < text.len() && j != c.line ==> #[trigger] after_key(text, c, Key::Backspace).0[j] == text[j],
        encode_utf8(after_key(text, c, Key::Backspace).0[c.line as int]) == encode_utf8(text[c.line as int]).subrange(0, c.char - 1)
            + encode_utf8(text[c.line as int]).subrange(c.char as int, byte_len(text[c.line as int])),
{
    let s = text[c.line as int];
    lemma_spliced_bytes(s, c.char - 1, c.char as int, Seq::empty());
    assert(encode_utf8(Seq::<char>::empty()) =~= Seq::<u8>::empty());
    let b = encode_utf8(s);
    assert(b.subrange(0, c.char - 1) + Seq::<u8>::empty() + b.subrange(c.char as int, b.len() as int)
        =~= b.subrange(0, c.char - 1) + b.subrange(c.char as int, b.len() as int));
}

/// Delete inside a line removes exactly the byte after the caret from the
/// caret line, keeps the caret, and leaves every other line alone.
pub proof fn lemma_delete_removes_next_byte(text: Seq<Seq<char>>, c: Cursor)
    requires
        (c.line as int) < text.len(),
        text.len() <= u32::MAX,
        c.char < byte_len(text[c.line as int]),
        byte_len(text[c.line as int]) <= i32::MAX,
        cuts_at(text[c.line as int], c.char as int),
        cuts_at(text[c.line as int], c.char + 1),
    ensures
        after_key(text, c, Key::Delete).1 == c,
        after_key(text, c, Key::Delete).0.len() == text.len(),
        forall|j: int| 0 <= j < text.len() && j != c.line ==> #[trigger] after_key(text, c, Key::Delete).0[j] == text[j],
        encode_utf8(after_key(text, c, Key::Delete).0[c.line as int]) == encode_utf8(text[c.line as int]).subrange(0, c.char as int)
            + encode_utf8(text[c.line as int]).subrange(c.char + 1, byte_len(text[c.line as int])),
{
    let s = text[c.line as int];
    lemma_spliced_bytes(s, c.char as int, c.char + 1, Seq::empty());
    assert(encode_utf8(Seq::<char>::empty()) =~= Seq::<u8>::empty());
    let b = encode_utf8(s);
    assert(b.subrange(0, c.char as int) + Seq::<u8>::empty() + b.subrange(c.char + 1, b.len() as int)
        =~= b.subrange(0, c.char as int) + b.subrange(c.char + 1, b.len() as int));
}

/// Delete with the caret at or past the end of its line changes no text and
/// leaves the caret at the end of the line.
pub proof fn lemma_delete_at_line_end(text: Seq<Seq<char>>, c: Cursor)
    requires
        (c.line as int) < text.len(),
        text.len() <= u32::MAX,
        c.char >= byte_len(text[c.line as int]),
        byte_len(text[c.line as int]) < i32::MAX,
    ensures
        after_key(text, c, Key::Delete) == (text, Cursor { line: c.line, char: byte_len(text[c.line as int]) as u32 }),
{
    let s = text[c.line as int];
    let b = encode_utf8(s);
    let n = b.len() as int;
    assert(encode_utf8(Seq::<char>::empty()) =~= Seq::<u8>::empty());
    assert(b.subrange(0, n) + Seq::<u8>::empty() + b.subrange(n, n) =~= b);
    assert(spliced(s, n, n, Seq::empty()) == s);
    assert(after_key(text, c, Key::Delete).0 =~= text);
}

// ----- delete -----
/// `delete(line, a..e)` with `0 <= a <= e <= n` (the line's length in bytes)
/// removes exactly the bytes `a..e` of that line: it keeps the first `a`
/// bytes and the bytes from `e` on, and every other line.
pub proof fn lemma_delete_removes_range(text: Seq<Seq<char>>, line: u32, range: Range<i32>)
    requires
        (line as int) < text.len(),
        byte_len(text[line as int]) <= i32::MAX,
        0 <= range.start <= range.end <= byte_len(text[line as int]),
        cuts_at(text[line as int], range.start as int),
        cuts_at(text[line as int], range.end as int),
    ensures
        deleted(text, line, range).len() == text.len(),
        forall|j: int| 0 <= j < text.len() && j != line ==> #[trigger] deleted(text, line, range)[j] == text[j],
        encode_utf8(deleted(text, line, range)[line as int]) == encode_utf8(text[line as int]).subrange(0, range.start as int)
            + encode_utf8(text[line as int]).subrange(range.end as int, byte_len(text[line as int])),
        byte_len(deleted(text, line, range)[line as int]) == byte_len(text[line as int]) - (range.end - range.start),
{
    let s = text[line as int];
    lemma_spliced_bytes(s, range.start as int, range.end as int, Seq::empty());
    assert(encode_utf8(Seq::<char>::empty()) =~= Seq::<u8>::empty());
    let b = encode_utf8(s);
    assert(b.subrange(0, range.start as int) + Seq::<u8>::empty() + b.subrange(range.end as int, b.len() as int)
        =~= b.subrange(0, range.start as int) + b.subrange(range.end as int, b.len() as int));
}

/// A range that runs past the end of the line is cut at the line's end:
/// with `0 <= a <= n < e`, the line keeps exactly its first `a` bytes.
pub proof fn lemma_delete_clamps_end(text: Seq<Seq<char>>, line: u32, range: Range<i32>)
    requires
        (line as int) < text.len(),
        byte_len(text[line as int]) <= i32::MAX,
        0 <= range.start <= byte_len(text[line as int]) < range.end,
        cuts_at(text[line as int], range.start as int),
    ensures
        deleted(text, line, range).len() == text.len(),
        forall|j: int| 0 <= j < text.len() && j != line ==> #[trigger] deleted(text, line, range)[j] == text[j],
        encode_utf8(deleted(text, line, range)[line as int]) == encode_utf8(text[line as int]).subrange(0, range.start as int),
{
    let s = text[line as int];
    let b = encode_utf8(s);
    let n = b.len() as int;
    lemma_spliced_bytes(s, range.start as int, n, Seq::empty());
    assert(encode_utf8(Seq::<char>::empty()) =~= Seq::<u8>::empty());
    assert(b.subrange(0, range.start as int) + Seq::<u8>::empty() + b.subrange(n, n) =~= b.subrange(0, range.start as int));
}

/// A range that starts before the line is cut at the line's start: with
/// `a < 0 <= e <= n`, the line keeps exactly its bytes from `e` on.
pub proof fn lemma_delete_clamps_start(text: Seq<Seq<char>>, line: u32, range: Range<i32>)
    requires
        (line as int) < text.len(),
        byte_len(text[line as int]) <= i32::MAX,
        range.start < 0 <= range.end <= byte_len(text[line as int]),
        cuts_at(text[line as int], range.end as int),
    ensures
        deleted(text, line, range).len() == text.len(),
        forall|j: int| 0 <= j < text.len() && j != line ==> #[trigger] deleted(text, line, range)[j] == text[j],
        encode_utf8(deleted(text, line, range)[line as int]) == encode_utf8(text[line as int]).subrange(
            range.end as int,
            byte_len(text[line as int]),
        ),
{
    let s = text[line as int];
    let b = encode_utf8(s);
    let n = b.len() as int;
    lemma_spliced_bytes(s, 0, range.end as int, Seq::empty());
    assert(encode_utf8(Seq::<char>::empty()) =~= Seq::<u8>::empty());
    assert(b.subrange(0, 0) + Seq::<u8>::empty() + b.subrange(range.end as int, n) =~= b.subrange(range.end as int, n));
}

/// Deleting from a line that does not exist changes nothing.
pub proof fn lemma_delete_missing_line(text: Seq<Seq<char>>, line: u32, range: Range<i32>)
    requires
        (line as int) >= text.len(),
    ensures
        deleted(text, line, range) == text,
{
}

// ----- paste -----
/// When the caret line exists, pasting keeps the caret on that line, so the
/// block goes right before it; the caret column is never moved forward.
pub proof fn lemma_paste_keeps_caret_line(text: Seq<Seq<char>>, c: Cursor)
    requires
        (c.line as int) < text.len(),
        text.len() <= u32::MAX + 1,
    ensures
        clamp_for_paste(text, c).line == c.line,
        clamp_for_paste(text, c).char <= c.char,
{
}

/// When the caret is below the last line, pasting puts it on the last line,
/// so the block goes right before the last line.
pub proof fn lemma_paste_below_last_line(text: Seq<Seq<char>>, c: Cursor)
    requires
        (c.line as int) >= text.len(),
        text.len() >= 1,
        text.len() <= u32::MAX + 1,
    ensures
        clamp_for_paste(text, c).line == text.len() - 1,
{
}

// ----- the text before the caret -----
/// When the caret lies inside its line, the text before the caret is
/// exactly the caret offset's worth of bytes from the start of the line (so
/// it is empty at column 0).
pub proof fn lemma_prefix_inside_line(text: Seq<Seq<char>>, c: Cursor)
    requires
        (c.line as int) < text.len(),
        c.char < byte_len(text[c.line as int]),
        byte_len(text[c.line as int]) <= u32::MAX,
        cuts_at(text[c.line as int], c.char as int),
    ensures
        encode_utf8(prefix_of(text[c.line as int], prefix_len(text, c))) == encode_utf8(text[c.line as int]).subrange(0, c.char as int),
        c.char == 0 ==> prefix_of(text[c.line as int], prefix_len(text, c)) == Seq::<char>::empty(),
{
    lemma_prefix_bytes(text[c.line as int], c.char as int);
    if c.char == 0 {
        let p = prefix_of(text[c.line as int], prefix_len(text, c));
        assert(encode_utf8(p).len() == 0);
        if p.len() > 0 {
            assert(encode_utf8(p) =~= encode_scalar(p[0] as u32) + encode_utf8(p.drop_first()));
        }
    }
}

/// When the caret is at or past the end of its line, the text before the
/// caret is the whole line.
pub proof fn lemma_prefix_at_line_end(text: Seq<Seq<char>>, c: Cursor)
    requires
        (c.line as int) < text.len(),
        c.char >= byte_len(text[c.line as int]),
        byte_len(text[c.line as int]) <= u32::MAX,
    ensures
        prefix_of(text[c.line as int], prefix_len(text, c)) == text[c.line as int],
{
    let b = encode_utf8(text[c.line as int]);
    assert(b.subrange(0, b.len() as int) =~= b);
}

} // verus!
