use vstd::arithmetic::div_mod::{lemma_fundamental_div_mod, lemma_fundamental_div_mod_converse, lemma_div_pos_is_pos, lemma_mod_pos_bound};
use vstd::arithmetic::mul::{lemma_mul_inequality, lemma_mul_nonnegative};
use vstd::prelude::*;

verus! {

/// The buffer with one RGBA pixel written at byte `offset`: the coverage
/// value in the first byte and 255 in the other three.
pub open spec fn pixel_written(buf: Seq<u8>, offset: int, value: u8) -> Seq<u8> {
    buf.update(offset, value).update(offset + 3, 255).update(offset + 2, 255).update(offset + 1, 255)
}

/// The byte offset of pixel `(x, y)` in a texture whose rows are `pitch`
/// bytes apart.
pub open spec fn pixel_offset(pitch: int, x: int, y: int) -> int {
    y * pitch + x * 4
}

/// The buffer after the first `xs` pixels of row `y` have been written, in
/// order, from the coverage bitmap (row-major, `width` values per row).
pub open spec fn row_written(buf: Seq<u8>, pitch: int, bitmap: Seq<u8>, width: int, y: int, xs: nat) -> Seq<u8>
    decreases xs,
{
    if xs == 0 {
        buf
    } else {
        let x = xs - 1;
        pixel_written(
            row_written(buf, pitch, bitmap, width, y, (xs - 1) as nat),
            pixel_offset(pitch, x, y),
            bitmap[y * width + x],
        )
    }
}

/// The buffer after the first `ys` rows of the glyph have been written.
pub open spec fn rows_written(buf: Seq<u8>, pitch: int, bitmap: Seq<u8>, width: int, ys: nat) -> Seq<u8>
    decreases ys,
{
    if ys == 0 {
        buf
    } else {
        row_written(
            rows_written(buf, pitch, bitmap, width, (ys - 1) as nat),
            pitch,
            bitmap,
            width,
            ys - 1,
            width as nat,
        )
    }
}

/// Every pixel of a `width` by `height` glyph fits in a buffer of `len`
/// bytes whose rows are `pitch` bytes apart.
pub open spec fn glyph_fits(len: int, pitch: int, width: int, height: int) -> bool {
    width == 0 || height == 0 || pixel_offset(pitch, width - 1, height - 1) + 3 < len
}

/// The size of the texture made for a glyph of `width` by `height` pixels:
/// each side at least one pixel, so that empty glyphs still get a texture.
pub fn glyph_texture_size(width: usize, height: usize) -> (r: (u32, u32))
    ensures
        r.0 == (if width < 1 { 1 } else { width }) as u32,
        r.1 == (if height < 1 { 1 } else { height }) as u32,
{
    let w = if width < 1 { 1 } else { width };
    let h = if height < 1 { 1 } else { height };
    (w as u32, h as u32)
}

/// Whether every pixel of a `width` by `height` glyph fits in a buffer of
/// `len` bytes whose rows are `pitch` bytes apart, the condition under which
/// `fill_glyph_texture` stays inside the buffer.
pub fn glyph_fits_buffer(len: usize, pitch: usize, width: usize, height: usize) -> (r: bool)
    ensures
        r == glyph_fits(len as int, pitch as int, width as int, height as int),
{
    if width == 0 || height == 0 {
        return true;
    }
    match (height - 1).checked_mul(pitch) {
        None => false,
        Some(rows) => (rows as u128) + ((width - 1) as u128) * 4 + 3 < len as u128,
    }
}

/// Expands an 8-bit coverage bitmap of `width` by `height` pixels into a
/// white RGBA texture whose rows are `pitch` bytes apart: each pixel gets
/// its coverage in the first byte and 255 in the other three. Pixels are
/// written row by row, left to right, so where rows overlap the later write
/// wins.
pub fn fill_glyph_texture(buffer: &mut [u8], pitch: usize, bitmap: &[u8], width: usize, height: usize)
    requires
        bitmap@.len() == width * height,
        glyph_fits(old(buffer)@.len() as int, pitch as int, width as int, height as int),
    ensures
        final(buffer)@ == rows_written(old(buffer)@, pitch as int, bitmap@, width as int, height as nat),
{
    let ghost start = buffer@;
    let n = buffer.len();
    let mut i: usize = 0;
    let mut y: usize = 0;
    while y < height
        invariant
            bitmap@.len() == width * height,
            glyph_fits(start.len() as int, pitch as int, width as int, height as int),
            buffer@.len() == start.len(),
            n == start.len(),
            y <= height,
            i == y * width,
            buffer@ == rows_written(start, pitch as int, bitmap@, width as int, y as nat),
        decreases height - y,
    {
        let mut x: usize = 0;
        proof {
            lemma_mul_inequality(y as int, height - 1, pitch as int);
            lemma_mul_inequality(y as int + 1, height as int, width as int);
            lemma_mul_nonnegative(y as int, pitch as int);
            assert((y + 1) * width == y * width + width) by (nonlinear_arith);
            assert((y + 1) * width <= width * height) by (nonlinear_arith)
                requires
                    (y + 1) * width <= height * width;
        }
        while x < width
            invariant
                bitmap@.len() == width * height,
                glyph_fits(start.len() as int, pitch as int, width as int, height as int),
                buffer@.len() == start.len(),
                n == start.len(),
                y < height,
                x <= width,
                y * pitch <= (height - 1) * pitch,
                0 <= y * pitch,
                (y + 1) * width <= width * height,
                (y + 1) * width == y * width + width,
                i == y * width + x,
                buffer@ == row_written(
                    rows_written(start, pitch as int, bitmap@, width as int, y as nat),
                    pitch as int,
                    bitmap@,
                    width as int,
                    y as int,
                    x as nat,
                ),
            decreases width - x,
        {
            let value = bitmap[i];
            let offset = y * pitch + x * 4;
            buffer[offset] = value;
            buffer[offset + 3] = 255;
            buffer[offset + 2] = 255;
            buffer[offset + 1] = 255;
            i = i + 1;
            x = x + 1;
        }
        y = y + 1;
    }
}

/// Byte `j` of the texture once `rows` whole rows and `cols` pixels of the
/// next row have been written over `buf`, described by where `j` falls:
/// row `j / pitch`, byte `j % pitch` of that row.
pub open spec fn glyph_byte(buf: Seq<u8>, pitch: int, bitmap: Seq<u8>, width: int, rows: int, cols: int, j: int) -> u8 {
    let y = j / pitch;
    let r = j % pitch;
    if 0 <= r && ((0 <= y < rows && r < 4 * width) || (y == rows && r < 4 * cols)) {
        if r % 4 == 0 {
            bitmap[y * width + r / 4]
        } else {
            255
        }
    } else {
        buf[j]
    }
}

/// The texture as `fill_glyph_texture` leaves it, byte by byte, when its
/// rows do not overlap: a byte inside the glyph's pixels holds the pixel's
/// coverage if it is the pixel's first byte and 255 otherwise; every other
/// byte keeps its old value.
pub open spec fn glyph_texture(buf: Seq<u8>, pitch: int, bitmap: Seq<u8>, width: int, height: int) -> Seq<u8> {
    Seq::new(buf.len(), |j: int| glyph_byte(buf, pitch, bitmap, width, height, 0, j))
}

proof fn lemma_rows_partial(buf: Seq<u8>, pitch: int, bitmap: Seq<u8>, width: int, height: int, y: int, xs: int)
    requires
        width > 0,
        pitch >= 4 * width,
        bitmap.len() == width * height,
        glyph_fits(buf.len() as int, pitch, width, height),
        0 <= y < height,
        0 <= xs <= width,
    ensures
        row_written(rows_written(buf, pitch, bitmap, width, y as nat), pitch, bitmap, width, y, xs as nat)
            =~= Seq::new(buf.len(), |j: int| glyph_byte(buf, pitch, bitmap, width, y, xs, j)),
    decreases y, xs,
{
    let n = buf.len() as int;
    if xs > 0 {
        lemma_rows_partial(buf, pitch, bitmap, width, height, y, xs - 1);
        let x = xs - 1;
        let off = pixel_offset(pitch, x, y);
        lemma_mul_inequality(y, height - 1, pitch);
        lemma_mul_nonnegative(y, pitch);
        lemma_mul_inequality(y + 1, height, width);
        assert(y * width + x < width * height) by (nonlinear_arith)
            requires
                x < width,
                (y + 1) * width <= height * width;
        let before = Seq::new(buf.len(), |j: int| glyph_byte(buf, pitch, bitmap, width, y, x, j));
        let after = pixel_written(before, off, bitmap[y * width + x]);
        assert forall|j: int| 0 <= j < n implies after[j] == glyph_byte(buf, pitch, bitmap, width, y, xs, j) by {
            lemma_fundamental_div_mod(j, pitch);
            lemma_div_pos_is_pos(j, pitch);
            lemma_mod_pos_bound(j, pitch);
            let q = j / pitch;
            let r = j % pitch;
            assert(j == q * pitch + r) by (nonlinear_arith)
                requires
                    j == pitch * q + r;
            if off <= j < off + 4 {
                let d = j - off;
                lemma_fundamental_div_mod_converse(j, pitch, y, 4 * x + d);
                lemma_fundamental_div_mod_converse(4 * x + d, 4, x, d);
            } else {
                if q == y && 4 * x <= r < 4 * xs {
                    assert(false);
                }
            }
        }
    } else if y > 0 {
        lemma_rows_partial(buf, pitch, bitmap, width, height, y - 1, width);
    } else {
        assert forall|j: int| 0 <= j < n implies buf[j] == glyph_byte(buf, pitch, bitmap, width, 0, 0, j) by {
            lemma_div_pos_is_pos(j, pitch);
        }
    }
}

/// When rows do not overlap (`pitch >= 4 * width`), `fill_glyph_texture`
/// writes each pixel's coverage into its first byte and 255 into its other
/// three, and leaves every byte outside the glyph's pixels unchanged.
pub proof fn lemma_glyph_texture(buf: Seq<u8>, pitch: int, bitmap: Seq<u8>, width: int, height: int)
    requires
        width >= 0,
        height >= 0,
        pitch >= 4 * width,
        bitmap.len() == width * height,
        glyph_fits(buf.len() as int, pitch, width, height),
    ensures
        rows_written(buf, pitch, bitmap, width, height as nat) == glyph_texture(buf, pitch, bitmap, width, height),
{
    if width > 0 && height > 0 {
        lemma_rows_partial(buf, pitch, bitmap, width, height, height - 1, width);
        assert(rows_written(buf, pitch, bitmap, width, height as nat) =~= glyph_texture(buf, pitch, bitmap, width, height));
    } else if width == 0 {
        lemma_no_columns(buf, pitch, bitmap, height);
        assert(rows_written(buf, pitch, bitmap, width, height as nat) =~= glyph_texture(buf, pitch, bitmap, width, height));
    } else {
        assert(rows_written(buf, pitch, bitmap, width, height as nat) =~= glyph_texture(buf, pitch, bitmap, width, height));
    }
}

proof fn lemma_no_columns(buf: Seq<u8>, pitch: int, bitmap: Seq<u8>, height: int)
    requires
        height >= 0,
    ensures
        rows_written(buf, pitch, bitmap, 0, height as nat) == buf,
    decreases height,
{
    if height > 0 {
        lemma_no_columns(buf, pitch, bitmap, height - 1);
    }
}

} // verus!
