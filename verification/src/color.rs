use vstd::prelude::*;

verus! {

/// An 8-bit-per-channel RGBA colour.
#[derive(Clone, Copy, PartialEq, Eq, Debug, Structural)]
pub struct Color {
    pub red: u8,
    pub green: u8,
    pub blue: u8,
    pub alpha: u8,
}

/// The channel of `code` that starts at bit `shift` (0, 8, 16 or 24).
pub open spec fn channel(code: u32, shift: u32) -> u8 {
    ((code >> shift) & 255) as u8
}

/// The colour that `0xAARRGGBB` denotes.
pub open spec fn spec_hex(code: u32) -> Color {
    Color {
        red: channel(code, 16),
        green: channel(code, 8),
        blue: channel(code, 0),
        alpha: channel(code, 24),
    }
}

/// The `0xAARRGGBB` packing of a colour.
pub open spec fn spec_pack(c: Color) -> u32 {
    ((c.alpha as u32) << 24) | ((c.red as u32) << 16) | ((c.green as u32) << 8) | (c.blue as u32)
}

impl Color {
    /// An opaque colour.
    pub fn rgb(red: u8, green: u8, blue: u8) -> (c: Color)
        ensures
            c == (Color { red, green, blue, alpha: 255 }),
    {
        Color { red, green, blue, alpha: 255 }
    }

    /// A colour with the given alpha.
    pub fn rgba(red: u8, green: u8, blue: u8, alpha: u8) -> (c: Color)
        ensures
            c == (Color { red, green, blue, alpha }),
    {
        Color { red, green, blue, alpha }
    }

    /// Decodes `0xAARRGGBB`.
    pub fn hex(code: u32) -> (c: Color)
        ensures
            c == spec_hex(code),
    {
        let color = Color {
            green: ((code >> 8) & 255) as u8,
            blue: (code & 255) as u8,
            red: ((code >> 16) & 255) as u8,
            alpha: ((code >> 24) & 255) as u8,
        };
        assert(code & 255 == (code >> 0u32) & 255) by (bit_vector);
        color
    }
}

/// Decoding a packed colour gives the colour back: `hex` reads exactly the
/// four bytes `0xAARRGGBB` into alpha, red, green and blue.
pub proof fn lemma_hex_of_pack(c: Color)
    ensures
        spec_hex(spec_pack(c)) == c,
{
    let (r, g, b, a) = (c.red, c.green, c.blue, c.alpha);
    let code = spec_pack(c);
    assert(((((a as u32) << 24) | ((r as u32) << 16) | ((g as u32) << 8) | (b as u32)) >> 16u32) & 255 == r as u32) by (bit_vector);
    assert(((((a as u32) << 24) | ((r as u32) << 16) | ((g as u32) << 8) | (b as u32)) >> 8u32) & 255 == g as u32) by (bit_vector);
    assert(((((a as u32) << 24) | ((r as u32) << 16) | ((g as u32) << 8) | (b as u32)) >> 0u32) & 255 == b as u32) by (bit_vector);
    assert(((((a as u32) << 24) | ((r as u32) << 16) | ((g as u32) << 8) | (b as u32)) >> 24u32) & 255 == a as u32) by (bit_vector);
}

/// Every 32-bit code is the packing of the colour it decodes to, so `hex`
/// is a bijection between `u32` codes and colours.
pub proof fn lemma_pack_of_hex(code: u32)
    ensures
        spec_pack(spec_hex(code)) == code,
{
    assert((((((code >> 24u32) & 255) as u8) as u32) << 24) | (((((code >> 16u32) & 255) as u8) as u32) << 16)
        | (((((code >> 8u32) & 255) as u8) as u32) << 8) | ((((code >> 0u32) & 255) as u8) as u32) == code)
        by (bit_vector);
}

} // verus!
