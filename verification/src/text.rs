use vstd::prelude::*;
use vstd::string::*;
use vstd::utf8::*;

verus! {

broadcast use {encode_utf8_valid_utf8, encode_utf8_decode_utf8};

/// The length of a text in UTF-8 bytes, which is what `str::len` reports.
pub open spec fn byte_len(s: Seq<char>) -> int {
    encode_utf8(s).len() as int
}

/// Whether byte offset `i` of a text falls on the start of a character
/// (or at its end), so that the text may be cut there.
pub open spec fn cuts_at(s: Seq<char>, i: int) -> bool {
    is_char_boundary(encode_utf8(s), i)
}

/// The text whose bytes are those of `s` before offset `start`, then the
/// bytes of `mid`, then those of `s` from offset `end` on.
pub open spec fn spliced(s: Seq<char>, start: int, end: int, mid: Seq<char>) -> Seq<char> {
    decode_utf8(
        encode_utf8(s).subrange(0, start) + encode_utf8(mid) + encode_utf8(s).subrange(
            end,
            encode_utf8(s).len() as int,
        ),
    )
}

/// UTF-8 encoding maps concatenation of texts to concatenation of bytes.
pub proof fn lemma_encode_concat(a: Seq<char>, b: Seq<char>)
    ensures
        encode_utf8(a + b) == encode_utf8(a) + encode_utf8(b),
    decreases a.len(),
{
    if a.len() == 0 {
        assert(a + b =~= b);
        assert(encode_utf8(a) =~= Seq::<u8>::empty());
        assert(encode_utf8(a) + encode_utf8(b) =~= encode_utf8(b));
    } else {
        assert((a + b)[0] == a[0]);
        assert((a + b).drop_first() =~= a.drop_first() + b);
        lemma_encode_concat(a.drop_first(), b);
        assert(encode_utf8(a + b) =~= encode_scalar(a[0] as u32) + encode_utf8(a.drop_first() + b));
        assert(encode_utf8(a) =~= encode_scalar(a[0] as u32) + encode_utf8(a.drop_first()));
        assert(encode_utf8(a + b) =~= encode_utf8(a) + encode_utf8(b));
    }
}

/// Two texts with the same UTF-8 bytes are the same text.
pub proof fn lemma_encode_injective(a: Seq<char>, b: Seq<char>)
    requires
        encode_utf8(a) == encode_utf8(b),
    ensures
        a == b,
{
    assert(decode_utf8(encode_utf8(a)) == a);
    assert(decode_utf8(encode_utf8(b)) == b);
}

/// Decoding the bytes of three texts laid end to end gives the three texts
/// joined.
pub proof fn lemma_decode_concat3(a: Seq<char>, b: Seq<char>, c: Seq<char>)
    ensures
        decode_utf8(encode_utf8(a) + encode_utf8(b) + encode_utf8(c)) == a + b + c,
{
    lemma_encode_concat(a, b);
    lemma_encode_concat(a + b, c);
}

/// The UTF-8 length of `s`, as `str::len` computes it.
pub fn text_len(s: &String) -> (n: usize)
    ensures
        n == byte_len(s@),
{
    s.as_str().as_bytes().len()
}

/// Replaces the bytes `start..end` of `s` by `mid`; when `start > end` the
/// bytes between the two offsets appear twice, as slicing the two halves
/// separately gives.
pub fn splice(s: &String, start: usize, end: usize, mid: &str) -> (r: String)
    requires
        cuts_at(s@, start as int),
        cuts_at(s@, end as int),
    ensures
        r@ == spliced(s@, start as int, end as int, mid@),
        encode_utf8(r@) == encode_utf8(s@).subrange(0, start as int) + encode_utf8(mid@)
            + encode_utf8(s@).subrange(end as int, byte_len(s@)),
{
    let whole = s.as_str();
    let (left, _) = whole.split_at(start);
    let (_, right) = whole.split_at(end);
    let mut out = left.to_owned();
    out.append(mid);
    out.append(right);
    proof {
        lemma_decode_concat3(left@, mid@, right@);
        lemma_encode_concat(left@, mid@);
        lemma_encode_concat(left@ + mid@, right@);
        assert(out@ == left@ + mid@ + right@);
    }
    out
}

/// The text made of the bytes of `s` before offset `end`.
pub open spec fn prefix_of(s: Seq<char>, end: int) -> Seq<char> {
    decode_utf8(encode_utf8(s).subrange(0, end))
}

/// The bytes of `s` before offset `end`, as a new string.
pub fn prefix(s: &String, end: usize) -> (r: String)
    requires
        cuts_at(s@, end as int),
    ensures
        r@ == prefix_of(s@, end as int),
        encode_utf8(r@) == encode_utf8(s@).subrange(0, end as int),
{
    let (left, _) = s.as_str().split_at(end);
    left.to_owned()
}

/// The place where two valid UTF-8 byte sequences are joined is a
/// character boundary of the joined sequence.
pub proof fn lemma_boundary_at_join(b1: Seq<u8>, b2: Seq<u8>)
    requires
        valid_utf8(b1),
        valid_utf8(b2),
    ensures
        valid_utf8(b1 + b2),
        is_char_boundary(b1 + b2, b1.len() as int),
    decreases b1.len(),
{
    valid_utf8_concat(b1, b2);
    if b1.len() > 0 {
        reveal_with_fuel(valid_utf8, 2);
        let joined = b1 + b2;
        let k = length_of_first_scalar(b1);
        assert(joined[0] == b1[0]);
        assert(length_of_first_scalar(joined) == k);
        assert(pop_first_scalar(joined) =~= pop_first_scalar(b1) + b2);
        lemma_boundary_at_join(pop_first_scalar(b1), b2);
        reveal_with_fuel(is_char_boundary, 2);
    }
}

} // verus!
