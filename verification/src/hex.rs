//! Hexadecimal text for byte strings, as the identifier API and the
//! serialization bridge's sigil escape use it.
//!
//! The spec functions state the exact character sequences involved; the
//! conversions themselves are done by the `const_hex` crate through the two
//! trusted wrappers at the bottom.

use vstd::prelude::*;

verus! {

/// The lowercase hex digit of a value below 16.
pub open spec fn lower_hex_char(n: u8) -> char
    recommends
        n < 16,
{
    if n < 10 {
        (('0' as u8) + n) as char
    } else {
        (('a' as u8) + (n - 10)) as char
    }
}

/// The lowercase hex encoding of `bs`: two digits per byte, high nibble
/// first.
pub open spec fn hex_chars_of(bs: Seq<u8>) -> Seq<char> {
    Seq::new(
        bs.len() * 2,
        |i: int|
            if i % 2 == 0 {
                lower_hex_char(bs[i / 2] >> 4)
            } else {
                lower_hex_char(bs[i / 2] & 0xf)
            },
    )
}

/// Whether `c` is a hex digit, either case.
pub open spec fn is_hex_digit(c: char) -> bool {
    ('0' <= c && c <= '9') || ('a' <= c && c <= 'f') || ('A' <= c && c <= 'F')
}

/// The value of a hex digit.
pub open spec fn hex_digit_val(c: char) -> u8
    recommends
        is_hex_digit(c),
{
    if '0' <= c && c <= '9' {
        ((c as u8) - ('0' as u8)) as u8
    } else if 'a' <= c && c <= 'f' {
        ((c as u8) - ('a' as u8) + 10) as u8
    } else {
        ((c as u8) - ('A' as u8) + 10) as u8
    }
}

/// `s` without a leading `0x` or `0X`, if it has one.
pub open spec fn strip_hex_prefix(s: Seq<char>) -> Seq<char> {
    if s.len() >= 2 && s[0] == '0' && (s[1] == 'x' || s[1] == 'X') {
        s.skip(2)
    } else {
        s
    }
}

/// Whether `s` decodes as hex: an even number of characters, all of them
/// hex digits after an optional `0x`/`0X` prefix.
pub open spec fn valid_hex_str(s: Seq<char>) -> bool {
    s.len() % 2 == 0 && (forall|i: int|
        0 <= i < strip_hex_prefix(s).len() ==> is_hex_digit(#[trigger] strip_hex_prefix(s)[i]))
}

/// The bytes `s` decodes to: one per digit pair, high nibble first, the
/// optional `0x`/`0X` prefix not counted.
pub open spec fn hex_bytes_of(s: Seq<char>) -> Seq<u8> {
    let t = strip_hex_prefix(s);
    Seq::new(
        t.len() / 2,
        |i: int| (hex_digit_val(t[2 * i]) * 16 + hex_digit_val(t[2 * i + 1])) as u8,
    )
}

/// A hex digit reads back as the value it was written for.
pub proof fn lemma_hex_char_val(n: u8)
    requires
        n < 16,
    ensures
        is_hex_digit(lower_hex_char(n)),
        hex_digit_val(lower_hex_char(n)) == n,
        lower_hex_char(n) != 'x',
        lower_hex_char(n) != 'X',
{
}

/// Hex encoding decodes back to the bytes it was made from.
pub proof fn lemma_hex_round_trip(bs: Seq<u8>)
    ensures
        valid_hex_str(hex_chars_of(bs)),
        hex_bytes_of(hex_chars_of(bs)) == bs,
{
    let h = hex_chars_of(bs);
    assert forall|i: int| 0 <= i < h.len() implies is_hex_digit(#[trigger] h[i]) by {
        let b = bs[i / 2];
        assert(b >> 4 < 16 && b & 0xf < 16) by (bit_vector);
        if i % 2 == 0 {
            lemma_hex_char_val(b >> 4);
        } else {
            lemma_hex_char_val(b & 0xf);
        }
    }
    if h.len() >= 2 {
        let b0 = bs[0];
        assert(b0 & 0xf < 16) by (bit_vector);
        lemma_hex_char_val(b0 & 0xf);
        assert(h[1] != 'x' && h[1] != 'X');
    }
    assert(strip_hex_prefix(h) == h);
    assert forall|i: int| 0 <= i < bs.len() implies hex_bytes_of(h)[i] == bs[i] by {
        let b = bs[i];
        assert(b >> 4 < 16 && b & 0xf < 16) by (bit_vector);
        lemma_hex_char_val(b >> 4);
        lemma_hex_char_val(b & 0xf);
        assert(h[2 * i] == lower_hex_char(b >> 4));
        assert(h[2 * i + 1] == lower_hex_char(b & 0xf));
        assert((b >> 4) * 16 + (b & 0xf) == b) by (bit_vector);
    }
    assert(hex_bytes_of(h) =~= bs);
}

/// Relies on `const_hex::encode`: two lowercase hex digits for each input
/// byte, high nibble first.
#[verifier::external_body]
pub fn hex_encode(b: &[u8]) -> (r: String)
    ensures
        r@ == hex_chars_of(b@),
{
    const_hex::encode(b)
}

/// Relies on `const_hex::decode`: it succeeds exactly on an even-length
/// input whose characters, after an optional `0x`/`0X` prefix, are all hex
/// digits, and then yields one byte per digit pair.
#[verifier::external_body]
pub fn hex_decode(s: &str) -> (r: Option<Vec<u8>>)
    ensures
        r is Some <==> valid_hex_str(s@),
        r matches Some(v) ==> v@ == hex_bytes_of(s@),
{
    const_hex::decode(s).ok()
}

} // verus!
