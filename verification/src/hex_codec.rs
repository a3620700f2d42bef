//! Hexadecimal text, the one textual form of an identifier.
//!
//! The text of a byte string has two digits per byte, high half first, in
//! lower case. Reading accepts both cases. The conversions themselves are done
//! by the `hex` crate; this module states what they compute and proves that
//! reading undoes writing.

use vstd::prelude::*;
use vstd::string::StringSliceAdditionalSpecFns;
use vstd::utf8::{encode_scalar, encode_utf8, is_ascii_chars, is_ascii_chars_encode_utf8};

verus! {

/// Why a text is not the hexadecimal form of any byte string.
#[derive(Clone, Copy, Debug, PartialEq, Eq, Structural)]
pub enum HexError {
    /// The byte at `index` of the text is no hexadecimal digit; `c` is that
    /// byte read as a character.
    InvalidHexCharacter { c: char, index: usize },
    /// The text has an odd number of bytes.
    OddLength,
    /// The text does not fit a container of fixed size.
    InvalidStringLength,
}

/// The lower-case digit for a value below sixteen.
pub open spec fn hex_digit(n: u8) -> char {
    if n < 10 {
        ((0x30 + n) as u8) as char
    } else {
        ((0x57 + n) as u8) as char
    }
}

/// Whether `c` is one of `0`-`9`, `a`-`f`, `A`-`F`.
pub open spec fn is_hex_digit(c: char) -> bool {
    ('0' <= c <= '9') || ('a' <= c <= 'f') || ('A' <= c <= 'F')
}

/// The value of a hexadecimal digit.
pub open spec fn hex_value(c: char) -> u8
    recommends
        is_hex_digit(c),
{
    if '0' <= c <= '9' {
        (c as u8 - 0x30) as u8
    } else if 'a' <= c <= 'f' {
        (c as u8 - 0x57) as u8
    } else {
        (c as u8 - 0x37) as u8
    }
}

/// The two halves of each byte in turn, high half first.
pub open spec fn half_bytes(bytes: Seq<u8>) -> Seq<u8> {
    Seq::new(
        2 * bytes.len(),
        |i: int|
            if i % 2 == 0 {
                bytes[i / 2] / 16
            } else {
                bytes[i / 2] % 16
            },
    )
}

/// The hexadecimal text of a byte string.
pub open spec fn hex_text(bytes: Seq<u8>) -> Seq<char> {
    Seq::new(2 * bytes.len(), |i: int| hex_digit(half_bytes(bytes)[i]))
}

/// Whether `text` is the hexadecimal form of some byte string: an even number
/// of hexadecimal digits.
pub open spec fn is_hex_text(text: Seq<char>) -> bool {
    &&& text.len() % 2 == 0
    &&& forall|i: int| 0 <= i < text.len() ==> is_hex_digit(#[trigger] text[i])
}

/// Whether `text` is hexadecimal text with no upper-case digit.
pub open spec fn is_lower_hex_text(text: Seq<char>) -> bool {
    &&& is_hex_text(text)
    &&& forall|i: int| 0 <= i < text.len() ==> !('A' <= #[trigger] text[i] <= 'F')
}

/// The byte string that hexadecimal text stands for.
pub open spec fn hex_decode(text: Seq<char>) -> Seq<u8>
    recommends
        is_hex_text(text),
{
    Seq::new(
        text.len() / 2,
        |i: int| (16 * hex_value(text[2 * i]) + hex_value(text[2 * i + 1])) as u8,
    )
}

/// Each byte of `data` read as the character with that code.
pub open spec fn byte_chars(data: Seq<u8>) -> Seq<char> {
    Seq::new(data.len(), |i: int| data[i] as char)
}

/// What reading the bytes `data` as hexadecimal text gives: the bytes it
/// stands for, or the first thing that is wrong with it. An odd length is
/// reported before any digit is looked at; otherwise the first byte that is
/// no digit is reported.
pub open spec fn hex_decode_result(data: Seq<u8>) -> Result<Seq<u8>, HexError> {
    let text = byte_chars(data);
    if data.len() % 2 != 0 {
        Err(HexError::OddLength)
    } else if is_hex_text(text) {
        Ok(hex_decode(text))
    } else {
        let index = first_bad_digit(text, 0);
        Err(HexError::InvalidHexCharacter { c: text[index], index: index as usize })
    }
}

/// An outcome of reading, with the bytes as a sequence.
pub open spec fn outcome_view(r: Result<Vec<u8>, HexError>) -> Result<Seq<u8>, HexError> {
    match r {
        Ok(bytes) => Ok(bytes@),
        Err(e) => Err(e),
    }
}

/// The first index at or after `from` that holds no hexadecimal digit, or the
/// length of `text` if there is none.
pub open spec fn first_bad_digit(text: Seq<char>, from: int) -> int
    decreases text.len() - from,
{
    if from < 0 || from >= text.len() || !is_hex_digit(text[from]) {
        from
    } else {
        first_bad_digit(text, from + 1)
    }
}

/// `first_bad_digit` stays within the text, everything between `from` and it
/// is a digit, and what stands at it is none.
pub proof fn lemma_first_bad_digit(text: Seq<char>, from: int)
    requires
        0 <= from <= text.len(),
    ensures
        from <= first_bad_digit(text, from) <= text.len(),
        forall|i: int| from <= i < first_bad_digit(text, from) ==> is_hex_digit(text[i]),
        first_bad_digit(text, from) < text.len() ==> !is_hex_digit(
            text[first_bad_digit(text, from)],
        ),
    decreases text.len() - from,
{
    if from >= text.len() || !is_hex_digit(text[from]) {
    } else {
        lemma_first_bad_digit(text, from + 1);
    }
}

/// Every value below sixteen has a lower-case digit, and the digit has that
/// value.
pub proof fn lemma_hex_digit_value(n: u8)
    requires
        n < 16,
    ensures
        is_hex_digit(hex_digit(n)),
        !('A' <= hex_digit(n) <= 'F'),
        hex_value(hex_digit(n)) == n,
{
}

/// A lower-case digit is the digit of its own value.
pub proof fn lemma_hex_value_digit(c: char)
    requires
        is_hex_digit(c),
        !('A' <= c <= 'F'),
    ensures
        hex_value(c) < 16,
        hex_digit(hex_value(c)) == c,
{
}

/// Reading undoes writing: the hexadecimal text of any byte string is valid,
/// lower-case, and stands for that byte string.
pub proof fn lemma_hex_round_trip(bytes: Seq<u8>)
    ensures
        is_lower_hex_text(hex_text(bytes)),
        hex_decode(hex_text(bytes)) == bytes,
{
    let text = hex_text(bytes);
    assert forall|i: int| 0 <= i < text.len() implies is_hex_digit(#[trigger] text[i]) && !('A'
        <= text[i] <= 'F') by {
        lemma_hex_digit_value(half_bytes(bytes)[i]);
    }
    assert forall|i: int| 0 <= i < bytes.len() implies hex_decode(text)[i] == bytes[i] by {
        lemma_hex_digit_value(half_bytes(bytes)[2 * i]);
        lemma_hex_digit_value(half_bytes(bytes)[2 * i + 1]);
    }
    assert(hex_decode(text) =~= bytes);
}

/// Writing undoes reading, up to case: lower-case hexadecimal text is the text
/// of the byte string it stands for.
pub proof fn lemma_hex_text_of_decode(text: Seq<char>)
    requires
        is_lower_hex_text(text),
    ensures
        hex_text(hex_decode(text)) == text,
{
    let bytes = hex_decode(text);
    assert forall|i: int| 0 <= i < text.len() implies hex_text(bytes)[i] == text[i] by {
        let k = i / 2;
        lemma_hex_value_digit(text[2 * k]);
        lemma_hex_value_digit(text[2 * k + 1]);
    }
    assert(hex_text(bytes) =~= text);
}

/// Different byte strings have different texts.
pub proof fn lemma_hex_text_unique(a: Seq<u8>, b: Seq<u8>)
    requires
        hex_text(a) == hex_text(b),
    ensures
        a == b,
{
    lemma_hex_round_trip(a);
    lemma_hex_round_trip(b);
}

/// Plain ASCII text is, byte for byte, its own UTF-8 encoding.
proof fn lemma_ascii_bytes(text: Seq<char>)
    requires
        is_ascii_chars(text),
    ensures
        byte_chars(encode_utf8(text)) == text,
{
    is_ascii_chars_encode_utf8(text);
    assert(byte_chars(encode_utf8(text)) =~= text);
}

/// The UTF-8 encoding of a character is one byte if it is plain ASCII, and
/// starts with a byte of 0x80 or more if it is not.
proof fn lemma_first_byte(c: char)
    ensures
        ('\0' <= c <= '\x7f') ==> encode_scalar(c as u32).len() == 1,
        !('\0' <= c <= '\x7f') ==> encode_scalar(c as u32).len() > 1 && encode_scalar(
            c as u32,
        )[0] >= 0x80,
{
    let v = c as u32;
    assert((0xC0u8 | ((v >> 6) & 0x1F) as u8) >= 0x80) by (bit_vector);
    assert((0xE0u8 | ((v >> 12) & 0x0F) as u8) >= 0x80) by (bit_vector);
    assert((0xF0u8 | ((v >> 18) & 0x7) as u8) >= 0x80) by (bit_vector);
}

/// Text that is not plain ASCII has a byte of 0x80 or more in its UTF-8
/// encoding.
proof fn lemma_non_ascii_high_byte(text: Seq<char>) -> (i: int)
    requires
        !is_ascii_chars(text),
    ensures
        0 <= i < encode_utf8(text).len(),
        encode_utf8(text)[i] >= 0x80,
    decreases text.len(),
{
    assert(text.len() > 0);
    let head = encode_scalar(text[0] as u32);
    let rest = encode_utf8(text.drop_first());
    lemma_first_byte(text[0]);
    assert(encode_utf8(text) == head + rest);
    if !('\0' <= text[0] <= '\x7f') {
        assert((head + rest)[0] == head[0]);
        0
    } else {
        assert(!is_ascii_chars(text.drop_first())) by {
            if is_ascii_chars(text.drop_first()) {
                assert forall|j: int| 0 <= j < text.len() implies '\0' <= #[trigger] text[j]
                    <= '\x7f' by {
                    if j > 0 {
                        assert(text[j] == text.drop_first()[j - 1]);
                    }
                }
            }
        }
        let j = lemma_non_ascii_high_byte(text.drop_first());
        assert((head + rest)[1 + j] == rest[j]);
        1 + j
    }
}

/// The `hex` crate's `encode`: the text of `data`, two lower-case digits per
/// byte, high half first.
#[verifier::external_body]
pub(crate) fn encode(data: &[u8]) -> (text: String)
    ensures
        text@ == hex_text(data@),
{
    hex::encode(data)
}

/// The `hex` crate's `decode` on raw bytes: the byte string that `data`
/// stands for as hexadecimal text, or what `hex_decode_result` names as the
/// first fault. The crate's error is carried over variant by variant.
#[verifier::external_body]
pub(crate) fn decode(data: &[u8]) -> (r: Result<Vec<u8>, HexError>)
    ensures
        outcome_view(r) == hex_decode_result(data@),
{
    match hex::decode(data) {
        Ok(bytes) => Ok(bytes),
        Err(hex::FromHexError::InvalidHexCharacter { c, index }) => Err(
            HexError::InvalidHexCharacter { c, index },
        ),
        Err(hex::FromHexError::OddLength) => Err(HexError::OddLength),
        Err(hex::FromHexError::InvalidStringLength) => Err(HexError::InvalidStringLength),
    }
}

/// Reads hexadecimal text.
///
/// Succeeds exactly on an even number of hexadecimal digits, of either case,
/// and then gives the bytes they stand for. Whatever the text, the outcome is
/// the one that `hex_decode_result` names for the text's UTF-8 bytes.
pub fn decode_hex(text: &str) -> (r: Result<Vec<u8>, HexError>)
    ensures
        r is Ok <==> is_hex_text(text@),
        r matches Ok(bytes) ==> bytes@ == hex_decode(text@),
        outcome_view(r) == hex_decode_result(text.spec_bytes()),
{
    let data = text.as_bytes();
    let r = decode(data);
    proof {
        if is_ascii_chars(text@) {
            lemma_ascii_bytes(text@);
        } else {
            let i = lemma_non_ascii_high_byte(text@);
            assert(!is_hex_digit(byte_chars(data@)[i]));
            assert(!is_hex_text(byte_chars(data@)));
            let j = choose|j: int| 0 <= j < text@.len() && !('\0' <= #[trigger] text@[j] <= '\x7f');
            assert(!is_hex_digit(text@[j]));
        }
    }
    r
}

} // verus!
