//! Chunk-size lines of the chunked transfer coding.

use crate::text::ows;
use vstd::prelude::*;

verus! {

/// Carriage return and line feed.
pub open spec fn crlf() -> Seq<u8> {
    seq![0x0du8, 0x0au8]
}

/// Whether `text` ends with `suffix`.
pub open spec fn ends_with(text: Seq<u8>, suffix: Seq<u8>) -> bool {
    text.len() >= suffix.len() && text.skip(text.len() - suffix.len()) == suffix
}

/// The value of a hexadecimal digit.
pub open spec fn hex_digit(byte: u8) -> Option<nat> {
    if 0x30 <= byte <= 0x39 {
        Some((byte - 0x30) as nat)
    } else if 0x61 <= byte <= 0x66 {
        Some((byte - 0x61 + 10) as nat)
    } else if 0x41 <= byte <= 0x46 {
        Some((byte - 0x41 + 10) as nat)
    } else {
        None
    }
}

/// Every byte is a hexadecimal digit.
pub open spec fn is_hex(text: Seq<u8>) -> bool {
    forall|i: int| 0 <= i < text.len() ==> hex_digit(#[trigger] text[i]) is Some
}

/// The number that hexadecimal digits denote.
pub open spec fn hex_value(text: Seq<u8>) -> nat
    decreases text.len(),
{
    if text.len() == 0 {
        0
    } else {
        hex_value(text.drop_last()) * 16 + hex_digit(text.last())->0
    }
}

/// How many hexadecimal digits `text` starts with.
pub open spec fn hex_run(text: Seq<u8>) -> int
    decreases text.len(),
{
    if text.len() > 0 && hex_digit(text[0]) is Some {
        1 + hex_run(text.skip(1))
    } else {
        0
    }
}

/// How many spaces and tabs `text` starts with.
pub open spec fn blank_run(text: Seq<u8>) -> int
    decreases text.len(),
{
    if text.len() > 0 && ows()(text[0]) {
        1 + blank_run(text.skip(1))
    } else {
        0
    }
}

/// Nothing, or an extension: a semicolon and then any bytes but a carriage return.
pub open spec fn is_extension(text: Seq<u8>) -> bool {
    text.len() == 0 || (text[0] == 0x3b && !text.contains(0x0du8))
}

/// The size that a chunk-size line denotes: at most sixteen hexadecimal digits, blanks, an optional
/// extension, and the line end. A line without digits denotes zero.
pub open spec fn chunk_line_size(line: Seq<u8>) -> Option<nat> {
    let content = line.take(line.len() - 2);
    let digits = hex_run(content);
    let after = content.skip(digits);
    if ends_with(line, crlf()) && digits <= 16 && is_extension(after.skip(blank_run(after))) {
        Some(hex_value(content.take(digits)))
    } else {
        None
    }
}

/// The upper-case hexadecimal digit of a number below sixteen.
pub open spec fn hex_char(digit: nat) -> u8 {
    if digit < 10 {
        (0x30 + digit) as u8
    } else {
        (0x41 + digit - 10) as u8
    }
}

/// The upper-case hexadecimal digits of a number, without leading zeros.
pub open spec fn hex_text(number: nat) -> Seq<u8>
    decreases number,
{
    if number < 16 {
        seq![hex_char(number)]
    } else {
        hex_text(number / 16).push(hex_char(number % 16))
    }
}

/// A chunk on the wire: its size, a line end, its bytes, a line end.
pub open spec fn chunk_frame(data: Seq<u8>) -> Seq<u8> {
    hex_text(data.len()) + crlf() + data + crlf()
}

/// The end of a chunked body: the empty chunk and an empty trailer section.
pub open spec fn last_chunk() -> Seq<u8> {
    seq![0x30u8] + crlf() + crlf()
}

/// The digits of a number are digits, denote that number, and are few.
pub proof fn lemma_hex_text(number: nat)
    ensures
        is_hex(hex_text(number)),
        hex_value(hex_text(number)) == number,
        hex_text(number).len() > 0,
        number < 0x1_0000_0000_0000_0000 ==> hex_text(number).len() <= 16,
    decreases number,
{
    if number < 16 {
        assert(hex_text(number).drop_last() =~= Seq::<u8>::empty());
        reveal_with_fuel(hex_value, 2);
    } else {
        lemma_hex_text(number / 16);
        assert(hex_text(number).drop_last() =~= hex_text(number / 16));
        if number < 0x1_0000_0000_0000_0000 {
            assert(hex_bound(16) == 0x1_0000_0000_0000_0000) by {
                reveal_with_fuel(hex_bound, 17);
            }
            lemma_hex_text_len(number, 16);
        }
    }
}

/// The least number that needs more than `digits` hexadecimal digits.
spec fn hex_bound(digits: nat) -> nat
    decreases digits,
{
    if digits == 0 {
        1
    } else {
        16 * hex_bound((digits - 1) as nat)
    }
}

proof fn lemma_hex_text_len(number: nat, digits: nat)
    requires
        digits > 0,
        number < hex_bound(digits),
    ensures
        hex_text(number).len() <= digits,
    decreases digits,
{
    if number >= 16 {
        reveal_with_fuel(hex_bound, 2);
        lemma_hex_text_len(number / 16, (digits - 1) as nat);
    }
}

/// How far the digits at the start of a text reach.
pub proof fn lemma_hex_run(digits: Seq<u8>, rest: Seq<u8>)
    requires
        is_hex(digits),
        rest.len() > 0 ==> hex_digit(rest[0]) is None,
    ensures
        hex_run(digits + rest) == digits.len(),
    decreases digits.len(),
{
    if digits.len() > 0 {
        assert((digits + rest)[0] == digits[0]);
        assert((digits + rest).skip(1) =~= digits.skip(1) + rest);
        lemma_hex_run(digits.skip(1), rest);
    } else {
        assert(digits + rest =~= rest);
    }
}

/// A line of up to sixteen digits denotes what the digits denote.
pub proof fn lemma_chunk_line_of_digits(digits: Seq<u8>)
    requires
        is_hex(digits),
        digits.len() <= 16,
    ensures
        chunk_line_size(digits + crlf()) == Some(hex_value(digits)),
{
    let line = digits + crlf();
    assert(line.skip(line.len() - 2) =~= crlf());
    assert(line.take(line.len() - 2) =~= digits);
    assert(digits + Seq::<u8>::empty() =~= digits);
    lemma_hex_run(digits, Seq::empty());
    assert(digits.skip(digits.len() as int) =~= Seq::<u8>::empty());
    assert(digits.take(digits.len() as int) =~= digits);
}

/// What became of a chunk-size line.
#[derive(Clone, Copy, Debug, PartialEq, Eq, Structural)]
pub enum ChunkSizeLine {
    Complete { used: usize, size: u64 },
    Partial,
    Invalid,
}

/// Calls `httparse::parse_chunk_size`.
///
/// Claimed of it: where it completes, it stops right behind a line end within the buffer; and it
/// completes exactly at the end of the buffer if and only if the whole buffer is one chunk-size
/// line, with the size that the line denotes.
#[verifier::external_body]
pub(crate) fn parse_chunk_size_line(line: &[u8]) -> (result: ChunkSizeLine)
    ensures
        result matches ChunkSizeLine::Complete { used, .. } ==> 2 <= used <= line@.len()
            && line@.subrange(used - 2, used as int) == crlf(),
        result is Complete && result->used == line@.len() ==> chunk_line_size(line@) == Some(
            result->size as nat,
        ),
        chunk_line_size(line@) is Some ==> result is Complete && result->used == line@.len(),
{
    match httparse::parse_chunk_size(line) {
        Ok(httparse::Status::Complete((used, size))) => ChunkSizeLine::Complete { used, size },
        Ok(httparse::Status::Partial) => ChunkSizeLine::Partial,
        Err(_) => ChunkSizeLine::Invalid,
    }
}

/// Reports whether `text` ends with a line end.
pub fn ends_with_crlf(text: &[u8]) -> (result: bool)
    ensures
        result == ends_with(text@, crlf()),
{
    let length: usize = text.len();
    if length < 2 {
        return false;
    }
    let result = text[length - 2] == 0x0d && text[length - 1] == 0x0a;
    proof {
        let tail = text@.skip(length - 2);
        if result {
            assert(tail =~= crlf());
        } else {
            assert(tail[0] == text@[length - 2]);
            assert(tail[1] == text@[length - 1]);
        }
    }
    result
}

/// Reports whether `text` ends with a line end and a blank line.
pub fn ends_with_blank_line(text: &[u8]) -> (result: bool)
    ensures
        result == ends_with(text@, crlf() + crlf()),
{
    let length: usize = text.len();
    if length < 4 {
        return false;
    }
    let result = text[length - 4] == 0x0d && text[length - 3] == 0x0a && text[length - 2] == 0x0d
        && text[length - 1] == 0x0a;
    proof {
        let tail = text@.skip(length - 4);
        if result {
            assert(tail =~= crlf() + crlf());
        } else {
            assert(tail[0] == text@[length - 4]);
            assert(tail[1] == text@[length - 3]);
            assert(tail[2] == text@[length - 2]);
            assert(tail[3] == text@[length - 1]);
        }
    }
    result
}

} // verus!
