//! ASCII helpers shared by the header and framing code.

use vstd::prelude::*;
use vstd::string::*;

verus! {

/// The bytes of a string, as they appear on the wire.
pub open spec fn wire(text: Seq<char>) -> Seq<u8> {
    vstd::utf8::encode_utf8(text)
}

/// Maps `A`-`Z` to `a`-`z` and leaves every other byte alone.
pub open spec fn lower(byte: u8) -> u8 {
    if 0x41 <= byte <= 0x5a {
        (byte + 0x20) as u8
    } else {
        byte
    }
}

/// Equality of two byte strings up to the case of ASCII letters.
pub open spec fn same_ignoring_case(left: Seq<u8>, right: Seq<u8>) -> bool {
    &&& left.len() == right.len()
    &&& forall|i: int| 0 <= i < left.len() ==> lower(#[trigger] left[i]) == lower(right[i])
}

fn to_lower(byte: u8) -> (result: u8)
    ensures
        result == lower(byte),
{
    if 0x41 <= byte && byte <= 0x5a {
        byte + 0x20
    } else {
        byte
    }
}

/// Compares two byte strings up to the case of ASCII letters.
pub fn eq_ignore_ascii_case(left: &[u8], right: &[u8]) -> (result: bool)
    ensures
        result == same_ignoring_case(left@, right@),
{
    if left.len() != right.len() {
        return false;
    }
    let mut i: usize = 0;
    while i < left.len()
        invariant
            left@.len() == right@.len(),
            i <= left@.len(),
            forall|j: int| 0 <= j < i ==> lower(#[trigger] left@[j]) == lower(right@[j]),
        decreases left@.len() - i,
    {
        if to_lower(left[i]) != to_lower(right[i]) {
            return false;
        }
        i += 1;
    }
    true
}

/// Space and horizontal tab, the optional white space of header fields.
pub open spec fn ows() -> spec_fn(u8) -> bool {
    |byte: u8| byte == 0x20 || byte == 0x09
}

/// Space, tab, line feed, form feed and carriage return.
pub open spec fn ascii_whitespace() -> spec_fn(u8) -> bool {
    |byte: u8| byte == 0x20 || byte == 0x09 || byte == 0x0a || byte == 0x0c || byte == 0x0d
}

/// `text` without its longest prefix of blank bytes.
pub open spec fn trim_start(text: Seq<u8>, blank: spec_fn(u8) -> bool) -> Seq<u8>
    decreases text.len(),
{
    if text.len() > 0 && blank(text[0]) {
        trim_start(text.skip(1), blank)
    } else {
        text
    }
}

/// `text` without its longest suffix of blank bytes.
pub open spec fn trim_end(text: Seq<u8>, blank: spec_fn(u8) -> bool) -> Seq<u8>
    decreases text.len(),
{
    if text.len() > 0 && blank(text.last()) {
        trim_end(text.drop_last(), blank)
    } else {
        text
    }
}

/// `text` without blank bytes at either end.
pub open spec fn trimmed(text: Seq<u8>, blank: spec_fn(u8) -> bool) -> Seq<u8> {
    trim_end(trim_start(text, blank), blank)
}

/// Removes spaces and tabs from both ends.
pub fn trim_ows(value: &[u8]) -> (result: &[u8])
    ensures
        result@ == trimmed(value@, ows()),
{
    let mut start: usize = 0;
    assert(value@.skip(0) =~= value@);
    while start < value.len() && (value[start] == 0x20 || value[start] == 0x09)
        invariant
            start <= value@.len(),
            trim_start(value@, ows()) == trim_start(value@.skip(start as int), ows()),
        decreases value@.len() - start,
    {
        assert(value@.skip(start as int).skip(1) =~= value@.skip(start + 1));
        start += 1;
    }
    let mut end: usize = value.len();
    assert(value@.skip(start as int) =~= value@.subrange(start as int, end as int));
    while start < end && (value[end - 1] == 0x20 || value[end - 1] == 0x09)
        invariant
            start <= end <= value@.len(),
            trimmed(value@, ows()) == trim_end(value@.subrange(start as int, end as int), ows()),
        decreases end - start,
    {
        assert(value@.subrange(start as int, end as int).drop_last()
            =~= value@.subrange(start as int, end - 1));
        end -= 1;
    }
    &value[start..end]
}

/// Removes ASCII white space from both ends.
pub fn trim_ascii_whitespace(value: &[u8]) -> (result: &[u8])
    ensures
        result@ == trimmed(value@, ascii_whitespace()),
{
    let mut start: usize = 0;
    assert(value@.skip(0) =~= value@);
    while start < value.len() && is_ascii_whitespace(value[start])
        invariant
            start <= value@.len(),
            trim_start(value@, ascii_whitespace()) == trim_start(
                value@.skip(start as int),
                ascii_whitespace(),
            ),
        decreases value@.len() - start,
    {
        assert(value@.skip(start as int).skip(1) =~= value@.skip(start + 1));
        start += 1;
    }
    let mut end: usize = value.len();
    assert(value@.skip(start as int) =~= value@.subrange(start as int, end as int));
    while start < end && is_ascii_whitespace(value[end - 1])
        invariant
            start <= end <= value@.len(),
            trimmed(value@, ascii_whitespace()) == trim_end(
                value@.subrange(start as int, end as int),
                ascii_whitespace(),
            ),
        decreases end - start,
    {
        assert(value@.subrange(start as int, end as int).drop_last()
            =~= value@.subrange(start as int, end - 1));
        end -= 1;
    }
    &value[start..end]
}

fn is_ascii_whitespace(byte: u8) -> (result: bool)
    ensures
        result == ascii_whitespace()(byte),
{
    byte == 0x20 || byte == 0x09 || byte == 0x0a || byte == 0x0c || byte == 0x0d
}

/// The first position of `byte` in `text`, or the length of `text` where it does not occur.
pub open spec fn first_index(text: Seq<u8>, byte: u8) -> int
    decreases text.len(),
{
    if text.len() == 0 || text[0] == byte {
        0
    } else {
        1 + first_index(text.skip(1), byte)
    }
}

/// The items of a comma-separated list; there is always at least one.
pub open spec fn comma_items(text: Seq<u8>) -> Seq<Seq<u8>>
    decreases text.len(),
    via comma_items_decreases
{
    let comma = first_index(text, 0x2c);
    if comma < text.len() {
        seq![text.take(comma)] + comma_items(text.skip(comma + 1))
    } else {
        seq![text]
    }
}

#[via_fn]
proof fn comma_items_decreases(text: Seq<u8>) {
    lemma_first_index(text, 0x2c);
}

/// Where `first_index` points and what lies before it.
pub proof fn lemma_first_index(text: Seq<u8>, byte: u8)
    ensures
        0 <= first_index(text, byte) <= text.len(),
        forall|i: int| 0 <= i < first_index(text, byte) ==> #[trigger] text[i] != byte,
        first_index(text, byte) < text.len() ==> text[first_index(text, byte)] == byte,
    decreases text.len(),
{
    if text.len() > 0 && text[0] != byte {
        lemma_first_index(text.skip(1), byte);
        let rest = first_index(text.skip(1), byte);
        assert forall|i: int| 0 <= i < first_index(text, byte) implies #[trigger] text[i]
            != byte by {
            if i > 0 {
                assert(text.skip(1)[i - 1] == text[i]);
            }
        }
    }
}

/// The position described by `first_index` is the only one with its properties.
pub proof fn lemma_first_index_unique(text: Seq<u8>, byte: u8, at: int)
    requires
        0 <= at <= text.len(),
        forall|i: int| 0 <= i < at ==> #[trigger] text[i] != byte,
        at < text.len() ==> text[at] == byte,
    ensures
        first_index(text, byte) == at,
{
    lemma_first_index(text, byte);
    let found = first_index(text, byte);
    if found < at {
        assert(text[found] != byte);
    } else if at < found {
        assert(text[at] != byte);
    }
}

/// Finds `byte` in `value[from..]`; returns the length of `value` where it does not occur.
pub fn find_byte(value: &[u8], byte: u8, from: usize) -> (result: usize)
    requires
        from <= value@.len(),
    ensures
        from <= result <= value@.len(),
        result == from + first_index(value@.skip(from as int), byte),
{
    let mut at: usize = from;
    while at < value.len() && value[at] != byte
        invariant
            from <= at <= value@.len(),
            forall|i: int| from <= i < at ==> #[trigger] value@[i] != byte,
        decreases value@.len() - at,
    {
        at += 1;
    }
    proof {
        lemma_first_index_unique(value@.skip(from as int), byte, at - from);
    }
    at
}

/// Splits a comma-separated list into its items.
pub fn split_commas<'a>(value: &'a [u8]) -> (result: Vec<&'a [u8]>)
    ensures
        result@.len() == comma_items(value@).len(),
        forall|i: int| 0 <= i < result@.len() ==> (#[trigger] result@[i])@ == comma_items(value@)[i],
{
    let mut items: Vec<&'a [u8]> = Vec::new();
    let mut start: usize = 0;
    assert(value@.skip(0) =~= value@);
    loop
        invariant_except_break
            start <= value@.len(),
            comma_items(value@) == Seq::new(items@.len(), |i: int| items@[i]@) + comma_items(
                value@.skip(start as int),
            ),
        ensures
            comma_items(value@) == Seq::new(items@.len(), |i: int| items@[i]@),
        decreases value@.len() - start,
    {
        let ghost before = items@;
        let ghost rest = value@.skip(start as int);
        let comma: usize = find_byte(value, 0x2c, start);
        items.push(&value[start..comma]);
        assert(Seq::new(items@.len(), |i: int| items@[i]@) =~= Seq::new(
            before.len(),
            |i: int| before[i]@,
        ).push(value@.subrange(start as int, comma as int)));
        if comma >= value.len() {
            assert(rest =~= value@.subrange(start as int, comma as int));
            assert(comma_items(rest) =~= seq![rest]);
            assert(comma_items(value@) =~= Seq::new(items@.len(), |i: int| items@[i]@));
            break;
        }
        assert(rest.take(comma - start) =~= value@.subrange(start as int, comma as int));
        assert(rest.skip(comma - start + 1) =~= value@.skip(comma + 1));
        assert(comma_items(value@) =~= Seq::new(items@.len(), |i: int| items@[i]@) + comma_items(
            value@.skip(comma + 1),
        ));
        start = comma + 1;
    }
    proof {
        assert forall|i: int| 0 <= i < items@.len() implies (#[trigger] items@[i])@ == comma_items(
            value@,
        )[i] by {
            assert(comma_items(value@)[i] == items@[i]@);
        }
    }
    items
}

/// A comma-separated list always has a first item.
pub proof fn lemma_comma_items_nonempty(text: Seq<u8>)
    ensures
        comma_items(text).len() > 0,
{
}

/// Bytes that may occur in a header field name or connection option.
pub open spec fn is_token_byte(byte: u8) -> bool {
    ||| 0x30 <= byte <= 0x39
    ||| 0x41 <= byte <= 0x5a
    ||| 0x61 <= byte <= 0x7a
    ||| byte == 0x21
    ||| 0x23 <= byte <= 0x27
    ||| byte == 0x2a
    ||| byte == 0x2b
    ||| byte == 0x2d
    ||| byte == 0x2e
    ||| byte == 0x5e
    ||| byte == 0x5f
    ||| byte == 0x60
    ||| byte == 0x7c
    ||| byte == 0x7e
}

/// A nonempty run of token bytes.
pub open spec fn is_token(text: Seq<u8>) -> bool {
    &&& text.len() > 0
    &&& forall|i: int| 0 <= i < text.len() ==> is_token_byte(#[trigger] text[i])
}

/// Reports whether `value` is a nonempty run of token bytes.
pub fn check_token(value: &[u8]) -> (result: bool)
    ensures
        result == is_token(value@),
{
    let mut i: usize = 0;
    while i < value.len()
        invariant
            i <= value@.len(),
            forall|j: int| 0 <= j < i ==> is_token_byte(#[trigger] value@[j]),
        decreases value@.len() - i,
    {
        let byte: u8 = value[i];
        let accepted = (0x30 <= byte && byte <= 0x39) || (0x41 <= byte && byte <= 0x5a) || (0x61
            <= byte && byte <= 0x7a) || byte == 0x21 || (0x23 <= byte && byte <= 0x27) || byte
            == 0x2a || byte == 0x2b || byte == 0x2d || byte == 0x2e || byte == 0x5e || byte == 0x5f
            || byte == 0x60 || byte == 0x7c || byte == 0x7e;
        if !accepted {
            return false;
        }
        i += 1;
    }
    value.len() > 0
}

/// An ASCII decimal digit.
pub open spec fn is_digit(byte: u8) -> bool {
    0x30 <= byte <= 0x39
}

/// A nonempty run of decimal digits.
pub open spec fn is_number(text: Seq<u8>) -> bool {
    &&& text.len() > 0
    &&& forall|i: int| 0 <= i < text.len() ==> is_digit(#[trigger] text[i])
}

/// The number that a run of decimal digits denotes.
pub open spec fn decimal_value(text: Seq<u8>) -> nat
    decreases text.len(),
{
    if text.len() == 0 {
        0
    } else {
        decimal_value(text.drop_last()) * 10 + (text.last() - 0x30) as nat
    }
}

/// The number that a run of decimal digits denotes, where it fits.
pub fn parse_decimal(value: &[u8]) -> (result: Option<usize>)
    requires
        is_number(value@),
    ensures
        result matches Some(number) ==> number == decimal_value(value@),
        result is None <==> decimal_value(value@) > usize::MAX,
{
    let mut total: usize = 0;
    let mut i: usize = 0;
    assert(value@.take(0) =~= Seq::<u8>::empty());
    while i < value.len()
        invariant
            is_number(value@),
            i <= value@.len(),
            total == decimal_value(value@.take(i as int)),
        decreases value@.len() - i,
    {
        assert(value@.take(i + 1).drop_last() =~= value@.take(i as int));
        assert(is_digit(value@[i as int]));
        let digit: usize = (value[i] - 0x30) as usize;
        let scaled = match total.checked_mul(10) {
            Some(scaled) => scaled,
            None => {
                proof {
                    lemma_decimal_value_grows(value@, i + 1);
                }
                return None;
            },
        };
        total = match scaled.checked_add(digit) {
            Some(sum) => sum,
            None => {
                proof {
                    lemma_decimal_value_grows(value@, i + 1);
                }
                return None;
            },
        };
        i += 1;
    }
    assert(value@.take(i as int) =~= value@);
    Some(total)
}

proof fn lemma_decimal_value_grows(text: Seq<u8>, end: int)
    requires
        is_number(text),
        0 <= end <= text.len(),
    ensures
        decimal_value(text.take(end)) <= decimal_value(text),
    decreases text.len() - end,
{
    if end < text.len() {
        lemma_decimal_value_grows(text, end + 1);
        assert(text.take(end + 1).drop_last() =~= text.take(end));
        assert(is_digit(text[end]));
    } else {
        assert(text.take(end) =~= text);
    }
}

/// The decimal digits of a number, without leading zeros.
pub open spec fn decimal(number: nat) -> Seq<char>
    decreases number,
{
    let digit = seq![(0x30 + number % 10) as char];
    if number < 10 {
        digit
    } else {
        decimal(number / 10) + digit
    }
}

fn digit_text(digit: usize) -> (result: &'static str)
    requires
        digit < 10,
    ensures
        result@ == seq![(0x30 + digit) as char],
{
    proof {
        reveal_strlit("0");
        reveal_strlit("1");
        reveal_strlit("2");
        reveal_strlit("3");
        reveal_strlit("4");
        reveal_strlit("5");
        reveal_strlit("6");
        reveal_strlit("7");
        reveal_strlit("8");
        reveal_strlit("9");
    }
    match digit {
        0 => "0",
        1 => "1",
        2 => "2",
        3 => "3",
        4 => "4",
        5 => "5",
        6 => "6",
        7 => "7",
        8 => "8",
        _ => "9",
    }
}

/// Appends the decimal digits of `number` to `output`.
pub fn append_decimal(output: &mut String, number: usize)
    ensures
        final(output)@ == old(output)@ + decimal(number as nat),
    decreases number,
{
    if number >= 10 {
        append_decimal(output, number / 10);
    }
    output.append(digit_text(number % 10));
    proof {
        assert(output@ =~= old(output)@ + decimal(number as nat));
    }
}

proof fn lemma_decimal_is_ascii(number: nat)
    ensures
        decimal(number).len() > 0,
        forall|i: int|
            0 <= i < decimal(number).len() ==> 0x30 <= (#[trigger] decimal(number)[i]) as int
                <= 0x39,
    decreases number,
{
    if number >= 10 {
        lemma_decimal_is_ascii(number / 10);
    }
}

/// Reading the decimal digits of a number gives the number back.
pub proof fn lemma_decimal_round_trips(number: nat)
    ensures
        is_number(wire(decimal(number))),
        decimal_value(wire(decimal(number))) == number,
        wire(decimal(number)).len() == decimal(number).len(),
        forall|i: int|
            0 <= i < decimal(number).len() ==> (#[trigger] wire(decimal(number))[i]) as int
                == decimal(number)[i] as int,
    decreases number,
{
    broadcast use vstd::utf8::is_ascii_chars_encode_utf8;

    let text = decimal(number);
    lemma_decimal_is_ascii(number);
    assert(vstd::utf8::is_ascii_chars(text));
    let bytes = wire(text);
    if number < 10 {
        assert(bytes.drop_last() =~= Seq::<u8>::empty());
        reveal_with_fuel(decimal_value, 2);
    } else {
        let front = decimal(number / 10);
        lemma_decimal_is_ascii(number / 10);
        lemma_decimal_round_trips(number / 10);
        assert(vstd::utf8::is_ascii_chars(front));
        assert(bytes.drop_last() =~= wire(front));
    }
}

/// A further digit counts ten times less than what stands before it, and the digits run from `0` to
/// `9`.
pub proof fn lemma_digits_count_tenfold(text: Seq<u8>, digit: u8)
    requires
        digit < 10,
    ensures
        is_digit((0x30 + digit) as u8),
        decimal_value(Seq::<u8>::empty()) == 0,
        decimal_value(text.push((0x30 + digit) as u8)) == 10 * decimal_value(text) + digit,
{
    let longer = text.push((0x30 + digit) as u8);
    assert(longer.drop_last() =~= text);
}

/// Two bytes are the same up to case exactly when they are equal or one is the upper-case form of the
/// other, which is a letter.
pub proof fn lemma_only_the_case_of_letters_is_ignored(left: u8, right: u8)
    ensures
        same_ignoring_case(seq![left], seq![right]) <==> (left == right || (0x41 <= left <= 0x5a
            && right == left + 0x20) || (0x41 <= right <= 0x5a && left == right + 0x20)),
{
    let one = seq![left];
    let other = seq![right];
    assert(one[0] == left && other[0] == right);
}

/// A text with a number between two fixed parts.
pub open spec fn counted(before: Seq<char>, number: nat, after: Seq<char>) -> Seq<char> {
    before + decimal(number) + after
}

/// Builds a text with a number between two fixed parts.
pub fn counted_text(before: &str, number: usize, after: &str) -> (result: String)
    ensures
        result@ == counted(before@, number as nat, after@),
{
    let mut text = String::new();
    text.append(before);
    append_decimal(&mut text, number);
    text.append(after);
    proof {
        assert(text@ =~= counted(before@, number as nat, after@));
    }
    text
}

} // verus!
