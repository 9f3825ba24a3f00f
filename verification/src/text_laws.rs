//! What holds of every header field value: how white space is cut off and lists fall apart.

use crate::fields::is_named;
use crate::text::{
    ascii_whitespace, comma_items, first_index, lemma_first_index_unique, ows, trim_end, trim_start,
    trimmed, wire,
};
use crate::types::HeaderView;
use vstd::prelude::*;

verus! {

/// Every byte of `text` is blank.
pub open spec fn is_all(text: Seq<u8>, blank: spec_fn(u8) -> bool) -> bool {
    forall|i: int| 0 <= i < text.len() ==> blank(#[trigger] text[i])
}

/// `text` has no blank byte at either end.
pub open spec fn is_trim(text: Seq<u8>, blank: spec_fn(u8) -> bool) -> bool {
    text.len() > 0 ==> !blank(text[0]) && !blank(text.last())
}

proof fn lemma_trim_start(before: Seq<u8>, text: Seq<u8>, blank: spec_fn(u8) -> bool)
    requires
        is_all(before, blank),
        text.len() > 0 ==> !blank(text[0]),
    ensures
        trim_start(before + text, blank) == text,
    decreases before.len(),
{
    let whole = before + text;
    if before.len() == 0 {
        assert(whole =~= text);
    } else {
        assert(whole[0] == before[0]);
        assert(whole.skip(1) =~= before.skip(1) + text);
        assert forall|i: int| 0 <= i < before.skip(1).len() implies blank(
            #[trigger] before.skip(1)[i],
        ) by {
            assert(before.skip(1)[i] == before[i + 1]);
        }
        lemma_trim_start(before.skip(1), text, blank);
    }
}

proof fn lemma_trim_end(text: Seq<u8>, after: Seq<u8>, blank: spec_fn(u8) -> bool)
    requires
        is_all(after, blank),
        text.len() > 0 ==> !blank(text.last()),
    ensures
        trim_end(text + after, blank) == text,
    decreases after.len(),
{
    let whole = text + after;
    if after.len() == 0 {
        assert(whole =~= text);
    } else {
        assert(whole.last() == after[after.len() - 1]);
        assert(whole.drop_last() =~= text + after.drop_last());
        assert forall|i: int| 0 <= i < after.drop_last().len() implies blank(
            #[trigger] after.drop_last()[i],
        ) by {
            assert(after.drop_last()[i] == after[i]);
        }
        lemma_trim_end(text, after.drop_last(), blank);
    }
}

/// Cutting off white space leaves exactly what stood between it.
pub proof fn lemma_trimming_leaves_the_middle(
    before: Seq<u8>,
    text: Seq<u8>,
    after: Seq<u8>,
    blank: spec_fn(u8) -> bool,
)
    requires
        is_all(before, blank),
        is_all(after, blank),
        is_trim(text, blank),
    ensures
        trimmed(before + text + after, blank) == text,
{
    let whole = before + text + after;
    if text.len() == 0 {
        assert forall|i: int| 0 <= i < whole.len() implies blank(#[trigger] whole[i]) by {
            if i < before.len() {
                assert(whole[i] == before[i]);
            } else {
                assert(whole[i] == after[i - before.len()]);
            }
        }
        lemma_trim_start(whole, Seq::empty(), blank);
        assert(whole + Seq::<u8>::empty() =~= whole);
        assert(text =~= Seq::<u8>::empty());
    } else {
        assert((text + after)[0] == text[0]);
        lemma_trim_start(before, text + after, blank);
        assert(whole =~= before + (text + after));
        lemma_trim_end(text, after, blank);
    }
}

/// What has no white space at either end is left alone.
pub proof fn lemma_trimming_leaves_trim_text_alone(text: Seq<u8>, blank: spec_fn(u8) -> bool)
    requires
        is_trim(text, blank),
    ensures
        trimmed(text, blank) == text,
{
    lemma_trimming_leaves_the_middle(Seq::empty(), text, Seq::empty(), blank);
    assert(Seq::<u8>::empty() + text + Seq::<u8>::empty() =~= text);
}

/// The items of a list, with a comma between any two of them.
pub open spec fn listed(items: Seq<Seq<u8>>) -> Seq<u8>
    decreases items.len(),
{
    if items.len() == 0 {
        Seq::empty()
    } else if items.len() == 1 {
        items[0]
    } else {
        items[0] + seq![0x2cu8] + listed(items.skip(1))
    }
}

/// A list falls apart into the items that it was put together from.
pub proof fn lemma_lists_fall_apart(items: Seq<Seq<u8>>)
    requires
        items.len() > 0,
        forall|i: int| 0 <= i < items.len() ==> !(#[trigger] items[i]).contains(0x2cu8),
    ensures
        comma_items(listed(items)) == items,
    decreases items.len(),
{
    let text = listed(items);
    let first = items[0];
    if items.len() == 1 {
        assert forall|i: int| 0 <= i < first.len() implies #[trigger] first[i] != 0x2c by {
            assert(first.contains(first[i]));
        }
        lemma_first_index_unique(text, 0x2c, text.len() as int);
        assert(items =~= seq![text]);
    } else {
        let rest = items.skip(1);
        assert forall|i: int| 0 <= i < rest.len() implies !(#[trigger] rest[i]).contains(0x2cu8) by {
            assert(rest[i] == items[i + 1]);
        }
        lemma_lists_fall_apart(rest);
        assert forall|i: int| 0 <= i < first.len() implies #[trigger] text[i] != 0x2c by {
            assert(text[i] == first[i]);
            assert(first.contains(first[i]));
        }
        lemma_first_index_unique(text, 0x2c, first.len() as int);
        assert(first_index(text, 0x2c) == first.len());
        assert(text.take(first.len() as int) =~= first);
        assert(text.skip(first.len() as int + 1) =~= listed(rest));
        assert(seq![first] + rest =~= items);
    }
}

/// A text without a comma is a list of one item.
pub proof fn lemma_one_item(text: Seq<u8>)
    requires
        !text.contains(0x2cu8),
    ensures
        comma_items(text) == seq![text],
{
    lemma_lists_fall_apart(seq![text]);
    assert(listed(seq![text]) == text);
}

/// A field has a name exactly where the two are equally long and differ in nothing but the case of
/// letters.
pub proof fn lemma_fields_are_named_up_to_case(header: HeaderView, name: Seq<char>)
    ensures
        is_named(header, name) <==> wire(header.name).len() == wire(name).len() && forall|i: int|
            0 <= i < wire(name).len() ==> {
                let left = wire(header.name)[i];
                let right = #[trigger] wire(name)[i];
                left == right || (0x41 <= left <= 0x5a && right == left + 0x20) || (0x41 <= right
                    <= 0x5a && left == right + 0x20)
            },
{
    let one = wire(header.name);
    let other = wire(name);
    if is_named(header, name) {
        assert forall|i: int| 0 <= i < other.len() implies {
            let left = one[i];
            let right = #[trigger] other[i];
            left == right || (0x41 <= left <= 0x5a && right == left + 0x20) || (0x41 <= right
                <= 0x5a && left == right + 0x20)
        } by {
            assert(crate::text::lower(one[i]) == crate::text::lower(other[i]));
        }
    }
    if one.len() == other.len() && forall|i: int|
        0 <= i < other.len() ==> {
            let left = one[i];
            let right = #[trigger] other[i];
            left == right || (0x41 <= left <= 0x5a && right == left + 0x20) || (0x41 <= right
                <= 0x5a && left == right + 0x20)
        } {
        assert forall|i: int| 0 <= i < one.len() implies crate::text::lower(#[trigger] one[i])
            == crate::text::lower(other[i]) by {
            assert(other[i] == other[i]);
        }
    }
}

/// The white space around items is spaces and tabs; around options of a connection and around a
/// location it is also line ends and form feeds.
pub proof fn lemma_white_space(byte: u8)
    ensures
        ows()(byte) <==> byte == 0x20 || byte == 0x09,
        ascii_whitespace()(byte) <==> byte == 0x20 || byte == 0x09 || byte == 0x0a || byte == 0x0c
            || byte == 0x0d,
{
}

} // verus!
