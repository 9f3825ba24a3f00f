//! What holds of every response head: which are accepted, how the body is delimited, and whether the
//! connection can be used again.

use crate::fields::{
    agreed_length, connection_options, content_length, has_option, has_option_besides, http_failure,
    is_named, options_are_tokens, response_body_exceeded,
};
use crate::head::{
    accepted_parts, chunked_coding, declared_length, has_bad_connection_option, head_outcome,
    names_connection_option, names_connection_option_besides, parsed_head, response_parse,
    transfer_codings, trailers_outcome, BodyFraming, HeadParseView, ParsedHeadView, PartsErrorView,
    PartsView, TrailerParseView,
};
use crate::text::{
    ascii_whitespace, comma_items, decimal, decimal_value, is_digit, is_number, is_token,
    is_token_byte, lemma_comma_items_nonempty, lemma_decimal_round_trips, ows, same_ignoring_case,
    trimmed, wire,
};
use crate::text_laws::{
    is_trim, lemma_lists_fall_apart, lemma_trimming_leaves_trim_text_alone, listed,
};
use crate::types::{plain_error, ErrorKind, ErrorView, HeaderView, HttpLimits};
use vstd::prelude::*;
use vstd::string::*;

verus! {

/// A head that was recognized as a whole.
pub open spec fn whole_head(
    length: nat,
    version: u8,
    code: Option<u16>,
    headers: Seq<HeaderView>,
) -> HeadParseView {
    HeadParseView::Complete { consumed: length, version: Some(version), code, headers }
}

/// No field has the given name.
pub open spec fn lacks(headers: Seq<HeaderView>, name: Seq<char>) -> bool {
    forall|i: int| 0 <= i < headers.len() ==> !is_named(#[trigger] headers[i], name)
}

/// A response that never has a body: to a HEAD request, or with one of three statuses.
pub open spec fn is_silent(response_to_head: bool, code: u16) -> bool {
    response_to_head || code == 204 || code == 205 || code == 304
}

proof fn lemma_lacks_front(headers: Seq<HeaderView>, name: Seq<char>)
    requires
        lacks(headers, name),
        headers.len() > 0,
    ensures
        lacks(headers.drop_last(), name),
        !is_named(headers.last(), name),
{
    assert(headers.last() == headers[headers.len() - 1]);
    assert forall|i: int| 0 <= i < headers.drop_last().len() implies !is_named(
        #[trigger] headers.drop_last()[i],
        name,
    ) by {
        assert(headers.drop_last()[i] == headers[i]);
    }
}

proof fn lemma_no_length(headers: Seq<HeaderView>)
    requires
        lacks(headers, "content-length"@),
    ensures
        declared_length(headers) == Ok::<Option<nat>, ErrorView>(None),
    decreases headers.len(),
{
    if headers.len() > 0 {
        lemma_lacks_front(headers, "content-length"@);
        lemma_no_length(headers.drop_last());
    }
}

proof fn lemma_no_codings(headers: Seq<HeaderView>)
    requires
        lacks(headers, "transfer-encoding"@),
    ensures
        transfer_codings(headers) == Seq::<Seq<u8>>::empty(),
        chunked_coding(headers) == Ok::<bool, ErrorView>(false),
    decreases headers.len(),
{
    if headers.len() > 0 {
        lemma_lacks_front(headers, "transfer-encoding"@);
        lemma_no_codings(headers.drop_last());
    }
}

proof fn lemma_no_connection(headers: Seq<HeaderView>)
    requires
        lacks(headers, "connection"@),
    ensures
        !has_bad_connection_option(headers),
        !names_connection_option(headers, "keep-alive"@),
        !names_connection_option_besides(headers, "keep-alive"@),
{
}

/// Every status from 200 to 599 makes a head final, with the status and the fields that were sent.
/// Without a field that bears on it, the body ends with the connection, unless there is none; and the
/// connection can then be used again exactly under HTTP/1.1.
pub proof fn lemma_every_final_status_is_accepted(
    bytes: Seq<u8>,
    version: u8,
    code: u16,
    headers: Seq<HeaderView>,
    response_to_head: bool,
    limits: HttpLimits,
)
    requires
        version <= 1,
        200 <= code <= 599,
        lacks(headers, "content-length"@),
        lacks(headers, "transfer-encoding"@),
        lacks(headers, "connection"@),
    ensures
        ({
            let accepted = ParsedHeadView::Final {
                status: code,
                headers,
                framing: if is_silent(response_to_head, code) {
                    BodyFraming::NoBody
                } else {
                    BodyFraming::CloseDelimited
                },
                permits_reuse: is_silent(response_to_head, code) && version == 1,
            };
            let parse = whole_head(bytes.len(), version, Some(code), headers);
            &&& accepted_parts(parse, bytes.len()) == Ok::<PartsView, PartsErrorView>(
                PartsView { version, status: code, headers },
            )
            &&& head_outcome(parse, bytes.len(), response_to_head, limits) == Ok::<
                ParsedHeadView,
                ErrorView,
            >(accepted)
            &&& response_parse(bytes, limits.header_count as nat) == parse ==> parsed_head(
                bytes,
                response_to_head,
                limits,
            ) == Ok::<ParsedHeadView, ErrorView>(accepted)
        }),
{
    lemma_no_length(headers);
    lemma_no_codings(headers);
    lemma_no_connection(headers);
}

/// A status is refused exactly where there is none, or it is below 100 or above 599. What is accepted
/// keeps its status and, from 200 on, its fields.
pub proof fn lemma_statuses_outside_the_range_are_refused(
    length: nat,
    version: u8,
    code: Option<u16>,
    headers: Seq<HeaderView>,
    response_to_head: bool,
    limits: HttpLimits,
)
    requires
        version <= 1,
    ensures
        ({
            let parse = whole_head(length, version, code, headers);
            let refused = http_failure("HTTP response status is invalid"@);
            &&& accepted_parts(parse, length) == Err::<PartsView, PartsErrorView>(
                PartsErrorView::Invalid(refused),
            ) <==> (code matches Some(status) ==> status < 100 || status > 599)
            &&& (code matches Some(status) ==> status < 100 || status > 599) ==> head_outcome(
                parse,
                length,
                response_to_head,
                limits,
            ) == Err::<ParsedHeadView, ErrorView>(refused)
            &&& accepted_parts(parse, length) matches Ok(parts) ==> {
                &&& parts.version == version
                &&& code == Some(parts.status)
                &&& parts.status >= 200 ==> parts.headers == headers
            }
        }),
{
}

/// Heads with other versions, without one, or with bytes behind them are refused.
pub proof fn lemma_only_two_versions_are_accepted(
    parse: HeadParseView,
    length: nat,
    response_to_head: bool,
    limits: HttpLimits,
)
    ensures
        head_outcome(parse, length, response_to_head, limits) is Ok ==> (parse matches HeadParseView::Complete {
            consumed,
            version,
            code,
            ..
        } && consumed == length && (version == Some(0u8) || version == Some(1u8)) && code is Some),
{
}

/// An informational head is passed over, whatever fields it has; only the switch to another protocol
/// is refused.
pub proof fn lemma_informational_statuses_are_passed_over(
    length: nat,
    version: u8,
    code: u16,
    headers: Seq<HeaderView>,
    response_to_head: bool,
    limits: HttpLimits,
)
    requires
        version <= 1,
        100 <= code <= 199,
    ensures
        code != 101 ==> head_outcome(
            whole_head(length, version, Some(code), headers),
            length,
            response_to_head,
            limits,
        ) == Ok::<ParsedHeadView, ErrorView>(ParsedHeadView::Informational),
        code == 101 ==> head_outcome(
            whole_head(length, version, Some(code), headers),
            length,
            response_to_head,
            limits,
        ) == Err::<ParsedHeadView, ErrorView>(
            plain_error(ErrorKind::Unsupported, "HTTP protocol switching is not supported"@),
        ),
{
}

/// A field value says a number, once or several times in a list.
pub open spec fn says_number(value: Seq<u8>, number: nat) -> bool {
    forall|j: int|
        0 <= j < comma_items(value).len() ==> trimmed(#[trigger] comma_items(value)[j], ows())
            == wire(decimal(number))
}

proof fn lemma_agreed(items: Seq<Seq<u8>>, number: nat)
    requires
        number <= usize::MAX,
        forall|j: int|
            0 <= j < items.len() ==> trimmed(#[trigger] items[j], ows()) == wire(decimal(number)),
    ensures
        agreed_length(items) == Ok::<Option<nat>, ErrorView>(
            if items.len() == 0 {
                None
            } else {
                Some(number)
            },
        ),
    decreases items.len(),
{
    if items.len() > 0 {
        lemma_decimal_round_trips(number);
        assert(items.last() == items[items.len() - 1]);
        assert forall|j: int| 0 <= j < items.drop_last().len() implies trimmed(
            #[trigger] items.drop_last()[j],
            ows(),
        ) == wire(decimal(number)) by {
            assert(items.drop_last()[j] == items[j]);
        }
        lemma_agreed(items.drop_last(), number);
    }
}

/// A `Content-Length` value that says one number, as often as it likes, denotes that number.
pub proof fn lemma_lengths_are_read(value: Seq<u8>, number: nat)
    requires
        number <= usize::MAX,
        says_number(value, number),
    ensures
        content_length(value) == Ok::<Option<nat>, ErrorView>(Some(number)),
{
    lemma_comma_items_nonempty(value);
    lemma_agreed(comma_items(value), number);
}

proof fn lemma_agreed_item(items: Seq<Seq<u8>>, j: int)
    requires
        0 <= j < items.len(),
    ensures
        agreed_length(items) matches Ok(length) ==> is_number(trimmed(items[j], ows())) && length
            == Some(decimal_value(trimmed(items[j], ows()))) && length->0 <= usize::MAX,
    decreases items.len(),
{
    if j < items.len() - 1 {
        assert(items.drop_last()[j] == items[j]);
        lemma_agreed_item(items.drop_last(), j);
    }
}

/// A `Content-Length` value is accepted only where each of its items is a number that a machine word
/// holds, and all are the same.
pub proof fn lemma_other_lengths_are_refused(value: Seq<u8>, j: int)
    requires
        0 <= j < comma_items(value).len(),
    ensures
        ({
            let item = trimmed(comma_items(value)[j], ows());
            content_length(value) matches Ok(length) ==> {
                &&& item.len() > 0
                &&& forall|k: int| 0 <= k < item.len() ==> 0x30 <= #[trigger] item[k] <= 0x39
                &&& length == Some(decimal_value(item))
                &&& length->0 <= usize::MAX
            }
        }),
{
    lemma_agreed_item(comma_items(value), j);
    let item = trimmed(comma_items(value)[j], ows());
    if content_length(value) is Ok {
        assert forall|k: int| 0 <= k < item.len() implies 0x30 <= #[trigger] item[k] <= 0x39 by {
            assert(is_digit(item[k]));
        }
    }
}

/// All `Content-Length` fields say one number, and there is such a field.
pub open spec fn says_length(headers: Seq<HeaderView>, number: nat) -> bool {
    &&& !lacks(headers, "content-length"@)
    &&& forall|i: int|
        0 <= i < headers.len() && is_named(#[trigger] headers[i], "content-length"@) ==> says_number(
            headers[i].value,
            number,
        )
}

proof fn lemma_declared(headers: Seq<HeaderView>, number: nat)
    requires
        number <= usize::MAX,
        forall|i: int|
            0 <= i < headers.len() && is_named(#[trigger] headers[i], "content-length"@)
                ==> says_number(headers[i].value, number),
    ensures
        declared_length(headers) == Ok::<Option<nat>, ErrorView>(
            if lacks(headers, "content-length"@) {
                None
            } else {
                Some(number)
            },
        ),
    decreases headers.len(),
{
    if headers.len() > 0 {
        let front = headers.drop_last();
        assert(headers.last() == headers[headers.len() - 1]);
        assert forall|i: int| 0 <= i < front.len() && is_named(
            #[trigger] front[i],
            "content-length"@,
        ) implies says_number(front[i].value, number) by {
            assert(front[i] == headers[i]);
        }
        lemma_declared(front, number);
        if is_named(headers.last(), "content-length"@) {
            lemma_lengths_are_read(headers.last().value, number);
        } else if lacks(front, "content-length"@) {
            assert forall|i: int| 0 <= i < headers.len() implies !is_named(
                #[trigger] headers[i],
                "content-length"@,
            ) by {
                if i < front.len() {
                    assert(front[i] == headers[i]);
                }
            }
        } else {
            let i = choose|i: int|
                0 <= i < front.len() && is_named(#[trigger] front[i], "content-length"@);
            assert(headers[i] == front[i]);
        }
    }
}

/// One `Transfer-Encoding` field lists one coding, `chunked`, and there is no other such field.
pub open spec fn says_chunked(headers: Seq<HeaderView>, at: int) -> bool {
    &&& 0 <= at < headers.len()
    &&& forall|i: int|
        0 <= i < headers.len() ==> (is_named(#[trigger] headers[i], "transfer-encoding"@) <==> i
            == at)
    &&& comma_items(headers[at].value).len() == 1
    &&& same_ignoring_case(trimmed(comma_items(headers[at].value)[0], ows()), wire("chunked"@))
}

proof fn lemma_one_coding(headers: Seq<HeaderView>, at: int)
    requires
        says_chunked(headers, at),
    ensures
        transfer_codings(headers) == seq![trimmed(comma_items(headers[at].value)[0], ows())],
    decreases headers.len(),
{
    let front = headers.drop_last();
    assert(headers.last() == headers[headers.len() - 1]);
    if at == headers.len() - 1 {
        assert forall|i: int| 0 <= i < front.len() implies !is_named(
            #[trigger] front[i],
            "transfer-encoding"@,
        ) by {
            assert(front[i] == headers[i]);
        }
        lemma_no_codings(front);
        assert(transfer_codings(headers) =~= seq![
            trimmed(comma_items(headers[at].value)[0], ows()),
        ]);
    } else {
        assert forall|i: int| 0 <= i < front.len() implies (is_named(
            #[trigger] front[i],
            "transfer-encoding"@,
        ) <==> i == at) by {
            assert(front[i] == headers[i]);
        }
        assert(front[at] == headers[at]);
        lemma_one_coding(front, at);
    }
}

proof fn lemma_chunked(headers: Seq<HeaderView>, at: int)
    requires
        says_chunked(headers, at),
    ensures
        chunked_coding(headers) == Ok::<bool, ErrorView>(true),
{
    broadcast use vstd::utf8::is_ascii_chars_encode_utf8;

    lemma_one_coding(headers, at);
    reveal_strlit("chunked");
    assert(vstd::utf8::is_ascii_chars("chunked"@));
    assert(wire("chunked"@).len() == 7);
}

/// A body whose head says one length is that long, where the limits allow it.
pub proof fn lemma_said_length_delimits_the_body(
    length: nat,
    version: u8,
    code: u16,
    headers: Seq<HeaderView>,
    number: nat,
    response_to_head: bool,
    limits: HttpLimits,
)
    requires
        version <= 1,
        200 <= code <= 599,
        number <= usize::MAX,
        says_length(headers, number),
        lacks(headers, "transfer-encoding"@),
        lacks(headers, "connection"@),
    ensures
        ({
            let outcome = head_outcome(
                whole_head(length, version, Some(code), headers),
                length,
                response_to_head,
                limits,
            );
            &&& is_silent(response_to_head, code) ==> outcome == Ok::<ParsedHeadView, ErrorView>(
                ParsedHeadView::Final {
                    status: code,
                    headers,
                    framing: BodyFraming::NoBody,
                    permits_reuse: version == 1,
                },
            )
            &&& !is_silent(response_to_head, code) && number <= limits.body_bytes ==> outcome == Ok::<
                ParsedHeadView,
                ErrorView,
            >(
                ParsedHeadView::Final {
                    status: code,
                    headers,
                    framing: BodyFraming::Fixed(number as usize),
                    permits_reuse: version == 1,
                },
            )
            &&& !is_silent(response_to_head, code) && number > limits.body_bytes ==> outcome == Err::<
                ParsedHeadView,
                ErrorView,
            >(response_body_exceeded(limits.body_bytes as nat))
        }),
{
    lemma_declared(headers, number);
    lemma_no_codings(headers);
    lemma_no_connection(headers);
}

/// A body whose head says `chunked`, and nothing else, comes in chunks. A head that also says a length
/// is refused.
pub proof fn lemma_said_chunks_delimit_the_body(
    length: nat,
    version: u8,
    code: u16,
    headers: Seq<HeaderView>,
    at: int,
    number: nat,
    response_to_head: bool,
    limits: HttpLimits,
)
    requires
        version <= 1,
        200 <= code <= 599,
        number <= usize::MAX,
        says_chunked(headers, at),
        lacks(headers, "content-length"@) || says_length(headers, number),
        lacks(headers, "connection"@),
    ensures
        ({
            let outcome = head_outcome(
                whole_head(length, version, Some(code), headers),
                length,
                response_to_head,
                limits,
            );
            &&& lacks(headers, "content-length"@) ==> outcome == Ok::<ParsedHeadView, ErrorView>(
                ParsedHeadView::Final {
                    status: code,
                    headers,
                    framing: if is_silent(response_to_head, code) {
                        BodyFraming::NoBody
                    } else {
                        BodyFraming::Chunked
                    },
                    permits_reuse: version == 1,
                },
            )
            &&& !lacks(headers, "content-length"@) ==> outcome is Err
        }),
{
    if lacks(headers, "content-length"@) {
        lemma_no_length(headers);
    } else {
        lemma_declared(headers, number);
    }
    lemma_chunked(headers, at);
    lemma_no_connection(headers);
}

proof fn lemma_codings_remain(headers: Seq<HeaderView>, at: int)
    requires
        0 <= at < headers.len(),
        is_named(headers[at], "transfer-encoding"@),
    ensures
        transfer_codings(headers).len() > 0,
    decreases headers.len(),
{
    let front = headers.drop_last();
    if at < headers.len() - 1 {
        assert(front[at] == headers[at]);
        lemma_codings_remain(front, at);
    } else {
        lemma_comma_items_nonempty(headers[at].value);
    }
}

proof fn lemma_declared_field(headers: Seq<HeaderView>, at: int)
    requires
        0 <= at < headers.len(),
        is_named(headers[at], "content-length"@),
    ensures
        declared_length(headers) matches Ok(length) ==> content_length(headers[at].value) == Ok::<
            Option<nat>,
            ErrorView,
        >(length) && length is Some,
    decreases headers.len(),
{
    let front = headers.drop_last();
    lemma_comma_items_nonempty(headers[at].value);
    if comma_items(headers[at].value).len() > 0 {
        lemma_agreed_item(comma_items(headers[at].value), 0);
    }
    if at < headers.len() - 1 {
        assert(front[at] == headers[at]);
        lemma_declared_field(front, at);
    }
}

/// No head is read in two ways: where a transfer coding is listed, an accepted body is chunked or
/// absent, and where a length is said, an accepted body has that length or is absent.
pub proof fn lemma_framing_fields_are_never_ignored(
    length: nat,
    version: u8,
    code: u16,
    headers: Seq<HeaderView>,
    at: int,
    response_to_head: bool,
    limits: HttpLimits,
)
    requires
        200 <= code,
        0 <= at < headers.len(),
    ensures
        head_outcome(
            whole_head(length, version, Some(code), headers),
            length,
            response_to_head,
            limits,
        ) matches Ok(ParsedHeadView::Final { framing, .. }) ==> {
            &&& is_named(headers[at], "transfer-encoding"@) ==> framing is Chunked || framing is NoBody
            &&& is_named(headers[at], "content-length"@) ==> (framing is NoBody || (framing matches BodyFraming::Fixed(
                said,
            ) && content_length(headers[at].value) == Ok::<Option<nat>, ErrorView>(
                Some(said as nat),
            )))
        },
{
    if is_named(headers[at], "transfer-encoding"@) {
        lemma_codings_remain(headers, at);
    }
    if is_named(headers[at], "content-length"@) {
        lemma_declared_field(headers, at);
    }
}

/// Two `Content-Length` fields that say different numbers are refused.
pub proof fn lemma_conflicting_lengths_are_refused(headers: Seq<HeaderView>, first: int, second: int)
    requires
        0 <= first < headers.len(),
        0 <= second < headers.len(),
        is_named(headers[first], "content-length"@),
        is_named(headers[second], "content-length"@),
        content_length(headers[first].value) != content_length(headers[second].value),
    ensures
        declared_length(headers) is Err,
{
    lemma_declared_field(headers, first);
    lemma_declared_field(headers, second);
}

/// A byte that can stand in a token: a letter, a digit, or one of fifteen signs.
pub proof fn lemma_token_bytes(byte: u8)
    ensures
        is_token(seq![byte]) <==> (0x30 <= byte <= 0x39 || 0x41 <= byte <= 0x5a || 0x61 <= byte
            <= 0x7a || wire("!#$%&'*+-.^_`|~"@).contains(byte)),
{
    broadcast use vstd::utf8::is_ascii_chars_encode_utf8;

    reveal_strlit("!#$%&'*+-.^_`|~");
    assert(vstd::utf8::is_ascii_chars("!#$%&'*+-.^_`|~"@));
    let signs = wire("!#$%&'*+-.^_`|~"@);
    assert(signs =~= seq![
        0x21u8,
        0x23,
        0x24,
        0x25,
        0x26,
        0x27,
        0x2a,
        0x2b,
        0x2d,
        0x2e,
        0x5e,
        0x5f,
        0x60,
        0x7c,
        0x7e,
    ]);
    let one = seq![byte];
    assert(one[0] == byte);
    if is_token(one) {
        assert(is_token_byte(one[0]));
        if signs.contains(byte) {
        } else {
            assert(signs[0] == 0x21);
            assert(signs[1] == 0x23);
            assert(signs[2] == 0x24);
            assert(signs[3] == 0x25);
            assert(signs[4] == 0x26);
            assert(signs[5] == 0x27);
            assert(signs[6] == 0x2a);
            assert(signs[7] == 0x2b);
            assert(signs[8] == 0x2d);
            assert(signs[9] == 0x2e);
            assert(signs[10] == 0x5e);
            assert(signs[11] == 0x5f);
            assert(signs[12] == 0x60);
            assert(signs[13] == 0x7c);
            assert(signs[14] == 0x7e);
        }
    }
}

proof fn lemma_token_stands_alone(token: Seq<u8>)
    requires
        is_token(token),
    ensures
        !token.contains(0x2cu8),
        is_trim(token, ascii_whitespace()),
{
    if token.contains(0x2cu8) {
        let i = choose|i: int| 0 <= i < token.len() && token[i] == 0x2c;
        assert(is_token_byte(token[i]));
    }
    assert(is_token_byte(token[0]));
    assert(is_token_byte(token[token.len() - 1]));
}

proof fn lemma_listed_options(tokens: Seq<Seq<u8>>)
    requires
        tokens.len() > 0,
        forall|i: int| 0 <= i < tokens.len() ==> is_token(#[trigger] tokens[i]),
    ensures
        connection_options(listed(tokens)) == tokens,
{
    assert forall|i: int| 0 <= i < tokens.len() implies !(#[trigger] tokens[i]).contains(0x2cu8)
        && trimmed(tokens[i], ascii_whitespace()) == tokens[i] by {
        lemma_token_stands_alone(tokens[i]);
        lemma_trimming_leaves_trim_text_alone(tokens[i], ascii_whitespace());
    }
    lemma_lists_fall_apart(tokens);
    assert(connection_options(listed(tokens)) =~= tokens);
}

/// A `Connection` field that lists options keeps the connection usable exactly where every option is
/// `keep-alive`: under HTTP/1.0 and HTTP/1.1 alike.
pub proof fn lemma_connection_options_decide_on_reuse(
    length: nat,
    version: u8,
    code: u16,
    headers: Seq<HeaderView>,
    at: int,
    tokens: Seq<Seq<u8>>,
    number: nat,
    response_to_head: bool,
    limits: HttpLimits,
)
    requires
        version <= 1,
        200 <= code <= 599,
        says_length(headers, number),
        number <= limits.body_bytes,
        lacks(headers, "transfer-encoding"@),
        0 <= at < headers.len(),
        forall|i: int|
            0 <= i < headers.len() ==> (is_named(#[trigger] headers[i], "connection"@) <==> i == at),
        tokens.len() > 0,
        forall|i: int| 0 <= i < tokens.len() ==> is_token(#[trigger] tokens[i]),
        headers[at].value == listed(tokens),
    ensures
        head_outcome(
            whole_head(length, version, Some(code), headers),
            length,
            response_to_head,
            limits,
        ) == Ok::<ParsedHeadView, ErrorView>(
            ParsedHeadView::Final {
                status: code,
                headers,
                framing: if is_silent(response_to_head, code) {
                    BodyFraming::NoBody
                } else {
                    BodyFraming::Fixed(number as usize)
                },
                permits_reuse: forall|i: int|
                    0 <= i < tokens.len() ==> same_ignoring_case(
                        #[trigger] tokens[i],
                        wire("keep-alive"@),
                    ),
            },
        ),
{
    let value = headers[at].value;
    lemma_declared(headers, number);
    lemma_no_codings(headers);
    lemma_listed_options(tokens);
    assert(!has_bad_connection_option(headers)) by {
        assert(options_are_tokens(value));
    }
    let kept = forall|i: int|
        0 <= i < tokens.len() ==> same_ignoring_case(#[trigger] tokens[i], wire("keep-alive"@));
    assert(has_option_besides(value, "keep-alive"@) == !kept);
    if kept {
        assert(same_ignoring_case(connection_options(value)[0], wire("keep-alive"@)));
        assert(has_option(value, "keep-alive"@));
        assert(is_named(headers[at], "connection"@));
        assert(names_connection_option(headers, "keep-alive"@));
        assert(!names_connection_option_besides(headers, "keep-alive"@));
    } else {
        assert(is_named(headers[at], "connection"@));
        assert(names_connection_option_besides(headers, "keep-alive"@));
    }
}

/// A trailer section is acceptable exactly where none of its fields is a length, a transfer coding or
/// a host.
pub proof fn lemma_trailers_hold_no_framing(
    length: nat,
    headers: Seq<HeaderView>,
    limits: HttpLimits,
)
    ensures
        trailers_outcome(TrailerParseView::Complete { consumed: length, headers }, length, limits) == Ok::<
            (),
            ErrorView,
        >(()) <==> lacks(headers, "content-length"@) && lacks(headers, "transfer-encoding"@) && lacks(
            headers,
            "host"@,
        ),
{
    if !(lacks(headers, "content-length"@) && lacks(headers, "transfer-encoding"@) && lacks(
        headers,
        "host"@,
    )) {
        let i = choose|i: int|
            0 <= i < headers.len() && (is_named(#[trigger] headers[i], "content-length"@)
                || is_named(headers[i], "transfer-encoding"@) || is_named(headers[i], "host"@));
        assert(crate::head::is_forbidden_trailer(headers[i]));
    }
}

proof fn lemma_codings_of_field(headers: Seq<HeaderView>, at: int)
    requires
        0 <= at < headers.len(),
        is_named(headers[at], "transfer-encoding"@),
    ensures
        ({
            let codings = transfer_codings(headers);
            let items = comma_items(headers[at].value);
            &&& items.len() <= codings.len()
            &&& forall|j: int|
                0 <= j < items.len() ==> codings.contains(trimmed(#[trigger] items[j], ows()))
        }),
    decreases headers.len(),
{
    let front = headers.drop_last();
    let codings = transfer_codings(headers);
    let items = comma_items(headers[at].value);
    if at < headers.len() - 1 {
        assert(front[at] == headers[at]);
        lemma_codings_of_field(front, at);
        let earlier = transfer_codings(front);
        assert forall|j: int| 0 <= j < items.len() implies codings.contains(
            trimmed(#[trigger] items[j], ows()),
        ) by {
            let k = choose|k: int|
                0 <= k < earlier.len() && earlier[k] == trimmed(items[j], ows());
            assert(codings[k] == earlier[k]);
        }
    } else {
        let earlier = transfer_codings(front);
        assert forall|j: int| 0 <= j < items.len() implies codings.contains(
            trimmed(#[trigger] items[j], ows()),
        ) by {
            assert(codings[earlier.len() + j] == trimmed(items[j], ows()));
        }
    }
}

proof fn lemma_codings_of_two_fields(headers: Seq<HeaderView>, first: int, second: int)
    requires
        0 <= first < second < headers.len(),
        is_named(headers[first], "transfer-encoding"@),
        is_named(headers[second], "transfer-encoding"@),
    ensures
        transfer_codings(headers).len() >= 2,
    decreases headers.len(),
{
    let front = headers.drop_last();
    assert(front[first] == headers[first]);
    if second < headers.len() - 1 {
        assert(front[second] == headers[second]);
        lemma_codings_of_two_fields(front, first, second);
    } else {
        lemma_codings_remain(front, first);
        lemma_comma_items_nonempty(headers[second].value);
    }
}

/// A head with a transfer coding is accepted only where `chunked` is the one coding in the one such
/// field.
pub proof fn lemma_other_transfer_codings_are_refused(
    length: nat,
    version: u8,
    code: u16,
    headers: Seq<HeaderView>,
    at: int,
    other: int,
    response_to_head: bool,
    limits: HttpLimits,
)
    requires
        200 <= code,
        0 <= at < headers.len(),
        is_named(headers[at], "transfer-encoding"@),
        0 <= other < headers.len(),
    ensures
        head_outcome(
            whole_head(length, version, Some(code), headers),
            length,
            response_to_head,
            limits,
        ) is Ok ==> {
            &&& comma_items(headers[at].value).len() == 1
            &&& same_ignoring_case(
                trimmed(comma_items(headers[at].value)[0], ows()),
                wire("chunked"@),
            )
            &&& other != at ==> !is_named(headers[other], "transfer-encoding"@)
            &&& lacks(headers, "content-length"@)
        },
{
    lemma_codings_of_field(headers, at);
    lemma_comma_items_nonempty(headers[at].value);
    if other != at && is_named(headers[other], "transfer-encoding"@) {
        if other < at {
            lemma_codings_of_two_fields(headers, other, at);
        } else {
            lemma_codings_of_two_fields(headers, at, other);
        }
    }
    if head_outcome(
        whole_head(length, version, Some(code), headers),
        length,
        response_to_head,
        limits,
    ) is Ok && !lacks(headers, "content-length"@) {
        let i = choose|i: int|
            0 <= i < headers.len() && is_named(#[trigger] headers[i], "content-length"@);
        lemma_declared_field(headers, i);
    }
}

/// One option other than `keep-alive` in any `Connection` field is enough to give the connection up.
pub proof fn lemma_one_option_gives_the_connection_up(
    length: nat,
    version: u8,
    code: u16,
    headers: Seq<HeaderView>,
    at: int,
    tokens: Seq<Seq<u8>>,
    k: int,
    response_to_head: bool,
    limits: HttpLimits,
)
    requires
        200 <= code,
        0 <= at < headers.len(),
        is_named(headers[at], "connection"@),
        forall|i: int| 0 <= i < tokens.len() ==> is_token(#[trigger] tokens[i]),
        headers[at].value == listed(tokens),
        0 <= k < tokens.len(),
        !same_ignoring_case(tokens[k], wire("keep-alive"@)),
    ensures
        head_outcome(
            whole_head(length, version, Some(code), headers),
            length,
            response_to_head,
            limits,
        ) matches Ok(ParsedHeadView::Final { permits_reuse, .. }) ==> !permits_reuse,
{
    lemma_listed_options(tokens);
    assert(connection_options(headers[at].value)[k] == tokens[k]);
    assert(has_option_besides(headers[at].value, "keep-alive"@));
    assert(names_connection_option_besides(headers, "keep-alive"@));
}

/// An error other than that of a status out of range.
spec fn is_another(error: ErrorView) -> bool {
    error != http_failure("HTTP response status is invalid"@)
}

proof fn lemma_framing_errors_are_others(limits: HttpLimits)
    ensures
        is_another(http_failure("HTTP Content-Length is invalid"@)),
        is_another(http_failure("HTTP Content-Length is too large"@)),
        is_another(http_failure("HTTP message contains conflicting Content-Length values"@)),
        is_another(http_failure("HTTP response contains conflicting Content-Length values"@)),
        is_another(http_failure("HTTP Transfer-Encoding is invalid"@)),
        is_another(http_failure("native HTTP supports only a single chunked transfer coding"@)),
        is_another(
            http_failure("HTTP response contains both Transfer-Encoding and Content-Length"@),
        ),
        is_another(http_failure("HTTP response Connection header contains an invalid token"@)),
        is_another(
            plain_error(ErrorKind::Unsupported, "HTTP protocol switching is not supported"@),
        ),
        is_another(response_body_exceeded(limits.body_bytes as nat)),
{
    reveal_strlit("HTTP response status is invalid");
    reveal_strlit("HTTP Content-Length is invalid");
    reveal_strlit("HTTP Content-Length is too large");
    reveal_strlit("HTTP message contains conflicting Content-Length values");
    reveal_strlit("HTTP response contains conflicting Content-Length values");
    reveal_strlit("HTTP Transfer-Encoding is invalid");
    reveal_strlit("native HTTP supports only a single chunked transfer coding");
    reveal_strlit("HTTP response contains both Transfer-Encoding and Content-Length");
    reveal_strlit("HTTP response Connection header contains an invalid token");
    assert("HTTP response status is invalid"@.len() == 31);
    assert("HTTP Content-Length is invalid"@.len() == 30);
    assert("HTTP Content-Length is too large"@.len() == 32);
    assert("HTTP message contains conflicting Content-Length values"@.len() > 31);
    assert("HTTP response contains conflicting Content-Length values"@.len() > 31);
    assert("HTTP Transfer-Encoding is invalid"@.len() == 33);
    assert("native HTTP supports only a single chunked transfer coding"@.len() > 31);
    assert("HTTP response contains both Transfer-Encoding and Content-Length"@.len() > 31);
    assert("HTTP response Connection header contains an invalid token"@.len() > 31);
}

proof fn lemma_length_errors_are_others(items: Seq<Seq<u8>>, limits: HttpLimits)
    ensures
        agreed_length(items) matches Err(error) ==> is_another(error),
    decreases items.len(),
{
    lemma_framing_errors_are_others(limits);
    if items.len() > 0 {
        lemma_length_errors_are_others(items.drop_last(), limits);
    }
}

proof fn lemma_declared_errors_are_others(headers: Seq<HeaderView>, limits: HttpLimits)
    ensures
        declared_length(headers) matches Err(error) ==> is_another(error),
    decreases headers.len(),
{
    lemma_framing_errors_are_others(limits);
    if headers.len() > 0 {
        lemma_declared_errors_are_others(headers.drop_last(), limits);
        lemma_length_errors_are_others(comma_items(headers.last().value), limits);
    }
}

/// The error of an invalid status says what it says: it comes exactly where the status is missing, below
/// 100 or above 599.
pub proof fn lemma_invalid_status_means_just_that(
    length: nat,
    version: u8,
    code: Option<u16>,
    headers: Seq<HeaderView>,
    response_to_head: bool,
    limits: HttpLimits,
)
    requires
        version <= 1,
    ensures
        head_outcome(
            whole_head(length, version, code, headers),
            length,
            response_to_head,
            limits,
        ) == Err::<ParsedHeadView, ErrorView>(http_failure("HTTP response status is invalid"@)) <==> (
        code is None || code->0 < 100 || code->0 > 599),
{
    lemma_framing_errors_are_others(limits);
    lemma_declared_errors_are_others(headers, limits);
}

} // verus!
