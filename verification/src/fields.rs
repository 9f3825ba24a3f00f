//! Header field values that decide framing and connection persistence, and the errors they raise.

use crate::text::{
    ascii_whitespace, check_token, comma_items, counted, counted_text, decimal_value,
    eq_ignore_ascii_case, is_digit, is_number, is_token, ows, parse_decimal, same_ignoring_case,
    split_commas, trim_ascii_whitespace, trim_ows, trimmed, wire,
};
use crate::types::{
    limit_error, plain_error, transport_error, Error, ErrorKind, ErrorView, Header, HeaderView,
    LimitKind, TransportStage,
};
use vstd::prelude::*;
use vstd::string::*;

verus! {

/// A violation of HTTP framing.
pub open spec fn http_failure(message: Seq<char>) -> ErrorView {
    transport_error(TransportStage::Http, message)
}

/// A violation of HTTP framing.
pub fn http_error(message: &str) -> (result: Error)
    ensures
        result@ == http_failure(message@),
{
    Error::transport(TransportStage::Http, message)
}

/// The request head has more bytes of header fields than `limit`.
pub open spec fn request_bytes_exceeded(limit: nat) -> ErrorView {
    limit_error(
        LimitKind::RequestHeaderBytes,
        counted("request headers exceed the configured "@, limit, " byte limit"@),
    )
}

pub fn request_header_bytes_limit(limit: usize) -> (result: Error)
    ensures
        result@ == request_bytes_exceeded(limit as nat),
{
    let message = counted_text("request headers exceed the configured ", limit, " byte limit");
    Error::limit(LimitKind::RequestHeaderBytes, message.as_str())
}

/// The request head has more header fields than `limit`.
pub open spec fn request_count_exceeded(limit: nat) -> ErrorView {
    limit_error(
        LimitKind::RequestHeaderCount,
        counted("request headers exceed the configured "@, limit, " field limit"@),
    )
}

pub fn request_header_count_limit(limit: usize) -> (result: Error)
    ensures
        result@ == request_count_exceeded(limit as nat),
{
    let message = counted_text("request headers exceed the configured ", limit, " field limit");
    Error::limit(LimitKind::RequestHeaderCount, message.as_str())
}

/// The response has more header fields than `limit`.
pub open spec fn response_count_exceeded(limit: nat) -> ErrorView {
    limit_error(
        LimitKind::ResponseHeaderCount,
        counted("response headers exceed the configured "@, limit, " field limit"@),
    )
}

pub fn response_header_count_limit(limit: usize) -> (result: Error)
    ensures
        result@ == response_count_exceeded(limit as nat),
{
    let message = counted_text("response headers exceed the configured ", limit, " field limit");
    Error::limit(LimitKind::ResponseHeaderCount, message.as_str())
}

/// The response body has more bytes than `limit`.
pub open spec fn response_body_exceeded(limit: nat) -> ErrorView {
    limit_error(
        LimitKind::ResponseBodyBytes,
        counted("response body exceeds the configured "@, limit, " byte limit"@),
    )
}

pub fn response_body_limit(limit: usize) -> (result: Error)
    ensures
        result@ == response_body_exceeded(limit as nat),
{
    let message = counted_text("response body exceeds the configured ", limit, " byte limit");
    Error::limit(LimitKind::ResponseBodyBytes, message.as_str())
}

/// Whether a field has the given name, up to the case of ASCII letters.
pub open spec fn is_named(header: HeaderView, name: Seq<char>) -> bool {
    same_ignoring_case(wire(header.name), wire(name))
}

/// Whether a field has the given name, up to the case of ASCII letters.
pub fn has_name(header: &Header, name: &str) -> (result: bool)
    ensures
        result == is_named(header@, name@),
{
    eq_ignore_ascii_case(header.name().as_bytes(), name.as_bytes())
}

/// What the `Connection` fields of a request ask for.
#[derive(Clone, Copy, Debug, PartialEq, Eq, Structural)]
pub enum ConnectionPolicy {
    KeepAlive,
    Close,
}

/// The options of a `Connection` field value.
pub open spec fn connection_options(value: Seq<u8>) -> Seq<Seq<u8>> {
    comma_items(value).map_values(|item: Seq<u8>| trimmed(item, ascii_whitespace()))
}

/// Every option of a `Connection` field value is a token.
pub open spec fn options_are_tokens(value: Seq<u8>) -> bool {
    forall|i: int| 0 <= i < connection_options(value).len() ==> is_token(#[trigger] connection_options(value)[i])
}

/// Some option of a `Connection` field value is `name`.
pub open spec fn has_option(value: Seq<u8>, name: Seq<char>) -> bool {
    exists|i: int|
        0 <= i < connection_options(value).len() && same_ignoring_case(
            #[trigger] connection_options(value)[i],
            wire(name),
        )
}

/// Some option of a `Connection` field value is not `name`.
pub open spec fn has_option_besides(value: Seq<u8>, name: Seq<char>) -> bool {
    exists|i: int|
        0 <= i < connection_options(value).len() && !same_ignoring_case(
            #[trigger] connection_options(value)[i],
            wire(name),
        )
}

/// What one `Connection` field of a request asks for: persistence only where `keep-alive` is all
/// that it names.
pub open spec fn connection_policy(value: Seq<u8>) -> Result<ConnectionPolicy, ErrorView> {
    if !options_are_tokens(value) {
        Err(
            plain_error(
                ErrorKind::InvalidRequest,
                "request Connection header contains an invalid token"@,
            ),
        )
    } else if has_option_besides(value, "keep-alive"@) {
        Ok(ConnectionPolicy::Close)
    } else {
        Ok(ConnectionPolicy::KeepAlive)
    }
}

pub fn parse_connection_policy(value: &[u8]) -> (result: Result<ConnectionPolicy, Error>)
    ensures
        match result {
            Ok(policy) => connection_policy(value@) == Ok::<ConnectionPolicy, ErrorView>(policy),
            Err(error) => connection_policy(value@) == Err::<ConnectionPolicy, ErrorView>(error@),
        },
{
    let items = split_commas(value);
    let ghost options = connection_options(value@);
    let mut reusable = true;
    let mut i: usize = 0;
    while i < items.len()
        invariant
            i <= items@.len(),
            items@.len() == comma_items(value@).len(),
            forall|j: int| 0 <= j < items@.len() ==> (#[trigger] items@[j])@ == comma_items(value@)[j],
            options == connection_options(value@),
            forall|j: int| 0 <= j < i ==> is_token(#[trigger] options[j]),
            reusable <==> (forall|j: int|
                0 <= j < i ==> same_ignoring_case(#[trigger] options[j], wire("keep-alive"@))),
        decreases items@.len() - i,
    {
        let token = trim_ascii_whitespace(items[i]);
        assert(token@ == options[i as int]);
        if !check_token(token) {
            return Err(
                Error::new(
                    ErrorKind::InvalidRequest,
                    "request Connection header contains an invalid token",
                ),
            );
        }
        if !eq_ignore_ascii_case(token, "keep-alive".as_bytes()) {
            reusable = false;
        }
        i += 1;
    }
    Ok(
        if reusable {
            ConnectionPolicy::KeepAlive
        } else {
            ConnectionPolicy::Close
        },
    )
}

/// The length that a list of `Content-Length` items agrees on; the first item that is wrong, too
/// large or at odds with those before it decides the error.
pub open spec fn agreed_length(items: Seq<Seq<u8>>) -> Result<Option<nat>, ErrorView>
    decreases items.len(),
{
    if items.len() == 0 {
        Ok(None)
    } else {
        match agreed_length(items.drop_last()) {
            Err(error) => Err(error),
            Ok(earlier) => {
                let item = trimmed(items.last(), ows());
                if !is_number(item) {
                    Err(http_failure("HTTP Content-Length is invalid"@))
                } else if decimal_value(item) > usize::MAX {
                    Err(http_failure("HTTP Content-Length is too large"@))
                } else if earlier is Some && earlier != Some(decimal_value(item)) {
                    Err(
                        http_failure(
                            "HTTP message contains conflicting Content-Length values"@,
                        ),
                    )
                } else {
                    Ok(Some(decimal_value(item)))
                }
            },
        }
    }
}

/// The length that a `Content-Length` field value denotes.
pub open spec fn content_length(value: Seq<u8>) -> Result<Option<nat>, ErrorView> {
    agreed_length(comma_items(value))
}

proof fn lemma_agreed_length_prefix_error(items: Seq<Seq<u8>>, end: int)
    requires
        0 <= end <= items.len(),
        agreed_length(items.take(end)) is Err,
    ensures
        agreed_length(items) == agreed_length(items.take(end)),
    decreases items.len() - end,
{
    if end < items.len() {
        assert(items.take(end + 1).drop_last() =~= items.take(end));
        lemma_agreed_length_prefix_error(items, end + 1);
    } else {
        assert(items.take(end) =~= items);
    }
}

/// A list with at least one item agrees on some length, if it agrees at all.
pub proof fn lemma_agreed_length_present(items: Seq<Seq<u8>>)
    requires
        items.len() > 0,
    ensures
        agreed_length(items) matches Ok(length) ==> length is Some && length->0 <= usize::MAX,
{
}

fn is_decimal(value: &[u8]) -> (result: bool)
    ensures
        result == is_number(value@),
{
    let mut i: usize = 0;
    while i < value.len()
        invariant
            i <= value@.len(),
            forall|j: int| 0 <= j < i ==> is_digit(#[trigger] value@[j]),
        decreases value@.len() - i,
    {
        if value[i] < 0x30 || value[i] > 0x39 {
            return false;
        }
        i += 1;
    }
    value.len() > 0
}

pub fn parse_content_length_value(value: &[u8]) -> (result: Result<usize, Error>)
    ensures
        match result {
            Ok(length) => content_length(value@) == Ok::<Option<nat>, ErrorView>(
                Some(length as nat),
            ),
            Err(error) => content_length(value@) == Err::<Option<nat>, ErrorView>(error@),
        },
{
    let items = split_commas(value);
    let ghost all = comma_items(value@);
    let mut parsed: Option<usize> = None;
    let mut i: usize = 0;
    assert(all.take(0) =~= Seq::empty());
    while i < items.len()
        invariant
            all == comma_items(value@),
            i <= items@.len(),
            items@.len() == all.len(),
            forall|j: int| 0 <= j < items@.len() ==> (#[trigger] items@[j])@ == all[j],
            i == 0 <==> parsed is None,
            agreed_length(all.take(i as int)) == Ok::<Option<nat>, ErrorView>(
                match parsed {
                    Some(length) => Some(length as nat),
                    None => None,
                },
            ),
        decreases items@.len() - i,
    {
        proof {
            assert(all.take(i + 1).drop_last() =~= all.take(i as int));
            if agreed_length(all.take(i + 1)) is Err {
                lemma_agreed_length_prefix_error(all, i + 1);
            }
        }
        let item = trim_ows(items[i]);
        if !is_decimal(item) {
            return Err(http_error("HTTP Content-Length is invalid"));
        }
        let length = match parse_decimal(item) {
            Some(length) => length,
            None => {
                return Err(http_error("HTTP Content-Length is too large"));
            },
        };
        if let Some(existing) = parsed {
            if existing != length {
                return Err(http_error("HTTP message contains conflicting Content-Length values"));
            }
        }
        parsed = Some(length);
        i += 1;
    }
    assert(all.take(i as int) =~= all);
    match parsed {
        Some(length) => Ok(length),
        None => Err(http_error("HTTP Content-Length is empty")),
    }
}

} // verus!
