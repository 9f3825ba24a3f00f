//! Response heads and trailer sections.
//!
//! `httparse` recognizes the syntax; the rules on status, framing, persistence and limits are here.

use crate::chunk::crlf;
use crate::fields::{
    connection_options, content_length, has_name, has_option, has_option_besides, http_error,
    http_failure, is_named, options_are_tokens, parse_content_length_value, response_body_exceeded,
    response_body_limit, response_count_exceeded, response_header_count_limit,
};
use crate::text::{
    check_token, comma_items, eq_ignore_ascii_case, is_token, ows, same_ignoring_case, split_commas,
    trim_ascii_whitespace, trim_ows, trimmed, wire,
};
use crate::types::{
    header_views, plain_error, Error, ErrorKind, ErrorView, Header, HeaderView, HttpLimits,
};
use vstd::prelude::*;
use vstd::string::*;

verus! {

/// How many header slots the first pass over a response head uses.
pub const FIRST_PASS_HEADER_SLOTS: usize = 32;

/// What became of a buffer that should hold a response head.
pub enum HeadParse {
    Complete { consumed: usize, version: Option<u8>, code: Option<u16>, headers: Vec<Header> },
    Partial,
    TooManyHeaders,
    Malformed(String),
}

/// What a [`HeadParse`] holds.
#[verifier::ext_equal]
pub enum HeadParseView {
    Complete { consumed: nat, version: Option<u8>, code: Option<u16>, headers: Seq<HeaderView> },
    Partial,
    TooManyHeaders,
    Malformed(Seq<char>),
}

impl View for HeadParse {
    type V = HeadParseView;

    open spec fn view(&self) -> HeadParseView {
        match self {
            HeadParse::Complete { consumed, version, code, headers } => HeadParseView::Complete {
                consumed: *consumed as nat,
                version: *version,
                code: *code,
                headers: header_views(headers@),
            },
            HeadParse::Partial => HeadParseView::Partial,
            HeadParse::TooManyHeaders => HeadParseView::TooManyHeaders,
            HeadParse::Malformed(message) => HeadParseView::Malformed(message@),
        }
    }
}

/// What `httparse` makes of a response head, given a number of header slots.
pub uninterp spec fn response_parse(bytes: Seq<u8>, slots: nat) -> HeadParseView;

/// Calls `httparse::Response::parse` with `slots` header slots.
///
/// Claimed of it: the outcome depends on the bytes and the number of slots alone. An outcome that
/// does not run out of slots is the same with more of them, and a buffer never holds more header
/// fields than bytes. Which bytes parse to what is left unsaid.
#[verifier::external_body]
pub(crate) fn parse_head_syntax(bytes: &[u8], slots: usize) -> (result: HeadParse)
    requires
        slots <= bytes@.len(),
    ensures
        result@ == response_parse(bytes@, slots as nat),
        !(result@ is TooManyHeaders) ==> forall|more: nat|
            slots <= more ==> #[trigger] response_parse(bytes@, more) == result@,
        slots >= bytes@.len() ==> !(result@ is TooManyHeaders),
{
    let mut storage = vec![httparse::EMPTY_HEADER; slots];
    let mut parsed = httparse::Response::new(&mut storage);
    match parsed.parse(bytes) {
        Ok(httparse::Status::Complete(consumed)) => HeadParse::Complete {
            consumed,
            version: parsed.version,
            code: parsed.code,
            headers: parsed.headers.iter().map(|h| Header::new(h.name, h.value.to_vec())).collect(),
        },
        Ok(httparse::Status::Partial) => HeadParse::Partial,
        Err(httparse::Error::TooManyHeaders) => HeadParse::TooManyHeaders,
        Err(error) => HeadParse::Malformed(error.to_string()),
    }
}

/// What became of a buffer that should hold a trailer section.
pub enum TrailerParse {
    Complete { consumed: usize, headers: Vec<Header> },
    Partial,
    TooManyHeaders,
    Malformed(String),
}

/// What a [`TrailerParse`] holds.
#[verifier::ext_equal]
pub enum TrailerParseView {
    Complete { consumed: nat, headers: Seq<HeaderView> },
    Partial,
    TooManyHeaders,
    Malformed(Seq<char>),
}

impl View for TrailerParse {
    type V = TrailerParseView;

    open spec fn view(&self) -> TrailerParseView {
        match self {
            TrailerParse::Complete { consumed, headers } => TrailerParseView::Complete {
                consumed: *consumed as nat,
                headers: header_views(headers@),
            },
            TrailerParse::Partial => TrailerParseView::Partial,
            TrailerParse::TooManyHeaders => TrailerParseView::TooManyHeaders,
            TrailerParse::Malformed(message) => TrailerParseView::Malformed(message@),
        }
    }
}

/// What `httparse` makes of a header section, given a number of header slots.
pub uninterp spec fn fields_parse(bytes: Seq<u8>, slots: nat) -> TrailerParseView;

/// What becomes of a trailer section: the bare line end is an empty section, and everything else is
/// as `httparse` has it.
pub open spec fn trailer_parse(bytes: Seq<u8>, slots: nat) -> TrailerParseView {
    if bytes == crlf() {
        TrailerParseView::Complete { consumed: 2, headers: Seq::empty() }
    } else {
        fields_parse(bytes, slots)
    }
}

/// Calls `httparse::parse_headers` with `slots` header slots.
///
/// Claimed of it: a bare line end is a complete, empty section. Otherwise the outcome depends on
/// the bytes and the number of slots alone; an outcome that does not run out of slots is the same
/// with more of them, and a buffer never holds more header fields than bytes. Which other bytes
/// parse to what is left unsaid.
#[verifier::external_body]
pub(crate) fn parse_trailer_syntax(bytes: &[u8], slots: usize) -> (result: TrailerParse)
    requires
        slots <= bytes@.len(),
    ensures
        bytes@ == crlf() ==> result@ == (TrailerParseView::Complete {
            consumed: 2,
            headers: Seq::empty(),
        }),
        bytes@ != crlf() ==> result@ == fields_parse(bytes@, slots as nat),
        bytes@ != crlf() && !(result@ is TooManyHeaders) ==> forall|more: nat|
            slots <= more ==> #[trigger] fields_parse(bytes@, more) == result@,
        slots >= bytes@.len() ==> !(result@ is TooManyHeaders),
{
    let mut storage = vec![httparse::EMPTY_HEADER; slots];
    match httparse::parse_headers(bytes, &mut storage) {
        Ok(httparse::Status::Complete((consumed, headers))) => TrailerParse::Complete {
            consumed,
            headers: headers.iter().map(|h| Header::new(h.name, h.value.to_vec())).collect(),
        },
        Ok(httparse::Status::Partial) => TrailerParse::Partial,
        Err(httparse::Error::TooManyHeaders) => TrailerParse::TooManyHeaders,
        Err(error) => TrailerParse::Malformed(error.to_string()),
    }
}

/// How the body of a response is delimited.
#[derive(Clone, Copy, Debug, PartialEq, Eq, Structural)]
pub enum BodyFraming {
    NoBody,
    Fixed(usize),
    Chunked,
    CloseDelimited,
}

/// What a response head announces.
#[derive(Debug)]
pub enum ParsedHead {
    Informational,
    Final { status: u16, headers: Vec<Header>, framing: BodyFraming, permits_reuse: bool },
}

/// What a [`ParsedHead`] holds.
#[verifier::ext_equal]
pub enum ParsedHeadView {
    Informational,
    Final { status: u16, headers: Seq<HeaderView>, framing: BodyFraming, permits_reuse: bool },
}

impl View for ParsedHead {
    type V = ParsedHeadView;

    open spec fn view(&self) -> ParsedHeadView {
        match self {
            ParsedHead::Informational => ParsedHeadView::Informational,
            ParsedHead::Final { status, headers, framing, permits_reuse } => ParsedHeadView::Final {
                status: *status,
                headers: header_views(headers@),
                framing: *framing,
                permits_reuse: *permits_reuse,
            },
        }
    }
}

/// The accepted parts of a response head.
#[derive(Debug)]
pub struct ParsedResponseParts {
    pub version: u8,
    pub status: u16,
    pub headers: Vec<Header>,
}

/// What [`ParsedResponseParts`] hold.
#[verifier::ext_equal]
pub struct PartsView {
    pub version: u8,
    pub status: u16,
    pub headers: Seq<HeaderView>,
}

impl View for ParsedResponseParts {
    type V = PartsView;

    open spec fn view(&self) -> PartsView {
        PartsView { version: self.version, status: self.status, headers: header_views(self.headers@) }
    }
}

/// Why a response head was not accepted.
#[derive(Debug)]
pub enum ResponseHeadParseError {
    TooManyHeaders,
    Invalid(Error),
}

/// What a [`ResponseHeadParseError`] says.
#[verifier::ext_equal]
pub enum PartsErrorView {
    TooManyHeaders,
    Invalid(ErrorView),
}

impl View for ResponseHeadParseError {
    type V = PartsErrorView;

    open spec fn view(&self) -> PartsErrorView {
        match self {
            ResponseHeadParseError::TooManyHeaders => PartsErrorView::TooManyHeaders,
            ResponseHeadParseError::Invalid(error) => PartsErrorView::Invalid(error@),
        }
    }
}

/// The parts that are accepted from a parsed head of `length` bytes.
pub open spec fn accepted_parts(parse: HeadParseView, length: nat) -> Result<
    PartsView,
    PartsErrorView,
> {
    match parse {
        HeadParseView::Partial => Err(
            PartsErrorView::Invalid(http_failure("HTTP response head ended prematurely"@)),
        ),
        HeadParseView::TooManyHeaders => Err(PartsErrorView::TooManyHeaders),
        HeadParseView::Malformed(message) => Err(
            PartsErrorView::Invalid(
                http_failure("HTTP response head is malformed: "@ + message),
            ),
        ),
        HeadParseView::Complete { consumed, version, code, headers } => if consumed != length {
            Err(PartsErrorView::Invalid(http_failure("HTTP response head has trailing bytes"@)))
        } else if version is None {
            Err(PartsErrorView::Invalid(http_failure("HTTP response has no version"@)))
        } else if version->0 > 1 {
            Err(PartsErrorView::Invalid(http_failure("HTTP response version is unsupported"@)))
        } else if code is None || code->0 < 100 || code->0 > 599 {
            Err(PartsErrorView::Invalid(http_failure("HTTP response status is invalid"@)))
        } else {
            Ok(
                PartsView {
                    version: version->0,
                    status: code->0,
                    headers: if code->0 < 200 {
                        Seq::empty()
                    } else {
                        headers
                    },
                },
            )
        },
    }
}

/// Accepts the parts of a parsed head of `length` bytes. The fields of an informational head are
/// dropped.
pub fn accept_parts(parse: HeadParse, length: usize) -> (result: Result<
    ParsedResponseParts,
    ResponseHeadParseError,
>)
    ensures
        match result {
            Ok(parts) => accepted_parts(parse@, length as nat) == Ok::<PartsView, PartsErrorView>(
                parts@,
            ),
            Err(error) => accepted_parts(parse@, length as nat) == Err::<PartsView, PartsErrorView>(
                error@,
            ),
        },
{
    let (consumed, version, code, headers) = match parse {
        HeadParse::Complete { consumed, version, code, headers } => (
            consumed,
            version,
            code,
            headers,
        ),
        HeadParse::Partial => {
            return Err(
                ResponseHeadParseError::Invalid(
                    http_error("HTTP response head ended prematurely"),
                ),
            );
        },
        HeadParse::TooManyHeaders => {
            return Err(ResponseHeadParseError::TooManyHeaders);
        },
        HeadParse::Malformed(message) => {
            let mut text = "HTTP response head is malformed: ".to_owned();
            text.append(message.as_str());
            return Err(ResponseHeadParseError::Invalid(http_error(text.as_str())));
        },
    };
    if consumed != length {
        return Err(
            ResponseHeadParseError::Invalid(http_error("HTTP response head has trailing bytes")),
        );
    }
    let version = match version {
        Some(version) => version,
        None => {
            return Err(
                ResponseHeadParseError::Invalid(http_error("HTTP response has no version")),
            );
        },
    };
    if version > 1 {
        return Err(
            ResponseHeadParseError::Invalid(http_error("HTTP response version is unsupported")),
        );
    }
    let status = match code {
        Some(status) => status,
        None => {
            return Err(
                ResponseHeadParseError::Invalid(http_error("HTTP response status is invalid")),
            );
        },
    };
    if status < 100 || status > 599 {
        return Err(
            ResponseHeadParseError::Invalid(http_error("HTTP response status is invalid")),
        );
    }
    let headers = if status < 200 {
        Vec::new()
    } else {
        headers
    };
    assert(status < 200 ==> header_views(headers@) =~= Seq::empty());
    Ok(ParsedResponseParts { version, status, headers })
}

/// Parses a response head with `slots` header slots.
pub fn parse_response_parts(bytes: &[u8], slots: usize) -> (result: Result<
    ParsedResponseParts,
    ResponseHeadParseError,
>)
    requires
        slots <= bytes@.len(),
    ensures
        match result {
            Ok(parts) => accepted_parts(response_parse(bytes@, slots as nat), bytes@.len()) == Ok::<
                PartsView,
                PartsErrorView,
            >(parts@),
            Err(error) => accepted_parts(response_parse(bytes@, slots as nat), bytes@.len())
                == Err::<PartsView, PartsErrorView>(error@),
        },
        !(response_parse(bytes@, slots as nat) is TooManyHeaders) ==> forall|more: nat|
            slots <= more ==> #[trigger] response_parse(bytes@, more) == response_parse(
                bytes@,
                slots as nat,
            ),
        slots >= bytes@.len() ==> !(response_parse(bytes@, slots as nat) is TooManyHeaders),
{
    let parse = parse_head_syntax(bytes, slots);
    accept_parts(parse, bytes.len())
}

/// Some `Connection` field names an option that is not a token.
pub open spec fn has_bad_connection_option(headers: Seq<HeaderView>) -> bool {
    exists|i: int|
        0 <= i < headers.len() && is_named(#[trigger] headers[i], "connection"@)
            && !options_are_tokens(headers[i].value)
}

/// Some `Connection` field names the option `name`.
pub open spec fn names_connection_option(headers: Seq<HeaderView>, name: Seq<char>) -> bool {
    exists|i: int|
        0 <= i < headers.len() && is_named(#[trigger] headers[i], "connection"@) && has_option(
            headers[i].value,
            name,
        )
}

/// Some `Connection` field names an option other than `name`.
pub open spec fn names_connection_option_besides(
    headers: Seq<HeaderView>,
    name: Seq<char>,
) -> bool {
    exists|i: int|
        0 <= i < headers.len() && is_named(#[trigger] headers[i], "connection"@)
            && has_option_besides(headers[i].value, name)
}

/// Whether the connection can carry another exchange after a response: its body must end by
/// itself, nothing but `keep-alive` may be asked for, and HTTP/1.0 must ask for it.
pub open spec fn permits_reuse(
    version: u8,
    headers: Seq<HeaderView>,
    framing: BodyFraming,
) -> Result<bool, ErrorView> {
    if framing is CloseDelimited {
        Ok(false)
    } else if has_bad_connection_option(headers) {
        Err(http_failure("HTTP response Connection header contains an invalid token"@))
    } else {
        Ok(
            !names_connection_option_besides(headers, "keep-alive"@) && (version == 1
                || names_connection_option(headers, "keep-alive"@)),
        )
    }
}

/// What the options of one `Connection` field value say.
struct OptionScan {
    valid: bool,
    keep_alive: bool,
    other: bool,
}

fn scan_connection_options(value: &[u8]) -> (result: OptionScan)
    ensures
        result.valid == options_are_tokens(value@),
        result.valid ==> result.keep_alive == has_option(value@, "keep-alive"@),
        result.valid ==> result.other == has_option_besides(value@, "keep-alive"@),
{
    let items = split_commas(value);
    let ghost options = connection_options(value@);
    let mut keep_alive = false;
    let mut other = false;
    let mut i: usize = 0;
    while i < items.len()
        invariant
            i <= items@.len(),
            items@.len() == comma_items(value@).len(),
            forall|j: int| 0 <= j < items@.len() ==> (#[trigger] items@[j])@ == comma_items(value@)[j],
            options == connection_options(value@),
            forall|j: int| 0 <= j < i ==> is_token(#[trigger] options[j]),
            keep_alive <==> (exists|j: int|
                0 <= j < i && same_ignoring_case(#[trigger] options[j], wire("keep-alive"@))),
            other <==> (exists|j: int|
                0 <= j < i && !same_ignoring_case(#[trigger] options[j], wire("keep-alive"@))),
        decreases items@.len() - i,
    {
        let token = trim_ascii_whitespace(items[i]);
        assert(token@ == options[i as int]);
        if !check_token(token) {
            return OptionScan { valid: false, keep_alive, other };
        }
        if eq_ignore_ascii_case(token, "keep-alive".as_bytes()) {
            keep_alive = true;
        } else {
            other = true;
        }
        i += 1;
    }
    OptionScan { valid: true, keep_alive, other }
}

/// Whether the connection can carry another exchange after a response.
pub fn response_permits_reuse(version: u8, headers: &[Header], framing: BodyFraming) -> (result:
    Result<bool, Error>)
    ensures
        match result {
            Ok(reuse) => permits_reuse(version, header_views(headers@), framing) == Ok::<
                bool,
                ErrorView,
            >(reuse),
            Err(error) => permits_reuse(version, header_views(headers@), framing) == Err::<
                bool,
                ErrorView,
            >(error@),
        },
{
    if let BodyFraming::CloseDelimited = framing {
        return Ok(false);
    }
    let ghost views = header_views(headers@);
    let mut keep_alive = false;
    let mut other = false;
    let mut i: usize = 0;
    while i < headers.len()
        invariant
            !(framing is CloseDelimited),
            views == header_views(headers@),
            i <= headers@.len(),
            forall|j: int|
                0 <= j < i && is_named(#[trigger] views[j], "connection"@) ==> options_are_tokens(
                    views[j].value,
                ),
            keep_alive <==> (exists|j: int|
                0 <= j < i && is_named(#[trigger] views[j], "connection"@) && has_option(
                    views[j].value,
                    "keep-alive"@,
                )),
            other <==> (exists|j: int|
                0 <= j < i && is_named(#[trigger] views[j], "connection"@) && has_option_besides(
                    views[j].value,
                    "keep-alive"@,
                )),
        decreases headers@.len() - i,
    {
        assert(views[i as int] == headers@[i as int]@);
        if has_name(&headers[i], "connection") {
            let scan = scan_connection_options(headers[i].value());
            if !scan.valid {
                return Err(http_error("HTTP response Connection header contains an invalid token"));
            }
            keep_alive = keep_alive || scan.keep_alive;
            other = other || scan.other;
        }
        i += 1;
    }
    Ok(!other && (version == 1 || keep_alive))
}

/// The length that the `Content-Length` fields of a response declare.
pub open spec fn declared_length(headers: Seq<HeaderView>) -> Result<Option<nat>, ErrorView>
    decreases headers.len(),
{
    if headers.len() == 0 {
        Ok(None)
    } else {
        match declared_length(headers.drop_last()) {
            Err(error) => Err(error),
            Ok(earlier) => if !is_named(headers.last(), "content-length"@) {
                Ok(earlier)
            } else {
                match content_length(headers.last().value) {
                    Err(error) => Err(error),
                    Ok(length) => if earlier is Some && earlier != length {
                        Err(
                            http_failure(
                                "HTTP response contains conflicting Content-Length values"@,
                            ),
                        )
                    } else {
                        Ok(length)
                    },
                }
            },
        }
    }
}

proof fn lemma_declared_length_prefix_error(headers: Seq<HeaderView>, end: int)
    requires
        0 <= end <= headers.len(),
        declared_length(headers.take(end)) is Err,
    ensures
        declared_length(headers) == declared_length(headers.take(end)),
    decreases headers.len() - end,
{
    if end < headers.len() {
        assert(headers.take(end + 1).drop_last() =~= headers.take(end));
        lemma_declared_length_prefix_error(headers, end + 1);
    } else {
        assert(headers.take(end) =~= headers);
    }
}

/// The length that the `Content-Length` fields of a response declare.
pub fn response_content_length(headers: &[Header]) -> (result: Result<Option<usize>, Error>)
    ensures
        match result {
            Ok(length) => declared_length(header_views(headers@)) == Ok::<Option<nat>, ErrorView>(
                match length {
                    Some(length) => Some(length as nat),
                    None => None,
                },
            ),
            Err(error) => declared_length(header_views(headers@)) == Err::<Option<nat>, ErrorView>(
                error@,
            ),
        },
{
    let ghost views = header_views(headers@);
    let mut length: Option<usize> = None;
    let mut i: usize = 0;
    assert(views.take(0) =~= Seq::empty());
    while i < headers.len()
        invariant
            views == header_views(headers@),
            i <= headers@.len(),
            declared_length(views.take(i as int)) == Ok::<Option<nat>, ErrorView>(
                match length {
                    Some(length) => Some(length as nat),
                    None => None,
                },
            ),
        decreases headers@.len() - i,
    {
        proof {
            assert(views[i as int] == headers@[i as int]@);
            assert(views.take(i + 1).drop_last() =~= views.take(i as int));
            if declared_length(views.take(i + 1)) is Err {
                lemma_declared_length_prefix_error(views, i + 1);
            }
        }
        if has_name(&headers[i], "content-length") {
            let parsed = parse_content_length_value(headers[i].value())?;
            if let Some(existing) = length {
                if existing != parsed {
                    return Err(
                        http_error("HTTP response contains conflicting Content-Length values"),
                    );
                }
            }
            length = Some(parsed);
        }
        i += 1;
    }
    assert(views.take(i as int) =~= views);
    Ok(length)
}

/// The codings that the `Transfer-Encoding` fields of a response list, in order.
pub open spec fn transfer_codings(headers: Seq<HeaderView>) -> Seq<Seq<u8>>
    decreases headers.len(),
{
    if headers.len() == 0 {
        Seq::empty()
    } else {
        let earlier = transfer_codings(headers.drop_last());
        if is_named(headers.last(), "transfer-encoding"@) {
            earlier + comma_items(headers.last().value).map_values(
                |item: Seq<u8>| trimmed(item, ows()),
            )
        } else {
            earlier
        }
    }
}

/// Whether a response is chunked; no other transfer coding is accepted.
pub open spec fn chunked_coding(headers: Seq<HeaderView>) -> Result<bool, ErrorView> {
    let codings = transfer_codings(headers);
    if exists|i: int| 0 <= i < codings.len() && (#[trigger] codings[i]).len() == 0 {
        Err(http_failure("HTTP Transfer-Encoding is invalid"@))
    } else if codings.len() == 0 {
        Ok(false)
    } else if codings.len() == 1 && same_ignoring_case(codings[0], wire("chunked"@)) {
        Ok(true)
    } else {
        Err(http_failure("native HTTP supports only a single chunked transfer coding"@))
    }
}

proof fn lemma_transfer_codings_prefix(headers: Seq<HeaderView>, end: int)
    requires
        0 <= end <= headers.len(),
    ensures
        transfer_codings(headers.take(end)).is_prefix_of(transfer_codings(headers)),
    decreases headers.len() - end,
{
    if end < headers.len() {
        assert(headers.take(end + 1).drop_last() =~= headers.take(end));
        lemma_transfer_codings_prefix(headers, end + 1);
    } else {
        assert(headers.take(end) =~= headers);
    }
}

/// Whether a response is chunked; no other transfer coding is accepted.
pub fn response_transfer_encoding(headers: &[Header]) -> (result: Result<bool, Error>)
    ensures
        match result {
            Ok(chunked) => chunked_coding(header_views(headers@)) == Ok::<bool, ErrorView>(chunked),
            Err(error) => chunked_coding(header_views(headers@)) == Err::<bool, ErrorView>(error@),
        },
{
    let ghost views = header_views(headers@);
    let mut codings: Vec<&[u8]> = Vec::new();
    let mut i: usize = 0;
    assert(views.take(0) =~= Seq::empty());
    while i < headers.len()
        invariant
            views == header_views(headers@),
            i <= headers@.len(),
            codings@.len() == transfer_codings(views.take(i as int)).len(),
            forall|j: int|
                0 <= j < codings@.len() ==> (#[trigger] codings@[j])@ == transfer_codings(
                    views.take(i as int),
                )[j],
            forall|j: int| 0 <= j < codings@.len() ==> (#[trigger] codings@[j])@.len() > 0,
        decreases headers@.len() - i,
    {
        let ghost earlier = transfer_codings(views.take(i as int));
        proof {
            assert(views[i as int] == headers@[i as int]@);
            assert(views.take(i + 1).drop_last() =~= views.take(i as int));
            lemma_transfer_codings_prefix(views, i + 1);
        }
        if has_name(&headers[i], "transfer-encoding") {
            let items = split_commas(headers[i].value());
            let ghost all = transfer_codings(views.take(i + 1));
            let mut k: usize = 0;
            while k < items.len()
                invariant
                    k <= items@.len(),
                    all == earlier + comma_items(headers@[i as int]@.value).map_values(
                        |item: Seq<u8>| trimmed(item, ows()),
                    ),
                    all.is_prefix_of(transfer_codings(views)),
                    views == header_views(headers@),
                    items@.len() == comma_items(headers@[i as int]@.value).len(),
                    forall|j: int|
                        0 <= j < items@.len() ==> (#[trigger] items@[j])@ == comma_items(
                            headers@[i as int]@.value,
                        )[j],
                    codings@.len() == earlier.len() + k,
                    forall|j: int| 0 <= j < codings@.len() ==> (#[trigger] codings@[j])@ == all[j],
                    forall|j: int| 0 <= j < codings@.len() ==> (#[trigger] codings@[j])@.len() > 0,
                decreases items@.len() - k,
            {
                let coding = trim_ows(items[k]);
                assert(coding@ == all[earlier.len() + k]);
                if coding.len() == 0 {
                    assert(transfer_codings(views)[earlier.len() + k] == coding@);
                    return Err(http_error("HTTP Transfer-Encoding is invalid"));
                }
                codings.push(coding);
                k += 1;
            }
        }
        i += 1;
    }
    assert(views.take(i as int) =~= views);
    assert forall|j: int| 0 <= j < transfer_codings(views).len() implies (
    #[trigger] transfer_codings(views)[j]).len() > 0 by {
        assert(codings@[j]@ == transfer_codings(views)[j]);
    }
    if codings.len() == 0 {
        return Ok(false);
    }
    assert(codings@[0]@ == transfer_codings(views)[0]);
    if codings.len() != 1 || !eq_ignore_ascii_case(codings[0], "chunked".as_bytes()) {
        return Err(http_error("native HTTP supports only a single chunked transfer coding"));
    }
    Ok(true)
}

/// How the body that follows a final response head is delimited.
pub open spec fn body_framing(
    parts: PartsView,
    response_to_head: bool,
    limits: HttpLimits,
) -> Result<BodyFraming, ErrorView> {
    match declared_length(parts.headers) {
        Err(error) => Err(error),
        Ok(length) => match chunked_coding(parts.headers) {
            Err(error) => Err(error),
            Ok(chunked) => if chunked && length is Some {
                Err(
                    http_failure(
                        "HTTP response contains both Transfer-Encoding and Content-Length"@,
                    ),
                )
            } else if response_to_head || parts.status == 204 || parts.status == 205 || parts.status
                == 304 {
                Ok(BodyFraming::NoBody)
            } else if chunked {
                Ok(BodyFraming::Chunked)
            } else if length is Some {
                if length->0 > limits.body_bytes {
                    Err(response_body_exceeded(limits.body_bytes as nat))
                } else {
                    Ok(BodyFraming::Fixed(length->0 as usize))
                }
            } else {
                Ok(BodyFraming::CloseDelimited)
            },
        },
    }
}

/// What accepted parts announce.
pub open spec fn announced(parts: PartsView, response_to_head: bool, limits: HttpLimits) -> Result<
    ParsedHeadView,
    ErrorView,
> {
    if parts.status < 200 {
        if parts.status == 101 {
            Err(plain_error(ErrorKind::Unsupported, "HTTP protocol switching is not supported"@))
        } else {
            Ok(ParsedHeadView::Informational)
        }
    } else {
        match body_framing(parts, response_to_head, limits) {
            Err(error) => Err(error),
            Ok(framing) => match permits_reuse(parts.version, parts.headers, framing) {
                Err(error) => Err(error),
                Ok(reuse) => Ok(
                    ParsedHeadView::Final {
                        status: parts.status,
                        headers: parts.headers,
                        framing,
                        permits_reuse: reuse,
                    },
                ),
            },
        }
    }
}

/// What a parsed head of `length` bytes announces.
pub open spec fn head_outcome(
    parse: HeadParseView,
    length: nat,
    response_to_head: bool,
    limits: HttpLimits,
) -> Result<ParsedHeadView, ErrorView> {
    match accepted_parts(parse, length) {
        Ok(parts) => announced(parts, response_to_head, limits),
        Err(PartsErrorView::TooManyHeaders) => Err(
            response_count_exceeded(limits.header_count as nat),
        ),
        Err(PartsErrorView::Invalid(error)) => Err(error),
    }
}

/// What the bytes of a response head announce.
pub open spec fn parsed_head(bytes: Seq<u8>, response_to_head: bool, limits: HttpLimits) -> Result<
    ParsedHeadView,
    ErrorView,
> {
    head_outcome(
        response_parse(bytes, limits.header_count as nat),
        bytes.len(),
        response_to_head,
        limits,
    )
}

/// Decides what accepted parts announce: informational heads are told apart, and a final head gets
/// its body framing and its persistence.
pub fn announce(parts: ParsedResponseParts, response_to_head: bool, limits: HttpLimits) -> (result:
    Result<ParsedHead, Error>)
    ensures
        match result {
            Ok(head) => announced(parts@, response_to_head, limits) == Ok::<
                ParsedHeadView,
                ErrorView,
            >(head@),
            Err(error) => announced(parts@, response_to_head, limits) == Err::<
                ParsedHeadView,
                ErrorView,
            >(error@),
        },
{
    let status = parts.status;
    if status < 200 {
        if status == 101 {
            return Err(
                Error::new(ErrorKind::Unsupported, "HTTP protocol switching is not supported"),
            );
        }
        return Ok(ParsedHead::Informational);
    }
    let length = response_content_length(parts.headers.as_slice())?;
    let chunked = response_transfer_encoding(parts.headers.as_slice())?;
    if chunked && length.is_some() {
        return Err(http_error("HTTP response contains both Transfer-Encoding and Content-Length"));
    }
    let framing = if response_to_head || status == 204 || status == 205 || status == 304 {
        BodyFraming::NoBody
    } else if chunked {
        BodyFraming::Chunked
    } else if let Some(length) = length {
        if length > limits.body_bytes {
            return Err(response_body_limit(limits.body_bytes));
        }
        BodyFraming::Fixed(length)
    } else {
        BodyFraming::CloseDelimited
    };
    let permits_reuse = response_permits_reuse(parts.version, parts.headers.as_slice(), framing)?;
    Ok(ParsedHead::Final { status, headers: parts.headers, framing, permits_reuse })
}

/// Parses a response head. A first pass with a few header slots serves most heads; only a head with
/// more fields takes a second pass with as many slots as the limits allow.
pub fn parse_response_head(bytes: &[u8], response_to_head: bool, limits: HttpLimits) -> (result:
    Result<ParsedHead, Error>)
    ensures
        match result {
            Ok(head) => parsed_head(bytes@, response_to_head, limits) == Ok::<
                ParsedHeadView,
                ErrorView,
            >(head@),
            Err(error) => parsed_head(bytes@, response_to_head, limits) == Err::<
                ParsedHeadView,
                ErrorView,
            >(error@),
        },
{
    let usable = slots_within(limits.header_count, bytes.len());
    let first = slots_within(usable, FIRST_PASS_HEADER_SLOTS);
    let parts = match parse_response_parts(bytes, first) {
        Ok(parts) => parts,
        Err(ResponseHeadParseError::TooManyHeaders) => {
            if first < usable {
                match parse_response_parts(bytes, usable) {
                    Ok(parts) => parts,
                    Err(ResponseHeadParseError::TooManyHeaders) => {
                        return Err(response_header_count_limit(limits.header_count));
                    },
                    Err(ResponseHeadParseError::Invalid(error)) => {
                        return Err(error);
                    },
                }
            } else {
                return Err(response_header_count_limit(limits.header_count));
            }
        },
        Err(ResponseHeadParseError::Invalid(error)) => {
            return Err(error);
        },
    };
    announce(parts, response_to_head, limits)
}

fn slots_within(wanted: usize, bound: usize) -> (result: usize)
    ensures
        result <= wanted,
        result <= bound,
        result == wanted || result == bound,
{
    if wanted < bound {
        wanted
    } else {
        bound
    }
}

/// A field that may not occur in a trailer section.
pub open spec fn is_forbidden_trailer(header: HeaderView) -> bool {
    is_named(header, "content-length"@) || is_named(header, "transfer-encoding"@) || is_named(
        header,
        "host"@,
    )
}

/// Some field of a trailer section may not occur there.
pub open spec fn has_forbidden_trailer(headers: Seq<HeaderView>) -> bool {
    exists|i: int| 0 <= i < headers.len() && is_forbidden_trailer(#[trigger] headers[i])
}

/// Whether a parsed trailer section of `length` bytes is acceptable.
pub open spec fn trailers_outcome(
    parse: TrailerParseView,
    length: nat,
    limits: HttpLimits,
) -> Result<(), ErrorView> {
    match parse {
        TrailerParseView::Partial => Err(
            http_failure("HTTP response trailers ended prematurely"@),
        ),
        TrailerParseView::TooManyHeaders => Err(
            response_count_exceeded(limits.header_count as nat),
        ),
        TrailerParseView::Malformed(message) => Err(
            http_failure("HTTP response trailers are malformed: "@ + message),
        ),
        TrailerParseView::Complete { consumed, headers } => if consumed != length {
            Err(http_failure("HTTP response trailers have trailing bytes"@))
        } else if has_forbidden_trailer(headers) {
            Err(http_failure("HTTP response trailers contain a forbidden framing field"@))
        } else {
            Ok(())
        },
    }
}

/// Whether the bytes of a trailer section are acceptable.
pub open spec fn checked_trailers(bytes: Seq<u8>, limits: HttpLimits) -> Result<(), ErrorView> {
    trailers_outcome(trailer_parse(bytes, limits.header_count as nat), bytes.len(), limits)
}

/// Decides whether a parsed trailer section of `length` bytes is acceptable.
pub fn accept_trailers(parse: TrailerParse, length: usize, limits: HttpLimits) -> (result: Result<
    (),
    Error,
>)
    ensures
        match result {
            Ok(_) => trailers_outcome(parse@, length as nat, limits) == Ok::<(), ErrorView>(()),
            Err(error) => trailers_outcome(parse@, length as nat, limits) == Err::<(), ErrorView>(
                error@,
            ),
        },
{
    let (consumed, headers) = match parse {
        TrailerParse::Complete { consumed, headers } => (consumed, headers),
        TrailerParse::Partial => {
            return Err(http_error("HTTP response trailers ended prematurely"));
        },
        TrailerParse::TooManyHeaders => {
            return Err(response_header_count_limit(limits.header_count));
        },
        TrailerParse::Malformed(message) => {
            let mut text = "HTTP response trailers are malformed: ".to_owned();
            text.append(message.as_str());
            return Err(http_error(text.as_str()));
        },
    };
    if consumed != length {
        return Err(http_error("HTTP response trailers have trailing bytes"));
    }
    let ghost views = header_views(headers@);
    let mut i: usize = 0;
    while i < headers.len()
        invariant
            views == header_views(headers@),
            parse@ == (TrailerParseView::Complete { consumed: consumed as nat, headers: views }),
            consumed == length,
            i <= headers@.len(),
            forall|j: int| 0 <= j < i ==> !is_forbidden_trailer(#[trigger] views[j]),
        decreases headers@.len() - i,
    {
        assert(views[i as int] == headers@[i as int]@);
        if has_name(&headers[i], "content-length") || has_name(&headers[i], "transfer-encoding")
            || has_name(&headers[i], "host") {
            assert(is_forbidden_trailer(views[i as int]));
            assert(has_forbidden_trailer(views));
            return Err(http_error("HTTP response trailers contain a forbidden framing field"));
        }
        i += 1;
    }
    Ok(())
}

/// Checks a trailer section; its fields are then dropped.
pub fn validate_trailers(bytes: &[u8], limits: HttpLimits) -> (result: Result<(), Error>)
    ensures
        match result {
            Ok(_) => checked_trailers(bytes@, limits) == Ok::<(), ErrorView>(()),
            Err(error) => checked_trailers(bytes@, limits) == Err::<(), ErrorView>(error@),
        },
{
    let slots = slots_within(limits.header_count, bytes.len());
    let parse = parse_trailer_syntax(bytes, slots);
    accept_trailers(parse, bytes.len(), limits)
}

} // verus!
