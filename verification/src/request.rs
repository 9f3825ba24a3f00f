//! HTTP/1.1 request serialization.
//!
//! A request head is the request line, the caller's fields in their order, and the fields that the
//! caller left out: `Host`, and the one that delimits the body.

use crate::fields::{
    connection_policy, content_length, has_name, is_named, parse_connection_policy,
    parse_content_length_value, request_bytes_exceeded, request_count_exceeded,
    request_header_bytes_limit, request_header_count_limit, ConnectionPolicy,
};
use crate::text::{
    append_decimal, decimal, eq_ignore_ascii_case, find_byte, first_index, same_ignoring_case, wire,
};
use crate::types::{
    copy_bytes, header_views, method_name, method_text, plain_error, Error, ErrorKind, ErrorView,
    Header, HeaderView, HttpLimits, Method, Request, RequestView, UploadFraming,
};
use vstd::prelude::*;
use vstd::string::*;

verus! {

/// The parts of a URL that a request head needs.
pub struct RequestTarget<'url> {
    pub scheme: &'url [u8],
    pub authority: &'url [u8],
    pub path_and_query: Vec<u8>,
}

/// The parts of a URL that a request head needs.
#[verifier::ext_equal]
pub struct TargetView {
    pub scheme: Seq<u8>,
    pub authority: Seq<u8>,
    pub path_and_query: Seq<u8>,
}

impl<'url> View for RequestTarget<'url> {
    type V = TargetView;

    open spec fn view(&self) -> TargetView {
        TargetView {
            scheme: self.scheme@,
            authority: self.authority@,
            path_and_query: self.path_and_query@,
        }
    }
}

/// Whether `://` stands at position `at`.
pub open spec fn separator_at(url: Seq<u8>, at: int) -> bool {
    0 <= at && at + 3 <= url.len() && url[at] == 0x3a && url[at + 1] == 0x2f && url[at + 2] == 0x2f
}

/// The first position of `://`, if there is one.
pub open spec fn scheme_end(url: Seq<u8>) -> Option<int> {
    if exists|at: int| separator_at(url, at) {
        Some(choose|at: int| first_separator_at(url, at))
    } else {
        None
    }
}

/// Whether `at` is the first position of `://`.
pub open spec fn first_separator_at(url: Seq<u8>, at: int) -> bool {
    separator_at(url, at) && forall|earlier: int| earlier < at ==> !separator_at(url, earlier)
}

/// The length of the authority that `rest` starts with: it ends at the first `/`, `?` or `#`.
pub open spec fn authority_len(rest: Seq<u8>) -> int
    decreases rest.len(),
{
    if rest.len() == 0 || rest[0] == 0x2f || rest[0] == 0x3f || rest[0] == 0x23 {
        0
    } else {
        1 + authority_len(rest.skip(1))
    }
}

/// Origin form: the fragment is dropped and the path is at least `/`.
pub open spec fn origin_form(suffix: Seq<u8>) -> Seq<u8> {
    let without_fragment = suffix.take(first_index(suffix, 0x23));
    if without_fragment.len() == 0 || without_fragment[0] == 0x3f {
        seq![0x2fu8] + without_fragment
    } else {
        without_fragment
    }
}

/// Printable ASCII without the space.
pub open spec fn is_visible(text: Seq<u8>) -> bool {
    forall|i: int| 0 <= i < text.len() ==> 0x21 <= #[trigger] text[i] <= 0x7e
}

/// How the bytes of a URL become a request target.
pub open spec fn request_target(url: Seq<u8>) -> Result<TargetView, ErrorView> {
    match scheme_end(url) {
        None => Err(plain_error(ErrorKind::InvalidRequest, "HTTP URL has no scheme separator"@)),
        Some(end) => {
            let rest = url.skip(end + 3);
            let path = origin_form(rest.skip(authority_len(rest)));
            if is_visible(path) {
                Ok(
                    TargetView {
                        scheme: url.take(end),
                        authority: rest.take(authority_len(rest)),
                        path_and_query: path,
                    },
                )
            } else {
                Err(
                    plain_error(
                        ErrorKind::Unsupported,
                        "native HTTP currently requires an ASCII request target without raw spaces"@,
                    ),
                )
            }
        },
    }
}

/// The scheme ends at the first `://`, wherever that is.
pub proof fn lemma_scheme_end(url: Seq<u8>, at: int)
    requires
        first_separator_at(url, at),
    ensures
        scheme_end(url) == Some(at),
{
    assert(separator_at(url, at));
    let chosen = choose|at: int| first_separator_at(url, at);
    assert(first_separator_at(url, chosen));
    if chosen < at {
        assert(!separator_at(url, chosen));
    } else if at < chosen {
        assert(!separator_at(url, at));
    }
}

impl<'url> RequestTarget<'url> {
    /// The scheme and the authority of a URL.
    pub fn split(url: &'url [u8]) -> (result: Option<(&'url [u8], &'url [u8])>)
        ensures
            match result {
                Some((scheme, authority)) => {
                    &&& scheme_end(url@) == Some(scheme@.len() as int)
                    &&& scheme@ == url@.take(scheme@.len() as int)
                    &&& authority@ == url@.skip(scheme@.len() as int + 3).take(
                        authority_len(url@.skip(scheme@.len() as int + 3)),
                    )
                    &&& authority@.len() == authority_len(url@.skip(scheme@.len() as int + 3))
                    &&& scheme@.len() + 3 + authority@.len() <= url@.len()
                },
                None => scheme_end(url@) is None,
            },
    {
        let mut scheme_len: usize = 0;
        let length: usize = url.len();
        while scheme_len < length && !(length - scheme_len >= 3 && url[scheme_len] == 0x3a
            && url[scheme_len + 1] == 0x2f && url[scheme_len + 2] == 0x2f)
            invariant
                length == url@.len(),
                scheme_len <= length,
                forall|at: int| at < scheme_len ==> !separator_at(url@, at),
            decreases length - scheme_len,
        {
            scheme_len += 1;
        }
        if scheme_len == length {
            return None;
        }
        proof {
            lemma_scheme_end(url@, scheme_len as int);
        }
        let rest: &'url [u8] = &url[scheme_len + 3..length];
        assert(rest@ =~= url@.skip(scheme_len + 3));
        let mut authority_end: usize = 0;
        assert(rest@.skip(0) =~= rest@);
        while authority_end < rest.len() && rest[authority_end] != 0x2f && rest[authority_end]
            != 0x3f && rest[authority_end] != 0x23
            invariant
                authority_end <= rest@.len(),
                authority_len(rest@) == authority_end + authority_len(
                    rest@.skip(authority_end as int),
                ),
            decreases rest@.len() - authority_end,
        {
            assert(rest@.skip(authority_end as int).skip(1) =~= rest@.skip(authority_end + 1));
            authority_end += 1;
        }
        let scheme: &'url [u8] = &url[0..scheme_len];
        let authority: &'url [u8] = &rest[0..authority_end];
        assert(scheme@ =~= url@.take(scheme_len as int));
        assert(authority@ =~= rest@.take(authority_end as int));
        Some((scheme, authority))
    }

    /// Splits the bytes of a URL into scheme, authority and origin-form target.
    pub fn parse(url: &'url [u8]) -> (result: Result<Self, Error>)
        ensures
            match result {
                Ok(target) => request_target(url@) == Ok::<TargetView, ErrorView>(target@),
                Err(error) => request_target(url@) == Err::<TargetView, ErrorView>(error@),
            },
    {
        let (scheme, authority) = match RequestTarget::split(url) {
            Some(parts) => parts,
            None => {
                return Err(
                    Error::new(ErrorKind::InvalidRequest, "HTTP URL has no scheme separator"),
                );
            },
        };
        let ghost rest = url@.skip(scheme@.len() as int + 3);
        assert(url.len() <= usize::MAX);
        let suffix_start: usize = scheme.len() + 3 + authority.len();
        let fragment: usize = find_byte(url, 0x23, suffix_start);
        let suffix: &[u8] = &url[suffix_start..fragment];
        proof {
            let whole = rest.skip(authority@.len() as int);
            assert(whole =~= url@.skip(suffix_start as int));
            assert(suffix@ =~= whole.take(first_index(whole, 0x23)));
        }
        let mut path_and_query: Vec<u8> = Vec::new();
        if suffix.len() == 0 || suffix[0] == 0x3f {
            path_and_query.push(0x2f);
        }
        path_and_query.extend_from_slice(suffix);
        assert(path_and_query@ =~= origin_form(rest.skip(authority@.len() as int)));
        if !is_visible_text(path_and_query.as_slice()) {
            return Err(
                Error::new(
                    ErrorKind::Unsupported,
                    "native HTTP currently requires an ASCII request target without raw spaces",
                ),
            );
        }
        Ok(RequestTarget { scheme, authority, path_and_query })
    }
}

fn is_visible_text(text: &[u8]) -> (result: bool)
    ensures
        result == is_visible(text@),
{
    let mut i: usize = 0;
    while i < text.len()
        invariant
            i <= text@.len(),
            forall|j: int| 0 <= j < i ==> 0x21 <= #[trigger] text@[j] <= 0x7e,
        decreases text@.len() - i,
    {
        if text[i] < 0x21 || text[i] > 0x7e {
            return false;
        }
        i += 1;
    }
    true
}

/// A serialized request head, with the body where it is held in memory.
#[derive(Debug)]
pub struct SerializedRequest {
    pub bytes: Vec<u8>,
    pub response_to_head: bool,
    pub permits_reuse: bool,
}

/// What a [`SerializedRequest`] holds.
#[verifier::ext_equal]
pub struct SerializedView {
    pub bytes: Seq<u8>,
    pub response_to_head: bool,
    pub permits_reuse: bool,
}

impl View for SerializedRequest {
    type V = SerializedView;

    open spec fn view(&self) -> SerializedView {
        SerializedView {
            bytes: self.bytes@,
            response_to_head: self.response_to_head,
            permits_reuse: self.permits_reuse,
        }
    }
}

/// What the caller's header fields settle: how many are `Host`, the length that the
/// `Content-Length` fields declare, and what the `Connection` fields ask for.
#[verifier::ext_equal]
pub struct FieldSummary {
    pub host_count: nat,
    pub content_length: Option<nat>,
    pub connection: Option<ConnectionPolicy>,
}

/// The summary after one more field.
pub open spec fn add_field(
    summary: FieldSummary,
    header: HeaderView,
    streamed: bool,
) -> Result<FieldSummary, ErrorView> {
    if is_named(header, "host"@) {
        Ok(FieldSummary { host_count: summary.host_count + 1, ..summary })
    } else if is_named(header, "content-length"@) {
        if streamed {
            Err(
                plain_error(
                    ErrorKind::InvalidRequest,
                    "NBReq generates Content-Length for a streamed upload body"@,
                ),
            )
        } else {
            match content_length(header.value) {
                Err(_) => Err(
                    plain_error(ErrorKind::InvalidRequest, "request Content-Length is invalid"@),
                ),
                Ok(length) => if summary.content_length is Some && summary.content_length
                    != length {
                    Err(
                        plain_error(
                            ErrorKind::InvalidRequest,
                            "request contains conflicting Content-Length values"@,
                        ),
                    )
                } else {
                    Ok(FieldSummary { content_length: length, ..summary })
                },
            }
        }
    } else if is_named(header, "transfer-encoding"@) {
        if streamed {
            Err(
                plain_error(
                    ErrorKind::InvalidRequest,
                    "NBReq generates Transfer-Encoding for a streamed upload body"@,
                ),
            )
        } else {
            Err(
                plain_error(
                    ErrorKind::Unsupported,
                    "buffered native requests do not support Transfer-Encoding"@,
                ),
            )
        }
    } else if is_named(header, "connection"@) {
        match connection_policy(header.value) {
            Err(error) => Err(error),
            Ok(policy) => Ok(
                FieldSummary {
                    connection: Some(
                        if policy is KeepAlive && summary.connection
                            != Some(ConnectionPolicy::Close) {
                            ConnectionPolicy::KeepAlive
                        } else {
                            ConnectionPolicy::Close
                        },
                    ),
                    ..summary
                },
            ),
        }
    } else {
        Ok(summary)
    }
}

/// What a header section settles; the first field that breaks a rule decides the error.
pub open spec fn summarize(headers: Seq<HeaderView>, streamed: bool) -> Result<
    FieldSummary,
    ErrorView,
>
    decreases headers.len(),
{
    if headers.len() == 0 {
        Ok(FieldSummary { host_count: 0, content_length: None, connection: None })
    } else {
        match summarize(headers.drop_last(), streamed) {
            Err(error) => Err(error),
            Ok(summary) => add_field(summary, headers.last(), streamed),
        }
    }
}

/// A header field as bytes: its name and its value.
pub type WireField = (Seq<u8>, Seq<u8>);

/// The caller's fields as bytes.
pub open spec fn caller_fields(headers: Seq<HeaderView>) -> Seq<WireField> {
    headers.map_values(|header: HeaderView| (wire(header.name), header.value))
}

/// The fields that are added to those of the caller.
pub open spec fn generated_fields(
    summary: FieldSummary,
    authority: Seq<u8>,
    body_len: nat,
    upload: Option<UploadFraming>,
) -> Seq<WireField> {
    let host = if summary.host_count == 0 {
        seq![(wire("Host"@), authority)]
    } else {
        Seq::empty()
    };
    let framing = match upload {
        Some(UploadFraming::Fixed(length)) => seq![
            (wire("Content-Length"@), wire(decimal(length as nat))),
        ],
        Some(UploadFraming::Chunked) => seq![(wire("Transfer-Encoding"@), wire("chunked"@))],
        None => if summary.content_length is None && body_len > 0 {
            seq![(wire("Content-Length"@), wire(decimal(body_len)))]
        } else {
            Seq::empty()
        },
    };
    host + framing
}

/// The bytes of one header field line.
pub open spec fn field_line(field: WireField) -> Seq<u8> {
    field.0 + wire(": "@) + field.1 + wire("\r\n"@)
}

/// The bytes of consecutive header field lines.
pub open spec fn field_lines(fields: Seq<WireField>) -> Seq<u8>
    decreases fields.len(),
{
    if fields.len() == 0 {
        Seq::empty()
    } else {
        field_lines(fields.drop_last()) + field_line(fields.last())
    }
}

/// The request line.
pub open spec fn request_line(method: Method, target: Seq<u8>) -> Seq<u8> {
    wire(method_text(method)) + wire(" "@) + target + wire(" HTTP/1.1\r\n"@)
}

/// How a request becomes bytes. Without `upload` the body is the one held in the request.
pub open spec fn serialized(
    request: RequestView,
    limits: HttpLimits,
    upload: Option<UploadFraming>,
) -> Result<SerializedView, ErrorView> {
    if request.rejection is Some {
        Err(request.rejection->0)
    } else {
        match request_target(wire(request.url)) {
            Err(error) => Err(error),
            Ok(target) => if !same_ignoring_case(target.scheme, wire("http"@))
                && !same_ignoring_case(target.scheme, wire("https"@)) {
                Err(
                    plain_error(
                        ErrorKind::Unsupported,
                        "the native HTTP backend permits only HTTP and HTTPS URLs"@,
                    ),
                )
            } else {
                match summarize(request.headers, upload is Some) {
                    Err(error) => Err(error),
                    Ok(summary) => serialized_head(request, target, summary, limits, upload),
                }
            },
        }
    }
}

/// The header fields of a serialized request, in order.
pub open spec fn sent_fields(
    request: RequestView,
    target: TargetView,
    summary: FieldSummary,
    upload: Option<UploadFraming>,
) -> Seq<WireField> {
    caller_fields(request.headers) + generated_fields(
        summary,
        target.authority,
        request.body.len(),
        upload,
    )
}

/// The bytes of a serialized request.
pub open spec fn sent_bytes(
    request: RequestView,
    target: TargetView,
    fields: Seq<WireField>,
    upload: Option<UploadFraming>,
) -> Seq<u8> {
    request_line(request.method, target.path_and_query) + field_lines(fields) + wire("\r\n"@) + (
    if upload is None {
        request.body
    } else {
        Seq::empty()
    })
}

/// How a request whose target and fields are acceptable becomes bytes.
pub open spec fn serialized_head(
    request: RequestView,
    target: TargetView,
    summary: FieldSummary,
    limits: HttpLimits,
    upload: Option<UploadFraming>,
) -> Result<SerializedView, ErrorView> {
    let fields = sent_fields(request, target, summary, upload);
    let bytes = sent_bytes(request, target, fields, upload);
    if summary.host_count > 1 {
        Err(
            plain_error(
                ErrorKind::InvalidRequest,
                "request contains more than one Host header"@,
            ),
        )
    } else if upload is None && summary.content_length is Some && summary.content_length->0
        != request.body.len() {
        Err(
            plain_error(
                ErrorKind::InvalidRequest,
                "request Content-Length does not match the buffered body"@,
            ),
        )
    } else if fields.len() > limits.header_count {
        Err(request_count_exceeded(limits.header_count as nat))
    } else if field_lines(fields).len() > limits.header_bytes || bytes.len() > usize::MAX {
        Err(request_bytes_exceeded(limits.header_bytes as nat))
    } else {
        Ok(
            SerializedView {
                bytes,
                response_to_head: request.method is Head,
                permits_reuse: summary.connection != Some(ConnectionPolicy::Close),
            },
        )
    }
}

/// The length of a header field line, where it fits.
pub fn field_wire_len(name: &[u8], value: &[u8]) -> (result: Option<usize>)
    ensures
        result matches Some(length) ==> length == field_line((name@, value@)).len(),
        result is None <==> field_line((name@, value@)).len() > usize::MAX,
{
    proof {
        lemma_literal_lengths();
    }
    match name.len().checked_add(value.len()) {
        Some(length) => length.checked_add(4),
        None => None,
    }
}

proof fn lemma_literal_lengths()
    ensures
        wire(": "@).len() == 2,
        wire("\r\n"@).len() == 2,
        wire(" "@).len() == 1,
        wire(" HTTP/1.1\r\n"@).len() == 11,
{
    broadcast use vstd::utf8::is_ascii_chars_encode_utf8;

    reveal_strlit(": ");
    reveal_strlit("\r\n");
    reveal_strlit(" ");
    reveal_strlit(" HTTP/1.1\r\n");
    assert(vstd::utf8::is_ascii_chars(": "@));
    assert(vstd::utf8::is_ascii_chars("\r\n"@));
    assert(vstd::utf8::is_ascii_chars(" "@));
    assert(vstd::utf8::is_ascii_chars(" HTTP/1.1\r\n"@));
}

/// Appends a header field line.
pub fn append_header(output: &mut Vec<u8>, name: &[u8], value: &[u8])
    ensures
        final(output)@ == old(output)@ + field_line((name@, value@)),
{
    output.extend_from_slice(name);
    output.extend_from_slice(": ".as_bytes());
    output.extend_from_slice(value);
    output.extend_from_slice("\r\n".as_bytes());
    assert(output@ =~= old(output)@ + field_line((name@, value@)));
}

/// What the caller's fields settle, as the serializer gathers it.
pub struct Gathered {
    pub host_count: usize,
    pub content_length: Option<usize>,
    pub connection: Option<ConnectionPolicy>,
}

impl View for Gathered {
    type V = FieldSummary;

    open spec fn view(&self) -> FieldSummary {
        FieldSummary {
            host_count: self.host_count as nat,
            content_length: match self.content_length {
                Some(length) => Some(length as nat),
                None => None,
            },
            connection: self.connection,
        }
    }
}

proof fn lemma_summarize_prefix_error(headers: Seq<HeaderView>, streamed: bool, end: int)
    requires
        0 <= end <= headers.len(),
        summarize(headers.take(end), streamed) is Err,
    ensures
        summarize(headers, streamed) == summarize(headers.take(end), streamed),
    decreases headers.len() - end,
{
    if end < headers.len() {
        assert(headers.take(end + 1).drop_last() =~= headers.take(end));
        lemma_summarize_prefix_error(headers, streamed, end + 1);
    } else {
        assert(headers.take(end) =~= headers);
    }
}

fn gather_field(gathered: Gathered, header: &Header, streamed: bool) -> (result: Result<
    Gathered,
    Error,
>)
    requires
        gathered.host_count < usize::MAX,
    ensures
        match result {
            Ok(next) => add_field(gathered@, header@, streamed) == Ok::<FieldSummary, ErrorView>(
                next@,
            ) && next.host_count <= gathered.host_count + 1,
            Err(error) => add_field(gathered@, header@, streamed) == Err::<FieldSummary, ErrorView>(
                error@,
            ),
        },
{
    let mut next = gathered;
    if has_name(header, "host") {
        next.host_count = next.host_count + 1;
    } else if has_name(header, "content-length") {
        if streamed {
            return Err(
                Error::new(
                    ErrorKind::InvalidRequest,
                    "NBReq generates Content-Length for a streamed upload body",
                ),
            );
        }
        let parsed = match parse_content_length_value(header.value()) {
            Ok(parsed) => parsed,
            Err(_) => {
                return Err(
                    Error::new(ErrorKind::InvalidRequest, "request Content-Length is invalid"),
                );
            },
        };
        if let Some(existing) = next.content_length {
            if existing != parsed {
                return Err(
                    Error::new(
                        ErrorKind::InvalidRequest,
                        "request contains conflicting Content-Length values",
                    ),
                );
            }
        }
        next.content_length = Some(parsed);
    } else if has_name(header, "transfer-encoding") {
        if streamed {
            return Err(
                Error::new(
                    ErrorKind::InvalidRequest,
                    "NBReq generates Transfer-Encoding for a streamed upload body",
                ),
            );
        }
        return Err(
            Error::new(
                ErrorKind::Unsupported,
                "buffered native requests do not support Transfer-Encoding",
            ),
        );
    } else if has_name(header, "connection") {
        let parsed = parse_connection_policy(header.value())?;
        let settled = match (next.connection, parsed) {
            (None, ConnectionPolicy::KeepAlive) => ConnectionPolicy::KeepAlive,
            (Some(ConnectionPolicy::KeepAlive), ConnectionPolicy::KeepAlive) =>
                ConnectionPolicy::KeepAlive,
            _ => ConnectionPolicy::Close,
        };
        next.connection = Some(settled);
    }
    Ok(next)
}

fn gather_fields(headers: &[Header], streamed: bool) -> (result: Result<Gathered, Error>)
    ensures
        match result {
            Ok(gathered) => summarize(header_views(headers@), streamed) == Ok::<
                FieldSummary,
                ErrorView,
            >(gathered@),
            Err(error) => summarize(header_views(headers@), streamed) == Err::<
                FieldSummary,
                ErrorView,
            >(error@),
        },
{
    let ghost views = header_views(headers@);
    let mut gathered = Gathered { host_count: 0, content_length: None, connection: None };
    let mut i: usize = 0;
    assert(views.take(0) =~= Seq::empty());
    while i < headers.len()
        invariant
            views == header_views(headers@),
            i <= headers@.len(),
            gathered.host_count <= i,
            summarize(views.take(i as int), streamed) == Ok::<FieldSummary, ErrorView>(gathered@),
        decreases headers@.len() - i,
    {
        proof {
            assert(views.take(i + 1).drop_last() =~= views.take(i as int));
            if summarize(views.take(i + 1), streamed) is Err {
                lemma_summarize_prefix_error(views, streamed, i + 1);
            }
        }
        gathered = gather_field(gathered, &headers[i], streamed)?;
        i += 1;
    }
    assert(views.take(i as int) =~= views);
    Ok(gathered)
}

proof fn lemma_field_lines_push(fields: Seq<WireField>, field: WireField)
    ensures
        field_lines(fields.push(field)) == field_lines(fields) + field_line(field),
{
    assert(fields.push(field).drop_last() =~= fields);
}

proof fn lemma_field_lines_concat(left: Seq<WireField>, right: Seq<WireField>)
    ensures
        field_lines(left + right) == field_lines(left) + field_lines(right),
    decreases right.len(),
{
    if right.len() == 0 {
        assert(left + right =~= left);
        assert(field_lines(left) + field_lines(right) =~= field_lines(left));
    } else {
        lemma_field_lines_concat(left, right.drop_last());
        assert((left + right).drop_last() =~= left + right.drop_last());
        assert(field_lines(left + right) =~= field_lines(left) + field_lines(right));
    }
}

/// The length of consecutive field lines, where it fits.
fn lines_len(headers: &[Header]) -> (result: Option<usize>)
    ensures
        result matches Some(length) ==> length == field_lines(
            caller_fields(header_views(headers@)),
        ).len(),
        result is None <==> field_lines(caller_fields(header_views(headers@))).len() > usize::MAX,
{
    let ghost fields = caller_fields(header_views(headers@));
    let mut total: Option<usize> = Some(0);
    let mut i: usize = 0;
    assert(fields.take(0) =~= Seq::empty());
    while i < headers.len()
        invariant
            fields == caller_fields(header_views(headers@)),
            i <= headers@.len(),
            total matches Some(length) ==> length == field_lines(fields.take(i as int)).len(),
            total is None <==> field_lines(fields.take(i as int)).len() > usize::MAX,
        decreases headers@.len() - i,
    {
        proof {
            assert(fields.take(i + 1) =~= fields.take(i as int).push(fields[i as int]));
            lemma_field_lines_push(fields.take(i as int), fields[i as int]);
        }
        let header = &headers[i];
        total = add_line_len(total, header.name().as_bytes(), header.value());
        i += 1;
    }
    assert(fields.take(i as int) =~= fields);
    total
}

/// Adds the length of one more field line, where the sum fits.
fn add_line_len(total: Option<usize>, name: &[u8], value: &[u8]) -> (result: Option<usize>)
    ensures
        match total {
            Some(length) => {
                &&& result matches Some(sum) ==> sum == length + field_line((name@, value@)).len()
                &&& result is None <==> length + field_line((name@, value@)).len() > usize::MAX
            },
            None => result is None,
        },
{
    match (total, field_wire_len(name, value)) {
        (Some(length), Some(line)) => length.checked_add(line),
        _ => None,
    }
}

/// Appends consecutive field lines.
fn append_lines(output: &mut Vec<u8>, headers: &[Header])
    ensures
        final(output)@ == old(output)@ + field_lines(caller_fields(header_views(headers@))),
{
    let ghost fields = caller_fields(header_views(headers@));
    let mut i: usize = 0;
    assert(fields.take(0) =~= Seq::empty());
    assert(output@ =~= old(output)@ + field_lines(fields.take(0)));
    while i < headers.len()
        invariant
            fields == caller_fields(header_views(headers@)),
            i <= headers@.len(),
            output@ == old(output)@ + field_lines(fields.take(i as int)),
        decreases headers@.len() - i,
    {
        proof {
            assert(fields.take(i + 1) =~= fields.take(i as int).push(fields[i as int]));
            lemma_field_lines_push(fields.take(i as int), fields[i as int]);
        }
        let header = &headers[i];
        append_header(output, header.name().as_bytes(), header.value());
        assert(output@ =~= old(output)@ + field_lines(fields.take(i + 1)));
        i += 1;
    }
    assert(fields.take(i as int) =~= fields);
}

/// The fields that are added to those of the caller.
fn generate_fields(
    gathered: &Gathered,
    authority: &[u8],
    body_len: usize,
    upload: Option<UploadFraming>,
) -> (result: Vec<Header>)
    ensures
        caller_fields(header_views(result@)) == generated_fields(
            gathered@,
            authority@,
            body_len as nat,
            upload,
        ),
{
    let mut fields: Vec<Header> = Vec::new();
    if gathered.host_count == 0 {
        fields.push(Header::new("Host", copy_bytes(authority)));
    }
    match upload {
        Some(UploadFraming::Fixed(length)) => {
            fields.push(Header::new("Content-Length", decimal_bytes(length)));
        },
        Some(UploadFraming::Chunked) => {
            fields.push(Header::new("Transfer-Encoding", copy_bytes("chunked".as_bytes())));
        },
        None => {
            if gathered.content_length.is_none() && body_len > 0 {
                fields.push(Header::new("Content-Length", decimal_bytes(body_len)));
            }
        },
    }
    assert(caller_fields(header_views(fields@)) =~= generated_fields(
        gathered@,
        authority@,
        body_len as nat,
        upload,
    ));
    fields
}

fn decimal_bytes(number: usize) -> (result: Vec<u8>)
    ensures
        result@ == wire(decimal(number as nat)),
{
    let mut text = String::new();
    append_decimal(&mut text, number);
    assert(text@ =~= decimal(number as nat));
    copy_bytes(text.as_str().as_bytes())
}

/// Serializes a request with the body that it holds.
pub fn serialize_request(request: &Request, limits: HttpLimits) -> (result: Result<
    SerializedRequest,
    Error,
>)
    ensures
        match result {
            Ok(request_bytes) => serialized(request@, limits, None) == Ok::<
                SerializedView,
                ErrorView,
            >(request_bytes@),
            Err(error) => serialized(request@, limits, None) == Err::<SerializedView, ErrorView>(
                error@,
            ),
        },
{
    serialize_request_with_upload(request, limits, None)
}

/// Serializes a request head, with the body that the request holds unless `upload` says that a
/// separate body follows.
pub fn serialize_request_with_upload(
    request: &Request,
    limits: HttpLimits,
    upload: Option<UploadFraming>,
) -> (result: Result<SerializedRequest, Error>)
    ensures
        match result {
            Ok(request_bytes) => serialized(request@, limits, upload) == Ok::<
                SerializedView,
                ErrorView,
            >(request_bytes@),
            Err(error) => serialized(request@, limits, upload) == Err::<SerializedView, ErrorView>(
                error@,
            ),
        },
{
    request.validate()?;
    let target = RequestTarget::parse(request.url.as_str().as_bytes())?;
    if !eq_ignore_ascii_case(target.scheme, "http".as_bytes()) && !eq_ignore_ascii_case(
        target.scheme,
        "https".as_bytes(),
    ) {
        return Err(
            Error::new(
                ErrorKind::Unsupported,
                "the native HTTP backend permits only HTTP and HTTPS URLs",
            ),
        );
    }
    let gathered = gather_fields(request.headers.as_slice(), upload.is_some())?;
    serialize_head(request, &target, &gathered, limits, upload)
}

/// Writes the request line, the fields, the blank line and the body.
fn write_request<'url>(
    request: &Request,
    target: &RequestTarget<'url>,
    generated: &[Header],
    upload: Option<UploadFraming>,
    capacity: usize,
) -> (result: Vec<u8>)
    ensures
        result@ == sent_bytes(
            request@,
            target@,
            caller_fields(request@.headers) + caller_fields(header_views(generated@)),
            upload,
        ),
{
    let ghost mine = caller_fields(request@.headers);
    let ghost added = caller_fields(header_views(generated@));
    let mut bytes: Vec<u8> = Vec::with_capacity(capacity);
    bytes.extend_from_slice(method_name(&request.method).as_bytes());
    bytes.extend_from_slice(" ".as_bytes());
    bytes.extend_from_slice(target.path_and_query.as_slice());
    bytes.extend_from_slice(" HTTP/1.1\r\n".as_bytes());
    let ghost line = request_line(request@.method, target@.path_and_query);
    assert(bytes@ =~= line);
    append_lines(&mut bytes, request.headers.as_slice());
    append_lines(&mut bytes, generated);
    proof {
        lemma_field_lines_concat(mine, added);
        assert(bytes@ =~= line + field_lines(mine + added));
    }
    bytes.extend_from_slice("\r\n".as_bytes());
    if upload.is_none() {
        bytes.extend_from_slice(request.body.as_slice());
    }
    assert(bytes@ =~= sent_bytes(request@, target@, mine + added, upload));
    bytes
}

/// Serializes a request whose target and fields are acceptable.
fn serialize_head<'url>(
    request: &Request,
    target: &RequestTarget<'url>,
    gathered: &Gathered,
    limits: HttpLimits,
    upload: Option<UploadFraming>,
) -> (result: Result<SerializedRequest, Error>)
    ensures
        match result {
            Ok(request_bytes) => serialized_head(request@, target@, gathered@, limits, upload)
                == Ok::<SerializedView, ErrorView>(request_bytes@),
            Err(error) => serialized_head(request@, target@, gathered@, limits, upload) == Err::<
                SerializedView,
                ErrorView,
            >(error@),
        },
{
    if gathered.host_count > 1 {
        return Err(
            Error::new(
                ErrorKind::InvalidRequest,
                "request contains more than one Host header",
            ),
        );
    }
    if upload.is_none() {
        if let Some(length) = gathered.content_length {
            if length != request.body.len() {
                return Err(
                    Error::new(
                        ErrorKind::InvalidRequest,
                        "request Content-Length does not match the buffered body",
                    ),
                );
            }
        }
    }
    let generated = generate_fields(gathered, target.authority, request.body.len(), upload);
    let ghost mine = caller_fields(request@.headers);
    let ghost added = generated_fields(gathered@, target@.authority, request@.body.len(), upload);
    let ghost fields = sent_fields(request@, target@, gathered@, upload);
    proof {
        lemma_field_lines_concat(mine, added);
        lemma_literal_lengths();
    }
    match request.headers.len().checked_add(generated.len()) {
        Some(field_count) => {
            if field_count > limits.header_count {
                return Err(request_header_count_limit(limits.header_count));
            }
        },
        None => {
            return Err(request_header_count_limit(limits.header_count));
        },
    }
    let header_bytes = match (
        lines_len(request.headers.as_slice()),
        lines_len(generated.as_slice()),
    ) {
        (Some(caller), Some(extra)) => match caller.checked_add(extra) {
            Some(header_bytes) => header_bytes,
            None => {
                return Err(request_header_bytes_limit(limits.header_bytes));
            },
        },
        _ => {
            return Err(request_header_bytes_limit(limits.header_bytes));
        },
    };
    if header_bytes > limits.header_bytes {
        return Err(request_header_bytes_limit(limits.header_bytes));
    }
    let method = method_name(&request.method);
    let body_len: usize = if upload.is_none() {
        request.body.len()
    } else {
        0
    };
    let capacity = match total_len(
        method.as_bytes().len(),
        target.path_and_query.len(),
        header_bytes,
        body_len,
    ) {
        Some(capacity) => capacity,
        None => {
            return Err(request_header_bytes_limit(limits.header_bytes));
        },
    };
    let bytes = write_request(request, target, generated.as_slice(), upload, capacity);
    assert(mine + added =~= fields);
    let response_to_head = match &request.method {
        Method::Head => true,
        _ => false,
    };
    let permits_reuse = match gathered.connection {
        Some(ConnectionPolicy::Close) => false,
        _ => true,
    };
    Ok(SerializedRequest { bytes, response_to_head, permits_reuse })
}

/// The length of a whole request, where it fits.
fn total_len(method: usize, target: usize, lines: usize, body: usize) -> (result: Option<usize>)
    ensures
        result matches Some(total) ==> total == method + 1 + target + 11 + lines + 2 + body,
        result is None <==> method + 1 + target + 11 + lines + 2 + body > usize::MAX,
{
    let line = match method.checked_add(target) {
        Some(line) => line,
        None => {
            return None;
        },
    };
    let line = match line.checked_add(14) {
        Some(line) => line,
        None => {
            return None;
        },
    };
    match line.checked_add(lines) {
        Some(head) => head.checked_add(body),
        None => None,
    }
}

} // verus!
