//! What every request looks like on the wire, byte for byte.

use crate::fields::{
    has_option_besides, is_named, lemma_agreed_length_present, options_are_tokens,
    request_bytes_exceeded, request_count_exceeded, ConnectionPolicy,
};
use crate::head_laws::{lacks, lemma_lengths_are_read, says_number};
use crate::request::{
    caller_fields, field_lines, generated_fields, request_target, sent_bytes, sent_fields,
    serialized, summarize, FieldSummary, SerializedView, TargetView, WireField,
};
use crate::text::{comma_items, decimal, lemma_comma_items_nonempty, same_ignoring_case, wire};
use crate::types::{
    method_text, ErrorView, HeaderView, HttpLimits, Method, RequestView, UploadFraming,
};
use vstd::prelude::*;
use vstd::string::*;

verus! {

/// The line of a header field: its name, a colon and a space, its value, a line end.
pub open spec fn line_of(field: WireField) -> Seq<u8> {
    field.0 + seq![0x3au8, 0x20] + field.1 + seq![0x0du8, 0x0a]
}

/// The lines of header fields, in order.
pub open spec fn lines_of(fields: Seq<WireField>) -> Seq<u8>
    decreases fields.len(),
{
    if fields.len() == 0 {
        Seq::empty()
    } else {
        lines_of(fields.drop_last()) + line_of(fields.last())
    }
}

/// The field that names the host, where the caller did not.
pub open spec fn own_host(request: RequestView, authority: Seq<u8>) -> Seq<WireField> {
    if lacks(request.headers, "host"@) {
        seq![(wire("Host"@), authority)]
    } else {
        Seq::empty()
    }
}

/// The field that says how long the body is, where there is one and the caller did not say so.
pub open spec fn own_length(request: RequestView, upload: Option<UploadFraming>) -> Seq<WireField> {
    match upload {
        Some(UploadFraming::Fixed(length)) => seq![
            (wire("Content-Length"@), wire(decimal(length as nat))),
        ],
        Some(UploadFraming::Chunked) => seq![(wire("Transfer-Encoding"@), wire("chunked"@))],
        None => if lacks(request.headers, "content-length"@) && request.body.len() > 0 {
            seq![(wire("Content-Length"@), wire(decimal(request.body.len())))]
        } else {
            Seq::empty()
        },
    }
}

/// Some `Connection` field asks for something other than persistence.
pub open spec fn asks_to_close(headers: Seq<HeaderView>) -> bool {
    exists|i: int|
        0 <= i < headers.len() && is_named(#[trigger] headers[i], "connection"@)
            && has_option_besides(headers[i].value, "keep-alive"@)
}

proof fn lemma_lines(fields: Seq<WireField>)
    ensures
        field_lines(fields) == lines_of(fields),
        wire("\r\n"@) == seq![0x0du8, 0x0a],
        wire(" "@) == seq![0x20u8],
    decreases fields.len(),
{
    broadcast use vstd::utf8::is_ascii_chars_encode_utf8;

    reveal_strlit(": ");
    reveal_strlit("\r\n");
    reveal_strlit(" ");
    assert(vstd::utf8::is_ascii_chars(": "@));
    assert(vstd::utf8::is_ascii_chars("\r\n"@));
    assert(vstd::utf8::is_ascii_chars(" "@));
    assert(wire(": "@) =~= seq![0x3au8, 0x20]);
    assert(wire("\r\n"@) =~= seq![0x0du8, 0x0a]);
    assert(wire(" "@) =~= seq![0x20u8]);
    if fields.len() > 0 {
        lemma_lines(fields.drop_last());
    }
}

proof fn lemma_special_names_differ(header: HeaderView)
    ensures
        is_named(header, "host"@) ==> !is_named(header, "content-length"@) && !is_named(
            header,
            "connection"@,
        ) && !is_named(header, "transfer-encoding"@),
        is_named(header, "content-length"@) ==> !is_named(header, "connection"@) && !is_named(
            header,
            "transfer-encoding"@,
        ),
        is_named(header, "transfer-encoding"@) ==> !is_named(header, "connection"@),
{
    broadcast use vstd::utf8::is_ascii_chars_encode_utf8;

    reveal_strlit("host");
    reveal_strlit("content-length");
    reveal_strlit("connection");
    reveal_strlit("transfer-encoding");
    assert(vstd::utf8::is_ascii_chars("host"@));
    assert(vstd::utf8::is_ascii_chars("content-length"@));
    assert(vstd::utf8::is_ascii_chars("connection"@));
    assert(vstd::utf8::is_ascii_chars("transfer-encoding"@));
    assert(wire("host"@).len() == 4);
    assert(wire("content-length"@).len() == 14);
    assert(wire("connection"@).len() == 10);
    assert(wire("transfer-encoding"@).len() == 17);
}

proof fn lemma_summary_says(headers: Seq<HeaderView>, streamed: bool)
    ensures
        summarize(headers, streamed) matches Ok(summary) ==> {
            &&& summary.host_count == 0 <==> lacks(headers, "host"@)
            &&& summary.content_length is None <==> lacks(headers, "content-length"@)
            &&& summary.connection == Some(ConnectionPolicy::Close) <==> asks_to_close(headers)
            &&& lacks(headers, "transfer-encoding"@)
        },
    decreases headers.len(),
{
    if headers.len() > 0 {
        let front = headers.drop_last();
        let last = headers.last();
        assert(last == headers[headers.len() - 1]);
        lemma_summary_says(front, streamed);
        lemma_special_names_differ(last);
        if summarize(headers, streamed) is Ok {
            lemma_lacks_pushed(headers, "host"@);
            lemma_lacks_pushed(headers, "content-length"@);
            lemma_lacks_pushed(headers, "transfer-encoding"@);
            if is_named(last, "content-length"@) {
                lemma_comma_items_nonempty(last.value);
                lemma_agreed_length_present(comma_items(last.value));
            }
            if asks_to_close(front) {
                let i = choose|i: int|
                    0 <= i < front.len() && is_named(#[trigger] front[i], "connection"@)
                        && has_option_besides(front[i].value, "keep-alive"@);
                assert(headers[i] == front[i]);
            }
            if asks_to_close(headers) && !asks_to_close(front) {
                let i = choose|i: int|
                    0 <= i < headers.len() && is_named(#[trigger] headers[i], "connection"@)
                        && has_option_besides(headers[i].value, "keep-alive"@);
                if i < front.len() {
                    assert(front[i] == headers[i]);
                }
            }
        }
    }
}

proof fn lemma_lacks_pushed(headers: Seq<HeaderView>, name: Seq<char>)
    requires
        headers.len() > 0,
    ensures
        lacks(headers, name) <==> lacks(headers.drop_last(), name) && !is_named(
            headers.last(),
            name,
        ),
{
    let front = headers.drop_last();
    assert(headers.last() == headers[headers.len() - 1]);
    if lacks(headers, name) {
        assert forall|i: int| 0 <= i < front.len() implies !is_named(#[trigger] front[i], name) by {
            assert(front[i] == headers[i]);
        }
    }
    if lacks(front, name) && !is_named(headers.last(), name) {
        assert forall|i: int| 0 <= i < headers.len() implies !is_named(
            #[trigger] headers[i],
            name,
        ) by {
            if i < front.len() {
                assert(front[i] == headers[i]);
            }
        }
    }
}

proof fn lemma_lines_concat(left: Seq<WireField>, right: Seq<WireField>)
    ensures
        lines_of(left + right) == lines_of(left) + lines_of(right),
    decreases right.len(),
{
    if right.len() == 0 {
        assert(left + right =~= left);
        assert(lines_of(left) + lines_of(right) =~= lines_of(left));
    } else {
        assert((left + right).drop_last() =~= left + right.drop_last());
        lemma_lines_concat(left, right.drop_last());
        assert(lines_of(left + right) =~= lines_of(left) + lines_of(right));
    }
}

/// A request goes out as its request line, the caller's fields in their order, the host and the length
/// where the caller did not give them, an empty line, and the body. The connection may be used again
/// unless the caller asked for something else.
pub proof fn lemma_requests_are_written_out(
    request: RequestView,
    limits: HttpLimits,
    upload: Option<UploadFraming>,
)
    ensures
        serialized(request, limits, upload) matches Ok(sent) ==> {
            &&& request_target(wire(request.url)) matches Ok(target)
            &&& sent.bytes == wire(method_text(request.method)) + seq![0x20u8]
                + target.path_and_query + wire(" HTTP/1.1\r\n"@) + (lines_of(
                caller_fields(request.headers),
            ) + lines_of(own_host(request, target.authority)) + lines_of(
                own_length(request, upload),
            )) + seq![0x0du8, 0x0a] + if upload is None {
                request.body
            } else {
                Seq::empty()
            }
            &&& sent.response_to_head == (request.method is Head)
            &&& sent.permits_reuse == !asks_to_close(request.headers)
        },
{
    if serialized(request, limits, upload) is Ok {
        let target = request_target(wire(request.url))->Ok_0;
        let summary = summarize(request.headers, upload is Some)->Ok_0;
        lemma_summary_says(request.headers, upload is Some);
        let fields = sent_fields(request, target, summary, upload);
        let caller = caller_fields(request.headers);
        let host = own_host(request, target.authority);
        let length = own_length(request, upload);
        assert(generated_fields(summary, target.authority, request.body.len(), upload) =~= host
            + length);
        assert(fields =~= caller + host + length);
        lemma_lines(fields);
        lemma_lines_concat(caller + host, length);
        lemma_lines_concat(caller, host);
    }
}

/// A request is accepted up to its limits: one without a special field, for an HTTP or HTTPS URL, is
/// written as long as its fields, with the host and the length, are as many and as long as allowed.
pub proof fn lemma_plain_requests_are_accepted(
    request: RequestView,
    limits: HttpLimits,
    target: TargetView,
)
    requires
        request.rejection is None,
        request_target(wire(request.url)) == Ok::<TargetView, ErrorView>(target),
        same_ignoring_case(target.scheme, wire("http"@)) || same_ignoring_case(
            target.scheme,
            wire("https"@),
        ),
        lacks(request.headers, "host"@),
        lacks(request.headers, "content-length"@),
        lacks(request.headers, "transfer-encoding"@),
        lacks(request.headers, "connection"@),
        sent_bytes(
            request,
            target,
            caller_fields(request.headers) + own_host(request, target.authority) + own_length(
                request,
                None,
            ),
            None,
        ).len() <= usize::MAX,
    ensures
        ({
            let count = request.headers.len() + 1 + if request.body.len() > 0 {
                1int
            } else {
                0int
            };
            let length = lines_of(caller_fields(request.headers)).len() + lines_of(
                own_host(request, target.authority),
            ).len() + lines_of(own_length(request, None)).len();
            &&& serialized(request, limits, None) is Ok <==> count <= limits.header_count && length
                <= limits.header_bytes
            &&& count > limits.header_count ==> serialized(request, limits, None) == Err::<
                SerializedView,
                ErrorView,
            >(request_count_exceeded(limits.header_count as nat))
            &&& count <= limits.header_count && length > limits.header_bytes ==> serialized(
                request,
                limits,
                None,
            ) == Err::<SerializedView, ErrorView>(request_bytes_exceeded(limits.header_bytes as nat))
        }),
{
    let caller = caller_fields(request.headers);
    let host = own_host(request, target.authority);
    let length = own_length(request, None);
    lemma_plain_summary(request.headers);
    let summary = FieldSummary { host_count: 0, content_length: None, connection: None };
    let fields = sent_fields(request, target, summary, None);
    assert(generated_fields(summary, target.authority, request.body.len(), None) =~= host + length);
    assert(fields =~= caller + host + length);
    lemma_lines(fields);
    lemma_lines_concat(caller + host, length);
    lemma_lines_concat(caller, host);
}

proof fn lemma_plain_summary(headers: Seq<HeaderView>)
    requires
        lacks(headers, "host"@),
        lacks(headers, "content-length"@),
        lacks(headers, "transfer-encoding"@),
        lacks(headers, "connection"@),
    ensures
        summarize(headers, false) == Ok::<FieldSummary, ErrorView>(
            FieldSummary { host_count: 0, content_length: None, connection: None },
        ),
    decreases headers.len(),
{
    if headers.len() > 0 {
        lemma_lacks_pushed(headers, "host"@);
        lemma_lacks_pushed(headers, "content-length"@);
        lemma_lacks_pushed(headers, "transfer-encoding"@);
        lemma_lacks_pushed(headers, "connection"@);
        lemma_plain_summary(headers.drop_last());
    }
}

/// The methods go out under their names, and any other under the name that it was given.
pub proof fn lemma_methods_go_out_under_their_names(name: String)
    ensures
        wire(method_text(Method::Get)) == seq![0x47u8, 0x45, 0x54],
        wire(method_text(Method::Head)) == seq![0x48u8, 0x45, 0x41, 0x44],
        wire(method_text(Method::Post)) == seq![0x50u8, 0x4f, 0x53, 0x54],
        wire(method_text(Method::Put)) == seq![0x50u8, 0x55, 0x54],
        wire(method_text(Method::Patch)) == seq![0x50u8, 0x41, 0x54, 0x43, 0x48],
        wire(method_text(Method::Delete)) == seq![0x44u8, 0x45, 0x4c, 0x45, 0x54, 0x45],
        method_text(Method::Other(name)) == name@,
{
    broadcast use vstd::utf8::is_ascii_chars_encode_utf8;

    reveal_strlit("GET");
    reveal_strlit("HEAD");
    reveal_strlit("POST");
    reveal_strlit("PUT");
    reveal_strlit("PATCH");
    reveal_strlit("DELETE");
    assert(vstd::utf8::is_ascii_chars("GET"@));
    assert(vstd::utf8::is_ascii_chars("HEAD"@));
    assert(vstd::utf8::is_ascii_chars("POST"@));
    assert(vstd::utf8::is_ascii_chars("PUT"@));
    assert(vstd::utf8::is_ascii_chars("PATCH"@));
    assert(vstd::utf8::is_ascii_chars("DELETE"@));
    assert(wire("GET"@) =~= seq![0x47u8, 0x45, 0x54]);
    assert(wire("HEAD"@) =~= seq![0x48u8, 0x45, 0x41, 0x44]);
    assert(wire("POST"@) =~= seq![0x50u8, 0x4f, 0x53, 0x54]);
    assert(wire("PUT"@) =~= seq![0x50u8, 0x55, 0x54]);
    assert(wire("PATCH"@) =~= seq![0x50u8, 0x41, 0x54, 0x43, 0x48]);
    assert(wire("DELETE"@) =~= seq![0x44u8, 0x45, 0x4c, 0x45, 0x54, 0x45]);
}

/// How many of the fields name the host.
pub open spec fn hosts_named(headers: Seq<HeaderView>) -> nat
    decreases headers.len(),
{
    if headers.len() == 0 {
        0
    } else {
        hosts_named(headers.drop_last()) + if is_named(headers.last(), "host"@) {
            1nat
        } else {
            0nat
        }
    }
}

/// Every `Connection` field lists tokens.
pub open spec fn lists_options(headers: Seq<HeaderView>) -> bool {
    forall|i: int|
        0 <= i < headers.len() && is_named(#[trigger] headers[i], "connection"@)
            ==> options_are_tokens(headers[i].value)
}

/// Every `Content-Length` field says a number.
pub open spec fn tells_number(headers: Seq<HeaderView>, number: nat) -> bool {
    forall|i: int|
        0 <= i < headers.len() && is_named(#[trigger] headers[i], "content-length"@) ==> says_number(
            headers[i].value,
            number,
        )
}

proof fn lemma_special_summary(headers: Seq<HeaderView>, number: nat, streamed: bool)
    requires
        number <= usize::MAX,
        lacks(headers, "transfer-encoding"@),
        lists_options(headers),
        tells_number(headers, number),
        streamed ==> lacks(headers, "content-length"@),
    ensures
        summarize(headers, streamed) matches Ok(summary) && summary.host_count == hosts_named(headers)
            && summary.content_length == if lacks(headers, "content-length"@) {
            None
        } else {
            Some(number)
        },
    decreases headers.len(),
{
    if headers.len() > 0 {
        let front = headers.drop_last();
        let last = headers.last();
        assert(last == headers[headers.len() - 1]);
        lemma_lacks_pushed(headers, "transfer-encoding"@);
        lemma_lacks_pushed(headers, "content-length"@);
        assert forall|i: int| 0 <= i < front.len() && is_named(
            #[trigger] front[i],
            "connection"@,
        ) implies options_are_tokens(front[i].value) by {
            assert(front[i] == headers[i]);
        }
        assert forall|i: int| 0 <= i < front.len() && is_named(
            #[trigger] front[i],
            "content-length"@,
        ) implies says_number(front[i].value, number) by {
            assert(front[i] == headers[i]);
        }
        lemma_special_summary(front, number, streamed);
        lemma_special_names_differ(last);
        if is_named(last, "content-length"@) {
            lemma_lengths_are_read(last.value, number);
        }
    }
}

/// A caller may name the host once, say the right length as often as it likes, and ask for anything
/// about the connection: such a request is written as long as it keeps to its limits.
pub proof fn lemma_callers_may_say_what_is_right(
    request: RequestView,
    limits: HttpLimits,
    target: TargetView,
)
    requires
        request.rejection is None,
        request_target(wire(request.url)) == Ok::<TargetView, ErrorView>(target),
        same_ignoring_case(target.scheme, wire("http"@)) || same_ignoring_case(
            target.scheme,
            wire("https"@),
        ),
        request.body.len() <= usize::MAX,
        lacks(request.headers, "transfer-encoding"@),
        lists_options(request.headers),
        tells_number(request.headers, request.body.len()),
        hosts_named(request.headers) <= 1,
        request.headers.len() + 2 <= limits.header_count,
        lines_of(caller_fields(request.headers)).len() + lines_of(
            own_host(request, target.authority),
        ).len() + lines_of(own_length(request, None)).len() <= limits.header_bytes,
        sent_bytes(
            request,
            target,
            caller_fields(request.headers) + own_host(request, target.authority) + own_length(
                request,
                None,
            ),
            None,
        ).len() <= usize::MAX,
    ensures
        serialized(request, limits, None) is Ok,
{
    lemma_special_summary(request.headers, request.body.len(), false);
    lemma_summary_says(request.headers, false);
    let summary = summarize(request.headers, false)->Ok_0;
    let caller = caller_fields(request.headers);
    let host = own_host(request, target.authority);
    let length = own_length(request, None);
    let fields = sent_fields(request, target, summary, None);
    assert(generated_fields(summary, target.authority, request.body.len(), None) =~= host + length);
    assert(fields =~= caller + host + length);
    lemma_lines(fields);
    lemma_lines_concat(caller + host, length);
    lemma_lines_concat(caller, host);
}

/// What contradicts itself is refused: a second host, a length that the body does not have, a transfer
/// coding, or, with a streamed body, any length. So is a URL that is neither HTTP nor HTTPS.
pub proof fn lemma_contradictions_are_refused(
    request: RequestView,
    limits: HttpLimits,
    upload: Option<UploadFraming>,
)
    ensures
        serialized(request, limits, upload) is Ok ==> {
            &&& request.rejection is None
            &&& lacks(request.headers, "transfer-encoding"@)
            &&& upload is Some ==> lacks(request.headers, "content-length"@)
            &&& request_target(wire(request.url)) matches Ok(target) && (same_ignoring_case(
                target.scheme,
                wire("http"@),
            ) || same_ignoring_case(target.scheme, wire("https"@)))
            &&& hosts_named(request.headers) <= 1
        },
        request.rejection matches Some(error) ==> serialized(request, limits, upload) == Err::<
            SerializedView,
            ErrorView,
        >(error),
{
    if serialized(request, limits, upload) is Ok {
        lemma_summary_says(request.headers, upload is Some);
        lemma_hosts_are_counted(request.headers, upload is Some);
        if upload is Some {
            lemma_streamed_without_length(request.headers);
        }
    }
}

proof fn lemma_hosts_are_counted(headers: Seq<HeaderView>, streamed: bool)
    ensures
        summarize(headers, streamed) matches Ok(summary) ==> summary.host_count == hosts_named(headers),
    decreases headers.len(),
{
    if headers.len() > 0 {
        lemma_hosts_are_counted(headers.drop_last(), streamed);
    }
}

proof fn lemma_streamed_without_length(headers: Seq<HeaderView>)
    ensures
        summarize(headers, true) is Ok ==> lacks(headers, "content-length"@),
    decreases headers.len(),
{
    if headers.len() > 0 && summarize(headers, true) is Ok {
        lemma_streamed_without_length(headers.drop_last());
        lemma_special_names_differ(headers.last());
        lemma_lacks_pushed(headers, "content-length"@);
    }
}

} // verus!
