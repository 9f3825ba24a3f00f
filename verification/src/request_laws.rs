//! What holds of every request that is sent: it names its host once, says in one way how long it is,
//! and keeps to its limits.

use crate::fields::{content_length, is_named, lemma_agreed_length_present};
use crate::request::{
    caller_fields, field_lines, generated_fields, request_target, sent_bytes, sent_fields,
    serialized, summarize, FieldSummary, WireField,
};
use crate::text::{comma_items, decimal, lemma_comma_items_nonempty, same_ignoring_case, wire};
use crate::types::{HeaderView, HttpLimits, RequestView, UploadFraming};
use vstd::prelude::*;
use vstd::string::*;

verus! {

/// Whether a field has a name, up to the case of ASCII letters.
pub open spec fn field_is_named(field: WireField, name: Seq<char>) -> bool {
    same_ignoring_case(field.0, wire(name))
}

/// How many fields have a name.
pub open spec fn named_count(fields: Seq<WireField>, name: Seq<char>) -> nat
    decreases fields.len(),
{
    if fields.len() == 0 {
        0
    } else {
        named_count(fields.drop_last(), name) + if field_is_named(fields.last(), name) {
            1nat
        } else {
            0nat
        }
    }
}

/// The fields of a request that can be sent.
pub open spec fn fields_of(request: RequestView, upload: Option<UploadFraming>) -> Seq<WireField> {
    sent_fields(
        request,
        request_target(wire(request.url))->Ok_0,
        summarize(request.headers, upload is Some)->Ok_0,
        upload,
    )
}

proof fn lemma_named_count_concat(left: Seq<WireField>, right: Seq<WireField>, name: Seq<char>)
    ensures
        named_count(left + right, name) == named_count(left, name) + named_count(right, name),
    decreases right.len(),
{
    if right.len() == 0 {
        assert(left + right =~= left);
    } else {
        assert((left + right).drop_last() =~= left + right.drop_last());
        lemma_named_count_concat(left, right.drop_last(), name);
    }
}

proof fn lemma_named_one(field: WireField, name: Seq<char>)
    ensures
        named_count(seq![field], name) == if field_is_named(field, name) {
            1nat
        } else {
            0nat
        },
        named_count(Seq::<WireField>::empty(), name) == 0,
{
    assert(seq![field].drop_last() =~= Seq::<WireField>::empty());
    reveal_with_fuel(named_count, 2);
}

/// How the names that are generated compare with the names that are looked for.
proof fn lemma_generated_names()
    ensures
        same_ignoring_case(wire("Host"@), wire("host"@)),
        !same_ignoring_case(wire("Host"@), wire("content-length"@)),
        !same_ignoring_case(wire("Host"@), wire("transfer-encoding"@)),
        !same_ignoring_case(wire("Content-Length"@), wire("host"@)),
        same_ignoring_case(wire("Content-Length"@), wire("content-length"@)),
        !same_ignoring_case(wire("Content-Length"@), wire("transfer-encoding"@)),
        !same_ignoring_case(wire("Transfer-Encoding"@), wire("host"@)),
        !same_ignoring_case(wire("Transfer-Encoding"@), wire("content-length"@)),
        same_ignoring_case(wire("Transfer-Encoding"@), wire("transfer-encoding"@)),
{
    broadcast use vstd::utf8::is_ascii_chars_encode_utf8;

    reveal_strlit("Host");
    reveal_strlit("host");
    reveal_strlit("Content-Length");
    reveal_strlit("content-length");
    reveal_strlit("Transfer-Encoding");
    reveal_strlit("transfer-encoding");
    assert(vstd::utf8::is_ascii_chars("Host"@));
    assert(vstd::utf8::is_ascii_chars("host"@));
    assert(vstd::utf8::is_ascii_chars("Content-Length"@));
    assert(vstd::utf8::is_ascii_chars("content-length"@));
    assert(vstd::utf8::is_ascii_chars("Transfer-Encoding"@));
    assert(vstd::utf8::is_ascii_chars("transfer-encoding"@));
}

/// What a summary tells of the fields that were summarised.
proof fn lemma_summary(headers: Seq<HeaderView>, streamed: bool)
    requires
        summarize(headers, streamed) is Ok,
    ensures
        ({
            let summary = summarize(headers, streamed)->Ok_0;
            let fields = caller_fields(headers);
            &&& summary.host_count == named_count(fields, "host"@)
            &&& named_count(fields, "transfer-encoding"@) == 0
            &&& streamed ==> named_count(fields, "content-length"@) == 0
            &&& !streamed ==> (summary.content_length is Some <==> named_count(
                fields,
                "content-length"@,
            ) > 0)
            &&& forall|i: int|
                0 <= i < headers.len() && is_named(#[trigger] headers[i], "content-length"@)
                    ==> content_length(headers[i].value) == Ok::<
                    Option<nat>,
                    crate::types::ErrorView,
                >(summary.content_length)
        }),
    decreases headers.len(),
{
    let fields = caller_fields(headers);
    if headers.len() > 0 {
        let last = headers.last();
        lemma_summary(headers.drop_last(), streamed);
        assert(fields.drop_last() =~= caller_fields(headers.drop_last()));
        lemma_comma_items_nonempty(last.value);
        lemma_agreed_length_present(comma_items(last.value));
        lemma_names_differ(wire(last.name));
        let before = summarize(headers.drop_last(), streamed)->Ok_0;
        let summary = summarize(headers, streamed)->Ok_0;
        assert forall|i: int|
            0 <= i < headers.len() && is_named(
                #[trigger] headers[i],
                "content-length"@,
            ) implies content_length(headers[i].value) == Ok::<
            Option<nat>,
            crate::types::ErrorView,
        >(summary.content_length) by {
            if i < headers.len() - 1 {
                assert(headers.drop_last()[i] == headers[i]);
                assert(content_length(headers[i].value) == Ok::<
                    Option<nat>,
                    crate::types::ErrorView,
                >(before.content_length));
                lemma_comma_items_nonempty(headers[i].value);
                lemma_agreed_length_present(comma_items(headers[i].value));
            }
        }
    }
}

/// No name is two of the names that are looked for.
proof fn lemma_names_differ(name: Seq<u8>)
    ensures
        !(same_ignoring_case(name, wire("host"@)) && same_ignoring_case(
            name,
            wire("content-length"@),
        )),
        !(same_ignoring_case(name, wire("host"@)) && same_ignoring_case(
            name,
            wire("transfer-encoding"@),
        )),
        !(same_ignoring_case(name, wire("content-length"@)) && same_ignoring_case(
            name,
            wire("transfer-encoding"@),
        )),
{
    broadcast use vstd::utf8::is_ascii_chars_encode_utf8;

    reveal_strlit("host");
    reveal_strlit("content-length");
    reveal_strlit("transfer-encoding");
    assert(vstd::utf8::is_ascii_chars("host"@));
    assert(vstd::utf8::is_ascii_chars("content-length"@));
    assert(vstd::utf8::is_ascii_chars("transfer-encoding"@));
}

/// How often a name occurs among the generated fields.
proof fn lemma_generated(
    summary: FieldSummary,
    authority: Seq<u8>,
    body_len: nat,
    upload: Option<UploadFraming>,
)
    ensures
        ({
            let fields = generated_fields(summary, authority, body_len, upload);
            &&& named_count(fields, "host"@) == if summary.host_count == 0 {
                1nat
            } else {
                0nat
            }
            &&& named_count(fields, "content-length"@) == if upload is None {
                if summary.content_length is None && body_len > 0 {
                    1nat
                } else {
                    0nat
                }
            } else if upload->0 is Fixed {
                1nat
            } else {
                0nat
            }
            &&& named_count(fields, "transfer-encoding"@) == if upload is Some
                && upload->0 is Chunked {
                1nat
            } else {
                0nat
            }
        }),
{
    lemma_generated_names();
    let host_field = (wire("Host"@), authority);
    let host = if summary.host_count == 0 {
        seq![host_field]
    } else {
        Seq::empty()
    };
    let length_field = (
        wire("Content-Length"@),
        match upload {
            Some(UploadFraming::Fixed(length)) => wire(decimal(length as nat)),
            _ => wire(decimal(body_len)),
        },
    );
    let chunked_field = (wire("Transfer-Encoding"@), wire("chunked"@));
    let framing = match upload {
        Some(UploadFraming::Fixed(length)) => seq![length_field],
        Some(UploadFraming::Chunked) => seq![chunked_field],
        None => if summary.content_length is None && body_len > 0 {
            seq![length_field]
        } else {
            Seq::empty()
        },
    };
    lemma_named_count_concat(host, framing, "host"@);
    lemma_named_count_concat(host, framing, "content-length"@);
    lemma_named_count_concat(host, framing, "transfer-encoding"@);
    lemma_named_one(host_field, "host"@);
    lemma_named_one(host_field, "content-length"@);
    lemma_named_one(host_field, "transfer-encoding"@);
    lemma_named_one(length_field, "host"@);
    lemma_named_one(length_field, "content-length"@);
    lemma_named_one(length_field, "transfer-encoding"@);
    lemma_named_one(chunked_field, "host"@);
    lemma_named_one(chunked_field, "content-length"@);
    lemma_named_one(chunked_field, "transfer-encoding"@);
}

/// Every request that is sent names its host exactly once.
pub proof fn lemma_requests_name_their_host_once(
    request: RequestView,
    limits: HttpLimits,
    upload: Option<UploadFraming>,
)
    requires
        serialized(request, limits, upload) is Ok,
    ensures
        named_count(fields_of(request, upload), "host"@) == 1,
{
    let summary = summarize(request.headers, upload is Some)->Ok_0;
    let target = request_target(wire(request.url))->Ok_0;
    lemma_summary(request.headers, upload is Some);
    lemma_generated(summary, target.authority, request.body.len(), upload);
    lemma_named_count_concat(
        caller_fields(request.headers),
        generated_fields(summary, target.authority, request.body.len(), upload),
        "host"@,
    );
}

/// Every request that is sent says in one way how long its body is: a body that is at hand by its
/// length alone, and correctly; a streamed one by the length that was announced or in chunks.
pub proof fn lemma_requests_are_framed_in_one_way(
    request: RequestView,
    limits: HttpLimits,
    upload: Option<UploadFraming>,
    i: int,
)
    requires
        serialized(request, limits, upload) is Ok,
    ensures
        ({
            let fields = fields_of(request, upload);
            let lengths = named_count(fields, "content-length"@);
            let codings = named_count(fields, "transfer-encoding"@);
            match upload {
                Some(UploadFraming::Fixed(_)) => lengths == 1 && codings == 0,
                Some(UploadFraming::Chunked) => lengths == 0 && codings == 1,
                None => codings == 0 && (request.body.len() > 0 ==> lengths > 0),
            }
        }),
        upload is None && 0 <= i < request.headers.len() && is_named(
            request.headers[i],
            "content-length"@,
        ) ==> content_length(request.headers[i].value) == Ok::<
            Option<nat>,
            crate::types::ErrorView,
        >(Some(request.body.len())),
{
    let summary = summarize(request.headers, upload is Some)->Ok_0;
    let target = request_target(wire(request.url))->Ok_0;
    let generated = generated_fields(summary, target.authority, request.body.len(), upload);
    lemma_summary(request.headers, upload is Some);
    lemma_generated(summary, target.authority, request.body.len(), upload);
    lemma_named_count_concat(
        caller_fields(request.headers),
        generated,
        "content-length"@,
    );
    lemma_named_count_concat(
        caller_fields(request.headers),
        generated,
        "transfer-encoding"@,
    );
    if upload is None && 0 <= i < request.headers.len() && is_named(
        request.headers[i],
        "content-length"@,
    ) {
        lemma_comma_items_nonempty(request.headers[i].value);
        lemma_agreed_length_present(comma_items(request.headers[i].value));
    }
}

/// Every request that is sent keeps to its limits, the generated fields included, and its bytes are
/// its request line, its fields, an empty line and its body.
pub proof fn lemma_requests_keep_to_their_limits(
    request: RequestView,
    limits: HttpLimits,
    upload: Option<UploadFraming>,
)
    requires
        serialized(request, limits, upload) is Ok,
    ensures
        fields_of(request, upload).len() <= limits.header_count,
        field_lines(fields_of(request, upload)).len() <= limits.header_bytes,
        serialized(request, limits, upload)->Ok_0.bytes == sent_bytes(
            request,
            request_target(wire(request.url))->Ok_0,
            fields_of(request, upload),
            upload,
        ),
{
}

} // verus!
