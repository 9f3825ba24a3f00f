use nbreq_http::decoder::ResponseDecoder;
use nbreq_http::framing::DecodeState;
use nbreq_http::fuzz::{
    decode_at_split, decode_fragmented, fuzz_response_decoder, FuzzDecodeOutcome,
};
use nbreq_http::head::{parse_response_head, BodyFraming, ParsedHead};
use nbreq_http::redirect::{redirected_request, resolved_redirect_target};
use nbreq_http::request::{serialize_request, serialize_request_with_upload};
use nbreq_http::stream::{ResponseSink, StreamRead};
use nbreq_http::stream_decoder::{StreamDecodeProgress, StreamingResponseDecoder};
use nbreq_http::stream_fuzz::{fuzz_streaming_response_decoder, synthetic_stream_decoder};
use nbreq_http::types::{
    Error, ErrorKind, Header, HttpLimits, LimitKind, Request, Response, TransportStage,
    UploadFraming,
};

const LIMITS: HttpLimits = HttpLimits {
    body_bytes: 1024,
    header_bytes: 1024,
    header_count: 16,
};

fn valid(request: Request) -> Request {
    request.validate().expect("request must build");
    request
}

fn read(sink: &mut ResponseSink, most: usize) -> Option<Vec<u8>> {
    match sink.try_read(most) {
        StreamRead::Data(bytes) => Some(bytes),
        StreamRead::Eof => None,
        other => panic!("reader got {other:?}"),
    }
}

fn sink(decoder: &mut StreamingResponseDecoder) -> &mut ResponseSink {
    decoder.response_mut().expect("the sink must be there")
}

fn collect(sink: &mut ResponseSink) -> (u16, Vec<u8>) {
    let status = sink.head.as_ref().expect("head must be published").status;
    let mut body = Vec::new();
    while let Some(bytes) = read(sink, 64) {
        body.extend_from_slice(&bytes);
    }
    (status, body)
}

fn seed(control: &[u8], wire: &str) -> Vec<u8> {
    let mut data = control.to_vec();
    data.extend_from_slice(wire.as_bytes());
    data
}

fn check_fuzz_seeds() {
    let control = [2, 16, 16, 15, 2, 6];
    for (wire, expected) in [
        (
            "HTTP/1.1 200 OK\\r\\nContent-Length: 5\\r\\n\\r\\nhello",
            Some("hello"),
        ),
        (
            "HTTP/1.1 200 OK\\r\\nTransfer-Encoding: chunked\\r\\n\\r\\n5\\r\\nhello\\r\\n0\\r\\n\\r\\n",
            Some("hello"),
        ),
        (
            "HTTP/1.1 103 Early Hints\\r\\n\\r\\nHTTP/1.1 200 OK\\r\\nContent-Length: 2\\r\\n\\r\\nok",
            Some("ok"),
        ),
        ("HTTP/1.0 200 OK\\r\\n\\r\\nbody", Some("body")),
        (
            "HTTP/1.1 200 OK\\r\\nContent-Length: 1\\r\\nContent-Length: 2\\r\\n\\r\\nxx",
            None,
        ),
        (
            "HTTP/1.1 200 OK\\r\\nTransfer-Encoding: chunked\\r\\n\\r\\nZZ\\r\\n",
            None,
        ),
    ] {
        let report = fuzz_response_decoder(&seed(&control, wire)).expect("the seed is long enough");
        assert_eq!(report.whole, report.bytewise);
        assert_eq!(report.whole, report.irregular);
        match (&report.whole, expected) {
            (FuzzDecodeOutcome::Complete { response, .. }, Some(body)) => {
                assert_eq!(response.body, body.as_bytes())
            }
            (
                FuzzDecodeOutcome::Eof {
                    response: Some(response),
                    ..
                },
                Some(body),
            ) => assert_eq!(response.body, body.as_bytes()),
            (FuzzDecodeOutcome::Failed(error), None) => {
                assert_eq!(error.transport_stage(), Some(TransportStage::Http))
            }
            (outcome, _) => panic!("unexpected outcome {outcome:?}"),
        }
    }
    assert!(fuzz_response_decoder(&control[..5]).is_none());
}

#[test]
fn native_http_checked_in_fuzz_seeds_satisfy_the_fragmentation_oracle() {
    check_fuzz_seeds();
}

#[test]
fn tests_checked_in_fuzz_seeds_satisfy_the_fragmentation_oracle() {
    check_fuzz_seeds();
}

fn check_streaming_fuzz_seeds() {
    for (control, wire, expected) in [
        (
            [6, 16, 16, 15, 2, 6, 3, 1],
            "HTTP/1.1 200 OK\\r\\nContent-Length: 11\\r\\n\\r\\nhello world",
            "hello world",
        ),
        (
            [6, 16, 16, 15, 1, 6, 3, 0],
            "HTTP/1.1 200 OK\\r\\nTransfer-Encoding: chunked\\r\\n\\r\\n5\\r\\nhello\\r\\n0\\r\\n\\r\\n",
            "hello",
        ),
        (
            [6, 16, 16, 15, 2, 6, 3, 1],
            "HTTP/1.1 204 No Content\\r\\n\\r\\n",
            "",
        ),
        (
            [6, 16, 16, 15, 2, 6, 3, 1],
            "HTTP/1.0 200 OK\\r\\n\\r\\nuntil the end",
            "until the end",
        ),
        (
            [2, 16, 16, 15, 2, 6, 3, 1],
            "HTTP/1.1 302 Found\\r\\nLocation: /next\\r\\nContent-Length: 3\\r\\n\\r\\nold",
            "",
        ),
    ] {
        match fuzz_streaming_response_decoder(&seed(&control, wire)) {
            Some(FuzzDecodeOutcome::Complete { response, .. }) => {
                assert_eq!(response.body, expected.as_bytes())
            }
            Some(FuzzDecodeOutcome::Eof {
                response: Some(response),
                ..
            }) => assert_eq!(response.body, expected.as_bytes()),
            other => panic!("unexpected outcome {other:?}"),
        }
    }
    assert!(fuzz_streaming_response_decoder(&[6, 16, 16, 15, 2, 6, 3]).is_none());
}

#[test]
fn native_http_checked_in_streaming_fuzz_seeds_cross_reader_backpressure() {
    check_streaming_fuzz_seeds();
}

#[test]
fn tests_checked_in_streaming_fuzz_seeds_cross_reader_backpressure() {
    check_streaming_fuzz_seeds();
}

fn check_stream_boundary() {
    let mut decoder = synthetic_stream_decoder(8, LIMITS);
    let wire = b"HTTP/1.1 200 OK\r\nContent-Length: 5\r\nX-Test: yes\r\n\r\nhelloextra";
    let head_consumed = match decoder.ingest(wire).expect("head must parse") {
        StreamDecodeProgress::Head { head, consumed } => {
            assert_eq!(head.status, 200);
            assert!(head.headers.iter().any(|header| {
                header.name().eq_ignore_ascii_case("x-test") && header.value() == b"yes"
            }));
            consumed
        }
        other => panic!("stream decoder skipped the head boundary: {other:?}"),
    };
    let decision = decoder.decide_head(true).expect("head must publish");
    assert!(!decision.complete);
    let body_consumed = match decoder
        .ingest(&wire[head_consumed..])
        .expect("body must decode")
    {
        StreamDecodeProgress::Complete {
            consumed,
            delivered,
            ..
        } => {
            assert!(delivered);
            consumed
        }
        other => panic!("stream body did not complete: {other:?}"),
    };
    assert_eq!(body_consumed, 5, "trailing bytes must remain unconsumed");
    let (status, body) = collect(sink(&mut decoder));
    assert_eq!(status, 200);
    assert_eq!(body, b"hello");
}

#[test]
fn native_http_streaming_decoder_publishes_head_then_body_and_reports_exact_boundary() {
    check_stream_boundary();
}

#[test]
fn tests_streaming_decoder_publishes_head_then_body_and_reports_exact_boundary() {
    check_stream_boundary();
}

fn check_stream_splitting() {
    let mut decoder = synthetic_stream_decoder(3, LIMITS);
    let head = b"HTTP/1.1 200 OK\r\nContent-Length: 8\r\n\r\n";
    assert!(matches!(
        decoder.ingest(head).expect("head must parse"),
        StreamDecodeProgress::Head { consumed, .. } if consumed == head.len()
    ));
    decoder.decide_head(true).expect("head must publish");

    let body = b"abcdefgh";
    let mut offset = 0;
    let mut received = Vec::new();
    while offset < body.len() {
        match decoder
            .ingest(&body[offset..])
            .expect("bounded body pass must decode")
        {
            StreamDecodeProgress::Body { consumed, blocked } => {
                assert!(blocked);
                assert_ne!(consumed, 0);
                offset += consumed;
            }
            StreamDecodeProgress::Complete { consumed, .. } => {
                offset += consumed;
            }
            StreamDecodeProgress::Head { .. } => panic!("head was published twice"),
        }
        if let Some(bytes) = read(sink(&mut decoder), 2) {
            received.extend_from_slice(&bytes);
        }
    }
    while let Some(bytes) = read(sink(&mut decoder), 8) {
        received.extend_from_slice(&bytes);
    }
    assert_eq!(received, body);
}

#[test]
fn native_http_streaming_decoder_splits_body_to_the_current_reader_hole() {
    check_stream_splitting();
}

#[test]
fn tests_streaming_decoder_splits_body_to_the_current_reader_hole() {
    check_stream_splitting();
}

fn check_stream_discard() {
    let mut decoder = synthetic_stream_decoder(8, LIMITS);
    let no_body = b"HTTP/1.1 204 No Content\r\n\r\n";
    assert!(matches!(
        decoder.ingest(no_body).expect("204 head must parse"),
        StreamDecodeProgress::Head { .. }
    ));
    let decision = decoder.decide_head(true).expect("204 head must publish");
    assert!(decision.complete);
    let reader = sink(&mut decoder);
    assert_eq!(reader.head.as_ref().expect("204 head must arrive").status, 204);
    assert!(matches!(reader.try_read(1), StreamRead::Eof));

    let mut redirect = synthetic_stream_decoder(8, LIMITS);
    let first = b"HTTP/1.1 302 Found\r\nContent-Length: 3\r\nLocation: /next\r\n\r\nold";
    let head_used = match redirect.ingest(first).expect("redirect head must parse") {
        StreamDecodeProgress::Head { consumed, .. } => consumed,
        other => panic!("redirect head was not exposed for policy: {other:?}"),
    };
    redirect
        .decide_head(false)
        .expect("redirect head must remain private");
    assert!(matches!(
        redirect
            .ingest(&first[head_used..])
            .expect("redirect body must drain"),
        StreamDecodeProgress::Complete {
            delivered: false,
            ..
        }
    ));
    let reused = redirect
        .into_response()
        .expect("discarded redirect must return the unique sink");
    let mut final_decoder = StreamingResponseDecoder::new(false, LIMITS, reused);
    let final_wire = b"HTTP/1.1 200 OK\r\nContent-Length: 3\r\n\r\nnew";
    let head_used = match final_decoder
        .ingest(final_wire)
        .expect("final head must parse")
    {
        StreamDecodeProgress::Head { consumed, .. } => consumed,
        other => panic!("final head was not exposed: {other:?}"),
    };
    final_decoder
        .decide_head(true)
        .expect("final head must publish");
    assert!(matches!(
        final_decoder
            .ingest(&final_wire[head_used..])
            .expect("final body must decode"),
        StreamDecodeProgress::Complete {
            delivered: true,
            ..
        }
    ));
    let (status, body) = collect(sink(&mut final_decoder));
    assert_eq!(status, 200);
    assert_eq!(body, b"new");
}

#[test]
fn native_http_streaming_decoder_no_body_head_is_complete_and_redirect_discard_reuses_sink() {
    check_stream_discard();
}

#[test]
fn tests_streaming_decoder_no_body_head_is_complete_and_redirect_discard_reuses_sink() {
    check_stream_discard();
}

fn check_stream_close_delimited() {
    let mut decoder = synthetic_stream_decoder(3, LIMITS);
    let head = b"HTTP/1.1 200 OK\r\nConnection: close\r\n\r\n";
    assert!(matches!(
        decoder.ingest(head).expect("close-delimited head must parse"),
        StreamDecodeProgress::Head { consumed, .. } if consumed == head.len()
    ));
    decoder
        .decide_head(true)
        .expect("close-delimited head must publish");

    let body = b"abcde";
    let consumed = match decoder
        .ingest(body)
        .expect("first close-delimited window must decode")
    {
        StreamDecodeProgress::Body { consumed, blocked } => {
            assert!(blocked);
            consumed
        }
        other => panic!("close-delimited body did not pause: {other:?}"),
    };
    assert_eq!(consumed, 3);
    assert_eq!(read(sink(&mut decoder), 3), Some(b"abc".to_vec()));

    assert!(matches!(
        decoder
            .ingest(&body[consumed..])
            .expect("retained close-delimited bytes must drain"),
        StreamDecodeProgress::Body {
            consumed: 2,
            blocked: false
        }
    ));
    assert_eq!(
        decoder.eof().expect("peer FIN must complete body"),
        Some((false, true))
    );
    assert_eq!(read(sink(&mut decoder), 3), Some(b"de".to_vec()));
    assert_eq!(read(sink(&mut decoder), 3), None);
}

#[test]
fn native_http_streaming_close_delimited_body_drains_retained_bytes_before_fin_completes_it() {
    check_stream_close_delimited();
}

#[test]
fn tests_streaming_close_delimited_body_drains_retained_bytes_before_fin_completes_it() {
    check_stream_close_delimited();
}

fn check_stream_chunked() {
    let mut decoder = synthetic_stream_decoder(4, LIMITS);
    let wire = b"HTTP/1.1 100 Continue\r\n\r\nHTTP/1.1 200 OK\r\nTransfer-Encoding: chunked\r\n\r\n5\r\nhello\r\n0\r\nX-Trailer: yes\r\n\r\n";
    let head_used = match decoder.ingest(wire).expect("final head must parse") {
        StreamDecodeProgress::Head { head, consumed } => {
            assert_eq!(head.status, 200);
            consumed
        }
        other => panic!("informational head escaped or final head vanished: {other:?}"),
    };
    decoder.decide_head(true).expect("final head must publish");
    let mut offset = head_used;
    let mut received = Vec::new();
    while offset < wire.len() {
        match decoder
            .ingest(&wire[offset..])
            .expect("chunked framing must decode")
        {
            StreamDecodeProgress::Body { consumed, blocked } => {
                assert!(blocked || offset + consumed == wire.len());
                assert_ne!(consumed, 0);
                offset += consumed;
            }
            StreamDecodeProgress::Complete { consumed, .. } => {
                offset += consumed;
                break;
            }
            StreamDecodeProgress::Head { .. } => panic!("final head was published twice"),
        }
        if let Some(bytes) = read(sink(&mut decoder), 3) {
            received.extend_from_slice(&bytes);
        }
    }
    assert_eq!(offset, wire.len());
    while let Some(bytes) = read(sink(&mut decoder), 8) {
        received.extend_from_slice(&bytes);
    }
    assert_eq!(received, b"hello");

    let mut decoder = synthetic_stream_decoder(8, LIMITS);
    decoder.limits.body_bytes = 4;
    let error = decoder
        .ingest(b"HTTP/1.1 200 OK\r\nContent-Length: 5\r\n\r\n")
        .expect_err("oversize final head must fail before publication");
    assert_eq!(error.kind(), ErrorKind::Limit);
    assert_eq!(error.limit_kind(), Some(LimitKind::ResponseBodyBytes));
    decoder.fail(error.clone());
    let reader = sink(&mut decoder);
    assert!(reader.head.is_none());
    assert!(matches!(reader.try_read(1), StreamRead::Failed(observed) if observed == error));
}

#[test]
fn native_http_streaming_decoder_preserves_informational_chunked_trailer_and_limit_rules() {
    check_stream_chunked();
}

#[test]
fn tests_streaming_decoder_preserves_informational_chunked_trailer_and_limit_rules() {
    check_stream_chunked();
}

fn check_origin_form() {
    let request = valid(
        Request::post("http://example.test:8080/path?q=yes#ignored")
            .header("X-Binary", vec![0x80, b'x'])
            .body(b"hello".to_vec()),
    );
    let serialized = serialize_request(&request, LIMITS).expect("request must serialize");
    assert_eq!(
        serialized.bytes,
        b"POST /path?q=yes HTTP/1.1\r\nX-Binary: \x80x\r\nHost: example.test:8080\r\nContent-Length: 5\r\n\r\nhello"
    );
    assert!(!serialized.response_to_head);
    assert!(serialized.permits_reuse);

    let query_only = valid(Request::get("http://example.test?x=1"));
    let serialized = serialize_request(&query_only, LIMITS).expect("request must serialize");
    assert!(serialized.bytes.starts_with(b"GET /?x=1 HTTP/1.1\r\n"));
}

#[test]
fn native_http_serializes_origin_form_host_lengths_and_binary_headers() {
    check_origin_form();
}

#[test]
fn tests_serializes_origin_form_host_lengths_and_binary_headers() {
    check_origin_form();
}

fn check_ambiguous_requests() {
    for request in [
        valid(
            Request::post("http://example.test/")
                .header("Content-Length", b"2".to_vec())
                .body(b"one".to_vec()),
        ),
        valid(
            Request::post("http://example.test/")
                .header("Transfer-Encoding", b"chunked".to_vec())
                .body(b"one".to_vec()),
        ),
    ] {
        assert!(serialize_request(&request, LIMITS).is_err());
    }

    let request = valid(Request::get("http://example.test/"));
    let error = serialize_request(
        &request,
        HttpLimits {
            header_count: 0,
            ..LIMITS
        },
    )
    .expect_err("generated Host must count");
    assert_eq!(error.limit_kind(), Some(LimitKind::RequestHeaderCount));
}

#[test]
fn native_http_request_serialization_rejects_ambiguous_framing_and_generated_limit_overflow() {
    check_ambiguous_requests();
}

#[test]
fn tests_request_serialization_rejects_ambiguous_framing_and_generated_limit_overflow() {
    check_ambiguous_requests();
}

fn check_streamed_uploads() {
    let request = valid(Request::post("http://example.test/upload"));
    let fixed = serialize_request_with_upload(&request, LIMITS, Some(UploadFraming::Fixed(123)))
        .expect("fixed stream head must serialize");
    assert_eq!(
        fixed.bytes,
        b"POST /upload HTTP/1.1\r\nHost: example.test\r\nContent-Length: 123\r\n\r\n"
    );
    let chunked = serialize_request_with_upload(&request, LIMITS, Some(UploadFraming::Chunked))
        .expect("chunked stream head must serialize");
    assert_eq!(
        chunked.bytes,
        b"POST /upload HTTP/1.1\r\nHost: example.test\r\nTransfer-Encoding: chunked\r\n\r\n"
    );
    let error = serialize_request_with_upload(
        &request,
        HttpLimits {
            header_count: 1,
            ..LIMITS
        },
        Some(UploadFraming::Fixed(1)),
    )
    .expect_err("generated Host plus framing must count as two fields");
    assert_eq!(error.limit_kind(), Some(LimitKind::RequestHeaderCount));
}

#[test]
fn native_http_streamed_upload_serialization_generates_exact_framing_within_header_limits() {
    check_streamed_uploads();
}

#[test]
fn tests_streamed_upload_serialization_generates_exact_framing_within_header_limits() {
    check_streamed_uploads();
}

fn decode(response_to_head: bool, bytes: &[u8], eof: bool) -> Result<Response, Error> {
    decode_fragmented(response_to_head, bytes, eof, LIMITS)
}

fn check_fragmented_fixed() {
    let response = decode(
        false,
        b"HTTP/1.1 103 Early Hints\r\nLink: </x>\r\n\r\nHTTP/1.1 200 OK\r\nContent-Length: 5\r\nX-Test: yes\r\n\r\nhello",
        false,
    )
    .expect("fragmented fixed response must complete");
    assert_eq!(response.status, 200);
    assert_eq!(response.body, b"hello");
    assert!(response.headers.iter().any(|header| {
        header.name().eq_ignore_ascii_case("x-test") && header.value() == b"yes"
    }));
}

#[test]
fn native_http_fragmented_informational_and_fixed_length_response_completes() {
    check_fragmented_fixed();
}

#[test]
fn tests_fragmented_informational_and_fixed_length_response_completes() {
    check_fragmented_fixed();
}

fn check_two_parts() {
    let valid = [
        (
            b"HTTP/1.1 200 OK\r\nContent-Length: 5\r\n\r\nhello".as_slice(),
            false,
            b"hello".as_slice(),
        ),
        (
            b"HTTP/1.1 200 OK\r\nTransfer-Encoding: chunked\r\n\r\n2\r\nhe\r\n3;ext=yes\r\nllo\r\n0\r\nX-T: y\r\n\r\n"
                .as_slice(),
            false,
            b"hello".as_slice(),
        ),
        (
            b"HTTP/1.0 200 OK\r\n\r\nhello".as_slice(),
            true,
            b"hello".as_slice(),
        ),
    ];
    for (bytes, eof, expected) in valid {
        for split in 0..=bytes.len() {
            let response = decode_at_split(bytes, split, eof, LIMITS)
                .unwrap_or_else(|error| panic!("split {split} failed: {error:?}"));
            assert_eq!(response.body, expected, "split {split}");
        }
    }

    let malformed = [
        b"HTTP/1.1 200 OK\r\nContent-Length: 2\r\nContent-Length: 3\r\n\r\nxx".as_slice(),
        b"HTTP/1.1 200 OK\r\nTransfer-Encoding: chunked\r\n\r\n2\r\nx".as_slice(),
        b"HTTP/1.1 200 OK\r\nTransfer-Encoding: chunked\r\n\r\n1\r\nxX".as_slice(),
    ];
    for bytes in malformed {
        for split in 0..=bytes.len() {
            let error = decode_at_split(bytes, split, true, LIMITS)
                .expect_err("malformed response must fail at every split");
            assert_eq!(
                error.transport_stage(),
                Some(TransportStage::Http),
                "split {split}: {error:?}"
            );
        }
    }
}

#[test]
fn native_http_every_two_part_fragmentation_preserves_valid_and_invalid_results() {
    check_two_parts();
}

#[test]
fn tests_every_two_part_fragmentation_preserves_valid_and_invalid_results() {
    check_two_parts();
}

fn check_extensions_and_trailers() {
    let response = decode(
        false,
        b"HTTP/1.1 200 OK\r\nTransfer-Encoding: chunked\r\n\r\n5;lab=yes\r\nhello\r\n6\r\n world\r\n0\r\nX-Trailer: yes\r\n\r\n",
        false,
    )
    .expect("chunked response must complete");
    assert_eq!(response.body, b"hello world");
    assert_eq!(response.headers.len(), 1);
}

#[test]
fn native_http_chunk_extensions_and_trailers_are_framed_but_trailers_are_not_exposed() {
    check_extensions_and_trailers();
}

#[test]
fn tests_chunk_extensions_and_trailers_are_framed_but_trailers_are_not_exposed() {
    check_extensions_and_trailers();
}

fn check_completion_rules() {
    let head = decode(
        true,
        b"HTTP/1.1 200 OK\r\nContent-Length: 500\r\n\r\n",
        false,
    )
    .expect("HEAD response must complete at the head");
    assert!(head.body.is_empty());

    let no_content = decode(false, b"HTTP/1.1 204 No Content\r\n\r\n", false)
        .expect("204 response must complete at the head");
    assert!(no_content.body.is_empty());

    let close = decode(
        false,
        b"HTTP/1.1 200 OK\r\nConnection: close\r\n\r\nbody",
        true,
    )
    .expect("close-delimited response must complete at EOF");
    assert_eq!(close.body, b"body");
}

#[test]
fn native_http_no_body_and_close_delimited_responses_use_explicit_completion_rules() {
    check_completion_rules();
}

#[test]
fn tests_no_body_and_close_delimited_responses_use_explicit_completion_rules() {
    check_completion_rules();
}

fn check_stages() {
    for bytes in [
        &b"NOT HTTP\r\n\r\n"[..],
        &b"HTTP/1.1 200 OK\r\nContent-Length: 1\r\nContent-Length: 2\r\n\r\nx"[..],
        &b"HTTP/1.1 200 OK\r\nTransfer-Encoding: chunked\r\nContent-Length: 1\r\n\r\n1\r\nx\r\n0\r\n\r\n"[..],
        &b"HTTP/1.1 200 OK\r\nTransfer-Encoding: chunked\r\n\r\nZZ\r\n"[..],
    ] {
        let error = decode(false, bytes, true).expect_err("malformed message must fail");
        assert_eq!(error.transport_stage(), Some(TransportStage::Http));
    }

    let fixed = decode(
        false,
        b"HTTP/1.1 200 OK\r\nContent-Length: 5\r\n\r\nhi",
        true,
    )
    .expect_err("short fixed response must fail");
    assert_eq!(fixed.transport_stage(), Some(TransportStage::Receive));

    let chunked = decode(
        false,
        b"HTTP/1.1 200 OK\r\nTransfer-Encoding: chunked\r\n\r\n5\r\nhi",
        true,
    )
    .expect_err("short chunked response must fail");
    assert_eq!(chunked.transport_stage(), Some(TransportStage::Http));
}

#[test]
fn native_http_malformed_and_premature_messages_have_portable_stage_mappings() {
    check_stages();
}

#[test]
fn tests_malformed_and_premature_messages_have_portable_stage_mappings() {
    check_stages();
}

fn check_response_limits() {
    let limits = HttpLimits {
        body_bytes: 3,
        header_bytes: 64,
        header_count: 2,
    };
    let mut decoder = ResponseDecoder::new(false, limits);
    let error = decoder
        .ingest(b"HTTP/1.1 200 OK\r\nContent-Length: 4\r\n\r\n")
        .expect_err("declared oversize body must fail at the head");
    assert_eq!(error.limit_kind(), Some(LimitKind::ResponseBodyBytes));
    assert!(decoder.body.is_empty());

    let mut decoder = ResponseDecoder::new(false, limits);
    let error = decoder
        .ingest(b"HTTP/1.1 200 OK\r\nX-Long: 1234567890123456789012345678901234567890")
        .expect_err("oversize head must fail while receiving it");
    assert_eq!(error.limit_kind(), Some(LimitKind::ResponseHeaderBytes));
    assert_eq!(decoder.scratch.len(), limits.header_bytes);
}

#[test]
fn native_http_response_limits_fail_before_owned_buffers_cross_their_bounds() {
    check_response_limits();
}

#[test]
fn tests_response_limits_fail_before_owned_buffers_cross_their_bounds() {
    check_response_limits();
}

fn check_many_fields() {
    let mut wire = b"HTTP/1.1 200 OK\r\nContent-Length: 0\r\n".to_vec();
    for index in 1..40 {
        wire.extend_from_slice(format!("X-{index}: value\r\n").as_bytes());
    }
    wire.extend_from_slice(b"\r\n");
    let limits = HttpLimits {
        body_bytes: 1,
        header_bytes: 4096,
        header_count: 40,
    };
    let ParsedHead::Final {
        headers, framing, ..
    } = parse_response_head(&wire, false, limits)
        .expect("configured headers beyond the stack fast path must parse")
    else {
        panic!("response must have a final head")
    };
    assert_eq!(headers.len(), 40);
    assert!(matches!(framing, BodyFraming::Fixed(0)));

    let error = match parse_response_head(
        &wire,
        false,
        HttpLimits {
            header_count: 39,
            ..limits
        },
    ) {
        Err(error) => error,
        Ok(_) => panic!("the configured header-count limit must still fail closed"),
    };
    assert_eq!(error.limit_kind(), Some(LimitKind::ResponseHeaderCount));
}

#[test]
fn native_http_response_head_uses_stack_slots_then_honours_larger_configured_count() {
    check_many_fields();
}

#[test]
fn tests_response_head_uses_stack_slots_then_honours_larger_configured_count() {
    check_many_fields();
}

fn check_boundary() {
    let wire = b"HTTP/1.1 200 OK\r\nContent-Length: 2\r\n\r\nokjunk";
    let expected = wire.len() - b"junk".len();
    let mut decoder = ResponseDecoder::new(false, LIMITS);
    let progress = decoder.ingest(wire).expect("response must decode");
    let response = progress.response.expect("response must complete");
    assert_eq!(response.body, b"ok");
    assert_eq!(progress.consumed, expected);
    assert_eq!(&wire[progress.consumed..], b"junk");
    assert!(progress.permits_reuse);
    assert!(matches!(decoder.state, DecodeState::Complete));
}

#[test]
fn native_http_decoder_reports_the_exact_boundary_before_trailing_bytes() {
    check_boundary();
}

#[test]
fn tests_decoder_reports_the_exact_boundary_before_trailing_bytes() {
    check_boundary();
}

fn check_persistence() {
    for (wire, expected) in [
        (
            b"HTTP/1.1 200 OK\r\nContent-Length: 0\r\n\r\n".as_slice(),
            true,
        ),
        (
            b"HTTP/1.1 200 OK\r\nContent-Length: 0\r\nConnection: close\r\n\r\n".as_slice(),
            false,
        ),
        (
            b"HTTP/1.0 200 OK\r\nContent-Length: 0\r\n\r\n".as_slice(),
            false,
        ),
        (
            b"HTTP/1.0 200 OK\r\nContent-Length: 0\r\nConnection: keep-alive\r\n\r\n".as_slice(),
            true,
        ),
        (
            b"HTTP/1.1 200 OK\r\nContent-Length: 0\r\nConnection: upgrade\r\n\r\n".as_slice(),
            false,
        ),
    ] {
        let mut decoder = ResponseDecoder::new(false, LIMITS);
        let progress = decoder.ingest(wire).expect("policy response must decode");
        assert!(progress.response.is_some());
        assert_eq!(progress.permits_reuse, expected);
    }
}

#[test]
fn native_http_decoder_persistence_requires_unambiguous_http_connection_policy() {
    check_persistence();
}

#[test]
fn tests_decoder_persistence_requires_unambiguous_http_connection_policy() {
    check_persistence();
}

fn response(status: u16, headers: Vec<Header>) -> Response {
    Response::new(status, headers, Vec::new())
}

fn check_locations() {
    let request = valid(Request::get("http://example.test/base/start"));
    let missing = response(302, Vec::new());
    assert_eq!(
        resolved_redirect_target(&request, &missing)
            .expect("missing Location must be a completed redirect response"),
        None
    );

    let duplicate = response(
        302,
        vec![
            Header::new("Location", b"/one".to_vec()),
            Header::new("location", b"/two".to_vec()),
        ],
    );
    let error = resolved_redirect_target(&request, &duplicate)
        .expect_err("duplicate Location must fail closed");
    assert_eq!(error.kind(), ErrorKind::Redirect);

    let invalid_utf8 = response(302, vec![Header::new("Location", vec![0xff])]);
    let error = resolved_redirect_target(&request, &invalid_utf8)
        .expect_err("non-UTF-8 Location must fail closed");
    assert_eq!(error.kind(), ErrorKind::Redirect);

    let unsupported = response(
        302,
        vec![Header::new(
            "Location",
            b"ftp://example.test/file".to_vec(),
        )],
    );
    let target = resolved_redirect_target(&request, &unsupported)
        .expect("absolute Location must resolve")
        .expect("Location must be present");
    let error = redirected_request(&request, 302, 0, Ok(Some(target)))
        .expect_err("unsupported redirect scheme must fail closed");
    assert_eq!(error.kind(), ErrorKind::Redirect);
}

#[test]
fn native_http_native_redirect_location_rejects_ambiguity_and_invalid_values() {
    check_locations();
}

#[test]
fn tests_native_redirect_location_rejects_ambiguity_and_invalid_values() {
    check_locations();
}
