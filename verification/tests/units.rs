use nbreq_http::config::{ConnectionLimits, EngineConfig};
use nbreq_http::deadline::{classify_timeout, deadline_after, earlier, has_passed};
use nbreq_http::decoder::{read_chunk_size, ResponseDecoder};
use nbreq_http::factory::{NativeHttpFactory, ResolverSource, TlsSource};
use nbreq_http::failure::{
    expired_error, native_internal_error, native_timeout_message, NativeFailure, NativeFailureKind,
};
use nbreq_http::fields::{
    parse_connection_policy, parse_content_length_value, request_header_bytes_limit,
    response_body_limit, response_header_count_limit, ConnectionPolicy,
};
use nbreq_http::fuzz::{decode_fragmented, decode_fuzz_seed_escapes};
use nbreq_http::head::{
    parse_response_head, response_content_length, response_transfer_encoding, validate_trailers,
    BodyFraming, ParsedHead,
};
use nbreq_http::origin::{find_origin, http_origin, is_same_origin, Scheme};
use nbreq_http::pool::{ConnectionKey, ConnectionPool};
use nbreq_http::redirect::{redirected_request, resolved_redirect_target};
use nbreq_http::request::{
    append_header, field_wire_len, serialize_request, serialize_request_with_upload, RequestTarget,
};
use nbreq_http::resolver::{
    select_addresses, AddressFamily, AddressOrder, CacheMode, FoundAddress, LookupQuery,
};
use nbreq_http::stream::{ResponsePushError, ResponseSink, StreamRead};
use nbreq_http::text::{
    append_decimal, check_token, counted_text, eq_ignore_ascii_case, parse_decimal, split_commas,
    trim_ascii_whitespace, trim_ows,
};
use nbreq_http::types::{
    method_name, ErrorKind, Header, HttpLimits, LimitKind, Method, Request, Response, ResponseHead,
    TimeoutKind, TransportStage, UploadFraming,
};
use nbreq_http::upload::{
    append_hex, cleartext_outbound_limit, NativeUpload, UploadBody, UploadPoll, UploadWire,
};

const LIMITS: HttpLimits = HttpLimits {
    body_bytes: 1024,
    header_bytes: 1024,
    header_count: 16,
};

fn header(name: &str, value: &str) -> Header {
    Header::new(name, value.as_bytes().to_vec())
}

#[test]
fn text_is_trimmed_split_and_compared() {
    assert_eq!(trim_ows(b" \tx y\t "), b"x y");
    assert_eq!(trim_ows(b"\x0bx"), b"\x0bx");
    assert_eq!(trim_ascii_whitespace(b"\r\n \x0cx\t"), b"x");
    assert_eq!(trim_ascii_whitespace(b"  "), b"");
    assert!(eq_ignore_ascii_case(b"Content-Length", b"cOnTeNt-lEnGtH"));
    assert!(!eq_ignore_ascii_case(b"[", b"{"));
    assert_eq!(split_commas(b"a,,b"), vec![b"a".as_slice(), b"", b"b"]);
    assert_eq!(split_commas(b""), vec![b"".as_slice()]);
    assert!(check_token(b"keep-alive"));
    assert!(!check_token(b""));
    assert!(!check_token(b"a b"));
}

#[test]
fn numbers_are_read_and_written() {
    assert_eq!(parse_decimal(b"0"), Some(0));
    assert_eq!(parse_decimal(b"00123"), Some(123));
    assert_eq!(
        parse_decimal(usize::MAX.to_string().as_bytes()),
        Some(usize::MAX)
    );
    assert_eq!(parse_decimal(b"99999999999999999999999999"), None);
    let mut text = String::new();
    append_decimal(&mut text, 0);
    append_decimal(&mut text, 1_024);
    append_decimal(&mut text, usize::MAX);
    assert_eq!(text, format!("01024{}", usize::MAX));
    assert_eq!(counted_text("at most ", 7, " bytes"), "at most 7 bytes");
    for number in [0, 9, 10, 15, 16, 255, 4_096, usize::MAX] {
        let mut digits = Vec::new();
        append_hex(&mut digits, number);
        assert_eq!(digits, format!("{number:X}").into_bytes());
    }
}

#[test]
fn limits_say_what_they_are() {
    let error = request_header_bytes_limit(10);
    assert_eq!(error.limit_kind(), Some(LimitKind::RequestHeaderBytes));
    assert_eq!(
        error.message(),
        "request headers exceed the configured 10 byte limit"
    );
    let error = response_header_count_limit(3);
    assert_eq!(error.limit_kind(), Some(LimitKind::ResponseHeaderCount));
    let error = response_body_limit(3);
    assert_eq!(error.limit_kind(), Some(LimitKind::ResponseBodyBytes));
}

#[test]
fn methods_have_their_names() {
    for (method, name) in [
        (Method::Get, "GET"),
        (Method::Head, "HEAD"),
        (Method::Post, "POST"),
        (Method::Put, "PUT"),
        (Method::Patch, "PATCH"),
        (Method::Delete, "DELETE"),
    ] {
        assert_eq!(method_name(&method), name);
    }
}

#[test]
fn connection_options_are_kept_apart() {
    assert!(matches!(
        parse_connection_policy(b"keep-alive"),
        Ok(ConnectionPolicy::KeepAlive)
    ));
    assert!(matches!(
        parse_connection_policy(b"Keep-Alive , close"),
        Ok(ConnectionPolicy::Close)
    ));
    assert!(matches!(
        parse_connection_policy(b"upgrade"),
        Ok(ConnectionPolicy::Close)
    ));
    assert!(parse_connection_policy(b"keep alive").is_err());
    assert!(parse_connection_policy(b"").is_err());
}

#[test]
fn content_lengths_must_agree() {
    assert_eq!(parse_content_length_value(b"5").ok(), Some(5));
    assert_eq!(parse_content_length_value(b"5, 5").ok(), Some(5));
    assert_eq!(
        parse_content_length_value(b"5, 6").unwrap_err().message(),
        "HTTP message contains conflicting Content-Length values"
    );
    assert_eq!(
        parse_content_length_value(b"+5").unwrap_err().message(),
        "HTTP Content-Length is invalid"
    );
    assert_eq!(
        parse_content_length_value(b"5,").unwrap_err().message(),
        "HTTP Content-Length is invalid"
    );
    assert_eq!(
        parse_content_length_value(b"99999999999999999999999")
            .unwrap_err()
            .message(),
        "HTTP Content-Length is too large"
    );
    assert_eq!(
        response_content_length(&[header("content-length", "3"), header("Content-Length", "3")])
            .ok(),
        Some(Some(3))
    );
    assert!(
        response_content_length(&[header("content-length", "3"), header("Content-Length", "4")])
            .is_err()
    );
    assert_eq!(response_content_length(&[]).ok(), Some(None));
}

#[test]
fn only_one_chunked_coding_is_understood() {
    assert_eq!(response_transfer_encoding(&[]).ok(), Some(false));
    assert_eq!(
        response_transfer_encoding(&[header("Transfer-Encoding", " Chunked ")]).ok(),
        Some(true)
    );
    for value in ["gzip", "gzip, chunked", "chunked, chunked", "", "chunked,"] {
        assert!(
            response_transfer_encoding(&[header("Transfer-Encoding", value)]).is_err(),
            "{value}"
        );
    }
}

#[test]
fn targets_are_taken_out_of_urls() {
    for (url, scheme, authority, target) in [
        ("http://h", "http", "h", "/"),
        ("http://h?q", "http", "h", "/?q"),
        ("http://h/p?q#f", "http", "h", "/p?q"),
        ("http://h:1#f", "http", "h:1", "/"),
        ("http:///p", "http", "", "/p"),
    ] {
        let parsed = RequestTarget::parse(url.as_bytes()).expect("the URL is usable");
        assert_eq!(parsed.scheme, scheme.as_bytes());
        assert_eq!(parsed.authority, authority.as_bytes());
        assert_eq!(parsed.path_and_query, target.as_bytes(), "{url}");
    }
    for (url, kind) in [
        ("nothing", ErrorKind::InvalidRequest),
        ("http://h/a b", ErrorKind::Unsupported),
        ("http://h/\u{e9}", ErrorKind::Unsupported),
    ] {
        match RequestTarget::parse(url.as_bytes()) {
            Err(error) => assert_eq!(error.kind(), kind, "{url}"),
            Ok(_) => panic!("{url} must be refused"),
        }
    }
}

#[test]
fn requests_are_serialized_with_their_limits() {
    let mut output = b"x".to_vec();
    append_header(&mut output, b"A", b"b");
    assert_eq!(output, b"xA: b\r\n");
    assert_eq!(field_wire_len(b"A", b"b"), Some(6));

    let head = serialize_request(
        &Request::new(Method::Head, "https://example.test/").header("Connection", b"close".to_vec()),
        LIMITS,
    )
    .expect("the request is usable");
    assert_eq!(
        head.bytes,
        b"HEAD / HTTP/1.1\r\nConnection: close\r\nHost: example.test\r\n\r\n"
    );
    assert!(head.response_to_head);
    assert!(!head.permits_reuse);

    // "Host: example.test\r\n" takes twenty bytes.
    let get = Request::get("http://example.test/");
    for (bytes, fits) in [(20, true), (19, false)] {
        let limits = HttpLimits {
            header_bytes: bytes,
            ..LIMITS
        };
        match serialize_request(&get, limits) {
            Ok(_) => assert!(fits),
            Err(error) => {
                assert!(!fits);
                assert_eq!(error.limit_kind(), Some(LimitKind::RequestHeaderBytes));
            }
        }
    }

    let twice = get
        .clone()
        .header("Host", b"a".to_vec())
        .header("host", b"b".to_vec());
    assert_eq!(
        serialize_request(&twice, LIMITS).unwrap_err().message(),
        "request contains more than one Host header"
    );
    let own_host = get.clone().header("Host", b"mine".to_vec());
    assert_eq!(
        serialize_request(&own_host, LIMITS).unwrap().bytes,
        b"GET / HTTP/1.1\r\nHost: mine\r\n\r\n"
    );
    let streamed = get.clone().header("Content-Length", b"1".to_vec());
    assert_eq!(
        serialize_request_with_upload(&streamed, LIMITS, Some(UploadFraming::Chunked))
            .unwrap_err()
            .message(),
        "NBReq generates Content-Length for a streamed upload body"
    );
    let coded = get.header("Transfer-Encoding", b"chunked".to_vec());
    assert_eq!(
        serialize_request_with_upload(&coded, LIMITS, Some(UploadFraming::Chunked))
            .unwrap_err()
            .message(),
        "NBReq generates Transfer-Encoding for a streamed upload body"
    );
    assert_eq!(
        serialize_request(&coded, LIMITS).unwrap_err().kind(),
        ErrorKind::Unsupported
    );
}

#[test]
fn chunk_size_lines_follow_their_grammar() {
    for (line, size) in [
        ("\r\n", 0),
        ("0\r\n", 0),
        ("5\r\n", 5),
        ("fF\r\n", 255),
        ("5;ext=yes\r\n", 5),
        ("5 \t\r\n", 5),
        ("FFFFFFFFFFFFFFF\r\n", 0xfff_ffff_ffff_ffff),
    ] {
        assert_eq!(read_chunk_size(line.as_bytes()).ok(), Some(size), "{line}");
    }
    for line in [
        "ZZ\r\n",
        "-5\r\n",
        "0x5\r\n",
        "5 5\r\n",
        "11111111111111111\r\n",
    ] {
        let error = read_chunk_size(line.as_bytes()).expect_err(line);
        assert_eq!(error.message(), "response contains an invalid chunk size");
    }
}

#[test]
fn heads_are_read_and_refused() {
    match parse_response_head(
        b"HTTP/1.1 200 OK\r\nA: b\r\nContent-Length: 7\r\n\r\n",
        false,
        LIMITS,
    ) {
        Ok(ParsedHead::Final {
            status,
            headers,
            framing,
            permits_reuse,
        }) => {
            assert_eq!(status, 200);
            assert_eq!(headers.len(), 2);
            assert_eq!(headers[0], header("A", "b"));
            assert!(matches!(framing, BodyFraming::Fixed(7)));
            assert!(permits_reuse);
        }
        other => panic!("unexpected head {:?}", other.is_ok()),
    }
    assert!(matches!(
        parse_response_head(b"HTTP/1.1 103 Early\r\n\r\n", false, LIMITS),
        Ok(ParsedHead::Informational)
    ));
    for status in [204, 304] {
        let head = format!("HTTP/1.1 {status} X\r\nContent-Length: 7\r\n\r\n");
        assert!(matches!(
            parse_response_head(head.as_bytes(), false, LIMITS),
            Ok(ParsedHead::Final {
                framing: BodyFraming::NoBody,
                ..
            })
        ));
    }
    for (head, message) in [
        ("HTTP/1.1 200 OK\r\n", "HTTP response head ended prematurely"),
        (
            "HTTP/1.1 200 OK\r\n\r\nx",
            "HTTP response head has trailing bytes",
        ),
        (
            "HTTP/1.1 099 Odd\r\n\r\n",
            "HTTP response status is invalid",
        ),
        (
            "HTTP/1.1 101 Switching\r\n\r\n",
            "HTTP protocol switching is not supported",
        ),
        (
            "HTTP/1.1 200 OK\r\nContent-Length: 0\r\nConnection: a b\r\n\r\n",
            "HTTP response Connection header contains an invalid token",
        ),
    ] {
        match parse_response_head(head.as_bytes(), false, LIMITS) {
            Err(error) => assert_eq!(error.message(), message),
            Ok(_) => panic!("{head} must be refused"),
        }
    }
}

#[test]
fn trailers_are_checked() {
    assert!(validate_trailers(b"\r\n", LIMITS).is_ok());
    assert!(validate_trailers(b"X-A: b\r\n\r\n", LIMITS).is_ok());
    for (trailers, message) in [
        (
            "Content-Length: 5\r\n\r\n",
            "HTTP response trailers contain a forbidden framing field",
        ),
        (
            "transfer-encoding: chunked\r\n\r\n",
            "HTTP response trailers contain a forbidden framing field",
        ),
        (
            "Host: x\r\n\r\n",
            "HTTP response trailers contain a forbidden framing field",
        ),
        ("X-A: b\r\n", "HTTP response trailers ended prematurely"),
        (
            "X-A: b\r\n\r\nmore",
            "HTTP response trailers have trailing bytes",
        ),
    ] {
        match validate_trailers(trailers.as_bytes(), LIMITS) {
            Err(error) => assert_eq!(error.message(), message),
            Ok(_) => panic!("{trailers} must be refused"),
        }
    }
    let limits = HttpLimits {
        header_count: 1,
        ..LIMITS
    };
    assert_eq!(
        validate_trailers(b"A: b\r\nC: d\r\n\r\n", limits)
            .unwrap_err()
            .limit_kind(),
        Some(LimitKind::ResponseHeaderCount)
    );
}

#[test]
fn informational_responses_are_counted() {
    let mut wire = Vec::new();
    for _ in 0..8 {
        wire.extend_from_slice(b"HTTP/1.1 103 Early\r\n\r\n");
    }
    let mut more = wire.clone();
    wire.extend_from_slice(b"HTTP/1.1 204 Done\r\n\r\n");
    assert_eq!(decode_fragmented(false, &wire, false, LIMITS).unwrap().status, 204);
    more.extend_from_slice(b"HTTP/1.1 103 Early\r\n\r\n");
    let error = decode_fragmented(false, &more, false, LIMITS).unwrap_err();
    assert_eq!(error.message(), "too many informational responses");
}

#[test]
fn chunk_framing_is_limited_like_headers() {
    let limits = HttpLimits {
        header_bytes: 64,
        ..LIMITS
    };
    let mut wire = b"HTTP/1.1 200 OK\r\nTransfer-Encoding: chunked\r\n\r\n".to_vec();
    for _ in 0..64 {
        wire.extend_from_slice(b"1\r\nx\r\n");
    }
    let error = decode_fragmented(false, &wire, false, limits).unwrap_err();
    assert_eq!(error.limit_kind(), Some(LimitKind::ResponseHeaderBytes));

    let error = decode_fragmented(
        false,
        b"HTTP/1.1 200 OK\r\nTransfer-Encoding: chunked\r\n\r\n401\r\n",
        false,
        LIMITS,
    )
    .unwrap_err();
    assert_eq!(error.limit_kind(), Some(LimitKind::ResponseBodyBytes));
}

#[test]
fn the_receive_limit_has_room_for_every_response() {
    let limits = HttpLimits {
        body_bytes: 4,
        header_bytes: 64,
        header_count: 4,
    };
    let mut wire = Vec::new();
    for _ in 0..8 {
        let start = b"HTTP/1.1 103 Early\r\nA: ";
        wire.extend_from_slice(start);
        wire.extend(std::iter::repeat(b'x').take(64 - start.len() - 4));
        wire.extend_from_slice(b"\r\n\r\n");
    }
    let head = b"HTTP/1.1 200 OK\r\nTransfer-Encoding: chunked\r\n\r\n";
    wire.extend_from_slice(head);
    wire.extend_from_slice(b"4\r\nbody\r\n0\r\n\r\n");
    let response = decode_fragmented(false, &wire, false, limits).expect("it is within limits");
    assert_eq!(response.body, b"body");
    assert!(wire.len() <= limits.reactor_receive_limit());
    assert_eq!(limits.reactor_receive_limit(), 10 * 64 + 4 + 16_384);
}

#[test]
fn addresses_are_picked_as_wanted() {
    let found = vec![
        FoundAddress {
            text: b"2001:db8::1".to_vec(),
            ipv6: true,
        },
        FoundAddress {
            text: b"192.0.2.1".to_vec(),
            ipv6: false,
        },
        FoundAddress {
            text: b"192.0.2.2".to_vec(),
            ipv6: false,
        },
    ];
    let query = |family, order, max_results| LookupQuery {
        host: b"example.test".to_vec(),
        family,
        order,
        cache_mode: CacheMode::Use,
        max_results,
        expand_search: false,
    };
    let picked = |query: LookupQuery| select_addresses(&found, &query);
    assert_eq!(
        picked(query(AddressFamily::Both, AddressOrder::Ipv4ThenIpv6, 9)),
        vec![
            b"192.0.2.1".to_vec(),
            b"192.0.2.2".to_vec(),
            b"2001:db8::1".to_vec()
        ]
    );
    assert_eq!(
        picked(query(AddressFamily::Both, AddressOrder::Ipv6ThenIpv4, 2)),
        vec![b"2001:db8::1".to_vec(), b"192.0.2.1".to_vec()]
    );
    assert_eq!(
        picked(query(AddressFamily::Ipv6, AddressOrder::Ipv4ThenIpv6, 9)),
        vec![b"2001:db8::1".to_vec()]
    );
    assert!(picked(query(AddressFamily::Ipv4, AddressOrder::Ipv4ThenIpv6, 0)).is_empty());
}

#[test]
fn a_spent_decoder_takes_nothing_more() {
    let mut decoder = ResponseDecoder::new(false, LIMITS);
    let done = decoder
        .ingest(b"HTTP/1.1 204 Done\r\n\r\n")
        .expect("the response is complete");
    assert!(done.response.is_some());
    let error = decoder.ingest(b"x").expect_err("nothing may follow");
    assert_eq!(
        error.message(),
        "native HTTP decoder received bytes after completion"
    );
    assert!(matches!(decoder.eof(), Ok(None)));
}

#[test]
fn escapes_are_undone() {
    assert_eq!(decode_fuzz_seed_escapes(b"a\\r\\n\\\\\\x\\"), b"a\r\n\\\\x\\");
}

#[test]
fn origins_are_told_apart() {
    let origin = |url: &str| find_origin(url.as_bytes()).expect(url);
    let plain = origin("http://Example.test/x");
    assert_eq!(plain.scheme, Scheme::Http);
    assert_eq!(plain.port, 80);
    assert_eq!(origin("https://example.test").port, 443);
    assert_eq!(origin("http://example.test:8080/").port, 8080);
    assert!(is_same_origin(&plain, &origin("http://example.test:80/y")));
    assert!(!is_same_origin(&plain, &origin("https://example.test/")));
    assert!(!is_same_origin(&plain, &origin("http://other.test/")));
    for url in ["ftp://example.test/", "http://", "http://h:99999/", "nothing"] {
        assert!(find_origin(url.as_bytes()).is_none(), "{url}");
    }
    let error = http_origin("nothing", ErrorKind::Redirect).expect_err("there is no origin");
    assert_eq!(error.kind(), ErrorKind::Redirect);
}

fn redirect(status: u16, location: &str) -> Response {
    Response::new(status, vec![header("Location", location)], Vec::new())
}

#[test]
fn locations_are_resolved_against_the_request() {
    let request = Request::get("http://example.test/base/start?q#f");
    for (location, target) in [
        ("/next", "http://example.test/next"),
        ("next", "http://example.test/base/next"),
        ("../next?x=1", "http://example.test/next?x=1"),
        ("//other.test/p", "http://other.test/p"),
        ("https://other.test", "https://other.test/"),
    ] {
        assert_eq!(
            resolved_redirect_target(&request, &redirect(302, location)).expect(location),
            Some(target.to_string())
        );
    }
    let error = resolved_redirect_target(&request, &redirect(302, "http://[")).unwrap_err();
    assert_eq!(
        error.message(),
        "the redirect Location could not be resolved"
    );
    let error =
        resolved_redirect_target(&Request::get("nothing"), &redirect(302, "/x")).unwrap_err();
    assert_eq!(
        error.message(),
        "the redirect source URL could not be resolved"
    );
}

#[test]
fn redirects_follow_their_rules() {
    let target = |url: &str| Ok(Some(url.to_string()));
    let get = Request::get("http://example.test/");
    let next = redirected_request(&get, 302, 0, target("http://example.test/n"))
        .expect("it is a redirect")
        .expect("it is followed");
    assert_eq!(next.url, "http://example.test/n");
    assert!(redirected_request(&get, 200, 0, target("http://example.test/n"))
        .expect("it is no redirect")
        .is_none());
    assert!(redirected_request(&get, 302, 0, Ok(None))
        .expect("there is no location")
        .is_none());
    assert_eq!(
        redirected_request(&get, 302, 10, target("http://example.test/n"))
            .unwrap_err()
            .kind(),
        ErrorKind::Redirect
    );
    let post = Request::post("http://example.test/")
        .header("Content-Length", b"1".to_vec())
        .body(b"x".to_vec());
    let fetched = redirected_request(&post, 303, 0, target("http://example.test/n"))
        .expect("it is a redirect")
        .expect("it is followed");
    assert_eq!(fetched.method, Method::Get);
    assert!(fetched.body.is_empty());
    assert!(fetched.headers.is_empty());
}

#[test]
fn deadlines_are_reckoned() {
    assert_eq!(earlier(Some(3), Some(2)), Some(2));
    assert_eq!(earlier(None, Some(2)), Some(2));
    assert_eq!(earlier(None, None), None);
    assert_eq!(deadline_after(5, Some(7)), Some(12));
    assert_eq!(deadline_after(5, None), None);
    assert_eq!(deadline_after(u64::MAX, Some(1)), None);
    assert!(has_passed(Some(5), 5));
    assert!(!has_passed(Some(5), 4));
    assert!(!has_passed(None, 4));
    for (total, connect, inactivity, expected) in [
        (Some(1), Some(1), Some(1), TimeoutKind::Total),
        (Some(9), Some(1), Some(1), TimeoutKind::Connect),
        (None, None, Some(1), TimeoutKind::Inactivity),
        (Some(9), None, None, TimeoutKind::Unknown),
    ] {
        assert_eq!(classify_timeout(total, connect, inactivity, 5), expected);
        assert_eq!(
            expired_error(expected).message(),
            native_timeout_message(expected)
        );
    }
    assert_eq!(
        native_timeout_message(TimeoutKind::Total),
        "the native HTTP total request timeout expired"
    );
    let failure = NativeFailure {
        kind: NativeFailureKind::Read,
        message: "broken".to_string(),
        connection_reset: true,
    };
    assert_eq!(native_internal_error(&failure).kind(), ErrorKind::Internal);
    assert_eq!(native_internal_error(&failure).message(), "broken");
}

fn key(host: &str) -> ConnectionKey {
    ConnectionKey {
        scheme: Scheme::Http,
        host: host.as_bytes().to_vec(),
        port: 80,
        dangerously_disable_tls_verification: false,
    }
}

#[test]
fn the_pool_keeps_to_its_limits() {
    let limits = ConnectionLimits {
        global: 3,
        per_origin: 2,
        idle_global: 2,
        idle_per_origin: 1,
        idle_timeout: 100,
    };
    let mut pool = ConnectionPool::new(limits);
    assert!(pool.reserve_connection(&key("a")));
    assert!(pool.reserve_connection(&key("a")));
    assert!(!pool.reserve_connection(&key("a")));
    assert!(pool.reserve_connection(&key("b")));
    assert!(!pool.can_reserve_connection(&key("c")));

    assert!(pool.can_park(&key("a")));
    pool.park(1, key("a"), None, 100);
    assert!(!pool.can_park(&key("a")), "one idle connection per origin");
    assert!(pool.can_park(&key("b")));
    pool.park(3, key("b"), None, 200);
    assert!(!pool.can_park(&key("c")), "two idle connections in all");
    assert!(pool.is_idle(1) && pool.is_idle(3) && !pool.is_idle(2));

    assert_eq!(pool.expire_idle(100), vec![1]);
    assert_eq!(pool.take_idle(&key("a")).map(|idle| idle.slot), None);
    assert_eq!(pool.take_idle(&key("b")).map(|idle| idle.slot), Some(3));
    pool.release_connection(&key("b"));
    assert!(pool.can_reserve_connection(&key("c")));
}

#[test]
fn idle_connections_give_way() {
    let limits = ConnectionLimits {
        global: 2,
        per_origin: 2,
        idle_global: 2,
        idle_per_origin: 2,
        idle_timeout: 100,
    };
    let mut pool = ConnectionPool::new(limits);
    assert!(pool.reserve_connection(&key("a")));
    assert!(pool.reserve_connection(&key("a")));
    assert_eq!(pool.make_connection_capacity(&key("b")), (false, Vec::new()));
    pool.park(1, key("a"), None, 100);
    pool.park(2, key("a"), None, 100);
    assert_eq!(pool.make_connection_capacity(&key("b")), (true, vec![1]));
    assert!(pool.discard_idle_slot(2));
    assert!(!pool.discard_idle_slot(2));
    assert_eq!(pool.evict_any_idle(), None);
    assert_eq!(pool.evict_idle_for_key(&key("a")), None);
}

#[test]
fn sinks_deliver_in_order_and_end_once() {
    let mut sink = ResponseSink::new(4, 6);
    assert!(matches!(
        sink.try_push(b"early".to_vec()),
        Err(ResponsePushError::Protocol(_)) | Err(ResponsePushError::WouldBlock(_))
    ));
    assert!(sink.publish_head(
        ResponseHead {
            status: 200,
            headers: Vec::new(),
        },
        false
    ));
    assert!(sink.try_push(b"abc".to_vec()).is_ok());
    assert_eq!(sink.available_capacity(), 1);
    assert!(matches!(
        sink.try_push(b"de".to_vec()),
        Err(ResponsePushError::WouldBlock(bytes)) if bytes == b"de"
    ));
    assert!(matches!(sink.try_read(2), StreamRead::Data(bytes) if bytes == b"ab"));
    assert!(sink.try_push(b"def".to_vec()).is_ok());
    assert!(matches!(sink.try_read(9), StreamRead::Data(bytes) if bytes == b"cdef"));
    assert!(matches!(sink.try_read(9), StreamRead::Pending));
    assert!(matches!(
        sink.try_push(b"g".to_vec()),
        Err(ResponsePushError::Limit(_))
    ));
    sink.complete();
    sink.cancel();
    assert!(matches!(sink.try_read(9), StreamRead::Eof));
    assert!(matches!(
        sink.try_push(b"h".to_vec()),
        Err(ResponsePushError::Closed(_))
    ));
}

#[test]
fn uploads_are_framed_and_bounded() {
    let mut body = UploadBody::new(UploadFraming::Chunked, 32);
    assert!(body.push(b"0123456789abcdef".to_vec()).is_ok());
    assert!(body.push(Vec::new()).is_ok());
    assert!(body.finish());
    assert!(body.push(b"x".to_vec()).is_err());
    let mut upload = NativeUpload::new(body);
    assert!(matches!(
        upload.next_wire(Some(21)),
        Ok(UploadWire::Pending)
    ));
    assert!(matches!(
        upload.next_wire(Some(22)),
        Ok(UploadWire::Bytes(wire)) if wire == b"10\r\n0123456789abcdef\r\n"
    ));
    assert!(!upload.is_complete());
    assert!(matches!(
        upload.next_wire(None),
        Ok(UploadWire::Bytes(wire)) if wire == b"0\r\n\r\n"
    ));
    assert!(upload.is_complete());
    assert!(matches!(upload.next_wire(None), Ok(UploadWire::Complete)));

    let mut fixed = UploadBody::new(UploadFraming::Fixed(2), 8);
    assert!(matches!(fixed.try_pop(), UploadPoll::Pending));
    assert!(fixed.push(b"ab".to_vec()).is_ok());
    assert!(fixed.push(b"c".to_vec()).is_err());
    fixed.close();
    assert!(matches!(fixed.try_pop(), UploadPoll::Chunk(chunk) if chunk == b"ab"));

    let serialized =
        serialize_request(&Request::get("http://example.test/"), LIMITS).expect("usable");
    assert_eq!(
        cleartext_outbound_limit(&serialized, None),
        serialized.bytes.len()
    );
    assert_eq!(
        cleartext_outbound_limit(&serialized, Some(&fixed)),
        serialized.bytes.len() + 8 + 32
    );
}

fn config() -> EngineConfig {
    EngineConfig {
        max_connections: 8,
        max_connections_per_origin: 4,
        max_idle_connections: 2,
        max_idle_connections_per_origin: 1,
        idle_connection_timeout: 90,
        max_response_body_bytes: 1_000,
        max_header_bytes: 100,
        max_header_count: 10,
    }
}

#[test]
fn a_configuration_reaches_the_engines() {
    let limits = HttpLimits::from_config(&config());
    assert_eq!(
        limits,
        HttpLimits {
            body_bytes: 1_000,
            header_bytes: 100,
            header_count: 10
        }
    );
    assert_eq!(limits.reactor_receive_limit(), 10 * 100 + 1_000 + 16_384);
    let huge = HttpLimits {
        header_bytes: usize::MAX,
        ..limits
    };
    assert_eq!(huge.reactor_receive_limit(), usize::MAX);

    let factory = NativeHttpFactory::new(&config());
    assert!(factory.connection_metrics_available());
    assert!(factory.supports_streaming() && factory.supports_standalone_tcp());
    assert!(!factory.supports_public_resolver());
    let engines = match factory.into_backend() {
        Ok(engines) => engines,
        Err(error) => panic!("the configuration is usable: {error:?}"),
    };
    assert!(!engines.http.has_tls);
    assert!(!engines.tcp.has_resolver);
    assert!(!engines.lookups.has_resolver);

    let factory = NativeHttpFactory::new_with_system_dns_and_platform_tls(&config());
    assert!(matches!(factory.resolver, ResolverSource::System));
    assert!(matches!(factory.tls, TlsSource::Platform));
    let factory = NativeHttpFactory::new_with_nameserver_and_test_root(
        &config(),
        b"192.0.2.53:53".to_vec(),
        vec![1, 2, 3],
    );
    assert!(matches!(&factory.tls, TlsSource::Root(der) if der == &vec![1, 2, 3]));
    let engines = match factory.into_backend() {
        Ok(engines) => engines,
        Err(error) => panic!("the configuration is usable: {error:?}"),
    };
    assert!(engines.http.has_tls && engines.tcp.has_resolver && engines.lookups.has_resolver);

    let broken = EngineConfig {
        max_connections: 0,
        ..config()
    };
    match NativeHttpFactory::new_with_system_dns(&broken).into_backend() {
        Err(error) => assert_eq!(error.message(), "native connection limits are invalid"),
        Ok(_) => panic!("limits of zero must be refused"),
    }
}

#[test]
fn stages_are_portable() {
    let error = decode_fragmented(false, b"", true, LIMITS).unwrap_err();
    assert_eq!(error.transport_stage(), Some(TransportStage::Receive));
}
