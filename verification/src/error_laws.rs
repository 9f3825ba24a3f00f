//! What every error says: its kind, and for some kinds where, which limit, which timeout or what of
//! TLS; and what the texts with numbers in them read.

use crate::failure::{expired, transport_failure, NativeFailureView};
use crate::fields::{
    http_failure, request_bytes_exceeded, request_count_exceeded, response_body_exceeded,
    response_count_exceeded,
};
use crate::framing::{metadata_exceeded, section_exceeded};
use crate::text::decimal;
use crate::types::{
    limit_error, plain_error, timeout_error, tls_error, transport_error, ErrorKind, ErrorView,
    LimitKind, TimeoutKind, TlsFailure, TransportStage,
};
use vstd::prelude::*;
use vstd::string::*;

verus! {

/// Each error has the kind of its cause and says what its cause says, and nothing else.
pub proof fn lemma_errors_say_what_they_are(
    kind: ErrorKind,
    stage: TransportStage,
    limit: LimitKind,
    timeout: TimeoutKind,
    tls: TlsFailure,
    message: Seq<char>,
)
    ensures
        plain_error(kind, message) == (ErrorView {
            kind,
            stage: None,
            limit: None,
            timeout: None,
            tls: None,
            message,
        }),
        transport_error(stage, message) == (ErrorView {
            kind: ErrorKind::Transport,
            stage: Some(stage),
            ..plain_error(kind, message)
        }),
        limit_error(limit, message) == (ErrorView {
            kind: ErrorKind::Limit,
            limit: Some(limit),
            ..plain_error(kind, message)
        }),
        timeout_error(timeout, message) == (ErrorView {
            kind: ErrorKind::Timeout,
            timeout: Some(timeout),
            ..plain_error(kind, message)
        }),
        tls_error(tls, message) == (ErrorView {
            kind: ErrorKind::Tls,
            stage: Some(TransportStage::Tls),
            tls: Some(tls),
            ..plain_error(kind, message)
        }),
        http_failure(message) == transport_error(TransportStage::Http, message),
{
}

/// Each limit that is exceeded is named, with its value in decimal digits.
pub proof fn lemma_exceeded_limits_are_named(limit: nat, context: Seq<char>)
    ensures
        response_body_exceeded(limit) == limit_error(
            LimitKind::ResponseBodyBytes,
            "response body exceeds the configured "@ + decimal(limit) + " byte limit"@,
        ),
        response_count_exceeded(limit) == limit_error(
            LimitKind::ResponseHeaderCount,
            "response headers exceed the configured "@ + decimal(limit) + " field limit"@,
        ),
        request_count_exceeded(limit) == limit_error(
            LimitKind::RequestHeaderCount,
            "request headers exceed the configured "@ + decimal(limit) + " field limit"@,
        ),
        request_bytes_exceeded(limit) == limit_error(
            LimitKind::RequestHeaderBytes,
            "request headers exceed the configured "@ + decimal(limit) + " byte limit"@,
        ),
        section_exceeded(context, limit) == limit_error(
            LimitKind::ResponseHeaderBytes,
            context + " exceeds the configured "@ + decimal(limit) + " byte limit"@,
        ),
        metadata_exceeded(context, limit) == limit_error(
            LimitKind::ResponseHeaderBytes,
            context + " exceeds the configured "@ + decimal(limit)
                + " byte framing-metadata limit"@,
        ),
{
}

/// Each timeout is reported under its own name.
pub proof fn lemma_timeouts_are_named()
    ensures
        expired(TimeoutKind::Connect) == timeout_error(
            TimeoutKind::Connect,
            "the native HTTP connection-establishment timeout expired"@,
        ),
        expired(TimeoutKind::Inactivity) == timeout_error(
            TimeoutKind::Inactivity,
            "the native HTTP inactivity timeout expired"@,
        ),
        expired(TimeoutKind::Total) == timeout_error(
            TimeoutKind::Total,
            "the native HTTP total request timeout expired"@,
        ),
        expired(TimeoutKind::Unknown) == timeout_error(
            TimeoutKind::Unknown,
            "a native HTTP deadline expired without a matching timeout stage"@,
        ),
{
}

/// A failure of the socket layer is reported at the stage where it happened: connecting, receiving or
/// sending.
pub proof fn lemma_socket_failures_are_placed(failure: NativeFailureView)
    ensures
        failure.kind is Connect ==> transport_failure(failure) == transport_error(
            TransportStage::Connect,
            failure.message,
        ),
        failure.kind is Read ==> transport_failure(failure) == transport_error(
            TransportStage::Receive,
            failure.message,
        ),
        failure.kind is Write ==> transport_failure(failure) == transport_error(
            TransportStage::Send,
            failure.message,
        ),
        failure.kind is Internal ==> transport_failure(failure) == plain_error(
            ErrorKind::Internal,
            failure.message,
        ),
        transport_failure(failure).kind is Limit <==> failure.kind is OutboundQueueFull
            || failure.kind is ReceiveLimit,
{
}

} // verus!
