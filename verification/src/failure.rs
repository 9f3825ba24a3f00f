//! Failures that the socket layer reports, and the errors that they become.

use crate::types::{
    limit_error, plain_error, timeout_error, transport_error, Error, ErrorKind, ErrorView, LimitKind,
    TimeoutKind, TransportStage,
};
use vstd::prelude::*;
use vstd::string::*;

verus! {

/// What failed in the socket layer.
#[derive(Clone, Copy, Debug, PartialEq, Eq, Structural)]
pub enum NativeFailureKind {
    Connect,
    Read,
    Write,
    OutboundQueueFull,
    ReceiveLimit,
    Internal,
}

/// A failure that the socket layer reports. A reset by the peer is marked.
#[derive(Debug)]
pub struct NativeFailure {
    pub kind: NativeFailureKind,
    pub message: String,
    pub connection_reset: bool,
}

/// What a [`NativeFailure`] says.
#[verifier::ext_equal]
pub struct NativeFailureView {
    pub kind: NativeFailureKind,
    pub message: Seq<char>,
    pub connection_reset: bool,
}

impl View for NativeFailure {
    type V = NativeFailureView;

    open spec fn view(&self) -> NativeFailureView {
        NativeFailureView {
            kind: self.kind,
            message: self.message@,
            connection_reset: self.connection_reset,
        }
    }
}

/// The error that a failure of the socket layer becomes during an exchange.
pub open spec fn transport_failure(failure: NativeFailureView) -> ErrorView {
    match failure.kind {
        NativeFailureKind::Connect => transport_error(TransportStage::Connect, failure.message),
        NativeFailureKind::Read => transport_error(TransportStage::Receive, failure.message),
        NativeFailureKind::Write => transport_error(TransportStage::Send, failure.message),
        NativeFailureKind::OutboundQueueFull => limit_error(
            LimitKind::RequestBodyBytes,
            "the serialized native request exceeded its bounded send queue"@,
        ),
        NativeFailureKind::ReceiveLimit => limit_error(
            LimitKind::ResponseBodyBytes,
            "the native response exceeded its bounded wire allowance"@,
        ),
        NativeFailureKind::Internal => plain_error(ErrorKind::Internal, failure.message),
    }
}

/// The error that a failure of the socket layer becomes during an exchange.
pub fn native_transport_error(failure: &NativeFailure) -> (result: Error)
    ensures
        result@ == transport_failure(failure@),
{
    match failure.kind {
        NativeFailureKind::Connect => Error::transport(
            TransportStage::Connect,
            failure.message.as_str(),
        ),
        NativeFailureKind::Read => Error::transport(
            TransportStage::Receive,
            failure.message.as_str(),
        ),
        NativeFailureKind::Write => Error::transport(
            TransportStage::Send,
            failure.message.as_str(),
        ),
        NativeFailureKind::OutboundQueueFull => Error::limit(
            LimitKind::RequestBodyBytes,
            "the serialized native request exceeded its bounded send queue",
        ),
        NativeFailureKind::ReceiveLimit => Error::limit(
            LimitKind::ResponseBodyBytes,
            "the native response exceeded its bounded wire allowance",
        ),
        NativeFailureKind::Internal => Error::new(ErrorKind::Internal, failure.message.as_str()),
    }
}

/// The error that a failure of the socket layer becomes where it should not have failed.
pub fn native_internal_error(failure: &NativeFailure) -> (result: Error)
    ensures
        result@ == plain_error(ErrorKind::Internal, failure@.message),
{
    Error::new(ErrorKind::Internal, failure.message.as_str())
}

/// The message of an expired deadline.
pub open spec fn timeout_text(kind: TimeoutKind) -> Seq<char> {
    match kind {
        TimeoutKind::Connect => "the native HTTP connection-establishment timeout expired"@,
        TimeoutKind::Inactivity => "the native HTTP inactivity timeout expired"@,
        TimeoutKind::Total => "the native HTTP total request timeout expired"@,
        TimeoutKind::Unknown => "a native HTTP deadline expired without a matching timeout stage"@,
    }
}

/// The message of an expired deadline.
pub fn native_timeout_message(kind: TimeoutKind) -> (result: &'static str)
    ensures
        result@ == timeout_text(kind),
{
    match kind {
        TimeoutKind::Connect => "the native HTTP connection-establishment timeout expired",
        TimeoutKind::Inactivity => "the native HTTP inactivity timeout expired",
        TimeoutKind::Total => "the native HTTP total request timeout expired",
        TimeoutKind::Unknown => "a native HTTP deadline expired without a matching timeout stage",
    }
}

/// An expired deadline.
pub open spec fn expired(kind: TimeoutKind) -> ErrorView {
    timeout_error(kind, timeout_text(kind))
}

/// An expired deadline.
pub fn expired_error(kind: TimeoutKind) -> (result: Error)
    ensures
        result@ == expired(kind),
{
    Error::timeout(kind, native_timeout_message(kind))
}

/// A public name lookup that took too long.
pub open spec fn public_lookup_expired() -> ErrorView {
    timeout_error(TimeoutKind::Total, "the public resolution total timeout expired"@)
}

/// A standalone connection that took too long to establish.
pub open spec fn standalone_connect_expired() -> ErrorView {
    timeout_error(
        TimeoutKind::Connect,
        "the standalone TCP connection-establishment timeout expired"@,
    )
}

/// A standalone connection that took too long to establish.
pub fn standalone_connect_timeout() -> (result: Error)
    ensures
        result@ == standalone_connect_expired(),
{
    Error::timeout(
        TimeoutKind::Connect,
        "the standalone TCP connection-establishment timeout expired",
    )
}

} // verus!
