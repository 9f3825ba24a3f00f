//! Values exchanged with callers: errors, header fields, requests, responses and limits.

use vstd::prelude::*;
use vstd::string::*;

verus! {

/// What went wrong, in the broadest terms.
#[derive(Clone, Copy, Debug, PartialEq, Eq, Structural)]
pub enum ErrorKind {
    InvalidRequest,
    Unsupported,
    Redirect,
    Limit,
    Timeout,
    Transport,
    Tls,
    Closed,
    Internal,
}

/// Which configured bound was exceeded.
#[derive(Clone, Copy, Debug, PartialEq, Eq, Structural)]
pub enum LimitKind {
    RequestHeaderBytes,
    RequestHeaderCount,
    RequestBodyBytes,
    ResponseHeaderBytes,
    ResponseHeaderCount,
    ResponseBodyBytes,
}

/// The part of an exchange in which a transport failure arose.
#[derive(Clone, Copy, Debug, PartialEq, Eq, Structural)]
pub enum TransportStage {
    Dns,
    Connect,
    Tls,
    Send,
    Receive,
    Http,
}

/// Which deadline passed.
#[derive(Clone, Copy, Debug, PartialEq, Eq, Structural)]
pub enum TimeoutKind {
    Connect,
    Inactivity,
    Total,
    Unknown,
}

/// The class of a TLS failure.
#[derive(Clone, Copy, Debug, PartialEq, Eq, Structural)]
pub enum TlsFailure {
    Io,
    Protocol,
    Certificate,
}

/// A failure: its kind, the detail that goes with that kind, and a message.
#[derive(Debug, PartialEq, Eq)]
pub struct Error {
    pub kind: ErrorKind,
    pub stage: Option<TransportStage>,
    pub limit: Option<LimitKind>,
    pub timeout: Option<TimeoutKind>,
    pub tls: Option<TlsFailure>,
    pub message: String,
}

/// What an [`Error`] says.
#[verifier::ext_equal]
pub struct ErrorView {
    pub kind: ErrorKind,
    pub stage: Option<TransportStage>,
    pub limit: Option<LimitKind>,
    pub timeout: Option<TimeoutKind>,
    pub tls: Option<TlsFailure>,
    pub message: Seq<char>,
}

impl View for Error {
    type V = ErrorView;

    open spec fn view(&self) -> ErrorView {
        ErrorView {
            kind: self.kind,
            stage: self.stage,
            limit: self.limit,
            timeout: self.timeout,
            tls: self.tls,
            message: self.message@,
        }
    }
}

/// An error of a kind that carries no further detail.
pub open spec fn plain_error(kind: ErrorKind, message: Seq<char>) -> ErrorView {
    ErrorView { kind, stage: None, limit: None, timeout: None, tls: None, message }
}

/// A transport failure at `stage`.
pub open spec fn transport_error(stage: TransportStage, message: Seq<char>) -> ErrorView {
    ErrorView {
        kind: ErrorKind::Transport,
        stage: Some(stage),
        limit: None,
        timeout: None,
        tls: None,
        message,
    }
}

/// An exceeded bound.
pub open spec fn limit_error(limit: LimitKind, message: Seq<char>) -> ErrorView {
    ErrorView {
        kind: ErrorKind::Limit,
        stage: None,
        limit: Some(limit),
        timeout: None,
        tls: None,
        message,
    }
}

/// A deadline that passed.
pub open spec fn timeout_error(timeout: TimeoutKind, message: Seq<char>) -> ErrorView {
    ErrorView {
        kind: ErrorKind::Timeout,
        stage: None,
        limit: None,
        timeout: Some(timeout),
        tls: None,
        message,
    }
}

/// A TLS failure.
pub open spec fn tls_error(tls: TlsFailure, message: Seq<char>) -> ErrorView {
    ErrorView {
        kind: ErrorKind::Tls,
        stage: Some(TransportStage::Tls),
        limit: None,
        timeout: None,
        tls: Some(tls),
        message,
    }
}

impl Error {
    /// An error of a kind that carries no further detail.
    pub fn new(kind: ErrorKind, message: &str) -> (result: Self)
        ensures
            result@ == plain_error(kind, message@),
    {
        Error { kind, stage: None, limit: None, timeout: None, tls: None, message: message.to_owned() }
    }

    /// A transport failure at `stage`.
    pub fn transport(stage: TransportStage, message: &str) -> (result: Self)
        ensures
            result@ == transport_error(stage, message@),
    {
        Error {
            kind: ErrorKind::Transport,
            stage: Some(stage),
            limit: None,
            timeout: None,
            tls: None,
            message: message.to_owned(),
        }
    }

    /// An exceeded bound.
    pub fn limit(limit: LimitKind, message: &str) -> (result: Self)
        ensures
            result@ == limit_error(limit, message@),
    {
        Error {
            kind: ErrorKind::Limit,
            stage: None,
            limit: Some(limit),
            timeout: None,
            tls: None,
            message: message.to_owned(),
        }
    }

    /// A deadline that passed.
    pub fn timeout(timeout: TimeoutKind, message: &str) -> (result: Self)
        ensures
            result@ == timeout_error(timeout, message@),
    {
        Error {
            kind: ErrorKind::Timeout,
            stage: None,
            limit: None,
            timeout: Some(timeout),
            tls: None,
            message: message.to_owned(),
        }
    }

    /// A TLS failure.
    pub fn tls(tls: TlsFailure, message: &str) -> (result: Self)
        ensures
            result@ == tls_error(tls, message@),
    {
        Error {
            kind: ErrorKind::Tls,
            stage: Some(TransportStage::Tls),
            limit: None,
            timeout: None,
            tls: Some(tls),
            message: message.to_owned(),
        }
    }

    pub fn kind(&self) -> (result: ErrorKind)
        ensures
            result == self@.kind,
    {
        self.kind
    }

    pub fn transport_stage(&self) -> (result: Option<TransportStage>)
        ensures
            result == self@.stage,
    {
        self.stage
    }

    pub fn limit_kind(&self) -> (result: Option<LimitKind>)
        ensures
            result == self@.limit,
    {
        self.limit
    }

    pub fn timeout_kind(&self) -> (result: Option<TimeoutKind>)
        ensures
            result == self@.timeout,
    {
        self.timeout
    }

    pub fn tls_failure(&self) -> (result: Option<TlsFailure>)
        ensures
            result == self@.tls,
    {
        self.tls
    }

    pub fn message(&self) -> (result: &str)
        ensures
            result@ == self@.message,
    {
        self.message.as_str()
    }
}

impl Clone for Error {
    fn clone(&self) -> (result: Self)
        ensures
            result@ == self@,
    {
        Error {
            kind: self.kind,
            stage: self.stage,
            limit: self.limit,
            timeout: self.timeout,
            tls: self.tls,
            message: self.message.clone(),
        }
    }
}

/// A header field.
#[derive(Debug, PartialEq, Eq)]
pub struct Header {
    pub name: String,
    pub value: Vec<u8>,
}

/// The name and value of a [`Header`].
#[verifier::ext_equal]
pub struct HeaderView {
    pub name: Seq<char>,
    pub value: Seq<u8>,
}

impl View for Header {
    type V = HeaderView;

    open spec fn view(&self) -> HeaderView {
        HeaderView { name: self.name@, value: self.value@ }
    }
}

impl Header {
    pub fn new(name: &str, value: Vec<u8>) -> (result: Self)
        ensures
            result@ == (HeaderView { name: name@, value: value@ }),
    {
        Header { name: name.to_owned(), value }
    }

    pub fn name(&self) -> (result: &str)
        ensures
            result@ == self@.name,
    {
        self.name.as_str()
    }

    pub fn value(&self) -> (result: &[u8])
        ensures
            result@ == self@.value,
    {
        self.value.as_slice()
    }
}

/// A copy of a byte string.
pub fn copy_bytes(bytes: &[u8]) -> (result: Vec<u8>)
    ensures
        result@ == bytes@,
{
    let mut copy: Vec<u8> = Vec::new();
    copy.extend_from_slice(bytes);
    assert(copy@ =~= bytes@);
    copy
}

impl Clone for Header {
    fn clone(&self) -> (result: Self)
        ensures
            result@ == self@,
    {
        Header { name: self.name.clone(), value: copy_bytes(self.value.as_slice()) }
    }
}

/// The fields of a header section, in order.
pub open spec fn header_views(headers: Seq<Header>) -> Seq<HeaderView> {
    Seq::new(headers.len(), |i: int| headers[i]@)
}

/// A copy of a header section.
pub fn copy_headers(headers: &[Header]) -> (result: Vec<Header>)
    ensures
        header_views(result@) == header_views(headers@),
{
    let mut copy: Vec<Header> = Vec::new();
    let mut i: usize = 0;
    while i < headers.len()
        invariant
            i <= headers@.len(),
            copy@.len() == i,
            forall|j: int| 0 <= j < i ==> (#[trigger] copy@[j])@ == headers@[j]@,
        decreases headers@.len() - i,
    {
        let header = headers[i].clone();
        copy.push(header);
        i += 1;
    }
    assert(header_views(copy@) =~= header_views(headers@));
    copy
}

/// A request method.
#[derive(Debug, PartialEq, Eq)]
pub enum Method {
    Get,
    Head,
    Post,
    Put,
    Patch,
    Delete,
    Other(String),
}

/// The name of a request method.
pub open spec fn method_text(method: Method) -> Seq<char> {
    match method {
        Method::Get => "GET"@,
        Method::Head => "HEAD"@,
        Method::Post => "POST"@,
        Method::Put => "PUT"@,
        Method::Patch => "PATCH"@,
        Method::Delete => "DELETE"@,
        Method::Other(name) => name@,
    }
}

/// The name of a request method.
pub fn method_name(method: &Method) -> (result: &str)
    ensures
        result@ == method_text(*method),
{
    match method {
        Method::Get => "GET",
        Method::Head => "HEAD",
        Method::Post => "POST",
        Method::Put => "PUT",
        Method::Patch => "PATCH",
        Method::Delete => "DELETE",
        Method::Other(name) => name.as_str(),
    }
}

impl Clone for Method {
    fn clone(&self) -> (result: Self)
        ensures
            result == *self,
    {
        match self {
            Method::Get => Method::Get,
            Method::Head => Method::Head,
            Method::Post => Method::Post,
            Method::Put => Method::Put,
            Method::Patch => Method::Patch,
            Method::Delete => Method::Delete,
            Method::Other(name) => Method::Other(name.clone()),
        }
    }
}

/// Whether the certificate of an HTTPS peer is checked.
#[derive(Clone, Copy, Debug, PartialEq, Eq, Structural)]
pub enum TlsVerification {
    Platform,
    DangerouslyDisableCertificateVerification,
}

/// Per-request policy. Durations are counted in nanoseconds.
#[derive(Clone, Copy, Debug, PartialEq, Eq, Structural)]
pub struct Options {
    pub connect_timeout: Option<u64>,
    pub total_timeout: Option<u64>,
    pub inactivity_timeout: Option<u64>,
    pub tls_verification: TlsVerification,
    pub redirect_limit: u8,
}

/// A request with a body held in memory.
///
/// The rules that every request obeys are decided where it is built; a request that broke one of
/// them keeps the reason in `rejection`.
#[derive(Debug, PartialEq, Eq)]
pub struct Request {
    pub method: Method,
    pub url: String,
    pub headers: Vec<Header>,
    pub body: Vec<u8>,
    pub options: Options,
    pub rejection: Option<Error>,
}

/// What a [`Request`] holds.
#[verifier::ext_equal]
pub struct RequestView {
    pub method: Method,
    pub url: Seq<char>,
    pub headers: Seq<HeaderView>,
    pub body: Seq<u8>,
    pub options: Options,
    pub rejection: Option<ErrorView>,
}

/// What an optional error says.
pub open spec fn rejection_view(rejection: Option<Error>) -> Option<ErrorView> {
    match rejection {
        Some(error) => Some(error@),
        None => None,
    }
}

impl View for Request {
    type V = RequestView;

    open spec fn view(&self) -> RequestView {
        RequestView {
            method: self.method,
            url: self.url@,
            headers: header_views(self.headers@),
            body: self.body@,
            options: self.options,
            rejection: rejection_view(self.rejection),
        }
    }
}

impl Request {
    /// A request without headers or body, with no timeouts and up to ten redirects.
    pub fn new(method: Method, url: &str) -> (result: Self)
        ensures
            result@ == (RequestView {
                method,
                url: url@,
                headers: Seq::empty(),
                body: Seq::empty(),
                options: default_options(),
                rejection: None,
            }),
    {
        let request = Request {
            method,
            url: url.to_owned(),
            headers: Vec::new(),
            body: Vec::new(),
            options: Options {
                connect_timeout: None,
                total_timeout: None,
                inactivity_timeout: None,
                tls_verification: TlsVerification::Platform,
                redirect_limit: 10,
            },
            rejection: None,
        };
        assert(header_views(request.headers@) =~= Seq::empty());
        request
    }

    pub fn get(url: &str) -> (result: Self)
        ensures
            result@ == (RequestView {
                method: Method::Get,
                url: url@,
                headers: Seq::empty(),
                body: Seq::empty(),
                options: default_options(),
                rejection: None,
            }),
    {
        Request::new(Method::Get, url)
    }

    pub fn post(url: &str) -> (result: Self)
        ensures
            result@ == (RequestView {
                method: Method::Post,
                url: url@,
                headers: Seq::empty(),
                body: Seq::empty(),
                options: default_options(),
                rejection: None,
            }),
    {
        Request::new(Method::Post, url)
    }

    /// Adds a header field after those already present.
    pub fn header(self, name: &str, value: Vec<u8>) -> (result: Self)
        ensures
            result@ == (RequestView {
                headers: self@.headers.push(HeaderView { name: name@, value: value@ }),
                ..self@
            }),
    {
        let mut request = self;
        request.headers.push(Header::new(name, value));
        assert(header_views(request.headers@) =~= self@.headers.push(
            HeaderView { name: name@, value: value@ },
        ));
        request
    }

    /// Replaces the body.
    pub fn body(self, body: Vec<u8>) -> (result: Self)
        ensures
            result@ == (RequestView { body: body@, ..self@ }),
    {
        let mut request = self;
        request.body = body;
        request
    }

    /// Fails with the reason for which the request was refused, if it was.
    pub fn validate(&self) -> (result: Result<(), Error>)
        ensures
            match result {
                Ok(_) => self@.rejection is None,
                Err(error) => self@.rejection == Some(error@),
            },
    {
        match &self.rejection {
            Some(error) => Err(error.clone()),
            None => Ok(()),
        }
    }
}

/// A request has no timeout, checks certificates and follows up to ten redirects, unless it says
/// otherwise.
pub proof fn lemma_requests_are_careful_by_default()
    ensures
        default_options().connect_timeout is None,
        default_options().total_timeout is None,
        default_options().inactivity_timeout is None,
        default_options().tls_verification is Platform,
        default_options().redirect_limit == 10,
{
}

/// No timeouts, certificate checks on, up to ten redirects.
pub open spec fn default_options() -> Options {
    Options {
        connect_timeout: None,
        total_timeout: None,
        inactivity_timeout: None,
        tls_verification: TlsVerification::Platform,
        redirect_limit: 10,
    }
}

impl Clone for Request {
    fn clone(&self) -> (result: Self)
        ensures
            result@ == self@,
    {
        let rejection = match &self.rejection {
            Some(error) => Some(error.clone()),
            None => None,
        };
        Request {
            method: self.method.clone(),
            url: self.url.clone(),
            headers: copy_headers(self.headers.as_slice()),
            body: copy_bytes(self.body.as_slice()),
            options: self.options,
            rejection,
        }
    }
}

/// A complete response.
#[derive(Debug, PartialEq, Eq)]
pub struct Response {
    pub status: u16,
    pub headers: Vec<Header>,
    pub body: Vec<u8>,
}

/// What a [`Response`] holds.
#[verifier::ext_equal]
pub struct ResponseView {
    pub status: u16,
    pub headers: Seq<HeaderView>,
    pub body: Seq<u8>,
}

impl View for Response {
    type V = ResponseView;

    open spec fn view(&self) -> ResponseView {
        ResponseView { status: self.status, headers: header_views(self.headers@), body: self.body@ }
    }
}

impl Response {
    pub fn new(status: u16, headers: Vec<Header>, body: Vec<u8>) -> (result: Self)
        ensures
            result@ == (ResponseView {
                status,
                headers: header_views(headers@),
                body: body@,
            }),
    {
        Response { status, headers, body }
    }

    pub fn status(&self) -> (result: u16)
        ensures
            result == self@.status,
    {
        self.status
    }

    pub fn headers(&self) -> (result: &[Header])
        ensures
            header_views(result@) == self@.headers,
    {
        self.headers.as_slice()
    }

    pub fn body(&self) -> (result: &[u8])
        ensures
            result@ == self@.body,
    {
        self.body.as_slice()
    }
}

/// The status and header section of a response whose body is delivered separately.
#[derive(Debug, PartialEq, Eq)]
pub struct ResponseHead {
    pub status: u16,
    pub headers: Vec<Header>,
}

/// What a [`ResponseHead`] holds.
#[verifier::ext_equal]
pub struct ResponseHeadView {
    pub status: u16,
    pub headers: Seq<HeaderView>,
}

impl View for ResponseHead {
    type V = ResponseHeadView;

    open spec fn view(&self) -> ResponseHeadView {
        ResponseHeadView { status: self.status, headers: header_views(self.headers@) }
    }
}

impl ResponseHead {
    pub fn new(status: u16, headers: Vec<Header>) -> (result: Self)
        ensures
            result@ == (ResponseHeadView { status, headers: header_views(headers@) }),
    {
        ResponseHead { status, headers }
    }

    pub fn status(&self) -> (result: u16)
        ensures
            result == self@.status,
    {
        self.status
    }

    pub fn headers(&self) -> (result: &[Header])
        ensures
            header_views(result@) == self@.headers,
    {
        self.headers.as_slice()
    }
}

impl Clone for ResponseHead {
    fn clone(&self) -> (result: Self)
        ensures
            result@ == self@,
    {
        ResponseHead { status: self.status, headers: copy_headers(self.headers.as_slice()) }
    }
}

/// Bounds on what one exchange may hold in memory.
#[derive(Clone, Copy, Debug, PartialEq, Eq, Structural)]
pub struct HttpLimits {
    pub body_bytes: usize,
    pub header_bytes: usize,
    pub header_count: usize,
}

/// How the body of a streamed upload is delimited.
#[derive(Clone, Copy, Debug, PartialEq, Eq, Structural)]
pub enum UploadFraming {
    Fixed(usize),
    Chunked,
}

} // verus!
