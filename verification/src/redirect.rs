//! Redirects: where a response points to, and the request that follows it.

use crate::fields::{has_name, is_named};
use crate::origin::{find_origin, is_same_origin, origin_of, same_origin, OriginView};
use crate::text::{ascii_whitespace, trim_ascii_whitespace, trimmed, wire};
use crate::types::{
    header_views, plain_error, Error, ErrorKind, ErrorView, Header, HeaderView, Method, Request,
    RequestView, Response,
};
use vstd::prelude::*;
use vstd::string::*;
use vstd::utf8::{decode_utf8, valid_utf8};

verus! {

/// Calls `std::str::from_utf8`.
///
/// Claimed of it: it succeeds exactly on valid UTF-8, and the text has those bytes.
#[verifier::external_body]
pub(crate) fn utf8_text(bytes: &[u8]) -> (result: Option<&str>)
    ensures
        result is Some <==> valid_utf8(bytes@),
        result matches Some(text) ==> text@ == decode_utf8(bytes@),
{
    std::str::from_utf8(bytes).ok()
}

/// What `url` makes of an absolute URL: its normal form, where it is one.
pub uninterp spec fn url_parse(text: Seq<char>) -> Option<Seq<char>>;

/// What `url` makes of a reference against an absolute base: the normal form of the URL that it
/// leads to, where there is one.
pub uninterp spec fn url_join(base: Seq<char>, reference: Seq<char>) -> Option<Seq<char>>;

/// What an optional text holds.
pub open spec fn text_view(text: Option<String>) -> Option<Seq<char>> {
    match text {
        Some(text) => Some(text@),
        None => None,
    }
}

/// Calls `url::Url::parse`.
///
/// Claimed of it: the outcome depends on the text alone. Which texts are absolute URLs, and their
/// normal form, is left unsaid.
#[verifier::external_body]
pub(crate) fn parse_url(text: &str) -> (result: Option<String>)
    ensures
        text_view(result) == url_parse(text@),
{
    url::Url::parse(text).ok().map(String::from)
}

/// Calls `url::Url::join` on the URL that `base` denotes.
///
/// Claimed of it: the outcome depends on the base and the reference alone, and there is none where
/// the base is not an absolute URL. Where a reference leads to is left unsaid.
#[verifier::external_body]
pub(crate) fn join_url(base: &str, reference: &str) -> (result: Option<String>)
    ensures
        text_view(result) == url_join(base@, reference@),
        url_parse(base@) is None ==> result is None,
{
    url::Url::parse(base).ok()?.join(reference).ok().map(String::from)
}

/// The text of the `Location` field among some fields. A second such field is ambiguous.
pub open spec fn location_text(headers: Seq<HeaderView>) -> Result<Option<Seq<char>>, ErrorView>
    decreases headers.len(),
{
    if headers.len() == 0 {
        Ok(None)
    } else {
        match location_text(headers.drop_last()) {
            Err(error) => Err(error),
            Ok(earlier) => if !is_named(headers.last(), "location"@) {
                Ok(earlier)
            } else if earlier is Some {
                Err(
                    plain_error(
                        ErrorKind::Redirect,
                        "a redirect response contained more than one Location field"@,
                    ),
                )
            } else {
                let value = trimmed(headers.last().value, ascii_whitespace());
                if valid_utf8(value) {
                    Ok(Some(decode_utf8(value)))
                } else {
                    Err(
                        plain_error(
                            ErrorKind::Redirect,
                            "a redirect Location was not valid UTF-8"@,
                        ),
                    )
                }
            },
        }
    }
}

proof fn lemma_location_text_prefix_error(headers: Seq<HeaderView>, end: int)
    requires
        0 <= end <= headers.len(),
        location_text(headers.take(end)) is Err,
    ensures
        location_text(headers) == location_text(headers.take(end)),
    decreases headers.len() - end,
{
    if end < headers.len() {
        assert(headers.take(end + 1).drop_last() =~= headers.take(end));
        lemma_location_text_prefix_error(headers, end + 1);
    } else {
        assert(headers.take(end) =~= headers);
    }
}

/// The text of the `Location` field among some fields.
pub fn redirect_location(headers: &[Header]) -> (result: Result<Option<String>, Error>)
    ensures
        match result {
            Ok(location) => location_text(header_views(headers@)) == Ok::<
                Option<Seq<char>>,
                ErrorView,
            >(text_view(location)),
            Err(error) => location_text(header_views(headers@)) == Err::<
                Option<Seq<char>>,
                ErrorView,
            >(error@),
        },
{
    let ghost views = header_views(headers@);
    let mut location: Option<String> = None;
    let mut i: usize = 0;
    assert(views.take(0) =~= Seq::empty());
    while i < headers.len()
        invariant
            views == header_views(headers@),
            i <= headers@.len(),
            location_text(views.take(i as int)) == Ok::<Option<Seq<char>>, ErrorView>(
                text_view(location),
            ),
        decreases headers@.len() - i,
    {
        proof {
            assert(views[i as int] == headers@[i as int]@);
            assert(views.take(i + 1).drop_last() =~= views.take(i as int));
            if location_text(views.take(i + 1)) is Err {
                lemma_location_text_prefix_error(views, i + 1);
            }
        }
        if has_name(&headers[i], "location") {
            if location.is_some() {
                return Err(
                    Error::new(
                        ErrorKind::Redirect,
                        "a redirect response contained more than one Location field",
                    ),
                );
            }
            match utf8_text(trim_ascii_whitespace(headers[i].value())) {
                Some(text) => {
                    location = Some(text.to_owned());
                },
                None => {
                    return Err(
                        Error::new(ErrorKind::Redirect, "a redirect Location was not valid UTF-8"),
                    );
                },
            }
        }
        i += 1;
    }
    assert(views.take(i as int) =~= views);
    Ok(location)
}

/// The target of a redirect, given whether its source is an absolute URL and where the reference
/// leads to.
pub open spec fn target_outcome(source: Option<Seq<char>>, joined: Option<Seq<char>>) -> Result<
    Option<Seq<char>>,
    ErrorView,
> {
    if source is None {
        Err(
            plain_error(
                ErrorKind::Redirect,
                "the redirect source URL could not be resolved"@,
            ),
        )
    } else if joined is None {
        Err(
            plain_error(ErrorKind::Redirect, "the redirect Location could not be resolved"@),
        )
    } else {
        Ok(joined)
    }
}

/// Decides the target of a redirect, given the normal form of its source and of the URL that the
/// reference leads to.
pub fn settle_target(source: Option<String>, joined: Option<String>) -> (result: Result<
    Option<String>,
    Error,
>)
    ensures
        match result {
            Ok(target) => target_outcome(text_view(source), text_view(joined)) == Ok::<
                Option<Seq<char>>,
                ErrorView,
            >(text_view(target)),
            Err(error) => target_outcome(text_view(source), text_view(joined)) == Err::<
                Option<Seq<char>>,
                ErrorView,
            >(error@),
        },
{
    if source.is_none() {
        return Err(
            Error::new(ErrorKind::Redirect, "the redirect source URL could not be resolved"),
        );
    }
    match joined {
        Some(target) => Ok(Some(target)),
        None => Err(
            Error::new(ErrorKind::Redirect, "the redirect Location could not be resolved"),
        ),
    }
}

/// Where a response with some fields to a request for `url` points to. Without a `Location` field
/// it points nowhere.
pub open spec fn redirect_target(url: Seq<char>, headers: Seq<HeaderView>) -> Result<
    Option<Seq<char>>,
    ErrorView,
> {
    match location_text(headers) {
        Err(error) => Err(error),
        Ok(None) => Ok(None),
        Ok(Some(location)) => target_outcome(url_parse(url), url_join(url, location)),
    }
}

/// Where a response points to.
pub fn resolved_redirect_target(request: &Request, response: &Response) -> (result: Result<
    Option<String>,
    Error,
>)
    ensures
        match result {
            Ok(target) => redirect_target(request@.url, response@.headers) == Ok::<
                Option<Seq<char>>,
                ErrorView,
            >(text_view(target)),
            Err(error) => redirect_target(request@.url, response@.headers) == Err::<
                Option<Seq<char>>,
                ErrorView,
            >(error@),
        },
{
    resolved_redirect_target_from_headers(request, response.headers.as_slice())
}

/// Where a response with some fields points to.
pub fn resolved_redirect_target_from_headers(request: &Request, headers: &[Header]) -> (result:
    Result<Option<String>, Error>)
    ensures
        match result {
            Ok(target) => redirect_target(request@.url, header_views(headers@)) == Ok::<
                Option<Seq<char>>,
                ErrorView,
            >(text_view(target)),
            Err(error) => redirect_target(request@.url, header_views(headers@)) == Err::<
                Option<Seq<char>>,
                ErrorView,
            >(error@),
        },
{
    let location = match redirect_location(headers)? {
        Some(location) => location,
        None => {
            return Ok(None);
        },
    };
    let source = parse_url(request.url.as_str());
    let joined = join_url(request.url.as_str(), location.as_str());
    settle_target(source, joined)
}

/// How a redirect status is followed.
#[derive(Clone, Copy, Debug, PartialEq, Eq, Structural)]
pub enum RedirectRule {
    /// The same method with the same body.
    Repeat,
    /// GET without a body; HEAD stays HEAD.
    Fetch,
    /// Not at all: the response stands.
    Stand,
}

/// How a redirect status is followed. Statuses that used to be followed with a changed method are
/// followed only for methods that nothing would change.
pub open spec fn redirect_rule(method: Method, status: u16) -> RedirectRule {
    if status == 301 || status == 302 {
        if method is Get || method is Head {
            RedirectRule::Repeat
        } else {
            RedirectRule::Stand
        }
    } else if status == 303 {
        RedirectRule::Fetch
    } else if status == 307 || status == 308 {
        RedirectRule::Repeat
    } else {
        RedirectRule::Stand
    }
}

fn choose_rule(method: &Method, status: u16) -> (result: RedirectRule)
    ensures
        result == redirect_rule(*method, status),
{
    let safe = match method {
        Method::Get => true,
        Method::Head => true,
        _ => false,
    };
    if status == 301 || status == 302 {
        if safe {
            RedirectRule::Repeat
        } else {
            RedirectRule::Stand
        }
    } else if status == 303 {
        RedirectRule::Fetch
    } else if status == 307 || status == 308 {
        RedirectRule::Repeat
    } else {
        RedirectRule::Stand
    }
}

/// A field that is bound to the origin that it was meant for.
pub open spec fn is_origin_bound(header: HeaderView) -> bool {
    is_named(header, "authorization"@) || is_named(header, "proxy-authorization"@) || is_named(
        header,
        "cookie"@,
    ) || is_named(header, "host"@)
}

/// A field that describes the body.
pub open spec fn is_body_framing(header: HeaderView) -> bool {
    is_named(header, "content-length"@) || is_named(header, "transfer-encoding"@)
}

/// Whether a field goes on to the target of a redirect.
pub open spec fn goes_on(header: HeaderView, rule: RedirectRule, same_origin: bool) -> bool {
    !(rule is Fetch && is_body_framing(header)) && (same_origin || !is_origin_bound(header))
}

/// The fields that go on to the target of a redirect, in order.
pub open spec fn forwarded(
    headers: Seq<HeaderView>,
    rule: RedirectRule,
    same_origin: bool,
) -> Seq<HeaderView>
    decreases headers.len(),
{
    if headers.len() == 0 {
        Seq::empty()
    } else {
        let earlier = forwarded(headers.drop_last(), rule, same_origin);
        if goes_on(headers.last(), rule, same_origin) {
            earlier.push(headers.last())
        } else {
            earlier
        }
    }
}

fn forward(headers: &[Header], rule: RedirectRule, same_origin: bool) -> (result: Vec<Header>)
    ensures
        header_views(result@) == forwarded(header_views(headers@), rule, same_origin),
{
    let ghost views = header_views(headers@);
    let mut kept: Vec<Header> = Vec::new();
    let mut i: usize = 0;
    assert(views.take(0) =~= Seq::empty());
    assert(header_views(kept@) =~= Seq::empty());
    while i < headers.len()
        invariant
            views == header_views(headers@),
            i <= headers@.len(),
            header_views(kept@) == forwarded(views.take(i as int), rule, same_origin),
        decreases headers@.len() - i,
    {
        proof {
            assert(views[i as int] == headers@[i as int]@);
            assert(views.take(i + 1).drop_last() =~= views.take(i as int));
        }
        let header = &headers[i];
        let fetch = match rule {
            RedirectRule::Fetch => true,
            _ => false,
        };
        let framing = has_name(header, "content-length") || has_name(header, "transfer-encoding");
        let bound = has_name(header, "authorization") || has_name(header, "proxy-authorization")
            || has_name(header, "cookie") || has_name(header, "host");
        if !(fetch && framing) && (same_origin || !bound) {
            let ghost before = kept@;
            let copy = header.clone();
            kept.push(copy);
            assert(header_views(kept@) =~= header_views(before).push(views[i as int]));
        }
        i += 1;
    }
    assert(views.take(i as int) =~= views);
    kept
}

/// Whether two URLs have one origin.
pub open spec fn shares_origin(source: Seq<char>, target: OriginView) -> bool {
    origin_of(wire(source)) matches Some(origin) && same_origin(origin, target)
}

/// The request for the target of a redirect.
pub open spec fn follow_up(
    request: RequestView,
    rule: RedirectRule,
    target: Seq<char>,
    same_origin: bool,
) -> RequestView {
    RequestView {
        method: if rule is Fetch && !(request.method is Head) {
            Method::Get
        } else {
            request.method
        },
        url: target,
        headers: forwarded(request.headers, rule, same_origin),
        body: if rule is Fetch {
            Seq::empty()
        } else {
            request.body
        },
        ..request
    }
}

/// The request that follows a response, given where the response points to and how many redirects
/// came before. A response that is not a redirect, or points nowhere, stands.
pub open spec fn redirected(
    request: RequestView,
    status: u16,
    hops: u8,
    target: Result<Option<Seq<char>>, ErrorView>,
) -> Result<Option<RequestView>, ErrorView> {
    let rule = redirect_rule(request.method, status);
    if rule is Stand {
        Ok(None)
    } else {
        match target {
            Err(error) => Err(error),
            Ok(None) => Ok(None),
            Ok(Some(url)) => if hops >= request.options.redirect_limit {
                Err(plain_error(ErrorKind::Redirect, "the redirect limit was reached"@))
            } else {
                match origin_of(wire(url)) {
                    None => Err(
                        plain_error(
                            ErrorKind::Redirect,
                            "the redirect target is not an HTTP or HTTPS URL"@,
                        ),
                    ),
                    Some(origin) => Ok(
                        Some(follow_up(request, rule, url, shares_origin(request.url, origin))),
                    ),
                }
            },
        }
    }
}

/// What an optional request holds.
pub open spec fn request_view(request: Option<Request>) -> Option<RequestView> {
    match request {
        Some(request) => Some(request@),
        None => None,
    }
}

/// What the outcome of resolving a target says.
pub open spec fn target_view(target: Result<Option<String>, Error>) -> Result<
    Option<Seq<char>>,
    ErrorView,
> {
    match target {
        Ok(target) => Ok(text_view(target)),
        Err(error) => Err(error@),
    }
}

/// The request that follows a response.
pub fn redirected_request(
    request: &Request,
    status: u16,
    hops: u8,
    target: Result<Option<String>, Error>,
) -> (result: Result<Option<Request>, Error>)
    ensures
        match result {
            Ok(next) => redirected(request@, status, hops, target_view(target)) == Ok::<
                Option<RequestView>,
                ErrorView,
            >(request_view(next)),
            Err(error) => redirected(request@, status, hops, target_view(target)) == Err::<
                Option<RequestView>,
                ErrorView,
            >(error@),
        },
{
    let rule = choose_rule(&request.method, status);
    if let RedirectRule::Stand = rule {
        return Ok(None);
    }
    let url = match target? {
        Some(url) => url,
        None => {
            return Ok(None);
        },
    };
    if hops >= request.options.redirect_limit {
        return Err(Error::new(ErrorKind::Redirect, "the redirect limit was reached"));
    }
    let origin = match find_origin(url.as_str().as_bytes()) {
        Some(origin) => origin,
        None => {
            return Err(
                Error::new(
                    ErrorKind::Redirect,
                    "the redirect target is not an HTTP or HTTPS URL",
                ),
            );
        },
    };
    let same = match find_origin(request.url.as_str().as_bytes()) {
        Some(source) => is_same_origin(&source, &origin),
        None => false,
    };
    let mut next = request.clone();
    next.headers = forward(request.headers.as_slice(), rule, same);
    next.url = url;
    if let RedirectRule::Fetch = rule {
        match next.method {
            Method::Head => {},
            _ => {
                next.method = Method::Get;
            },
        }
        next.body = Vec::new();
        assert(next.body@ =~= Seq::empty());
    }
    Ok(Some(next))
}

/// Fields that are bound to an origin do not leave it: none of them goes on to another origin. Every
/// field that does go on was there before, and within one origin nothing but the framing of a dropped
/// body is left out.
pub proof fn lemma_credentials_stay_with_their_origin(
    headers: Seq<HeaderView>,
    rule: RedirectRule,
    same: bool,
)
    ensures
        !same ==> forall|i: int|
            0 <= i < forwarded(headers, rule, same).len() ==> !is_origin_bound(
                #[trigger] forwarded(headers, rule, same)[i],
            ),
        forall|i: int|
            0 <= i < forwarded(headers, rule, same).len() ==> headers.contains(
                #[trigger] forwarded(headers, rule, same)[i],
            ),
        same && rule is Repeat ==> forwarded(headers, rule, same) == headers,
        rule is Fetch ==> forall|i: int|
            0 <= i < forwarded(headers, rule, same).len() ==> !is_body_framing(
                #[trigger] forwarded(headers, rule, same)[i],
            ),
    decreases headers.len(),
{
    if headers.len() > 0 {
        lemma_credentials_stay_with_their_origin(headers.drop_last(), rule, same);
        let kept = forwarded(headers, rule, same);
        let earlier = forwarded(headers.drop_last(), rule, same);
        assert forall|i: int| 0 <= i < kept.len() implies headers.contains(#[trigger] kept[i]) by {
            if i < earlier.len() {
                assert(headers.drop_last().contains(earlier[i]));
                let j = choose|j: int|
                    0 <= j < headers.drop_last().len() && headers.drop_last()[j] == earlier[i];
                assert(headers[j] == kept[i]);
            } else {
                assert(headers[headers.len() - 1] == kept[i]);
            }
        }
        assert(same && rule is Repeat ==> kept =~= headers);
    }
}

/// A chain of redirects ends: each one that is followed leaves fewer to follow, and once the limit is
/// reached the next one fails.
pub proof fn lemma_redirects_are_bounded(
    request: RequestView,
    status: u16,
    hops: u8,
    target: Result<Option<Seq<char>>, ErrorView>,
)
    ensures
        redirected(request, status, hops, target) matches Ok(Some(next)) ==> {
            &&& hops < request.options.redirect_limit
            &&& next.options == request.options
            &&& origin_of(wire(next.url)) is Some
        },
        hops >= request.options.redirect_limit && !(redirect_rule(
            request.method,
            status,
        ) is Stand) && (target matches Ok(Some(_))) ==> redirected(request, status, hops, target) is Err,
{
}

} // verus!
