//! What holds of every redirect: which responses are followed, by which request.

use crate::fields::is_named;
use crate::origin::{origin_of, OriginView};
use crate::redirect::{
    forwarded, location_text, redirect_target, redirected, url_join, url_parse, RedirectRule,
};
use crate::text::{ascii_whitespace, same_ignoring_case, trimmed, wire};
use crate::text_laws::{is_all, is_trim, lemma_trimming_leaves_the_middle};
use crate::types::{plain_error, ErrorKind, ErrorView, HeaderView, RequestView};
use vstd::prelude::*;
use vstd::string::*;

verus! {

/// The URL of a request has the scheme, the host, up to case, and the port of an origin.
pub open spec fn is_at(request: RequestView, origin: OriginView) -> bool {
    origin_of(wire(request.url)) matches Some(source) && source.scheme == origin.scheme
        && source.port == origin.port && same_ignoring_case(source.host, origin.host)
}

/// Whether a field may go to another origin: it is neither a credential, a cookie nor the name of the
/// host.
pub open spec fn may_leave(header: HeaderView) -> bool {
    !is_named(header, "authorization"@) && !is_named(header, "proxy-authorization"@) && !is_named(
        header,
        "cookie"@,
    ) && !is_named(header, "host"@)
}

/// Whether a field says how long a body is.
pub open spec fn tells_length(header: HeaderView) -> bool {
    is_named(header, "content-length"@) || is_named(header, "transfer-encoding"@)
}

proof fn lemma_forwarded_is_filtered(headers: Seq<HeaderView>, fetch: bool, same: bool)
    ensures
        forwarded(
            headers,
            if fetch {
                RedirectRule::Fetch
            } else {
                RedirectRule::Repeat
            },
            same,
        ) == headers.filter(
            |header: HeaderView| (same || may_leave(header)) && !(fetch && tells_length(header)),
        ),
    decreases headers.len(),
{
    reveal(Seq::filter);
    if headers.len() > 0 {
        lemma_forwarded_is_filtered(headers.drop_last(), fetch, same);
    } else {
        assert(forwarded(
            headers,
            if fetch {
                RedirectRule::Fetch
            } else {
                RedirectRule::Repeat
            },
            same,
        ) =~= headers);
    }
}

/// A GET or HEAD request that is answered with 301, 302, 303, 307 or 308 and a usable location is
/// followed by a request for that location with the same method and the same options, as long as
/// there were fewer redirects than the request allows.
pub proof fn lemma_safe_requests_follow_every_redirect(
    request: RequestView,
    status: u16,
    hops: u8,
    target: Seq<char>,
)
    requires
        request.method is Get || request.method is Head,
        status == 301 || status == 302 || status == 303 || status == 307 || status == 308,
        hops < request.options.redirect_limit,
        origin_of(wire(target)) is Some,
    ensures
        redirected(request, status, hops, Ok(Some(target))) matches Ok(Some(next)) && {
            &&& next.method == request.method
            &&& next.url == target
            &&& next.options == request.options
            &&& next.rejection == request.rejection
            &&& status != 303 ==> next.body == request.body
            &&& status == 303 ==> next.body == Seq::<u8>::empty()
        },
{
}

/// A request with any other method is repeated with its body on 307 and 308, becomes a GET without a
/// body on 303, and is left alone on 301 and 302: the response stands.
pub proof fn lemma_unsafe_requests_are_not_changed_silently(
    request: RequestView,
    status: u16,
    hops: u8,
    target: Seq<char>,
)
    requires
        !(request.method is Get),
        !(request.method is Head),
        hops < request.options.redirect_limit,
        origin_of(wire(target)) is Some,
    ensures
        status == 301 || status == 302 ==> redirected(request, status, hops, Ok(Some(target)))
            == Ok::<Option<RequestView>, ErrorView>(None),
        status == 303 ==> (redirected(request, status, hops, Ok(Some(target))) matches Ok(Some(next))
            && next.method is Get && next.body == Seq::<u8>::empty() && next.url == target
            && next.options == request.options),
        status == 307 || status == 308 ==> (redirected(
            request,
            status,
            hops,
            Ok(Some(target)),
        ) matches Ok(Some(next)) && next.method == request.method && next.body == request.body
            && next.url == target && next.options == request.options),
{
}

/// A response with any other status stands, whatever it points to, and so does one that points
/// nowhere.
pub proof fn lemma_other_responses_stand(
    request: RequestView,
    status: u16,
    hops: u8,
    target: Result<Option<Seq<char>>, ErrorView>,
)
    ensures
        status != 301 && status != 302 && status != 303 && status != 307 && status != 308
            ==> redirected(request, status, hops, target) == Ok::<Option<RequestView>, ErrorView>(
            None,
        ),
        redirected(request, status, hops, Ok(None)) == Ok::<Option<RequestView>, ErrorView>(None),
{
}

/// A redirect that would be followed fails once there were as many as the request allows, and one to
/// anything but an HTTP or HTTPS URL always fails.
pub proof fn lemma_unusable_redirects_fail(
    request: RequestView,
    status: u16,
    hops: u8,
    target: Seq<char>,
)
    requires
        status == 303 || status == 307 || status == 308 || ((status == 301 || status == 302) && (
        request.method is Get || request.method is Head)),
    ensures
        hops >= request.options.redirect_limit ==> redirected(
            request,
            status,
            hops,
            Ok(Some(target)),
        ) == Err::<Option<RequestView>, ErrorView>(
            plain_error(ErrorKind::Redirect, "the redirect limit was reached"@),
        ),
        hops < request.options.redirect_limit && origin_of(wire(target)) is None ==> redirected(
            request,
            status,
            hops,
            Ok(Some(target)),
        ) == Err::<Option<RequestView>, ErrorView>(
            plain_error(
                ErrorKind::Redirect,
                "the redirect target is not an HTTP or HTTPS URL"@,
            ),
        ),
        forall|error: ErrorView|
            #[trigger] redirected(request, status, hops, Err(error)) == Err::<
                Option<RequestView>,
                ErrorView,
            >(error),
{
}

/// The fields of a request go on to the next one in their order: all of them but the length of a body
/// that was dropped, and, to another origin, all but credentials, cookies and the name of the host.
pub proof fn lemma_redirects_keep_the_other_fields(
    request: RequestView,
    status: u16,
    hops: u8,
    target: Seq<char>,
    origin: OriginView,
)
    requires
        origin_of(wire(target)) == Some(origin),
    ensures
        redirected(request, status, hops, Ok(Some(target))) matches Ok(Some(next)) ==> next.headers
            == request.headers.filter(
            |header: HeaderView|
                (is_at(request, origin) || may_leave(header)) && !(status == 303 && tells_length(
                    header,
                )),
        ),
{
    lemma_forwarded_is_filtered(request.headers, status == 303, is_at(request, origin));
    if redirected(request, status, hops, Ok(Some(target))) is Ok {
        let same = is_at(request, origin);
        let fetch = status == 303;
        assert((|header: HeaderView| (same || may_leave(header)) && !(fetch && tells_length(header)))
            =~= (|header: HeaderView|
            (is_at(request, origin) || may_leave(header)) && !(status == 303 && tells_length(
                header,
            ))));
    }
}

proof fn lemma_no_location(headers: Seq<HeaderView>)
    requires
        forall|i: int| 0 <= i < headers.len() ==> !is_named(#[trigger] headers[i], "location"@),
    ensures
        location_text(headers) == Ok::<Option<Seq<char>>, ErrorView>(None),
    decreases headers.len(),
{
    if headers.len() > 0 {
        assert(headers.last() == headers[headers.len() - 1]);
        assert forall|i: int| 0 <= i < headers.drop_last().len() implies !is_named(
            #[trigger] headers.drop_last()[i],
            "location"@,
        ) by {
            assert(headers.drop_last()[i] == headers[i]);
        }
        lemma_no_location(headers.drop_last());
    }
}

proof fn lemma_one_location(headers: Seq<HeaderView>, at: int)
    requires
        0 <= at < headers.len(),
        forall|i: int|
            0 <= i < headers.len() ==> (is_named(#[trigger] headers[i], "location"@) <==> i == at),
        vstd::utf8::valid_utf8(trimmed(headers[at].value, ascii_whitespace())),
    ensures
        location_text(headers) == Ok::<Option<Seq<char>>, ErrorView>(
            Some(vstd::utf8::decode_utf8(trimmed(headers[at].value, ascii_whitespace()))),
        ),
    decreases headers.len(),
{
    let front = headers.drop_last();
    assert forall|i: int| 0 <= i < front.len() implies (is_named(#[trigger] front[i], "location"@)
        <==> i == at) by {
        assert(front[i] == headers[i]);
    }
    assert(headers.last() == headers[headers.len() - 1]);
    if at == headers.len() - 1 {
        lemma_no_location(front);
    } else {
        assert(front[at] == headers[at]);
        lemma_one_location(front, at);
    }
}

/// A response points to what its one `Location` field says, white space around it aside, taken against
/// the URL of the request; without such a field it points nowhere.
pub proof fn lemma_responses_point_to_their_location(
    url: Seq<char>,
    headers: Seq<HeaderView>,
    at: int,
    before: Seq<u8>,
    location: Seq<char>,
    after: Seq<u8>,
)
    requires
        forall|i: int|
            0 <= i < headers.len() ==> (is_named(#[trigger] headers[i], "location"@) <==> i == at),
        0 <= at < headers.len() ==> headers[at].value == before + wire(location) + after,
        is_all(before, ascii_whitespace()),
        is_all(after, ascii_whitespace()),
        is_trim(wire(location), ascii_whitespace()),
    ensures
        !(0 <= at < headers.len()) ==> redirect_target(url, headers) == Ok::<
            Option<Seq<char>>,
            ErrorView,
        >(None),
        0 <= at < headers.len() && url_parse(url) is Some && url_join(url, location) is Some
            ==> redirect_target(url, headers) == Ok::<Option<Seq<char>>, ErrorView>(
            url_join(url, location),
        ),
        0 <= at < headers.len() && url_parse(url) is Some && url_join(url, location) is None
            ==> redirect_target(url, headers) == Err::<Option<Seq<char>>, ErrorView>(
            plain_error(ErrorKind::Redirect, "the redirect Location could not be resolved"@),
        ),
        0 <= at < headers.len() && url_parse(url) is None ==> redirect_target(url, headers) == Err::<
            Option<Seq<char>>,
            ErrorView,
        >(plain_error(ErrorKind::Redirect, "the redirect source URL could not be resolved"@)),
{
    broadcast use vstd::utf8::encode_utf8_valid_utf8;
    broadcast use vstd::utf8::encode_utf8_decode_utf8;

    if 0 <= at < headers.len() {
        lemma_trimming_leaves_the_middle(before, wire(location), after, ascii_whitespace());
        lemma_one_location(headers, at);
    } else {
        lemma_no_location(headers);
    }
}

/// A second `Location` field makes a response ambiguous.
pub proof fn lemma_two_locations_are_ambiguous(headers: Seq<HeaderView>, first: int, second: int)
    requires
        0 <= first < second < headers.len(),
        is_named(headers[first], "location"@),
        is_named(headers[second], "location"@),
    ensures
        location_text(headers) is Err,
    decreases headers.len(),
{
    let front = headers.drop_last();
    if second < headers.len() - 1 {
        lemma_two_locations_are_ambiguous(front, first, second);
    } else {
        assert(front[first] == headers[first]);
        lemma_location_is_noticed(front, first);
    }
}

proof fn lemma_location_is_noticed(headers: Seq<HeaderView>, at: int)
    requires
        0 <= at < headers.len(),
        is_named(headers[at], "location"@),
    ensures
        location_text(headers) != Ok::<Option<Seq<char>>, ErrorView>(None),
    decreases headers.len(),
{
    if at < headers.len() - 1 {
        assert(headers.drop_last()[at] == headers[at]);
        lemma_location_is_noticed(headers.drop_last(), at);
    }
}

} // verus!
