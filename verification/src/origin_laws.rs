//! What holds of every URL: which scheme, host, port and path are read out of it.

use crate::origin::{after_last, host_and_port, origin_of, OriginView, Scheme};
use crate::request::{
    authority_len, lemma_scheme_end, request_target, scheme_end, separator_at, TargetView,
};
use crate::text::{
    decimal, decimal_value, is_number, lemma_decimal_round_trips, lemma_first_index_unique,
    same_ignoring_case, wire,
};
use crate::types::{plain_error, ErrorKind, ErrorView};
use vstd::prelude::*;
use vstd::string::*;

verus! {

/// No byte of `text` ends the authority of a URL: there is no `/`, `?` or `#` in it.
pub open spec fn stays_in_authority(text: Seq<u8>) -> bool {
    forall|i: int|
        0 <= i < text.len() ==> #[trigger] text[i] != 0x2f && text[i] != 0x3f && text[i] != 0x23
}

/// A host of visible bytes without `:`, `@`, `[`, `/`, `?` and `#`.
pub open spec fn is_plain_host(host: Seq<u8>) -> bool {
    &&& host.len() > 0
    &&& forall|i: int|
        0 <= i < host.len() ==> 0x21 <= #[trigger] host[i] <= 0x7e && host[i] != 0x3a && host[i]
            != 0x40 && host[i] != 0x5b && host[i] != 0x2f && host[i] != 0x3f && host[i] != 0x23
}

/// What can follow an authority: nothing, or a path, a query or a fragment.
pub open spec fn ends_authority(tail: Seq<u8>) -> bool {
    tail.len() == 0 || tail[0] == 0x2f || tail[0] == 0x3f || tail[0] == 0x23
}

/// The URL with a scheme, an authority and what follows it.
pub open spec fn url_of(scheme: Seq<u8>, authority: Seq<u8>, tail: Seq<u8>) -> Seq<u8> {
    scheme + seq![0x3au8, 0x2f, 0x2f] + authority + tail
}

proof fn lemma_authority_len(authority: Seq<u8>, tail: Seq<u8>)
    requires
        stays_in_authority(authority),
        ends_authority(tail),
    ensures
        authority_len(authority + tail) == authority.len(),
    decreases authority.len(),
{
    let rest = authority + tail;
    if authority.len() == 0 {
        assert(rest =~= tail);
    } else {
        assert(rest[0] == authority[0]);
        assert(rest.skip(1) =~= authority.skip(1) + tail);
        lemma_authority_len(authority.skip(1), tail);
    }
}

/// A URL falls apart into what it was put together from: the scheme ends at the first `://`, and the
/// authority at the first `/`, `?` or `#` behind it.
pub proof fn lemma_url_falls_apart(scheme: Seq<u8>, authority: Seq<u8>, tail: Seq<u8>)
    requires
        forall|i: int| 0 <= i < scheme.len() ==> #[trigger] scheme[i] != 0x3a,
        stays_in_authority(authority),
        ends_authority(tail),
    ensures
        ({
            let url = url_of(scheme, authority, tail);
            let rest = url.skip(scheme.len() as int + 3);
            &&& scheme_end(url) == Some(scheme.len() as int)
            &&& url.take(scheme.len() as int) == scheme
            &&& rest.take(authority_len(rest)) == authority
            &&& rest.skip(authority_len(rest)) == tail
        }),
{
    let url = url_of(scheme, authority, tail);
    let at = scheme.len() as int;
    assert(separator_at(url, at));
    assert forall|earlier: int| earlier < at implies !separator_at(url, earlier) by {
        if 0 <= earlier {
            assert(url[earlier] == scheme[earlier]);
        }
    }
    lemma_scheme_end(url, at);
    let rest = url.skip(at + 3);
    assert(rest =~= authority + tail);
    lemma_authority_len(authority, tail);
    assert(url.take(at) =~= scheme);
    assert(rest.take(authority.len() as int) =~= authority);
    assert(rest.skip(authority.len() as int) =~= tail);
}

proof fn lemma_scheme_names()
    ensures
        wire("http"@) == seq![0x68u8, 0x74, 0x74, 0x70],
        wire("https"@) == seq![0x68u8, 0x74, 0x74, 0x70, 0x73],
{
    broadcast use vstd::utf8::is_ascii_chars_encode_utf8;

    reveal_strlit("http");
    reveal_strlit("https");
    assert(vstd::utf8::is_ascii_chars("http"@));
    assert(vstd::utf8::is_ascii_chars("https"@));
    assert(wire("http"@) =~= seq![0x68u8, 0x74, 0x74, 0x70]);
    assert(wire("https"@) =~= seq![0x68u8, 0x74, 0x74, 0x70, 0x73]);
}

proof fn lemma_scheme_is_one_word(scheme: Seq<u8>, name: Seq<u8>)
    requires
        same_ignoring_case(scheme, name),
        forall|i: int| 0 <= i < name.len() ==> 0x61 <= #[trigger] name[i] <= 0x7a,
    ensures
        forall|i: int| 0 <= i < scheme.len() ==> #[trigger] scheme[i] != 0x3a,
{
    assert forall|i: int| 0 <= i < scheme.len() implies #[trigger] scheme[i] != 0x3a by {
        assert(0x61 <= name[i] <= 0x7a);
        assert(crate::text::lower(scheme[i]) == crate::text::lower(name[i]));
    }
}

proof fn lemma_after_last(before: Seq<u8>, after: Seq<u8>, byte: u8)
    requires
        forall|i: int| 0 <= i < after.len() ==> #[trigger] after[i] != byte,
    ensures
        after_last(after, byte) == after,
        after_last(before + seq![byte] + after, byte) == after,
    decreases after.len(),
{
    let text = before + seq![byte] + after;
    if after.len() == 0 {
        assert(text.last() == byte);
        assert(after =~= Seq::<u8>::empty());
    } else {
        let shorter = after.drop_last();
        assert(text.last() == after.last());
        assert(after.last() == after[after.len() - 1]);
        assert(text.drop_last() =~= before + seq![byte] + shorter);
        lemma_after_last(before, shorter, byte);
        assert(shorter.push(after.last()) =~= after);
    }
}

/// Whether `scheme` is a way to write the name of a scheme, in whatever case.
pub open spec fn writes_scheme(text: Seq<u8>, scheme: Scheme) -> bool {
    match scheme {
        Scheme::Http => same_ignoring_case(text, wire("http"@)),
        Scheme::Https => same_ignoring_case(text, wire("https"@)),
    }
}

proof fn lemma_written_scheme(text: Seq<u8>, scheme: Scheme)
    requires
        writes_scheme(text, scheme),
    ensures
        forall|i: int| 0 <= i < text.len() ==> #[trigger] text[i] != 0x3a,
        crate::origin::scheme_named(text) == Some(scheme),
{
    lemma_scheme_names();
    match scheme {
        Scheme::Http => {
            lemma_scheme_is_one_word(text, wire("http"@));
        },
        Scheme::Https => {
            lemma_scheme_is_one_word(text, wire("https"@));
        },
    }
}

proof fn lemma_decimal_port(port: nat)
    ensures
        is_number(wire(decimal(port))),
        decimal_value(wire(decimal(port))) == port,
        stays_in_authority(wire(decimal(port))),
        forall|i: int| 0 <= i < wire(decimal(port)).len() ==> #[trigger] wire(decimal(port))[i] != 0x40,
{
    lemma_decimal_round_trips(port);
    let digits = wire(decimal(port));
    assert forall|i: int| 0 <= i < digits.len() implies #[trigger] digits[i] != 0x2f && digits[i]
        != 0x3f && digits[i] != 0x23 && digits[i] != 0x40 by {
        assert(crate::text::is_digit(digits[i]));
    }
}

proof fn lemma_plain_host_and_port(host: Seq<u8>, port: Option<Seq<u8>>)
    requires
        is_plain_host(host),
        port matches Some(digits) ==> forall|i: int|
            0 <= i < digits.len() ==> #[trigger] digits[i] != 0x40,
    ensures
        host_and_port(
            match port {
                None => host,
                Some(digits) => host + seq![0x3au8] + digits,
            },
        ) == Some((host, port)),
{
    let place = match port {
        None => host,
        Some(digits) => host + seq![0x3au8] + digits,
    };
    assert forall|i: int| 0 <= i < place.len() implies #[trigger] place[i] != 0x40 by {
        if i < host.len() {
            assert(place[i] == host[i]);
        } else if i > host.len() {
            assert(place[i] == port->0[i - host.len() - 1]);
        }
    }
    lemma_after_last(Seq::empty(), place, 0x40);
    assert(place[0] == host[0]);
    assert forall|i: int| 0 <= i < host.len() implies #[trigger] place[i] != 0x3a by {
        assert(place[i] == host[i]);
    }
    lemma_first_index_unique(place, 0x3a, host.len() as int);
    if port is Some {
        assert(place.take(host.len() as int) =~= host);
        assert(place.skip(host.len() as int + 1) =~= port->0);
    }
}

/// A port that a URL names is the port of its origin, whichever of the 65536 it is. Where the URL names
/// none, it is 80 for HTTP and 443 for HTTPS. Neither the path nor the query nor the fragment matters.
pub proof fn lemma_named_port_counts(
    name: Seq<u8>,
    scheme: Scheme,
    host: Seq<u8>,
    port: u16,
    tail: Seq<u8>,
)
    requires
        writes_scheme(name, scheme),
        is_plain_host(host),
        ends_authority(tail),
    ensures
        origin_of(url_of(name, host + seq![0x3au8] + wire(decimal(port as nat)), tail)) == Some(
            OriginView { scheme, host, port },
        ),
        origin_of(url_of(name, host, tail)) == Some(
            OriginView {
                scheme,
                host,
                port: if scheme is Http {
                    80u16
                } else {
                    443u16
                },
            },
        ),
        origin_of(url_of(name, host + seq![0x3au8], tail)) == origin_of(url_of(name, host, tail)),
{
    lemma_written_scheme(name, scheme);
    lemma_decimal_port(port as nat);
    let digits = wire(decimal(port as nat));
    let named = host + seq![0x3au8] + digits;
    assert forall|i: int| 0 <= i < named.len() implies #[trigger] named[i] != 0x2f && named[i]
        != 0x3f && named[i] != 0x23 by {
        if i < host.len() {
            assert(named[i] == host[i]);
        } else if i > host.len() {
            assert(named[i] == digits[i - host.len() - 1]);
        }
    }
    lemma_url_falls_apart(name, named, tail);
    lemma_plain_host_and_port(host, Some(digits));
    lemma_url_falls_apart(name, host, tail);
    lemma_plain_host_and_port(host, None);
    let empty = host + seq![0x3au8];
    assert forall|i: int| 0 <= i < empty.len() implies #[trigger] empty[i] != 0x2f && empty[i]
        != 0x3f && empty[i] != 0x23 by {
        if i < host.len() {
            assert(empty[i] == host[i]);
        }
    }
    lemma_url_falls_apart(name, empty, tail);
    lemma_plain_host_and_port(host, Some(Seq::empty()));
    assert(empty =~= host + seq![0x3au8] + Seq::<u8>::empty());
}

/// `http://` host `:` port `/` has the origin (HTTP, host, port), for every port.
pub proof fn lemma_http_url_names_its_origin(host: Seq<u8>, port: u16)
    requires
        is_plain_host(host),
    ensures
        origin_of(
            wire("http://"@) + host + wire(":"@) + wire(decimal(port as nat)) + wire("/"@),
        ) == Some(OriginView { scheme: Scheme::Http, host, port }),
{
    broadcast use vstd::utf8::is_ascii_chars_encode_utf8;

    reveal_strlit("http://");
    reveal_strlit(":");
    reveal_strlit("/");
    assert(vstd::utf8::is_ascii_chars("http://"@));
    assert(vstd::utf8::is_ascii_chars(":"@));
    assert(vstd::utf8::is_ascii_chars("/"@));
    lemma_scheme_names();
    let digits = wire(decimal(port as nat));
    let tail = seq![0x2fu8];
    lemma_named_port_counts(wire("http"@), Scheme::Http, host, port, tail);
    assert(wire("http://"@) =~= wire("http"@) + seq![0x3au8, 0x2f, 0x2f]);
    assert(wire(":"@) =~= seq![0x3au8]);
    assert(wire("/"@) =~= tail);
    assert(wire("http://"@) + host + wire(":"@) + digits + wire("/"@) =~= url_of(
        wire("http"@),
        host + seq![0x3au8] + digits,
        tail,
    ));
}

/// A number above 65535 is no port, and neither is anything but digits: such a URL has no origin.
pub proof fn lemma_impossible_port_is_refused(
    name: Seq<u8>,
    scheme: Scheme,
    host: Seq<u8>,
    port: Seq<u8>,
    tail: Seq<u8>,
)
    requires
        writes_scheme(name, scheme),
        is_plain_host(host),
        ends_authority(tail),
        stays_in_authority(port),
        forall|i: int| 0 <= i < port.len() ==> #[trigger] port[i] != 0x40,
        (exists|n: nat| n > 65535 && port == wire(#[trigger] decimal(n))) || (exists|i: int|
            0 <= i < port.len() && !(0x30 <= #[trigger] port[i] <= 0x39)),
    ensures
        origin_of(url_of(name, host + seq![0x3au8] + port, tail)) is None,
{
    lemma_written_scheme(name, scheme);
    let named = host + seq![0x3au8] + port;
    assert forall|i: int| 0 <= i < named.len() implies #[trigger] named[i] != 0x2f && named[i]
        != 0x3f && named[i] != 0x23 by {
        if i < host.len() {
            assert(named[i] == host[i]);
        } else if i > host.len() {
            assert(named[i] == port[i - host.len() - 1]);
        }
    }
    lemma_url_falls_apart(name, named, tail);
    lemma_plain_host_and_port(host, Some(port));
    if exists|n: nat| n > 65535 && port == wire(#[trigger] decimal(n)) {
        let n = choose|n: nat| n > 65535 && port == wire(#[trigger] decimal(n));
        lemma_decimal_port(n);
    } else {
        let i = choose|i: int| 0 <= i < port.len() && !(0x30 <= #[trigger] port[i] <= 0x39);
        assert(!crate::text::is_digit(port[i]));
    }
}

/// User information in front of an `@` does not matter for the origin.
pub proof fn lemma_user_information_is_dropped(
    name: Seq<u8>,
    scheme: Scheme,
    user: Seq<u8>,
    place: Seq<u8>,
    tail: Seq<u8>,
)
    requires
        writes_scheme(name, scheme),
        stays_in_authority(user),
        stays_in_authority(place),
        forall|i: int| 0 <= i < place.len() ==> #[trigger] place[i] != 0x40,
        ends_authority(tail),
    ensures
        origin_of(url_of(name, user + seq![0x40u8] + place, tail)) == origin_of(
            url_of(name, place, tail),
        ),
{
    lemma_written_scheme(name, scheme);
    let whole = user + seq![0x40u8] + place;
    assert forall|i: int| 0 <= i < whole.len() implies #[trigger] whole[i] != 0x2f && whole[i]
        != 0x3f && whole[i] != 0x23 by {
        if i < user.len() {
            assert(whole[i] == user[i]);
        } else if i > user.len() {
            assert(whole[i] == place[i - user.len() - 1]);
        }
    }
    lemma_url_falls_apart(name, whole, tail);
    lemma_url_falls_apart(name, place, tail);
    lemma_after_last(user, place, 0x40);
}

/// The address in brackets is the host, without them, and a port may follow.
pub proof fn lemma_bracketed_host_counts(
    name: Seq<u8>,
    scheme: Scheme,
    address: Seq<u8>,
    port: u16,
    tail: Seq<u8>,
)
    requires
        writes_scheme(name, scheme),
        address.len() > 0,
        stays_in_authority(address),
        forall|i: int|
            0 <= i < address.len() ==> #[trigger] address[i] != 0x40 && address[i] != 0x5d,
        ends_authority(tail),
    ensures
        origin_of(
            url_of(
                name,
                seq![0x5bu8] + address + seq![0x5du8, 0x3a] + wire(decimal(port as nat)),
                tail,
            ),
        ) == Some(OriginView { scheme, host: address, port }),
        origin_of(url_of(name, seq![0x5bu8] + address + seq![0x5du8], tail)) == Some(
            OriginView {
                scheme,
                host: address,
                port: if scheme is Http {
                    80u16
                } else {
                    443u16
                },
            },
        ),
{
    lemma_written_scheme(name, scheme);
    lemma_decimal_port(port as nat);
    let digits = wire(decimal(port as nat));
    let bare = seq![0x5bu8] + address + seq![0x5du8];
    let named = seq![0x5bu8] + address + seq![0x5du8, 0x3a] + digits;
    assert forall|i: int| 0 <= i < bare.len() implies #[trigger] bare[i] != 0x2f && bare[i] != 0x3f
        && bare[i] != 0x23 && bare[i] != 0x40 && (i < address.len() + 1 ==> bare[i] != 0x5d) by {
        if 0 < i <= address.len() {
            assert(bare[i] == address[i - 1]);
        }
    }
    assert forall|i: int| 0 <= i < named.len() implies #[trigger] named[i] != 0x2f && named[i]
        != 0x3f && named[i] != 0x23 && named[i] != 0x40 && (i < address.len() + 1 ==> named[i]
        != 0x5d) by {
        if 0 < i <= address.len() {
            assert(named[i] == address[i - 1]);
        } else if i > address.len() + 2 {
            assert(named[i] == digits[i - address.len() - 3]);
        }
    }
    lemma_after_last(Seq::empty(), bare, 0x40);
    lemma_after_last(Seq::empty(), named, 0x40);
    lemma_first_index_unique(bare, 0x5d, address.len() as int + 1);
    lemma_first_index_unique(named, 0x5d, address.len() as int + 1);
    assert(bare.subrange(1, address.len() as int + 1) =~= address);
    assert(named.subrange(1, address.len() as int + 1) =~= address);
    assert(named.skip(address.len() as int + 3) =~= digits);
    lemma_url_falls_apart(name, bare, tail);
    lemma_url_falls_apart(name, named, tail);
}

/// Only HTTP and HTTPS URLs with a host have an origin.
pub proof fn lemma_other_urls_have_no_origin(name: Seq<u8>, authority: Seq<u8>, tail: Seq<u8>)
    requires
        forall|i: int| 0 <= i < name.len() ==> #[trigger] name[i] != 0x3a,
        stays_in_authority(authority),
        ends_authority(tail),
        authority.len() == 0 || (!writes_scheme(name, Scheme::Http) && !writes_scheme(
            name,
            Scheme::Https,
        )),
    ensures
        origin_of(url_of(name, authority, tail)) is None,
{
    lemma_url_falls_apart(name, authority, tail);
}

/// A request asks for what follows the authority of its URL, up to the fragment; an empty path is
/// `/`.
pub proof fn lemma_requests_ask_for_path_and_query(
    scheme: Seq<u8>,
    authority: Seq<u8>,
    path: Seq<u8>,
    fragment: Seq<u8>,
)
    requires
        forall|i: int| 0 <= i < scheme.len() ==> #[trigger] scheme[i] != 0x3a,
        stays_in_authority(authority),
        path.len() == 0 || path[0] == 0x2f || path[0] == 0x3f,
        forall|i: int|
            0 <= i < path.len() ==> 0x21 <= #[trigger] path[i] <= 0x7e && path[i] != 0x23,
        fragment.len() == 0 || fragment[0] == 0x23,
    ensures
        request_target(url_of(scheme, authority, path + fragment)) == Ok::<TargetView, ErrorView>(
            TargetView {
                scheme,
                authority,
                path_and_query: if path.len() > 0 && path[0] == 0x2f {
                    path
                } else {
                    seq![0x2fu8] + path
                },
            },
        ),
{
    let tail = path + fragment;
    if path.len() > 0 {
        assert(tail[0] == path[0]);
    } else {
        assert(tail =~= fragment);
    }
    lemma_url_falls_apart(scheme, authority, tail);
    assert forall|i: int| 0 <= i < path.len() implies #[trigger] tail[i] != 0x23 by {
        assert(tail[i] == path[i]);
    }
    lemma_first_index_unique(tail, 0x23, path.len() as int);
    assert(tail.take(path.len() as int) =~= path);
    let form = crate::request::origin_form(tail);
    assert forall|i: int| 0 <= i < form.len() implies 0x21 <= #[trigger] form[i] <= 0x7e by {
        if path.len() > 0 && path[0] == 0x2f {
            assert(form[i] == path[i]);
        } else if i > 0 {
            assert(form[i] == path[i - 1]);
        }
    }
}

/// A URL without `://` names nothing, and a path or query with anything but visible bytes cannot be
/// asked for.
pub proof fn lemma_unreadable_urls_are_refused(url: Seq<u8>)
    ensures
        (forall|at: int| !separator_at(url, at)) ==> request_target(url) == Err::<
            TargetView,
            ErrorView,
        >(plain_error(ErrorKind::InvalidRequest, "HTTP URL has no scheme separator"@)) && origin_of(
            url,
        ) is None,
        request_target(url) matches Ok(target) ==> {
            &&& target.path_and_query.len() > 0
            &&& forall|i: int|
                0 <= i < target.path_and_query.len() ==> 0x21 <= #[trigger] target.path_and_query[i]
                    <= 0x7e
        },
{
    if request_target(url) is Ok {
        let path = request_target(url)->Ok_0.path_and_query;
        assert forall|i: int| 0 <= i < path.len() implies 0x21 <= #[trigger] path[i] <= 0x7e by {
        }
    }
}

} // verus!
