//! Origins: the scheme, host and port that a request goes to.

use crate::request::{authority_len, RequestTarget};
use crate::text::{
    decimal_value, eq_ignore_ascii_case, is_digit, is_number, parse_decimal, same_ignoring_case,
    wire,
};
use crate::types::{copy_bytes, plain_error, Error, ErrorKind};
use vstd::prelude::*;
use vstd::string::*;

verus! {

/// Whether a request goes out in the clear or through TLS.
#[derive(Clone, Copy, Debug, PartialEq, Eq, Structural)]
pub enum Scheme {
    Http,
    Https,
}

/// Where a request goes to. The host is kept as bytes, without the brackets of an IPv6 literal.
#[derive(Debug, PartialEq, Eq)]
pub struct Origin {
    pub scheme: Scheme,
    pub host: Vec<u8>,
    pub port: u16,
}

/// What an [`Origin`] holds.
#[verifier::ext_equal]
pub struct OriginView {
    pub scheme: Scheme,
    pub host: Seq<u8>,
    pub port: u16,
}

impl View for Origin {
    type V = OriginView;

    open spec fn view(&self) -> OriginView {
        OriginView { scheme: self.scheme, host: self.host@, port: self.port }
    }
}

/// The scheme that a name denotes.
pub open spec fn scheme_named(name: Seq<u8>) -> Option<Scheme> {
    if same_ignoring_case(name, wire("http"@)) {
        Some(Scheme::Http)
    } else if same_ignoring_case(name, wire("https"@)) {
        Some(Scheme::Https)
    } else {
        None
    }
}

/// The port of a scheme where the URL names none.
pub open spec fn default_port(scheme: Scheme) -> u16 {
    match scheme {
        Scheme::Http => 80,
        Scheme::Https => 443,
    }
}

/// How many bytes at the end of `text` follow its last `byte`; all of them where there is none.
pub open spec fn after_last(text: Seq<u8>, byte: u8) -> Seq<u8>
    decreases text.len(),
{
    if text.len() == 0 || text.last() == byte {
        Seq::empty()
    } else {
        after_last(text.drop_last(), byte).push(text.last())
    }
}

/// The host and the port of an authority, as far as it names them. User information in front of an
/// `@` is dropped; an IPv6 literal stands in brackets.
pub open spec fn host_and_port(authority: Seq<u8>) -> Option<(Seq<u8>, Option<Seq<u8>>)> {
    let place = after_last(authority, 0x40);
    if place.len() > 0 && place[0] == 0x5b {
        let close = crate::text::first_index(place, 0x5d);
        if close >= place.len() {
            None
        } else if close + 1 == place.len() {
            Some((place.subrange(1, close), None))
        } else if place[close + 1] == 0x3a {
            Some((place.subrange(1, close), Some(place.skip(close + 2))))
        } else {
            None
        }
    } else {
        let colon = crate::text::first_index(place, 0x3a);
        if colon >= place.len() {
            Some((place, None))
        } else {
            Some((place.take(colon), Some(place.skip(colon + 1))))
        }
    }
}

/// The port that an authority names; an empty one is that of the scheme.
pub open spec fn port_number(text: Option<Seq<u8>>, scheme: Scheme) -> Option<u16> {
    match text {
        None => Some(default_port(scheme)),
        Some(digits) => if digits.len() == 0 {
            Some(default_port(scheme))
        } else if is_number(digits) && decimal_value(digits) <= 65535 {
            Some(decimal_value(digits) as u16)
        } else {
            None
        },
    }
}

/// The origin of a URL, where it is an HTTP URL with a host and an acceptable port.
pub open spec fn origin_of(url: Seq<u8>) -> Option<OriginView> {
    match crate::request::scheme_end(url) {
        None => None,
        Some(end) => {
            let rest = url.skip(end + 3);
            match scheme_named(url.take(end)) {
                None => None,
                Some(scheme) => match host_and_port(rest.take(authority_len(rest))) {
                    None => None,
                    Some((host, port)) => match port_number(port, scheme) {
                        None => None,
                        Some(port) => if host.len() == 0 {
                            None
                        } else {
                            Some(OriginView { scheme, host, port })
                        },
                    },
                },
            }
        },
    }
}

fn take_after_last(text: &[u8], byte: u8) -> (result: &[u8])
    ensures
        result@ == after_last(text@, byte),
{
    let mut start: usize = text.len();
    assert(text@.take(start as int) =~= text@);
    assert(text@.skip(start as int) =~= Seq::<u8>::empty());
    assert(after_last(text@.take(start as int), byte) + text@.skip(start as int) =~= after_last(
        text@,
        byte,
    ));
    while start > 0 && text[start - 1] != byte
        invariant
            start <= text@.len(),
            after_last(text@, byte) == after_last(text@.take(start as int), byte) + text@.skip(
                start as int,
            ),
        decreases start,
    {
        let ghost head = text@.take(start as int);
        proof {
            assert(head.drop_last() =~= text@.take(start - 1));
            assert(after_last(head.drop_last(), byte).push(head.last()) + text@.skip(start as int)
                =~= after_last(text@.take(start - 1), byte) + text@.skip(start - 1));
        }
        start -= 1;
    }
    let result = &text[start..text.len()];
    proof {
        assert(after_last(text@.take(start as int), byte) =~= Seq::<u8>::empty());
        assert(result@ =~= after_last(text@, byte));
    }
    result
}

fn read_scheme(name: &[u8]) -> (result: Option<Scheme>)
    ensures
        result == scheme_named(name@),
{
    if eq_ignore_ascii_case(name, "http".as_bytes()) {
        Some(Scheme::Http)
    } else if eq_ignore_ascii_case(name, "https".as_bytes()) {
        Some(Scheme::Https)
    } else {
        None
    }
}

fn split_host_and_port(authority: &[u8]) -> (result: Option<(&[u8], Option<&[u8]>)>)
    ensures
        match result {
            Some((host, port)) => host_and_port(authority@) == Some(
                (
                    host@,
                    match port {
                        Some(port) => Some(port@),
                        None => None,
                    },
                ),
            ),
            None => host_and_port(authority@) is None,
        },
{
    let place = take_after_last(authority, 0x40);
    let length: usize = place.len();
    assert(place@.skip(0) =~= place@);
    if length > 0 && place[0] == 0x5b {
        let close: usize = crate::text::find_byte(place, 0x5d, 0);
        if close >= length {
            return None;
        }
        assert(close > 0) by {
            crate::text::lemma_first_index(place@, 0x5d);
        }
        let host = &place[1..close];
        if close + 1 == length {
            Some((host, None))
        } else if place[close + 1] == 0x3a {
            let port = &place[close + 2..length];
            assert(port@ =~= place@.skip(close + 2));
            Some((host, Some(port)))
        } else {
            None
        }
    } else {
        let colon: usize = crate::text::find_byte(place, 0x3a, 0);
        if colon >= length {
            Some((place, None))
        } else {
            let host = &place[0..colon];
            let port = &place[colon + 1..length];
            assert(host@ =~= place@.take(colon as int));
            assert(port@ =~= place@.skip(colon + 1));
            Some((host, Some(port)))
        }
    }
}

fn all_digits(text: &[u8]) -> (result: bool)
    ensures
        result == (forall|i: int| 0 <= i < text@.len() ==> is_digit(#[trigger] text@[i])),
{
    let mut i: usize = 0;
    while i < text.len()
        invariant
            i <= text@.len(),
            forall|j: int| 0 <= j < i ==> is_digit(#[trigger] text@[j]),
        decreases text@.len() - i,
    {
        if text[i] < 0x30 || text[i] > 0x39 {
            assert(!is_digit(text@[i as int]));
            return false;
        }
        i += 1;
    }
    true
}

fn read_port(text: Option<&[u8]>, scheme: Scheme) -> (result: Option<u16>)
    ensures
        result == port_number(
            match text {
                Some(text) => Some(text@),
                None => None,
            },
            scheme,
        ),
{
    let named = match scheme {
        Scheme::Http => 80,
        Scheme::Https => 443,
    };
    match text {
        None => Some(named),
        Some(digits) => {
            if digits.len() == 0 {
                return Some(named);
            }
            if !all_digits(digits) {
                return None;
            }
            match parse_decimal(digits) {
                Some(port) => {
                    if port <= 65535 {
                        Some(port as u16)
                    } else {
                        None
                    }
                },
                None => None,
            }
        },
    }
}

/// The origin of a URL; any other URL gives an error of the given kind.
pub fn http_origin(url: &str, error_kind: ErrorKind) -> (result: Result<Origin, Error>)
    ensures
        match result {
            Ok(origin) => origin_of(wire(url@)) == Some(origin@),
            Err(error) => origin_of(wire(url@)) is None && error@ == plain_error(
                error_kind,
                "the URL has no usable HTTP origin"@,
            ),
        },
{
    match find_origin(url.as_bytes()) {
        Some(origin) => Ok(origin),
        None => Err(Error::new(error_kind, "the URL has no usable HTTP origin")),
    }
}

pub fn find_origin(url: &[u8]) -> (result: Option<Origin>)
    ensures
        match result {
            Some(origin) => origin_of(url@) == Some(origin@),
            None => origin_of(url@) is None,
        },
{
    let (scheme_name, authority) = match RequestTarget::split(url) {
        Some(parts) => parts,
        None => {
            return None;
        },
    };
    let scheme = match read_scheme(scheme_name) {
        Some(scheme) => scheme,
        None => {
            return None;
        },
    };
    let (host, port) = match split_host_and_port(authority) {
        Some(parts) => parts,
        None => {
            return None;
        },
    };
    match read_port(port, scheme) {
        Some(port) => {
            if host.len() == 0 {
                None
            } else {
                Some(Origin { scheme, host: copy_bytes(host), port })
            }
        },
        None => None,
    }
}

/// Whether two origins are one: hosts are compared up to the case of ASCII letters.
pub open spec fn same_origin(left: OriginView, right: OriginView) -> bool {
    left.scheme == right.scheme && same_ignoring_case(left.host, right.host) && left.port
        == right.port
}

/// Whether two origins are one.
pub fn is_same_origin(left: &Origin, right: &Origin) -> (result: bool)
    ensures
        result == same_origin(left@, right@),
{
    left.scheme == right.scheme && eq_ignore_ascii_case(
        left.host.as_slice(),
        right.host.as_slice(),
    ) && left.port == right.port
}

} // verus!
