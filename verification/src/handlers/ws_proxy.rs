//! WebSocket connections: the URL and the header fields that the gateway asks
//! its backend for an upgrade with.

use crate::backend;
use crate::backend::BackendUri;
use crate::error::WebSocketError;
use crate::handlers::http_proxy;
use crate::headers;
use http::header::{HeaderMap, HeaderValue};
use vstd::prelude::*;
use vstd::string::*;
use vstd::utf8::*;

verus! {

/// The request that opens a WebSocket connection to the backend.
pub struct UpgradeRequest {
    pub method: String,
    pub url: String,
    pub headers: HeaderMap<HeaderValue>,
}

/// The WebSocket scheme for a backend scheme: `wss` for a secure one, `ws`
/// for every other.
pub open spec fn websocket_scheme(scheme: Option<Seq<char>>) -> Seq<char> {
    match scheme {
        Some(s) => if s == "https"@ || s == "wss"@ {
            "wss"@
        } else {
            "ws"@
        },
        None => "ws"@,
    }
}

/// The URL of the backend: scheme and authority, then the tail of the route
/// after one slash, unless it is empty.
pub open spec fn websocket_url(
    scheme: Option<Seq<char>>,
    authority: Seq<char>,
    tail: Seq<char>,
) -> Seq<char> {
    let base = websocket_scheme(scheme) + "://"@ + authority;
    if tail.len() == 0 {
        base
    } else if tail[0] == '/' {
        base + tail
    } else {
        base + seq!['/'] + tail
    }
}

/// The values of a field in the upgrade request to a backend with this host:
/// those of the handshake itself are set, a hop-by-hop field is left out, and
/// any other field of the client's request keeps its last value.
pub open spec fn upgrade_values(
    lines: Seq<(Seq<char>, Seq<u8>)>,
    host: Seq<char>,
    name: Seq<char>,
) -> Seq<Seq<u8>> {
    if name == "host"@ {
        seq![encode_utf8(host)]
    } else if name == "connection"@ {
        seq![encode_utf8("Upgrade"@)]
    } else if name == "upgrade"@ {
        seq![encode_utf8("websocket"@)]
    } else if name == "sec-websocket-version"@ && headers::values(lines, name).len() == 0 {
        seq![encode_utf8("13"@)]
    } else if http_proxy::is_hop_by_hop_name(name) {
        Seq::empty()
    } else {
        http_proxy::last_value(lines, name)
    }
}

/// The fields of an upgrade request but `Host`: those of the client that are
/// not hop-by-hop, and those of the handshake.
pub open spec fn upgrade_names(lines: Seq<(Seq<char>, Seq<u8>)>) -> Set<Seq<char>> {
    headers::field_names(lines).filter(
        |name: Seq<char>| !http_proxy::is_hop_by_hop_name(name),
    ).insert("connection"@).insert("upgrade"@).insert("sec-websocket-version"@)
}

/// Whether a header map is sure to take the upgrade request for these lines,
/// with room for the four fields of the handshake.
pub open spec fn is_sure_to_fit(lines: Seq<(Seq<char>, Seq<u8>)>) -> bool {
    &&& lines.len() + 4 <= headers::LINE_LIMIT
    &&& upgrade_names(lines).len() < headers::FIELD_LIMIT
}

/// The URL that the WebSocket connection to the backend is opened with.
pub fn construct_backend_websocket_url(backend_uri: &BackendUri, tail: &str) -> (r: Result<
    String,
    WebSocketError,
>)
    ensures
        match r {
            Ok(url) => {
                &&& backend_uri@.authority matches Some(authority)
                &&& url@ == websocket_url(backend_uri@.scheme, authority, tail@)
            },
            Err(error) => error == WebSocketError::MissingAuthority && backend_uri@.authority
                is None,
        },
{
    let authority = match &backend_uri.authority {
        Some(authority) => authority,
        None => {
            return Err(WebSocketError::MissingAuthority);
        },
    };
    let secure = match &backend_uri.scheme {
        Some(scheme) => *scheme.as_str() == *"https" || *scheme.as_str() == *"wss",
        None => false,
    };
    let mut url = if secure {
        "wss".to_owned()
    } else {
        "ws".to_owned()
    };
    url.append("://");
    url.append(authority.as_str());
    let ghost base = url@;
    if !tail.is_empty() {
        if tail.get_char(0) != '/' {
            url.push('/');
            assert(url@ == base + seq!['/']);
        }
        url.append(tail);
    }
    Ok(url)
}

/// The names and the texts that the handshake sets are fit for header lines.
proof fn lemma_handshake_fields()
    ensures
        headers::is_field_name("host"@),
        headers::is_field_name("connection"@),
        headers::is_field_name("upgrade"@),
        headers::is_field_name("sec-websocket-version"@),
        headers::is_header_text("Upgrade"@),
        headers::is_header_text("websocket"@),
        headers::is_header_text("13"@),
        "host"@ != "connection"@,
        "host"@ != "upgrade"@,
        "host"@ != "sec-websocket-version"@,
        "connection"@ != "upgrade"@,
        "connection"@ != "sec-websocket-version"@,
        "upgrade"@ != "sec-websocket-version"@,
        !http_proxy::is_hop_by_hop_name("sec-websocket-version"@),
        !http_proxy::is_hop_by_hop_name("host"@),
{
    reveal_strlit("host");
    reveal_strlit("connection");
    reveal_strlit("upgrade");
    reveal_strlit("sec-websocket-version");
    reveal_strlit("Upgrade");
    reveal_strlit("websocket");
    reveal_strlit("13");
    assert("host"@.len() == 4);
    assert("connection"@.len() == 10);
    assert("upgrade"@.len() == 7);
    assert("sec-websocket-version"@.len() == 21);
    if http_proxy::is_hop_by_hop_name("host"@) {
        http_proxy::lemma_hop_by_hop_lengths("host"@);
    }
    if http_proxy::is_hop_by_hop_name("sec-websocket-version"@) {
        http_proxy::lemma_hop_by_hop_lengths("sec-websocket-version"@);
    }
}

/// Sets a field to a text that is fit for a header line. `false` is the answer
/// of a header map that cannot grow.
fn set_field(map: &mut HeaderMap<HeaderValue>, name: &str, value: &str) -> (r: bool)
    requires
        headers::is_field_name(name@),
        headers::is_header_text(value@),
    ensures
        headers::header_lines(*old(map)).len() < headers::FIELD_LIMIT ==> r,
        r ==> headers::sets_field(*old(map), *final(map), name@, encode_utf8(value@)),
{
    match headers::insert_text(map, name, value) {
        Ok(Ok(_)) => true,
        _ => false,
    }
}

/// A map of at most one value for each field of the upgrade request, and none
/// for any other field.
spec fn is_part_of_upgrade(
    lines: Seq<(Seq<char>, Seq<u8>)>,
    built: Seq<(Seq<char>, Seq<u8>)>,
) -> bool {
    forall|name: Seq<char>| #[trigger]
        headers::values(built, name).len() <= if upgrade_names(lines).contains(name) {
            1int
        } else {
            0
        }
}

/// Such a map has no more lines than the upgrade request has fields.
proof fn lemma_part_of_upgrade(
    lines: Seq<(Seq<char>, Seq<u8>)>,
    built: Seq<(Seq<char>, Seq<u8>)>,
)
    requires
        is_part_of_upgrade(lines, built),
    ensures
        built.len() <= upgrade_names(lines).len(),
{
    headers::lemma_field_names(lines);
    headers::lemma_lines_fit(built, upgrade_names(lines));
}

/// The header fields of the upgrade request to the backend.
pub fn create_websocket_headers(
    original_headers: &HeaderMap<HeaderValue>,
    backend_uri: &BackendUri,
) -> (r: Result<HeaderMap<HeaderValue>, WebSocketError>)
    ensures
        match r {
            Ok(created) => {
                &&& backend_uri@.host matches Some(host)
                &&& headers::is_header_text(host)
                &&& forall|name: Seq<char>| #[trigger]
                    headers::values(headers::header_lines(created), name) == upgrade_values(
                        headers::header_lines(*original_headers),
                        host,
                        name,
                    )
            },
            Err(WebSocketError::MissingHost) => backend_uri@.host is None,
            Err(WebSocketError::InvalidHost) => {
                &&& backend_uri@.host matches Some(host)
                &&& !headers::is_header_text(host)
            },
            Err(WebSocketError::TooManyHeaders) => !is_sure_to_fit(
                headers::header_lines(*original_headers),
            ),
            Err(_) => false,
        },
        backend_uri@.is_consistent() && is_sure_to_fit(headers::header_lines(*original_headers))
            ==> (r is Err <==> backend_uri@.host is None),
        headers::header_lines(*original_headers).len() + 4 > headers::LINE_LIMIT ==> r matches Err(
            WebSocketError::TooManyHeaders,
        ),
{
    proof {
        if backend_uri@.is_consistent() {
            backend::law_backends_can_be_named(backend_uri@);
        }
    }
    let ghost lines = headers::header_lines(*original_headers);
    let names = headers::line_names(original_headers);
    let mut created = match headers::with_capacity(names.len().saturating_add(4)) {
        Ok(map) => map,
        Err(_) => {
            return Err(WebSocketError::TooManyHeaders);
        },
    };
    let mut i: usize = 0;
    while i < names.len()
        invariant
            i <= names@.len(),
            names@.len() == lines.len(),
            lines == headers::header_lines(*original_headers),
            forall|k: int| 0 <= k < names@.len() ==> #[trigger] names@[k]@ == lines[k].0,
            forall|name: Seq<char>| #[trigger]
                headers::values(headers::header_lines(created), name)
                    == if http_proxy::is_hop_by_hop_name(name) {
                    Seq::empty()
                } else {
                    http_proxy::last_value(lines.take(i as int), name)
                },
            is_part_of_upgrade(lines, headers::header_lines(created)),
        decreases names@.len() - i,
    {
        if !http_proxy::is_hop_by_hop(names[i].as_str()) {
            proof {
                lemma_part_of_upgrade(lines, headers::header_lines(created));
            }
            if headers::copy_line(&mut created, original_headers, i).is_err() {
                return Err(WebSocketError::TooManyHeaders);
            }
        }
        assert forall|name: Seq<char>| #[trigger]
            headers::values(headers::header_lines(created), name)
                == if http_proxy::is_hop_by_hop_name(name) {
                Seq::empty()
            } else {
                http_proxy::last_value(lines.take(i + 1), name)
            } by {
            headers::lemma_values_of_next_line(lines, i as int, name);
            assert(names@[i as int]@ == lines[i as int].0);
        }
        proof {
            headers::lemma_field_names(lines);
            assert forall|name: Seq<char>| #[trigger]
                headers::values(headers::header_lines(created), name).len() <= if upgrade_names(
                    lines,
                ).contains(name) {
                    1int
                } else {
                    0
                } by {
                headers::lemma_values_of_first_lines(lines, i + 1, name);
                assert(headers::field_names(lines).contains(name) <==> headers::values(
                    lines,
                    name,
                ).len() > 0);
            }
        }
        i = i + 1;
    }
    assert(lines.take(i as int) == lines);
    proof {
        lemma_handshake_fields();
        lemma_part_of_upgrade(lines, headers::header_lines(created));
    }
    if !set_field(&mut created, "connection", "Upgrade") {
        return Err(WebSocketError::TooManyHeaders);
    }
    proof {
        lemma_part_of_upgrade(lines, headers::header_lines(created));
    }
    if !set_field(&mut created, "upgrade", "websocket") {
        return Err(WebSocketError::TooManyHeaders);
    }
    proof {
        lemma_part_of_upgrade(lines, headers::header_lines(created));
    }
    if !headers::contains(&created, "sec-websocket-version") {
        if !set_field(&mut created, "sec-websocket-version", "13") {
            return Err(WebSocketError::TooManyHeaders);
        }
    }
    let host = match &backend_uri.host {
        Some(host) => host,
        None => {
            return Err(WebSocketError::MissingHost);
        },
    };
    proof {
        lemma_part_of_upgrade(lines, headers::header_lines(created));
    }
    match headers::insert_text(&mut created, "host", host.as_str()) {
        Ok(Ok(_)) => Ok(created),
        Ok(Err(_)) => Err(WebSocketError::TooManyHeaders),
        Err(_) => Err(WebSocketError::InvalidHost),
    }
}

/// The upgrade request with this URL and these header fields, given whether
/// the URL is a valid URI.
pub fn upgrade_request(
    url: String,
    headers: HeaderMap<HeaderValue>,
    url_is_valid: bool,
) -> (r: Result<UpgradeRequest, WebSocketError>)
    ensures
        match r {
            Ok(request) => {
                &&& url_is_valid
                &&& request.method@ == "GET"@
                &&& request.url == url
                &&& request.headers == headers
            },
            Err(error) => error == WebSocketError::InvalidRequest && !url_is_valid,
        },
{
    if url_is_valid {
        Ok(UpgradeRequest { method: "GET".to_owned(), url, headers })
    } else {
        Err(WebSocketError::InvalidRequest)
    }
}

/// The request that opens the WebSocket connection to the backend for a
/// client with these header fields.
pub fn build_backend_upgrade_request(
    original_headers: &HeaderMap<HeaderValue>,
    backend_uri: &BackendUri,
    tail: &str,
) -> (r: Result<UpgradeRequest, WebSocketError>)
    ensures
        match r {
            Ok(request) => {
                &&& request.method@ == "GET"@
                &&& backend_uri@.authority matches Some(authority)
                &&& request.url@ == websocket_url(backend_uri@.scheme, authority, tail@)
                &&& backend::http_uri(request.url@) is Some
                &&& backend_uri@.host matches Some(host)
                &&& headers::is_header_text(host)
                &&& forall|name: Seq<char>| #[trigger]
                    headers::values(headers::header_lines(request.headers), name)
                        == upgrade_values(
                        headers::header_lines(*original_headers),
                        host,
                        name,
                    )
            },
            Err(WebSocketError::MissingAuthority) => backend_uri@.authority is None,
            Err(WebSocketError::MissingHost) => {
                &&& backend_uri@.authority is Some
                &&& backend_uri@.host is None
            },
            Err(WebSocketError::InvalidHost) => {
                &&& backend_uri@.authority is Some
                &&& backend_uri@.host matches Some(host)
                &&& !headers::is_header_text(host)
            },
            Err(WebSocketError::TooManyHeaders) => {
                &&& backend_uri@.authority is Some
                &&& !is_sure_to_fit(headers::header_lines(*original_headers))
            },
            Err(WebSocketError::InvalidRequest) => {
                &&& backend_uri@.authority matches Some(authority)
                &&& backend_uri@.host matches Some(host)
                &&& headers::is_header_text(host)
                &&& backend::http_uri(websocket_url(backend_uri@.scheme, authority, tail@)) is None
            },
        },
        backend_uri@.authority is Some && headers::header_lines(*original_headers).len() + 4
            > headers::LINE_LIMIT ==> r matches Err(WebSocketError::TooManyHeaders),
{
    let url = match construct_backend_websocket_url(backend_uri, tail) {
        Ok(url) => url,
        Err(error) => {
            return Err(error);
        },
    };
    let headers = match create_websocket_headers(original_headers, backend_uri) {
        Ok(headers) => headers,
        Err(error) => {
            return Err(error);
        },
    };
    let url_is_valid = backend::parse_http_uri(url.as_str()).is_ok();
    upgrade_request(url, headers, url_is_valid)
}

/// An upgrade request has exactly one `Host`, `Connection`, `Upgrade` and
/// `Sec-WebSocket-Version`: the first three are set, the last is the client's
/// where it sent one.
pub proof fn law_the_handshake_is_complete(lines: Seq<(Seq<char>, Seq<u8>)>, host: Seq<char>)
    ensures
        upgrade_values(lines, host, "host"@) == seq![encode_utf8(host)],
        upgrade_values(lines, host, "connection"@) == seq![encode_utf8("Upgrade"@)],
        upgrade_values(lines, host, "upgrade"@) == seq![encode_utf8("websocket"@)],
        upgrade_values(lines, host, "sec-websocket-version"@) == if headers::values(
            lines,
            "sec-websocket-version"@,
        ).len() == 0 {
            seq![encode_utf8("13"@)]
        } else {
            seq![headers::values(lines, "sec-websocket-version"@).last()]
        },
{
    lemma_handshake_fields();
}

/// Building an upgrade request from one that was built for this host changes
/// nothing, and is sure to succeed where the upgrade request has room for
/// `Host` beside its other fields.
pub proof fn law_building_twice_changes_nothing(
    lines: Seq<(Seq<char>, Seq<u8>)>,
    built: Seq<(Seq<char>, Seq<u8>)>,
    host: Seq<char>,
)
    requires
        forall|n: Seq<char>| #[trigger]
            headers::values(built, n) == upgrade_values(lines, host, n),
    ensures
        upgrade_names(lines).insert("host"@).len() < headers::FIELD_LIMIT ==> is_sure_to_fit(built),
        forall|n: Seq<char>| #[trigger]
            upgrade_values(built, host, n) == headers::values(built, n),
{
    lemma_handshake_fields();
    headers::lemma_field_names(lines);
    headers::lemma_field_names(built);
    let names = upgrade_names(lines).insert("host"@);
    assert forall|n: Seq<char>| #[trigger]
        upgrade_values(built, host, n) == headers::values(built, n) by {
        assert(headers::values(built, n) == upgrade_values(lines, host, n));
    }
    assert forall|n: Seq<char>| #[trigger] headers::values(built, n).len() > 0 implies names.contains(
        n,
    ) by {
        assert(headers::field_names(lines).contains(n) <==> headers::values(lines, n).len() > 0);
    }
    headers::lemma_lines_fit(built, names);
    assert forall|n: Seq<char>| upgrade_names(built).contains(n) implies names.contains(n) by {
        assert(headers::field_names(built).contains(n) <==> headers::values(built, n).len() > 0);
    }
    vstd::set_lib::lemma_len_subset(upgrade_names(built), names);
}

/// No hop-by-hop field of the client but those of the handshake itself, which
/// are set anew, is in an upgrade request.
pub proof fn law_hop_by_hop_fields_stay_behind(
    lines: Seq<(Seq<char>, Seq<u8>)>,
    host: Seq<char>,
    name: Seq<char>,
)
    requires
        http_proxy::is_hop_by_hop_name(name),
        name != "connection"@,
        name != "upgrade"@,
    ensures
        upgrade_values(lines, host, name).len() == 0,
{
    lemma_handshake_fields();
}

/// A field of the client that the handshake does not set and that is none of
/// the hop-by-hop fields is in the upgrade request with the last value that the
/// client sent for it, if it sent one.
pub proof fn law_every_other_field_of_the_client_arrives(
    lines: Seq<(Seq<char>, Seq<u8>)>,
    host: Seq<char>,
    name: Seq<char>,
)
    requires
        name != "host"@,
        name != "sec-websocket-version"@,
        name != "connection"@,
        name != "keep-alive"@,
        name != "proxy-authenticate"@,
        name != "proxy-authorization"@,
        name != "te"@,
        name != "trailers"@,
        name != "transfer-encoding"@,
        name != "upgrade"@,
    ensures
        ({
            let sent = headers::values(lines, name);
            let arrived = upgrade_values(lines, host, name);
            &&& sent.len() == 0 ==> arrived.len() == 0
            &&& sent.len() > 0 ==> arrived.len() == 1 && arrived[0] == sent[sent.len() - 1]
        }),
{
}

/// Of the hop-by-hop fields that the handshake does not set, none is in an
/// upgrade request.
pub proof fn law_fields_of_the_connection_stay_behind(
    lines: Seq<(Seq<char>, Seq<u8>)>,
    host: Seq<char>,
)
    ensures
        upgrade_values(lines, host, "keep-alive"@).len() == 0,
        upgrade_values(lines, host, "proxy-authenticate"@).len() == 0,
        upgrade_values(lines, host, "proxy-authorization"@).len() == 0,
        upgrade_values(lines, host, "te"@).len() == 0,
        upgrade_values(lines, host, "trailers"@).len() == 0,
        upgrade_values(lines, host, "transfer-encoding"@).len() == 0,
{
    reveal_strlit("connection");
    reveal_strlit("upgrade");
    reveal_strlit("keep-alive");
    reveal_strlit("proxy-authenticate");
    reveal_strlit("proxy-authorization");
    reveal_strlit("te");
    reveal_strlit("trailers");
    reveal_strlit("transfer-encoding");
    assert("upgrade"@.len() == 7);
    assert("connection"@[0] == 'c' && "keep-alive"@[0] == 'k');
    assert("connection"@.len() == 10 && "keep-alive"@.len() == 10);
    assert("proxy-authenticate"@.len() == 18 && "proxy-authorization"@.len() == 19);
    assert("te"@.len() == 2 && "trailers"@.len() == 8 && "transfer-encoding"@.len() == 17);
    law_hop_by_hop_fields_stay_behind(lines, host, "keep-alive"@);
    law_hop_by_hop_fields_stay_behind(lines, host, "proxy-authenticate"@);
    law_hop_by_hop_fields_stay_behind(lines, host, "proxy-authorization"@);
    law_hop_by_hop_fields_stay_behind(lines, host, "te"@);
    law_hop_by_hop_fields_stay_behind(lines, host, "trailers"@);
    law_hop_by_hop_fields_stay_behind(lines, host, "transfer-encoding"@);
}

/// The upgrade request for a client with at most 24572 header lines is sure to
/// be built where fewer than 6551 names cover the client's fields that are not
/// hop-by-hop.
pub proof fn law_ordinary_upgrades_fit(
    lines: Seq<(Seq<char>, Seq<u8>)>,
    names: Set<Seq<char>>,
)
    requires
        lines.len() <= 24572,
        names.finite(),
        names.len() < 6551,
        forall|n: Seq<char>| #[trigger]
            headers::values(lines, n).len() > 0 && n != "connection"@ && n != "keep-alive"@ && n
                != "proxy-authenticate"@ && n != "proxy-authorization"@ && n != "te"@ && n
                != "trailers"@ && n != "transfer-encoding"@ && n != "upgrade"@ ==> names.contains(
                n,
            ),
    ensures
        is_sure_to_fit(lines),
{
    let all = names.insert("connection"@).insert("upgrade"@).insert("sec-websocket-version"@);
    headers::lemma_field_names(lines);
    assert forall|n: Seq<char>| upgrade_names(lines).contains(n) implies all.contains(n) by {
        assert(headers::field_names(lines).contains(n) <==> headers::values(lines, n).len() > 0);
    }
    vstd::set_lib::lemma_len_subset(upgrade_names(lines), all);
}

/// The WebSocket scheme is `wss` for `https` and `wss`, and `ws` for every
/// other scheme and for none.
pub proof fn law_secure_backends_stay_secure(scheme: Option<Seq<char>>)
    ensures
        scheme == Some("https"@) || scheme == Some("wss"@) ==> websocket_scheme(scheme) == "wss"@,
        !(scheme == Some("https"@) || scheme == Some("wss"@)) ==> websocket_scheme(scheme)
            == "ws"@,
{
}

/// The URL is the WebSocket scheme, `://` and the authority, all of it, then
/// for a tail that is not empty one slash and the tail without the slash that
/// it may start with.
pub proof fn law_the_url_is_made_of_its_parts(
    scheme: Option<Seq<char>>,
    authority: Seq<char>,
    tail: Seq<char>,
)
    ensures
        ({
            let url = websocket_url(scheme, authority, tail);
            let start = if scheme == Some("https"@) || scheme == Some("wss"@) {
                seq!['w', 's', 's', ':', '/', '/']
            } else {
                seq!['w', 's', ':', '/', '/']
            };
            let bare = if tail.len() > 0 && tail[0] == '/' {
                tail.skip(1)
            } else {
                tail
            };
            let end: int = (start.len() + authority.len()) as int;
            &&& url.len() >= end
            &&& url.take(start.len() as int) == start
            &&& url.subrange(start.len() as int, end) == authority
            &&& tail.len() == 0 ==> url.len() == end
            &&& tail.len() > 0 ==> {
                &&& url.len() == end + 1 + bare.len()
                &&& url[end] == '/'
                &&& url.skip(end + 1) == bare
            }
        }),
{
    reveal_strlit("ws");
    reveal_strlit("wss");
    reveal_strlit("://");
    law_secure_backends_stay_secure(scheme);
    assert("ws"@ + "://"@ == seq!['w', 's', ':', '/', '/']);
    assert("wss"@ + "://"@ == seq!['w', 's', 's', ':', '/', '/']);
}

/// A slash in front of a tail that is not empty makes no difference.
pub proof fn law_leading_slash_makes_no_difference(
    scheme: Option<Seq<char>>,
    authority: Seq<char>,
    tail: Seq<char>,
)
    requires
        tail.len() > 0,
        tail[0] != '/',
    ensures
        websocket_url(scheme, authority, seq!['/'] + tail) == websocket_url(
            scheme,
            authority,
            tail,
        ),
{
}

/// The backend of a WebSocket route is reached by the scheme that its URI has.
pub proof fn law_websocket_routes_keep_their_scheme(uri: backend::UriParts)
    requires
        crate::routes::route_kind(uri) == crate::routes::RouteKind::WebSocket,
    ensures
        uri.scheme == Some(websocket_scheme(uri.scheme)),
{
    reveal_strlit("ws");
    reveal_strlit("wss");
    reveal_strlit("https");
    assert("ws"@.len() == 2);
    assert("wss"@.len() == 3);
    assert("https"@.len() == 5);
}

} // verus!
