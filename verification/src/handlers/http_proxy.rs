//! HTTP requests: how one is rewritten for its backend, where the backend is,
//! and what the client is answered.

use crate::error::ProxyError;
use crate::headers;
use crate::text;
use crate::backend;
use crate::backend::BackendUri;
use http::header::{HeaderMap, HeaderValue};
use http::{StatusCode, Version};
use vstd::hash_set::StringHashSet;
use vstd::prelude::*;
use vstd::string::*;
use vstd::utf8::*;

verus! {

/// What is sent to the backend in place of the target and the header fields
/// of a request.
pub struct BackendRequest {
    pub target: String,
    pub headers: HeaderMap<HeaderValue>,
}

/// The status line and the header fields of a response.
pub struct ResponseHead {
    pub status: StatusCode,
    pub version: Version,
    pub headers: HeaderMap<HeaderValue>,
}

/// What the client is answered: the response of the backend, or a failure of
/// the gateway.
pub enum Reply<R> {
    Forward(R),
    Failure { status: u16, body: String },
}

/// `http::StatusCode`, carried through unread.
#[verifier::external_type_specification]
#[verifier::external_body]
pub struct ExStatusCode(http::StatusCode);

/// `http::Version`, carried through unread.
#[verifier::external_type_specification]
#[verifier::external_body]
pub struct ExVersion(http::Version);

/// The characters of an optional query.
pub open spec fn query_text(query: Option<&str>) -> Option<Seq<char>> {
    match query {
        Some(q) => Some(q@),
        None => None,
    }
}

/// The path and query of a request to the backend: the tail of the route after
/// one slash, then the query of the request, if there is one.
pub open spec fn full_path(tail: Seq<char>, query: Option<Seq<char>>) -> Seq<char> {
    let path = if tail.len() > 0 && tail[0] == '/' {
        tail
    } else {
        seq!['/'] + tail
    };
    match query {
        Some(q) => path + seq!['?'] + q,
        None => path,
    }
}

/// A field that concerns one connection only and is never passed on.
pub open spec fn is_hop_by_hop_name(name: Seq<char>) -> bool {
    ||| name == "connection"@
    ||| name == "keep-alive"@
    ||| name == "proxy-authenticate"@
    ||| name == "proxy-authorization"@
    ||| name == "te"@
    ||| name == "trailers"@
    ||| name == "transfer-encoding"@
    ||| name == "upgrade"@
}

/// The names that the first `Connection` line lists: what stands between its
/// commas, without blanks around it and in small letters. A line that does
/// not read as text lists none.
pub open spec fn connection_names(lines: Seq<(Seq<char>, Seq<u8>)>) -> Set<Seq<char>> {
    match headers::first_text(lines, "connection"@) {
        Some(list) => text::pieces(list, ',').map_values(
            |piece: Seq<char>| text::lowered(text::trimmed(piece)),
        ).to_set(),
        None => Set::empty(),
    }
}

/// Whether a field of a message with these lines is passed on: it is not
/// hop-by-hop and the message does not list it as such.
pub open spec fn is_forwarded(lines: Seq<(Seq<char>, Seq<u8>)>, name: Seq<char>) -> bool {
    !is_hop_by_hop_name(name) && !connection_names(lines).contains(text::lowered(name))
}

/// What is left of a field where only its last value is passed on.
pub open spec fn last_value(lines: Seq<(Seq<char>, Seq<u8>)>, name: Seq<char>) -> Seq<Seq<u8>> {
    let all = headers::values(lines, name);
    if all.len() > 0 {
        seq![all.last()]
    } else {
        Seq::empty()
    }
}

/// The fields of a message with these lines that are passed on.
pub open spec fn forwarded_names(lines: Seq<(Seq<char>, Seq<u8>)>) -> Set<Seq<char>> {
    headers::field_names(lines).filter(|name: Seq<char>| is_forwarded(lines, name))
}

/// Whether a header map is sure to take what is passed on of these lines.
pub open spec fn is_sure_to_fit(lines: Seq<(Seq<char>, Seq<u8>)>) -> bool {
    &&& lines.len() <= headers::LINE_LIMIT
    &&& forwarded_names(lines).len() < headers::FIELD_LIMIT
}

/// The values of a field in the request to a backend with this authority:
/// `Host` names the backend, a field that is passed on keeps its last value,
/// and no other field is there.
pub open spec fn request_values(
    lines: Seq<(Seq<char>, Seq<u8>)>,
    authority: Seq<char>,
    name: Seq<char>,
) -> Seq<Seq<u8>> {
    if name == "host"@ {
        seq![encode_utf8(authority)]
    } else if is_forwarded(lines, name) {
        last_value(lines, name)
    } else {
        Seq::empty()
    }
}

/// Whether `name` is a hop-by-hop field.
pub fn is_hop_by_hop(name: &str) -> (r: bool)
    ensures
        r == is_hop_by_hop_name(name@),
{
    *name == *"connection" || *name == *"keep-alive" || *name == *"proxy-authenticate" || *name
        == *"proxy-authorization" || *name == *"te" || *name == *"trailers" || *name
        == *"transfer-encoding" || *name == *"upgrade"
}

/// The names that the `Connection` field of a message lists.
pub fn extract_connection_headers(headers: &HeaderMap<HeaderValue>) -> (r: StringHashSet)
    ensures
        r@ == connection_names(headers::header_lines(*headers)),
{
    let mut names = StringHashSet::new();
    proof {
        reveal_strlit("connection");
    }
    if let Some(list) = headers::get_text(headers, "connection") {
        let pieces = text::split(&text::to_chars(list.as_str()), ',');
        let ghost views = pieces@.map_values(|piece: Vec<char>| piece@);
        let ghost clean = |piece: Seq<char>| text::lowered(text::trimmed(piece));
        let mut i: usize = 0;
        while i < pieces.len()
            invariant
                i <= pieces@.len(),
                views == pieces@.map_values(|piece: Vec<char>| piece@),
                clean == (|piece: Seq<char>| text::lowered(text::trimmed(piece))),
                names@ == views.take(i as int).map_values(clean).to_set(),
            decreases pieces@.len() - i,
        {
            let name = text::lower(&text::trim(&pieces[i]));
            names.insert(name);
            proof {
                let shorter = views.take(i as int).map_values(clean);
                let longer = views.take(i + 1).map_values(clean);
                assert(longer == shorter.push(name@));
                assert forall|n: Seq<char>| longer.contains(n) == (shorter.contains(n) || n
                    == name@) by {
                    if shorter.contains(n) {
                        let k = choose|k: int| 0 <= k < shorter.len() && shorter[k] == n;
                        assert(longer[k] == n);
                    }
                    assert(longer[i as int] == name@);
                }
                assert(longer.to_set() == shorter.to_set().insert(name@));
            }
            i = i + 1;
        }
        assert(views.take(i as int) == views);
    }
    names
}

/// Whether the field `name` is passed on from a message whose `Connection`
/// field lists `connection_headers`.
pub fn should_forward_header(name: &str, connection_headers: &StringHashSet) -> (r: bool)
    ensures
        r == (!is_hop_by_hop_name(name@) && !connection_headers@.contains(text::lowered(name@))),
{
    !is_hop_by_hop(name) && !connection_headers.contains(
        text::lower(&text::to_chars(name)).as_str(),
    )
}

/// A map that holds what is passed on of the first lines of a message has no
/// more lines than the message has fields that are passed on.
proof fn lemma_forwarded_lines(
    lines: Seq<(Seq<char>, Seq<u8>)>,
    i: int,
    copied: Seq<(Seq<char>, Seq<u8>)>,
)
    requires
        0 <= i <= lines.len(),
        forall|name: Seq<char>| #[trigger]
            headers::values(copied, name) == if is_forwarded(lines, name) {
                last_value(lines.take(i), name)
            } else {
                Seq::empty()
            },
    ensures
        copied.len() <= forwarded_names(lines).len(),
{
    headers::lemma_field_names(lines);
    assert forall|name: Seq<char>| #[trigger]
        headers::values(copied, name).len() > 0 implies forwarded_names(lines).contains(name) by {
        headers::lemma_values_of_first_lines(lines, i, name);
        assert(headers::field_names(lines).contains(name));
    }
    headers::lemma_lines_fit(copied, forwarded_names(lines));
}

/// The header fields for the backend: those of the request that are passed on,
/// with `Host` naming the backend.
pub fn filter_request_headers(original_headers: &HeaderMap<HeaderValue>, authority: &str) -> (r:
    Result<HeaderMap<HeaderValue>, ProxyError>)
    ensures
        match r {
            Ok(filtered) => {
                &&& headers::is_header_text(authority@)
                &&& forall|name: Seq<char>| #[trigger]
                    headers::values(headers::header_lines(filtered), name) == request_values(
                        headers::header_lines(*original_headers),
                        authority@,
                        name,
                    )
            },
            Err(ProxyError::InvalidHost) => !headers::is_header_text(authority@),
            Err(ProxyError::TooManyHeaders) => !is_sure_to_fit(
                headers::header_lines(*original_headers),
            ),
            Err(_) => false,
        },
        headers::header_lines(*original_headers).len() > headers::LINE_LIMIT ==> r matches Err(
            ProxyError::TooManyHeaders,
        ),
{
    let ghost lines = headers::header_lines(*original_headers);
    let names = headers::line_names(original_headers);
    let mut filtered_headers = match headers::with_capacity(names.len()) {
        Ok(map) => map,
        Err(_) => {
            return Err(ProxyError::TooManyHeaders);
        },
    };
    let connection_specific_headers = extract_connection_headers(original_headers);
    let mut i: usize = 0;
    while i < names.len()
        invariant
            i <= names@.len(),
            names@.len() == lines.len(),
            lines == headers::header_lines(*original_headers),
            forall|k: int| 0 <= k < names@.len() ==> #[trigger] names@[k]@ == lines[k].0,
            connection_specific_headers@ == connection_names(lines),
            forall|name: Seq<char>| #[trigger]
                headers::values(headers::header_lines(filtered_headers), name) == if is_forwarded(
                    lines,
                    name,
                ) {
                    last_value(lines.take(i as int), name)
                } else {
                    Seq::empty()
                },
        decreases names@.len() - i,
    {
        if should_forward_header(names[i].as_str(), &connection_specific_headers) {
            proof {
                lemma_forwarded_lines(lines, i as int, headers::header_lines(filtered_headers));
            }
            if headers::copy_line(&mut filtered_headers, original_headers, i).is_err() {
                return Err(ProxyError::TooManyHeaders);
            }
        }
        assert forall|name: Seq<char>| #[trigger]
            headers::values(headers::header_lines(filtered_headers), name) == if is_forwarded(
                lines,
                name,
            ) {
                last_value(lines.take(i + 1), name)
            } else {
                Seq::empty()
            } by {
            headers::lemma_values_of_next_line(lines, i as int, name);
            assert(names@[i as int]@ == lines[i as int].0);
        }
        i = i + 1;
    }
    proof {
        lemma_forwarded_lines(lines, i as int, headers::header_lines(filtered_headers));
        reveal_strlit("host");
    }
    assert(lines.take(i as int) == lines);
    match headers::insert_text(&mut filtered_headers, "host", authority) {
        Ok(Ok(_)) => Ok(filtered_headers),
        Ok(Err(_)) => Err(ProxyError::TooManyHeaders),
        Err(_) => Err(ProxyError::InvalidHost),
    }
}

/// The target of a request to the backend.
pub fn build_path_and_query(query: Option<&str>, tail: &str) -> (r: Result<String, ProxyError>)
    ensures
        ({
            let full = full_path(tail@, query_text(query));
            match r {
                Ok(target) => backend::is_path_and_query(full) && target@
                    == backend::path_and_query(full),
                Err(error) => error == ProxyError::InvalidPath && !backend::is_path_and_query(full),
            }
        }),
{
    let normalized_tail = if !tail.is_empty() && tail.get_char(0) == '/' {
        tail.to_owned()
    } else {
        let mut slashed = String::new();
        slashed.push('/');
        slashed.append(tail);
        slashed
    };
    let full = match query {
        Some(q) => {
            let mut path = normalized_tail;
            path.push('?');
            path.append(q);
            path
        },
        None => normalized_tail,
    };
    assert(full@ == full_path(tail@, query_text(query)));
    match backend::parse_path_and_query(full.as_str()) {
        Ok(target) => Ok(target),
        Err(_) => Err(ProxyError::InvalidPath),
    }
}

/// The authority of the backend.
pub fn extract_authority(backend_uri: &BackendUri) -> (r: Result<String, ProxyError>)
    ensures
        match r {
            Ok(authority) => backend_uri@.authority == Some(authority@),
            Err(error) => error == ProxyError::MissingAuthority && backend_uri@.authority is None,
        },
{
    match &backend_uri.authority {
        Some(authority) => Ok(authority.clone()),
        None => Err(ProxyError::MissingAuthority),
    }
}

/// What is sent to the backend for a request with this query and these header
/// fields that a route with this tail has taken.
pub fn build_backend_request(
    query: Option<&str>,
    original_headers: &HeaderMap<HeaderValue>,
    backend_uri: &BackendUri,
    tail: &str,
) -> (r: Result<BackendRequest, ProxyError>)
    ensures
        ({
            let full = full_path(tail@, query_text(query));
            match r {
                Ok(request) => {
                    &&& backend::is_path_and_query(full)
                    &&& request.target@ == backend::path_and_query(full)
                    &&& backend_uri@.authority matches Some(authority)
                    &&& headers::is_header_text(authority)
                    &&& forall|name: Seq<char>| #[trigger]
                        headers::values(headers::header_lines(request.headers), name)
                            == request_values(
                            headers::header_lines(*original_headers),
                            authority,
                            name,
                        )
                },
                Err(ProxyError::InvalidPath) => !backend::is_path_and_query(full),
                Err(ProxyError::MissingAuthority) => {
                    &&& backend::is_path_and_query(full)
                    &&& backend_uri@.authority is None
                },
                Err(ProxyError::InvalidHost) => {
                    &&& backend::is_path_and_query(full)
                    &&& backend_uri@.authority matches Some(authority)
                    &&& !headers::is_header_text(authority)
                },
                Err(ProxyError::TooManyHeaders) => {
                    &&& backend::is_path_and_query(full)
                    &&& backend_uri@.authority is Some
                    &&& !is_sure_to_fit(headers::header_lines(*original_headers))
                },
                Err(_) => false,
            }
        }),
        backend::is_path_and_query(full_path(tail@, query_text(query))) && backend_uri@.authority
            is Some && headers::header_lines(*original_headers).len() > headers::LINE_LIMIT
            ==> r matches Err(ProxyError::TooManyHeaders),
{
    let target = match build_path_and_query(query, tail) {
        Ok(target) => target,
        Err(error) => {
            return Err(error);
        },
    };
    let authority = match extract_authority(backend_uri) {
        Ok(authority) => authority,
        Err(error) => {
            return Err(error);
        },
    };
    match filter_request_headers(original_headers, authority.as_str()) {
        Ok(headers) => Ok(BackendRequest { target, headers }),
        Err(error) => Err(error),
    }
}

/// The host that the backend listens on.
pub fn backend_host(backend_uri: &BackendUri) -> (r: Result<String, ProxyError>)
    ensures
        match r {
            Ok(host) => backend_uri@.host == Some(host@),
            Err(error) => error == ProxyError::MissingHost && backend_uri@.host is None,
        },
{
    match &backend_uri.host {
        Some(host) => Ok(host.clone()),
        None => Err(ProxyError::MissingHost),
    }
}

/// The port that the backend listens on: that of its URI, 80 where it has
/// none, whatever the scheme.
pub open spec fn backend_port(uri: backend::UriParts) -> u16 {
    match uri.port {
        Some(port) => port,
        None => 80,
    }
}

/// Where a backend listens, given what its host is as an IP address.
pub open spec fn backend_address<A>(uri: backend::UriParts, address: Option<A>) -> Option<(A, u16)> {
    match (uri.host, address) {
        (Some(_), Some(ip)) => Some((ip, backend_port(uri))),
        _ => None,
    }
}

/// Where the backend listens, given what its host is as an IP address: that
/// address and the port of the backend URI, 80 where it has none.
pub fn resolve_backend_address<A>(backend_uri: &BackendUri, address: Option<A>) -> (r: Result<
    (A, u16),
    ProxyError,
>)
    ensures
        match r {
            Ok(found) => backend_address(backend_uri@, address) == Some(found),
            Err(ProxyError::MissingHost) => backend_uri@.host is None,
            Err(ProxyError::InvalidAddress(host)) => {
                &&& backend_uri@.host == Some(host@)
                &&& address is None
            },
            Err(_) => false,
        },
{
    let host = match backend_host(backend_uri) {
        Ok(host) => host,
        Err(error) => {
            return Err(error);
        },
    };
    let port: u16 = match backend_uri.port {
        Some(port) => port,
        None => 80,
    };
    match address {
        Some(ip) => Ok((ip, port)),
        None => Err(ProxyError::InvalidAddress(host)),
    }
}

/// The head of the response to the client: the status and the version of the
/// backend's response. None of its header fields is passed on.
pub fn filter_response_headers(backend_response: ResponseHead) -> (r: ResponseHead)
    ensures
        r.status == backend_response.status,
        r.version == backend_response.version,
        headers::header_lines(r.headers) == Seq::<(Seq<char>, Seq<u8>)>::empty(),
{
    ResponseHead {
        status: backend_response.status,
        version: backend_response.version,
        headers: headers::with_capacity(0).unwrap(),
    }
}

/// What the client is answered once its request was handled: a failure, of
/// whatever kind, is answered with the status 500.
pub fn reply_to_client<R, E>(outcome: Result<R, E>) -> (r: Reply<R>)
    ensures
        match outcome {
            Ok(response) => r == Reply::Forward(response),
            Err(_) => r matches Reply::Failure { status, body } && status == 500 && body@
                == "내부 서버 오류"@,
        },
{
    match outcome {
        Ok(response) => Reply::Forward(response),
        Err(_) => Reply::Failure { status: 500, body: "내부 서버 오류".to_owned() },
    }
}

/// How long the hop-by-hop names are.
pub proof fn lemma_hop_by_hop_lengths(name: Seq<char>)
    requires
        is_hop_by_hop_name(name),
    ensures
        name.len() == 2 || name.len() == 7 || name.len() == 8 || name.len() == 10 || 17
            <= name.len() <= 19,
{
    reveal_strlit("connection");
    reveal_strlit("keep-alive");
    reveal_strlit("proxy-authenticate");
    reveal_strlit("proxy-authorization");
    reveal_strlit("te");
    reveal_strlit("trailers");
    reveal_strlit("transfer-encoding");
    reveal_strlit("upgrade");
    assert("connection"@.len() == 10);
    assert("keep-alive"@.len() == 10);
    assert("proxy-authenticate"@.len() == 18);
    assert("proxy-authorization"@.len() == 19);
    assert("te"@.len() == 2);
    assert("trailers"@.len() == 8);
    assert("transfer-encoding"@.len() == 17);
    assert("upgrade"@.len() == 7);
}

/// No hop-by-hop field reaches the backend, whatever its value.
pub proof fn law_hop_by_hop_fields_stay_behind(
    lines: Seq<(Seq<char>, Seq<u8>)>,
    authority: Seq<char>,
    name: Seq<char>,
)
    requires
        is_hop_by_hop_name(name),
    ensures
        request_values(lines, authority, name).len() == 0,
{
    lemma_hop_by_hop_lengths(name);
    reveal_strlit("host");
    assert("host"@.len() == 4);
}

/// No field that the `Connection` field lists reaches the backend, except that
/// `Host` names the backend all the same.
pub proof fn law_listed_fields_stay_behind(
    lines: Seq<(Seq<char>, Seq<u8>)>,
    authority: Seq<char>,
    name: Seq<char>,
)
    requires
        connection_names(lines).contains(text::lowered(name)),
    ensures
        request_values(lines, authority, name) == if name == "host"@ {
            seq![encode_utf8(authority)]
        } else {
            Seq::empty()
        },
{
}

/// A message that came through the filter would pass it again unchanged, and
/// is sure to where the request for the backend has room for `Host` beside
/// what is passed on.
pub proof fn law_filtering_twice_changes_nothing(
    lines: Seq<(Seq<char>, Seq<u8>)>,
    filtered: Seq<(Seq<char>, Seq<u8>)>,
    authority: Seq<char>,
)
    requires
        forall|n: Seq<char>| #[trigger]
            headers::values(filtered, n) == request_values(lines, authority, n),
    ensures
        forwarded_names(lines).insert("host"@).len() < headers::FIELD_LIMIT ==> is_sure_to_fit(
            filtered,
        ),
        forall|n: Seq<char>| #[trigger]
            request_values(filtered, authority, n) == headers::values(filtered, n),
{
    law_hop_by_hop_fields_stay_behind(lines, authority, "connection"@);
    assert(headers::values(filtered, "connection"@).len() == 0);
    assert forall|n: Seq<char>| #[trigger]
        request_values(filtered, authority, n) == headers::values(filtered, n) by {
        assert(headers::values(filtered, n) == request_values(lines, authority, n));
        if is_hop_by_hop_name(n) {
            law_hop_by_hop_fields_stay_behind(lines, authority, n);
        }
    }
    headers::lemma_field_names(lines);
    headers::lemma_field_names(filtered);
    assert forall|n: Seq<char>| #[trigger]
        headers::values(filtered, n).len() > 0 implies forwarded_names(lines).insert(
        "host"@,
    ).contains(n) by {
        law_what_the_backend_receives(lines, authority, n);
    }
    headers::lemma_lines_fit(filtered, forwarded_names(lines).insert("host"@));
    vstd::set_lib::lemma_len_subset(forwarded_names(filtered), headers::field_names(filtered));
}

/// The request for the backend has one `Host`, which names the backend. Any
/// other field is in it if and only if the client sent it, it is not
/// hop-by-hop and `Connection` does not list it, and then with the last value
/// alone.
pub proof fn law_what_the_backend_receives(
    lines: Seq<(Seq<char>, Seq<u8>)>,
    authority: Seq<char>,
    name: Seq<char>,
)
    ensures
        request_values(lines, authority, "host"@) == seq![encode_utf8(authority)],
        name != "host"@ ==> (request_values(lines, authority, name).len() > 0
            <==> forwarded_names(lines).contains(name)),
        forwarded_names(lines).contains(name) <==> {
            &&& headers::values(lines, name).len() > 0
            &&& !is_hop_by_hop_name(name)
            &&& !connection_names(lines).contains(text::lowered(name))
        },
        name != "host"@ && forwarded_names(lines).contains(name) ==> request_values(
            lines,
            authority,
            name,
        ) == seq![headers::values(lines, name).last()],
{
    headers::lemma_field_names(lines);
}

/// Backends with one authority are found at one address and fail alike,
/// whatever their scheme, path and query: the same host is read as an IP
/// address, and what it is read as goes with the same port.
pub proof fn law_equal_authorities_share_an_address<A>(
    a: backend::UriParts,
    b: backend::UriParts,
    address: Option<A>,
)
    requires
        a.is_consistent(),
        b.is_consistent(),
        a.authority == b.authority,
    ensures
        a.host == b.host,
        backend_address(a, address) == backend_address(b, address),
{
    backend::law_host_and_port_follow_the_authority(a, b);
}

/// Exactly these eight names are hop-by-hop.
pub proof fn law_eight_names_are_hop_by_hop(name: Seq<char>)
    ensures
        is_hop_by_hop_name(name) <==> set![
            "connection"@,
            "keep-alive"@,
            "proxy-authenticate"@,
            "proxy-authorization"@,
            "te"@,
            "trailers"@,
            "transfer-encoding"@,
            "upgrade"@,
        ].contains(name),
{
}

/// Whether `value` has, between commas or its ends at `a` and `b`, the text
/// from `c` to `d` with nothing but spaces and tabs around it, and that text is
/// `name` but for the case of ASCII letters.
pub open spec fn lists_at(
    value: Seq<u8>,
    name: Seq<char>,
    a: int,
    b: int,
    c: int,
    d: int,
) -> bool {
    &&& 0 <= a <= c <= d <= b <= value.len()
    &&& a == 0 || value[a - 1] == 44
    &&& b == value.len() || value[b] == 44
    &&& forall|i: int| a <= i < b ==> #[trigger] value[i] != 44
    &&& forall|i: int| a <= i < c || d <= i < b ==> #[trigger] value[i] == 32 || value[i] == 9
    &&& c < d ==> value[c] != 32 && value[c] != 9 && value[d - 1] != 32 && value[d - 1] != 9
    &&& name.len() == d - c
    &&& forall|i: int|
        0 <= i < d - c ==> text::small_code(value[c + i] as int) == text::small_code(
            #[trigger] name[i] as int,
        )
}

/// Whether the first `Connection` line is of visible ASCII characters, spaces
/// and tabs, and lists `name`.
pub open spec fn is_listed(lines: Seq<(Seq<char>, Seq<u8>)>, name: Seq<char>) -> bool {
    let all = headers::values(lines, "connection"@);
    &&& all.len() > 0
    &&& forall|i: int| 0 <= i < all[0].len() ==> 32 <= #[trigger] all[0][i] < 127 || all[0][i] == 9
    &&& exists|a: int, b: int, c: int, d: int| lists_at(all[0], name, a, b, c, d)
}

/// Texts are equal in small letters when their characters are but for case.
proof fn lemma_lowered_equal(a: Seq<char>, b: Seq<char>)
    ensures
        text::lowered(a) == text::lowered(b) <==> a.len() == b.len() && forall|i: int|
            0 <= i < a.len() ==> text::small_code(#[trigger] a[i] as int) == text::small_code(
                b[i] as int,
            ),
{
    text::law_lowering_keeps_all_but_capitals(a);
    text::law_lowering_keeps_all_but_capitals(b);
    if text::lowered(a) == text::lowered(b) {
        assert forall|i: int| 0 <= i < a.len() implies text::small_code(#[trigger] a[i] as int)
            == text::small_code(b[i] as int) by {
            assert(text::lowered(a)[i] as int == text::small_code(a[i] as int));
            assert(text::lowered(b)[i] as int == text::small_code(b[i] as int));
        }
    }
    if a.len() == b.len() && forall|i: int|
        0 <= i < a.len() ==> text::small_code(#[trigger] a[i] as int) == text::small_code(
            b[i] as int,
        ) {
        assert forall|i: int| 0 <= i < a.len() implies text::lowered(a)[i] == text::lowered(
            b,
        )[i] by {
            assert(text::lowered(a)[i] as int == text::small_code(a[i] as int));
            assert(text::lowered(b)[i] as int == text::small_code(b[i] as int));
        }
        assert(text::lowered(a) =~= text::lowered(b));
    }
}

/// A piece between commas lists the name that it is without its blanks.
proof fn lemma_piece_lists(value: Seq<u8>, name: Seq<char>, piece: Seq<char>)
    requires
        text::pieces(headers::visible_text(value), ',').contains(piece),
        text::lowered(text::trimmed(piece)) == text::lowered(name),
    ensures
        exists|a: int, b: int, c: int, d: int| lists_at(value, name, a, b, c, d),
{
    let list = headers::visible_text(value);
    text::law_pieces_stand_between_separators(list, ',', piece);
    let (a, b) = choose|a: int, b: int| #[trigger]
        text::is_piece(list, ',', a, b) && piece == list.subrange(a, b);
    let (c, d) = text::lemma_core(piece);
    text::law_trimming_strips_the_ends(piece, c, d);
    lemma_lowered_equal(piece.subrange(c, d), name);
    assert forall|i: int| 0 <= i < value.len() implies #[trigger] list[i] as int
        == value[i] as int by {}
    assert forall|i: int| a <= i < b implies #[trigger] value[i] != 44 by {
        assert(list[i] != ',');
    }
    assert forall|i: int| a <= i < a + c || a + d <= i < b implies #[trigger] value[i] == 32
        || value[i] == 9 by {
        assert(piece[i - a] == list[i]);
    }
    let start = a + c;
    assert forall|i: int| 0 <= i < d - c implies text::small_code(value[start + i] as int)
        == text::small_code(#[trigger] name[i] as int) by {
        let core = piece.subrange(c, d);
        assert(core[i] == list[start + i]);
        assert(text::small_code(core[i] as int) == text::small_code(name[i] as int));
    }
    if c < d {
        assert(piece[c] == list[a + c]);
        assert(piece[d - 1] == list[a + d - 1]);
    }
    if a > 0 {
        assert(list[a - 1] == ',');
    }
    if b < list.len() {
        assert(list[b] == ',');
    }
    assert(lists_at(value, name, a, b, a + c, a + d));
}

/// A name that is listed is a piece between commas without its blanks.
proof fn lemma_listed_piece(
    value: Seq<u8>,
    name: Seq<char>,
    a: int,
    b: int,
    c: int,
    d: int,
)
    requires
        lists_at(value, name, a, b, c, d),
    ensures
        ({
            let list = headers::visible_text(value);
            let piece = list.subrange(a, b);
            &&& text::pieces(list, ',').contains(piece)
            &&& text::lowered(text::trimmed(piece)) == text::lowered(name)
        }),
{
    let list = headers::visible_text(value);
    let piece = list.subrange(a, b);
    assert forall|i: int| 0 <= i < value.len() implies #[trigger] list[i] as int
        == value[i] as int by {}
    assert forall|i: int| a <= i < b implies #[trigger] list[i] != ',' by {
        assert(value[i] != 44);
    }
    if a > 0 {
        assert(list[a - 1] as int == value[a - 1] as int);
    }
    if b < value.len() {
        assert(list[b] as int == value[b] as int);
    }
    assert(text::is_piece(list, ',', a, b));
    text::law_pieces_stand_between_separators(list, ',', piece);
    assert forall|i: int| 0 <= i < c - a || d - a <= i < piece.len() implies #[trigger] piece[i]
        == ' ' || piece[i] == '\t' by {
        assert(piece[i] == list[a + i]);
        assert(value[a + i] == 32 || value[a + i] == 9);
    }
    if c < d {
        assert(piece[c - a] == list[c]);
        assert(piece[d - a - 1] == list[d - 1]);
    }
    assert(text::is_core(piece, c - a, d - a));
    text::law_trimming_strips_the_ends(piece, c - a, d - a);
    let core = piece.subrange(c - a, d - a);
    assert forall|i: int| 0 <= i < core.len() implies text::small_code(#[trigger] core[i] as int)
        == text::small_code(name[i] as int) by {
        assert(core[i] == list[c + i]);
        assert(text::small_code(value[c + i] as int) == text::small_code(name[i] as int));
    }
    lemma_lowered_equal(core, name);
}

/// The names that the `Connection` field lists are those that stand between
/// the commas of its first line, whatever their case and the blanks around
/// them.
pub proof fn law_connection_lists_what_stands_between_commas(
    lines: Seq<(Seq<char>, Seq<u8>)>,
    name: Seq<char>,
)
    ensures
        connection_names(lines).contains(text::lowered(name)) <==> is_listed(lines, name),
{
    let all = headers::values(lines, "connection"@);
    if all.len() > 0 && headers::is_visible(all[0]) {
        let value = all[0];
        let parts = text::pieces(headers::visible_text(value), ',');
        let names = parts.map_values(|piece: Seq<char>| text::lowered(text::trimmed(piece)));
        assert(connection_names(lines) == names.to_set());
        if names.contains(text::lowered(name)) {
            let j = choose|j: int| 0 <= j < names.len() && names[j] == text::lowered(name);
            assert(parts.contains(parts[j]));
            lemma_piece_lists(value, name, parts[j]);
        }
        if exists|a: int, b: int, c: int, d: int| lists_at(value, name, a, b, c, d) {
            let (a, b, c, d) = choose|a: int, b: int, c: int, d: int|
                lists_at(value, name, a, b, c, d);
            lemma_listed_piece(value, name, a, b, c, d);
            let piece = headers::visible_text(value).subrange(a, b);
            let j = choose|j: int| 0 <= j < parts.len() && parts[j] == piece;
            assert(names[j] == text::lowered(name));
        }
    }
}

/// The listed names are kept in small letters.
pub proof fn law_listed_names_are_in_small_letters(
    lines: Seq<(Seq<char>, Seq<u8>)>,
    name: Seq<char>,
)
    ensures
        connection_names(lines).contains(name) <==> {
            &&& is_listed(lines, name)
            &&& forall|i: int| 0 <= i < name.len() ==> !('A' <= #[trigger] name[i] <= 'Z')
        },
{
    law_connection_lists_what_stands_between_commas(lines, name);
    text::law_lowering_keeps_all_but_capitals(name);
    if forall|i: int| 0 <= i < name.len() ==> !('A' <= #[trigger] name[i] <= 'Z') {
        assert(text::lowered(name) =~= name);
    }
    if connection_names(lines).contains(name) {
        let list = headers::first_text(lines, "connection"@)->Some_0;
        let parts = text::pieces(list, ',');
        let names = parts.map_values(|piece: Seq<char>| text::lowered(text::trimmed(piece)));
        let j = choose|j: int| 0 <= j < names.len() && names[j] == name;
        let core = text::trimmed(parts[j]);
        text::law_lowering_keeps_all_but_capitals(core);
        assert forall|i: int| 0 <= i < name.len() implies !('A' <= #[trigger] name[i] <= 'Z') by {
            assert(text::lowered(core)[i] as int == text::small_code(core[i] as int));
        }
        assert(text::lowered(name) =~= name);
    }
}

/// A field other than `Host` that is none of the eight hop-by-hop fields and
/// that `Connection` does not list reaches the backend with the last value that
/// the client sent for it, if it sent one.
pub proof fn law_every_other_field_is_passed_on(
    lines: Seq<(Seq<char>, Seq<u8>)>,
    authority: Seq<char>,
    name: Seq<char>,
)
    requires
        name != "host"@,
        name != "connection"@,
        name != "keep-alive"@,
        name != "proxy-authenticate"@,
        name != "proxy-authorization"@,
        name != "te"@,
        name != "trailers"@,
        name != "transfer-encoding"@,
        name != "upgrade"@,
        !is_listed(lines, name),
    ensures
        ({
            let sent = headers::values(lines, name);
            let passed_on = request_values(lines, authority, name);
            &&& sent.len() == 0 ==> passed_on.len() == 0
            &&& sent.len() > 0 ==> passed_on.len() == 1 && passed_on[0] == sent[sent.len() - 1]
        }),
{
    law_connection_lists_what_stands_between_commas(lines, name);
}

/// Of the eight hop-by-hop fields and those that `Connection` lists, nothing
/// reaches the backend; `Host` is the authority of the backend, listed or not.
pub proof fn law_no_field_of_the_connection_is_passed_on(
    lines: Seq<(Seq<char>, Seq<u8>)>,
    authority: Seq<char>,
    name: Seq<char>,
)
    ensures
        request_values(lines, authority, "host"@) == seq![encode_utf8(authority)],
        request_values(lines, authority, "connection"@).len() == 0,
        request_values(lines, authority, "keep-alive"@).len() == 0,
        request_values(lines, authority, "proxy-authenticate"@).len() == 0,
        request_values(lines, authority, "proxy-authorization"@).len() == 0,
        request_values(lines, authority, "te"@).len() == 0,
        request_values(lines, authority, "trailers"@).len() == 0,
        request_values(lines, authority, "transfer-encoding"@).len() == 0,
        request_values(lines, authority, "upgrade"@).len() == 0,
        name != "host"@ && is_listed(lines, name) ==> request_values(
            lines,
            authority,
            name,
        ).len() == 0,
{
    law_hop_by_hop_fields_stay_behind(lines, authority, "connection"@);
    law_hop_by_hop_fields_stay_behind(lines, authority, "keep-alive"@);
    law_hop_by_hop_fields_stay_behind(lines, authority, "proxy-authenticate"@);
    law_hop_by_hop_fields_stay_behind(lines, authority, "proxy-authorization"@);
    law_hop_by_hop_fields_stay_behind(lines, authority, "te"@);
    law_hop_by_hop_fields_stay_behind(lines, authority, "trailers"@);
    law_hop_by_hop_fields_stay_behind(lines, authority, "transfer-encoding"@);
    law_hop_by_hop_fields_stay_behind(lines, authority, "upgrade"@);
    law_connection_lists_what_stands_between_commas(lines, name);
}

/// A request of at most 24576 header lines is sure to be passed on where fewer
/// than 6554 names cover the fields that are neither hop-by-hop nor listed.
pub proof fn law_ordinary_requests_fit(
    lines: Seq<(Seq<char>, Seq<u8>)>,
    names: Set<Seq<char>>,
)
    requires
        lines.len() <= 24576,
        names.finite(),
        names.len() < 6554,
        forall|n: Seq<char>| #[trigger]
            headers::values(lines, n).len() > 0 && n != "connection"@ && n != "keep-alive"@ && n
                != "proxy-authenticate"@ && n != "proxy-authorization"@ && n != "te"@ && n
                != "trailers"@ && n != "transfer-encoding"@ && n != "upgrade"@ && !is_listed(
                lines,
                n,
            ) ==> names.contains(n),
    ensures
        is_sure_to_fit(lines),
{
    headers::lemma_field_names(lines);
    assert forall|n: Seq<char>| forwarded_names(lines).contains(n) implies names.contains(n) by {
        law_connection_lists_what_stands_between_commas(lines, n);
        assert(headers::values(lines, n).len() > 0);
    }
    vstd::set_lib::lemma_len_subset(forwarded_names(lines), names);
}

/// The text that the target is made from is one slash, the tail without the
/// slash that it may start with, and the whole query, if there is one, after a
/// question mark.
pub proof fn law_the_tail_and_the_whole_query_are_kept(tail: Seq<char>, query: Option<Seq<char>>)
    ensures
        ({
            let full = full_path(tail, query);
            let bare = if tail.len() > 0 && tail[0] == '/' {
                tail.skip(1)
            } else {
                tail
            };
            let end: int = 1 + bare.len() as int;
            &&& full.len() > 0 && full[0] == '/'
            &&& full.subrange(1, end) == bare
            &&& query is None ==> full.len() == end
            &&& query matches Some(q) ==> {
                &&& full.len() == end + 1 + q.len()
                &&& full[end] == '?'
                &&& full.skip(end + 1) == q
            }
        }),
{
}

/// Without a fragment, the target is one slash, the tail without the slash that
/// it may start with, and the whole query, if there is one, after a question
/// mark, which is the first where the tail has none.
pub proof fn law_the_target_is_the_tail_and_the_query(tail: Seq<char>, query: Option<Seq<char>>)
    requires
        !tail.contains('#'),
        query matches Some(q) ==> !q.contains('#'),
    ensures
        ({
            let target = backend::path_and_query(full_path(tail, query));
            let bare = if tail.len() > 0 && tail[0] == '/' {
                tail.skip(1)
            } else {
                tail
            };
            let end: int = 1 + bare.len() as int;
            &&& target.len() > 0 && target[0] == '/'
            &&& target.subrange(1, end) == bare
            &&& query is None ==> target.len() == end
            &&& query matches Some(q) ==> {
                &&& target.len() == end + 1 + q.len()
                &&& target[end] == '?'
                &&& target.skip(end + 1) == q
            }
            &&& !tail.contains('?') ==> forall|i: int|
                0 <= i < end ==> #[trigger] target[i] != '?'
        }),
{
    let full = full_path(tail, query);
    let bare = if tail.len() > 0 && tail[0] == '/' {
        tail.skip(1)
    } else {
        tail
    };
    let end: int = 1 + bare.len() as int;
    law_the_tail_and_the_whole_query_are_kept(tail, query);
    assert forall|c: char| bare.contains(c) implies tail.contains(c) by {
        let i = choose|i: int| 0 <= i < bare.len() && bare[i] == c;
        if tail.len() > 0 && tail[0] == '/' {
            assert(tail[i + 1] == c);
        }
    }
    assert forall|i: int| 1 <= i < end implies tail.contains(#[trigger] full[i]) by {
        assert(full.subrange(1, end)[i - 1] == full[i]);
        assert(bare.contains(bare[i - 1]));
    }
    if full.contains('#') {
        let i = choose|i: int| 0 <= i < full.len() && full[i] == '#';
        if 1 <= i < end {
            assert(tail.contains(full[i]));
        } else if i > end {
            let q = query->Some_0;
            assert(full.skip(end + 1)[i - end - 1] == full[i]);
            assert(q.contains(q[i - end - 1]));
        }
    }
    backend::law_target_without_fragment_stays(full);
}

/// What follows a number sign, in the tail or in the query, is no part of the
/// target, nor is the query where the tail has one.
pub proof fn law_fragments_are_cut_off(
    tail: Seq<char>,
    query: Option<Seq<char>>,
    more: Seq<char>,
)
    requires
        !tail.contains('#'),
        query matches Some(q) ==> !q.contains('#'),
    ensures
        backend::path_and_query(full_path(tail + seq!['#'] + more, query))
            == backend::path_and_query(full_path(tail, None)),
        query matches Some(q) ==> backend::path_and_query(
            full_path(tail, Some(q + seq!['#'] + more)),
        ) == backend::path_and_query(full_path(tail, query)),
{
    let cut = tail + seq!['#'] + more;
    law_the_target_is_the_tail_and_the_query(tail, None);
    law_the_target_is_the_tail_and_the_query(tail, query);
    assert(!full_path(tail, None).contains('#'));
    assert(!full_path(tail, query).contains('#')) by {
        let full = full_path(tail, query);
        if full.contains('#') {
            let i = choose|i: int| 0 <= i < full.len() && full[i] == '#';
            let path = full_path(tail, None);
            if i < path.len() {
                assert(path[i] == '#');
            } else if i > path.len() {
                assert(query->Some_0[i - path.len() - 1] == '#');
            }
        }
    }
    let rest = match query {
        Some(q) => more + seq!['?'] + q,
        None => more,
    };
    assert(full_path(cut, query) == full_path(tail, None) + seq!['#'] + rest) by {
        if tail.len() > 0 {
            assert(cut[0] == tail[0]);
        } else {
            assert(cut[0] == '#');
        }
    }
    backend::law_fragments_are_no_part_of_the_target(full_path(tail, None), rest);
    if let Some(q) = query {
        assert(full_path(tail, Some(q + seq!['#'] + more)) == full_path(tail, query) + seq!['#']
            + more);
        backend::law_fragments_are_no_part_of_the_target(full_path(tail, query), more);
    }
}

/// A query is taken as the request has it.
pub proof fn law_queries_are_taken_whole(query: Option<&str>)
    ensures
        query is None <==> query_text(query) is None,
        query matches Some(q) ==> query_text(query) == Some(q@),
{
}

/// A backend with a host listens at the IP address that the host is, on the
/// port of its URI, or on port 80 where the URI has none; without a host or an
/// IP address it has no address.
pub proof fn law_backend_addresses<A>(uri: backend::UriParts, address: Option<A>, ip: A)
    ensures
        backend_address(uri, address) is Some <==> uri.host is Some && address is Some,
        uri.host is Some ==> match backend_address(uri, Some(ip)) {
            Some(found) => {
                &&& found.0 == ip
                &&& uri.port matches Some(port) ==> found.1 == port
                &&& uri.port is None ==> found.1 == 80
            },
            None => false,
        },
{
}

/// The target for the backend starts with a slash.
pub proof fn law_target_starts_with_a_slash(tail: Seq<char>, query: Option<Seq<char>>)
    ensures
        ({
            let target = backend::path_and_query(full_path(tail, query));
            target.len() > 0 && target[0] == '/'
        }),
{
    let full = full_path(tail, query);
    assert(full[0] == '/');
    assert(backend::before(full, '#')[0] == '/');
}

/// A slash in front of the tail makes no difference.
pub proof fn law_leading_slash_makes_no_difference(tail: Seq<char>, query: Option<Seq<char>>)
    requires
        tail.len() == 0 || tail[0] != '/',
    ensures
        full_path(seq!['/'] + tail, query) == full_path(tail, query),
{
}

} // verus!
