use api_gateway::backend::BackendUri;
use api_gateway::error::ProxyError;
use api_gateway::handlers::http_proxy::{
    backend_host, build_backend_request, build_path_and_query, extract_authority,
    extract_connection_headers, filter_request_headers, filter_response_headers, is_hop_by_hop,
    reply_to_client, resolve_backend_address, should_forward_header, Reply, ResponseHead,
};
use api_gateway::routes::parse_uri;
use http::header::{HeaderMap, HeaderName, HeaderValue};
use http::{StatusCode, Version};

fn map(lines: &[(&str, &str)]) -> HeaderMap {
    let mut headers = HeaderMap::new();
    for (name, value) in lines {
        headers.append(
            HeaderName::from_bytes(name.as_bytes()).unwrap(),
            HeaderValue::from_bytes(value.as_bytes()).unwrap(),
        );
    }
    headers
}

fn all(headers: &HeaderMap, name: &str) -> Vec<String> {
    headers
        .get_all(name)
        .iter()
        .map(|value| String::from_utf8(value.as_bytes().to_vec()).unwrap())
        .collect()
}

fn uri(text: &str) -> BackendUri {
    parse_uri(text, "r").unwrap()
}

#[test]
fn hop_by_hop_names() {
    for name in [
        "connection",
        "keep-alive",
        "proxy-authenticate",
        "proxy-authorization",
        "te",
        "trailers",
        "transfer-encoding",
        "upgrade",
    ] {
        assert!(is_hop_by_hop(name));
    }
    for name in ["host", "trailer", "content-length", "cookie", "Connection", ""] {
        assert!(!is_hop_by_hop(name));
    }
}

#[test]
fn connection_field_is_a_list() {
    let names = extract_connection_headers(&map(&[("connection", " Keep-Alive,\tX-Secret , close")]));
    assert_eq!(names.len(), 3);
    assert!(names.contains("keep-alive"));
    assert!(names.contains("x-secret"));
    assert!(names.contains("close"));
    assert!(!names.contains("X-Secret"));
}

#[test]
fn connection_field_can_list_nothing() {
    assert!(extract_connection_headers(&map(&[("x", "y")])).is_empty());
    let empty = extract_connection_headers(&map(&[("connection", "")]));
    assert_eq!(empty.len(), 1);
    assert!(empty.contains(""));
    assert!(extract_connection_headers(&map(&[("connection", "close, \u{e9}")])).is_empty());
    let trailing = extract_connection_headers(&map(&[("connection", "close,,")]));
    assert_eq!(trailing.len(), 2);
    assert!(trailing.contains("") && trailing.contains("close"));
}

#[test]
fn only_the_first_connection_line_is_read() {
    let names = extract_connection_headers(&map(&[("connection", "a"), ("connection", "b")]));
    assert!(names.contains("a"));
    assert!(!names.contains("b"));
}

#[test]
fn listed_names_are_not_forwarded() {
    let names = extract_connection_headers(&map(&[("connection", "X-Secret")]));
    assert!(!should_forward_header("x-secret", &names));
    assert!(!should_forward_header("te", &names));
    assert!(should_forward_header("cookie", &names));
}

#[test]
fn request_fields_are_filtered() {
    let original = map(&[
        ("Host", "gateway.example"),
        ("Accept", "text/html"),
        ("Cookie", "a=1"),
        ("Cookie", "b=2"),
        ("X-Secret", "s"),
        ("Connection", "keep-alive, x-secret"),
        ("Keep-Alive", "timeout=5"),
        ("TE", "trailers"),
        ("Transfer-Encoding", "chunked"),
        ("Upgrade", "h2c"),
        ("X-Opaque", "\u{e9}"),
    ]);
    let filtered = filter_request_headers(&original, "10.0.0.1:81").unwrap();
    assert_eq!(all(&filtered, "host"), vec!["10.0.0.1:81"]);
    assert_eq!(all(&filtered, "accept"), vec!["text/html"]);
    assert_eq!(all(&filtered, "cookie"), vec!["b=2"]);
    assert_eq!(all(&filtered, "x-opaque"), vec!["\u{e9}"]);
    assert_eq!(filtered.len(), 4);
    assert_eq!(filter_request_headers(&filtered, "10.0.0.1:81").unwrap(), filtered);
}

#[test]
fn host_names_the_backend_though_listed() {
    let original = map(&[("host", "a"), ("connection", "host")]);
    let filtered = filter_request_headers(&original, "b").unwrap();
    assert_eq!(all(&filtered, "host"), vec!["b"]);
    assert_eq!(filtered.len(), 1);
}

#[test]
fn unfit_authorities_are_reported() {
    let error = filter_request_headers(&map(&[]), "a\nb").unwrap_err();
    assert_eq!(error, ProxyError::InvalidHost);
    assert_eq!(error.message(), "Failed to create Host header value");
    assert!(filter_request_headers(&map(&[]), "a\u{7f}").is_err());
    assert!(filter_request_headers(&map(&[]), "a\tb\u{e9}").is_ok());
}

#[test]
fn a_map_at_its_limit_is_reported() {
    let mut original = HeaderMap::new();
    for i in 0..24577u32 {
        original.append("x", HeaderValue::from(i));
    }
    let error = filter_request_headers(&original, "h").unwrap_err();
    assert_eq!(error, ProxyError::TooManyHeaders);
    assert_eq!(error.message(), "size overflows MAX_SIZE");
}

#[test]
fn many_fields_are_passed_on() {
    let mut original = HeaderMap::new();
    for i in 0..2000u32 {
        original.append(
            HeaderName::from_bytes(format!("x-{}", i).as_bytes()).unwrap(),
            HeaderValue::from(i),
        );
    }
    let filtered = filter_request_headers(&original, "h").unwrap();
    assert_eq!(filtered.len(), 2001);
    assert_eq!(all(&filtered, "x-1999"), vec!["1999"]);
}

#[test]
fn repeated_lines_count_once() {
    let mut original = HeaderMap::new();
    for i in 0..24576u32 {
        original.append("x", HeaderValue::from(i));
    }
    let filtered = filter_request_headers(&original, "h").unwrap();
    assert_eq!(filtered.len(), 2);
    assert_eq!(all(&filtered, "x"), vec!["24575"]);
    assert_eq!(all(&filtered, "host"), vec!["h"]);
}

#[test]
fn distinct_fields_below_the_limit_are_passed_on() {
    let mut original = HeaderMap::new();
    for i in 0..6553u32 {
        original.append(
            HeaderName::from_bytes(format!("x-{}", i).as_bytes()).unwrap(),
            HeaderValue::from(i),
        );
    }
    assert_eq!(filter_request_headers(&original, "h").unwrap().len(), 6554);
}

#[test]
fn filtering_twice_changes_nothing() {
    let original = map(&[
        ("accept", "a"),
        ("accept", "b"),
        ("host", "client"),
        ("connection", "close, x-drop"),
        ("x-drop", "1"),
        ("te", "trailers"),
    ]);
    let once = filter_request_headers(&original, "h:1").unwrap();
    assert_eq!(once, map(&[("accept", "b"), ("host", "h:1")]));
    assert_eq!(filter_request_headers(&once, "h:1").unwrap(), once);
}

#[test]
fn target_is_tail_and_query() {
    assert_eq!(build_path_and_query(None, "users/1").unwrap(), "/users/1");
    assert_eq!(build_path_and_query(None, "/users/1").unwrap(), "/users/1");
    assert_eq!(build_path_and_query(Some("a=b&c"), "users").unwrap(), "/users?a=b&c");
    assert_eq!(build_path_and_query(Some(""), "").unwrap(), "/?");
    assert_eq!(build_path_and_query(None, "").unwrap(), "/");
    assert_eq!(build_path_and_query(None, "//x").unwrap(), "//x");
    assert_eq!(build_path_and_query(None, "한글{\"}").unwrap(), "/한글{\"}");
}

#[test]
fn target_has_no_fragment() {
    assert_eq!(build_path_and_query(None, "a#b c").unwrap(), "/a");
    assert_eq!(build_path_and_query(Some("q"), "a#b").unwrap(), "/a");
    assert_eq!(build_path_and_query(Some("q#r"), "a").unwrap(), "/a?q");
}

#[test]
fn unfit_targets_are_reported() {
    for tail in ["a b", "a<b", "a`b", "a^\u{7f}", "a\n", "a\\b>"] {
        let error = build_path_and_query(None, tail).unwrap_err();
        assert_eq!(error, ProxyError::InvalidPath);
    }
    assert_eq!(
        ProxyError::InvalidPath.message(),
        "Failed to create PathAndQuery from constructed path"
    );
    assert!(build_path_and_query(Some("a b"), "x").is_err());
    assert!(build_path_and_query(Some("a`{}|^\\"), "x").is_ok());
    assert!(build_path_and_query(None, &"a".repeat(65533)).is_ok());
    assert!(build_path_and_query(None, &"a".repeat(65534)).is_err());
}

#[test]
fn authority_is_required() {
    assert_eq!(extract_authority(&uri("http://h:81/x")).unwrap(), "h:81");
    let error = extract_authority(&uri("/x")).unwrap_err();
    assert_eq!(error, ProxyError::MissingAuthority);
    assert_eq!(error.message(), "Backend URI must contain authority (host:port) information");
}

#[test]
fn backend_requests_are_built() {
    let headers = map(&[("host", "gateway"), ("te", "x"), ("accept", "y")]);
    let request =
        build_backend_request(Some("q=1"), &headers, &uri("http://10.0.0.1:81"), "a/b").unwrap();
    assert_eq!(request.target, "/a/b?q=1");
    assert_eq!(all(&request.headers, "host"), vec!["10.0.0.1:81"]);
    assert_eq!(all(&request.headers, "accept"), vec!["y"]);
    assert_eq!(request.headers.len(), 2);
}

#[test]
fn backend_requests_fail_in_order() {
    let fault = |query: Option<&str>, backend: &BackendUri, tail: &str| {
        build_backend_request(query, &map(&[]), backend, tail).err()
    };
    assert_eq!(fault(None, &uri("/x"), "a b"), Some(ProxyError::InvalidPath));
    assert_eq!(fault(None, &uri("/x"), "a"), Some(ProxyError::MissingAuthority));
    let odd = BackendUri {
        scheme: None,
        authority: Some("a\nb".to_string()),
        host: None,
        port: None,
    };
    assert_eq!(fault(None, &odd, "a"), Some(ProxyError::InvalidHost));
    assert_eq!(fault(None, &uri("http://h"), "a"), None);
}

#[test]
fn backend_addresses() {
    let at = uri("http://10.0.0.1:81");
    assert_eq!(backend_host(&at).unwrap(), "10.0.0.1");
    assert_eq!(resolve_backend_address(&at, Some("ip")), Ok(("ip", 81)));
    assert_eq!(resolve_backend_address(&uri("http://10.0.0.1"), Some("ip")), Ok(("ip", 80)));
    assert_eq!(resolve_backend_address(&uri("https://10.0.0.1"), Some("ip")), Ok(("ip", 80)));
}

#[test]
fn host_and_port_are_those_of_the_authority() {
    let parts = |text: &str| {
        let uri = uri(text);
        (uri.host.unwrap(), uri.port)
    };
    assert_eq!(parts("http://u:80@h"), ("h".to_string(), None));
    assert_eq!(parts("http://u:80@h:9"), ("h".to_string(), Some(9)));
    assert_eq!(parts("http://a@b@h:9"), ("h".to_string(), Some(9)));
    assert_eq!(parts("http://[::1]"), ("[::1]".to_string(), None));
    assert_eq!(parts("http://[::1]:8080/x"), ("[::1]".to_string(), Some(8080)));
    assert_eq!(parts("http://h:"), ("h".to_string(), None));
    assert_eq!(parts("http://h:+80"), ("h".to_string(), Some(80)));
    assert_eq!(parts("http://h:+"), ("h".to_string(), None));
    assert_eq!(parts("http://h:00080"), ("h".to_string(), Some(80)));
    assert_eq!(parts("http://h:0"), ("h".to_string(), Some(0)));
    assert_eq!(parts("http://h:65535"), ("h".to_string(), Some(65535)));
    assert_eq!(parts("http://h:65536"), ("h".to_string(), None));
    assert_eq!(parts("http://h:8x"), ("h".to_string(), None));
    assert_eq!(parts("http://[u@h]:7"), ("h]".to_string(), Some(7)));
    assert_eq!(parts("h:8080"), ("h".to_string(), Some(8080)));
}

#[test]
fn equal_authorities_share_an_address() {
    let at = resolve_backend_address(&uri("http://10.0.0.1:81/a?b"), Some("ip"));
    assert_eq!(at, Ok(("ip", 81)));
    assert_eq!(resolve_backend_address(&uri("wss://10.0.0.1:81"), Some("ip")), at);
    assert_eq!(resolve_backend_address(&uri("10.0.0.1:81"), Some("ip")), at);
    let named = resolve_backend_address::<u32>(&uri("http://[::1]:81/x"), None);
    assert_eq!(named, Err(ProxyError::InvalidAddress("[::1]".to_string())));
    assert_eq!(resolve_backend_address::<u32>(&uri("https://[::1]:81"), None), named);
}

#[test]
fn unfit_backend_addresses_are_reported() {
    let named = uri("http://example.org");
    let error = resolve_backend_address::<u32>(&named, None).unwrap_err();
    assert_eq!(error, ProxyError::InvalidAddress("example.org".to_string()));
    assert_eq!(error.message(), "Invalid IP address in backend URI: example.org");
    let error = resolve_backend_address(&uri("/x"), Some(1)).unwrap_err();
    assert_eq!(error, ProxyError::MissingHost);
    assert_eq!(error.message(), "Backend URI missing host");
    assert_eq!(backend_host(&uri("/x")), Err(ProxyError::MissingHost));
}

#[test]
fn responses_keep_status_and_version() {
    let head = filter_response_headers(ResponseHead {
        status: StatusCode::NOT_FOUND,
        version: Version::HTTP_10,
        headers: map(&[("content-type", "text/html"), ("connection", "close")]),
    });
    assert_eq!(head.status, StatusCode::NOT_FOUND);
    assert_eq!(head.version, Version::HTTP_10);
    assert!(head.headers.is_empty());
}

#[test]
fn failures_are_answered_with_500() {
    match reply_to_client::<u32, &str>(Err("any")) {
        Reply::Failure { status, body } => {
            assert_eq!(status, 500);
            assert_eq!(body, "내부 서버 오류");
        }
        Reply::Forward(_) => panic!("a failure was forwarded"),
    }
    assert!(matches!(reply_to_client::<u32, &str>(Ok(7)), Reply::Forward(7)));
}
