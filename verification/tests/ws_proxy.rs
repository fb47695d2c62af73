use api_gateway::backend::BackendUri;
use api_gateway::error::WebSocketError;
use api_gateway::handlers::ws_proxy::{
    build_backend_upgrade_request, construct_backend_websocket_url, create_websocket_headers,
};
use api_gateway::routes::parse_uri;
use http::header::{HeaderMap, HeaderName, HeaderValue};

fn map(lines: &[(&str, &str)]) -> HeaderMap {
    let mut headers = HeaderMap::new();
    for (name, value) in lines {
        headers.append(
            HeaderName::from_bytes(name.as_bytes()).unwrap(),
            HeaderValue::from_bytes(value.as_bytes()).unwrap(),
        );
    }
    headers
}

fn all(headers: &HeaderMap, name: &str) -> Vec<String> {
    headers
        .get_all(name)
        .iter()
        .map(|value| String::from_utf8(value.as_bytes().to_vec()).unwrap())
        .collect()
}

fn uri(text: &str) -> BackendUri {
    parse_uri(text, "r").unwrap()
}

fn url(backend: &str, tail: &str) -> String {
    construct_backend_websocket_url(&uri(backend), tail).unwrap()
}

#[test]
fn schemes_become_websocket_schemes() {
    assert_eq!(url("http://h:1", "x"), "ws://h:1/x");
    assert_eq!(url("https://h:1", "x"), "wss://h:1/x");
    assert_eq!(url("ws://h:1", "x"), "ws://h:1/x");
    assert_eq!(url("wss://h:1", "x"), "wss://h:1/x");
    assert_eq!(url("ftp://h:1", "x"), "ws://h:1/x");
    assert_eq!(url("h:1", "x"), "ws://h:1/x");
}

#[test]
fn tails_follow_after_one_slash() {
    assert_eq!(url("ws://h/base", ""), "ws://h");
    assert_eq!(url("ws://h", "/"), "ws://h/");
    assert_eq!(url("ws://h", "/a/b"), "ws://h/a/b");
    assert_eq!(url("ws://h", "a/b"), "ws://h/a/b");
    assert_eq!(url("ws://h", "//a"), "ws://h//a");
    assert_eq!(url("ws://u:p@h:9", "a"), "ws://u:p@h:9/a");
}

#[test]
fn websocket_authority_is_required() {
    let error = construct_backend_websocket_url(&uri("/x"), "a").unwrap_err();
    assert_eq!(error, WebSocketError::MissingAuthority);
    assert_eq!(error.message(), "백엔드 웹소켓 URI는 authority 정보를 포함해야 합니다");
}

#[test]
fn handshake_fields_are_set() {
    let original = map(&[
        ("host", "gateway"),
        ("connection", "keep-alive, x-kept"),
        ("upgrade", "other"),
        ("x-kept", "1"),
        ("cookie", "a"),
        ("cookie", "b"),
        ("te", "x"),
        ("sec-websocket-key", "k"),
    ]);
    let headers = create_websocket_headers(&original, &uri("ws://10.0.0.1:81")).unwrap();
    assert_eq!(all(&headers, "host"), vec!["10.0.0.1"]);
    assert_eq!(all(&headers, "connection"), vec!["Upgrade"]);
    assert_eq!(all(&headers, "upgrade"), vec!["websocket"]);
    assert_eq!(all(&headers, "sec-websocket-version"), vec!["13"]);
    assert_eq!(all(&headers, "sec-websocket-key"), vec!["k"]);
    assert_eq!(all(&headers, "x-kept"), vec!["1"]);
    assert_eq!(all(&headers, "cookie"), vec!["b"]);
    assert_eq!(headers.len(), 7);
}

#[test]
fn websocket_version_of_the_client_is_kept() {
    let original = map(&[("sec-websocket-version", "8"), ("sec-websocket-version", "7")]);
    let headers = create_websocket_headers(&original, &uri("ws://h")).unwrap();
    assert_eq!(all(&headers, "sec-websocket-version"), vec!["7"]);
}

#[test]
fn websocket_hosts_can_be_unfit() {
    let error = create_websocket_headers(&map(&[]), &uri("/x")).unwrap_err();
    assert_eq!(error, WebSocketError::MissingHost);
    assert_eq!(error.message(), "백엔드 웹소켓 URI에 호스트가 누락되었습니다");
    let odd = BackendUri {
        scheme: None,
        authority: Some("h".to_string()),
        host: Some("a\nb".to_string()),
        port: None,
    };
    let error = create_websocket_headers(&map(&[]), &odd).unwrap_err();
    assert_eq!(error, WebSocketError::InvalidHost);
    assert_eq!(error.message(), "웹소켓의 Host 헤더를 생성하지 못했습니다");
}

#[test]
fn websocket_headers_have_a_limit() {
    let mut original = HeaderMap::new();
    for i in 0..24573u32 {
        original.append("x", HeaderValue::from(i));
    }
    let error = create_websocket_headers(&original, &uri("ws://h")).unwrap_err();
    assert_eq!(error, WebSocketError::TooManyHeaders);
    assert_eq!(error.message(), "size overflows MAX_SIZE");
}

#[test]
fn repeated_websocket_lines_count_once() {
    let mut original = HeaderMap::new();
    for i in 0..24572u32 {
        original.append("x", HeaderValue::from(i));
    }
    let created = create_websocket_headers(&original, &uri("ws://h")).unwrap();
    assert_eq!(created.len(), 5);
    assert_eq!(all(&created, "x"), vec!["24571"]);
}

#[test]
fn building_websocket_headers_twice_changes_nothing() {
    let original = map(&[
        ("cookie", "a"),
        ("cookie", "b"),
        ("connection", "keep-alive"),
        ("te", "trailers"),
        ("sec-websocket-version", "8"),
        ("host", "client"),
    ]);
    let once = create_websocket_headers(&original, &uri("ws://h:1")).unwrap();
    let expected = map(&[
        ("cookie", "b"),
        ("sec-websocket-version", "8"),
        ("connection", "Upgrade"),
        ("upgrade", "websocket"),
        ("host", "h"),
    ]);
    assert_eq!(once, expected);
    assert_eq!(create_websocket_headers(&once, &uri("ws://h:1")).unwrap(), once);
}

#[test]
fn upgrade_requests_are_built() {
    let request =
        build_backend_upgrade_request(&map(&[("x", "y")]), &uri("wss://h:9"), "chat").unwrap();
    assert_eq!(request.method, "GET");
    assert_eq!(request.url, "wss://h:9/chat");
    assert_eq!(all(&request.headers, "host"), vec!["h"]);
    assert_eq!(all(&request.headers, "x"), vec!["y"]);
}

#[test]
fn upgrade_requests_fail_in_order() {
    let fault = |backend: &BackendUri, tail: &str| {
        build_backend_upgrade_request(&map(&[]), backend, tail).err()
    };
    assert_eq!(fault(&uri("/x"), "a b"), Some(WebSocketError::MissingAuthority));
    let odd = BackendUri {
        scheme: None,
        authority: Some("h".to_string()),
        host: None,
        port: None,
    };
    assert_eq!(fault(&odd, "a b"), Some(WebSocketError::MissingHost));
    assert_eq!(fault(&uri("ws://h"), "a b"), Some(WebSocketError::InvalidRequest));
    assert_eq!(
        WebSocketError::InvalidRequest.message(),
        "백엔드 웹소켓 업그레이드 요청을 빌드하지 못했습니다"
    );
    assert_eq!(fault(&uri("ws://h"), "a"), None);
}
