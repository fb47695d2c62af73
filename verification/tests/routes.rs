use api_gateway::backend::BackendUri;
use api_gateway::config::{
    AppConfig, GatewayConfig, LoggingConfig, Predicate, Route, ServerConfig,
};
use api_gateway::error::RouteError;
use api_gateway::routes::{
    add_route, build_router, convert_path_pattern_to_axum, is_websocket_uri, parse_uri, RouteKind,
};

fn config(routes: &[(&str, &str, &[&str])]) -> AppConfig {
    AppConfig {
        server: ServerConfig { port: 80, host: "0.0.0.0".to_string() },
        logging: LoggingConfig { level: "info".to_string() },
        gateway: GatewayConfig {
            routes: routes
                .iter()
                .map(|(id, uri, patterns)| Route {
                    id: id.to_string(),
                    uri: uri.to_string(),
                    predicates: patterns
                        .iter()
                        .map(|pattern| Predicate::Path(pattern.to_string()))
                        .collect(),
                })
                .collect(),
        },
    }
}

fn path(pattern: &str) -> String {
    convert_path_pattern_to_axum(&Predicate::Path(pattern.to_string())).unwrap()
}

#[test]
fn wildcards_become_a_capture() {
    assert_eq!(path("/api/**"), "/api/{*path}");
    assert_eq!(path("/**"), "/{*path}");
    assert_eq!(path("/**/a/**"), "/{*path}/a/{*path}");
    assert_eq!(path("//****"), "//{*path}**");
    assert_eq!(path("/***"), "/{*path}*");
}

#[test]
fn plain_patterns_stay() {
    assert_eq!(path("/api/users"), "/api/users");
    assert_eq!(path(""), "");
    assert_eq!(path("/*"), "/*");
    assert_eq!(path("**"), "**");
    assert_eq!(path("/한글/**"), "/한글/{*path}");
    assert_eq!(path(&path("/api/**")), path("/api/**"));
}

#[test]
fn backend_uris_have_their_parts() {
    let uri = parse_uri("http://127.0.0.1:3000/base?x=1", "r").unwrap();
    assert_eq!(uri.scheme, Some("http".to_string()));
    assert_eq!(uri.authority, Some("127.0.0.1:3000".to_string()));
    assert_eq!(uri.host, Some("127.0.0.1".to_string()));
    assert_eq!(uri.port, Some(3000));

    let uri = parse_uri("wss://user:pw@[::1]:9/x", "r").unwrap();
    assert_eq!(uri.scheme, Some("wss".to_string()));
    assert_eq!(uri.authority, Some("user:pw@[::1]:9".to_string()));
    assert_eq!(uri.host, Some("[::1]".to_string()));
    assert_eq!(uri.port, Some(9));

    let uri = parse_uri("/only/a/path", "r").unwrap();
    assert_eq!(uri, BackendUri { scheme: None, authority: None, host: None, port: None });

    let uri = parse_uri("localhost:8080", "r").unwrap();
    assert_eq!(uri.scheme, None);
    assert_eq!(uri.host, Some("localhost".to_string()));
    assert_eq!(uri.port, Some(8080));
}

#[test]
fn invalid_backend_uris_are_reported() {
    let error = parse_uri("http://", "users").unwrap_err();
    assert_eq!(
        error,
        RouteError::InvalidUri { route_id: "users".to_string(), uri: "http://".to_string() }
    );
    assert_eq!(
        error.message(),
        "라우트 설정에 잘못된 URI가 있습니다 (ID: 'users'): 'http://'"
    );
    assert!(parse_uri("", "r").is_err());
    assert!(parse_uri("http://a b", "r").is_err());
}

#[test]
fn websocket_backends_are_told_by_their_scheme() {
    let is = |text: &str| is_websocket_uri(&parse_uri(text, "r").unwrap());
    assert!(is("ws://h"));
    assert!(is("wss://h:1/x"));
    assert!(!is("http://h"));
    assert!(!is("https://h"));
    assert!(!is("WS://h"));
    assert!(!is("h:1"));
    assert!(!is("/x"));
}

#[test]
fn routes_follow_the_configuration() {
    let table = build_router(config(&[
        ("users", "http://10.0.0.1:81", &["/users/**", "/users"]),
        ("none", "http://10.0.0.9", &[]),
        ("chat", "ws://10.0.0.2", &["/chat/**"]),
    ]))
    .unwrap();
    let paths: Vec<&str> = table.iter().map(|entry| entry.path.as_str()).collect();
    assert_eq!(paths, vec!["/users/{*path}", "/users", "/chat/{*path}"]);
    let ids: Vec<&str> = table.iter().map(|entry| entry.route_id.as_str()).collect();
    assert_eq!(ids, vec!["users", "users", "chat"]);
    assert_eq!(table[0].kind, RouteKind::Http);
    assert_eq!(table[2].kind, RouteKind::WebSocket);
    assert_eq!(table[0].backend.authority, Some("10.0.0.1:81".to_string()));
    assert_eq!(table[1].backend, table[0].backend);
    assert_eq!(table[2].backend.host, Some("10.0.0.2".to_string()));
    assert!(build_router(config(&[])).unwrap().is_empty());
}

#[test]
fn duplicate_paths_are_reported() {
    let error = build_router(config(&[
        ("a", "http://h", &["/x/**"]),
        ("b", "http://h", &["/y", "/x/{*path}"]),
    ]))
    .unwrap_err();
    assert_eq!(
        error,
        RouteError::DuplicatePath { path: "/x/{*path}".to_string(), route_id: "b".to_string() }
    );
    assert_eq!(
        error.message(),
        "중복된 라우트 경로가 감지되었습니다: '/x/{*path}' (라우트 ID: 'b')"
    );
}

#[test]
fn first_fault_is_reported() {
    let error = build_router(config(&[
        ("a", "http://h", &["/x"]),
        ("b", "http://", &["/x"]),
        ("c", "http://h", &["/x"]),
    ]))
    .unwrap_err();
    assert_eq!(
        error,
        RouteError::InvalidUri { route_id: "b".to_string(), uri: "http://".to_string() }
    );
    assert!(build_router(config(&[("a", "http://", &[])])).is_err());
}

#[test]
fn a_route_is_added_at_the_end() {
    let mut table = Vec::new();
    add_route(&mut table, parse_uri("http://h", "a").unwrap(), "/a", "a");
    add_route(&mut table, parse_uri("wss://h", "b").unwrap(), "/b", "b");
    assert_eq!(table.len(), 2);
    assert_eq!(table[1].path, "/b");
    assert_eq!(table[1].route_id, "b");
    assert_eq!(table[1].kind, RouteKind::WebSocket);
    assert_eq!(table[0].kind, RouteKind::Http);
}
