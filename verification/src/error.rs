//! What can go wrong on the way from a configuration to a backend, and the
//! message that each failure is reported with.

use vstd::prelude::*;
use vstd::string::*;

verus! {

/// Why an HTTP request cannot be passed on to its backend.
#[derive(Debug, PartialEq, Eq)]
pub enum ProxyError {
    /// The path and query for the backend are not valid in a URI.
    InvalidPath,
    /// The backend URI has no authority.
    MissingAuthority,
    /// The authority of the backend cannot be the value of a header line.
    InvalidHost,
    /// The header fields for the backend are more than a header map can hold.
    TooManyHeaders,
    /// The backend URI has no host.
    MissingHost,
    /// The host of the backend URI is not an IP address.
    InvalidAddress(String),
}

/// Why a WebSocket connection cannot be passed on to its backend.
#[derive(Debug, PartialEq, Eq)]
pub enum WebSocketError {
    /// The backend URI has no authority.
    MissingAuthority,
    /// The backend URI has no host.
    MissingHost,
    /// The host of the backend cannot be the value of a header line.
    InvalidHost,
    /// The header fields for the backend are more than a header map can hold.
    TooManyHeaders,
    /// The URL for the backend is not a valid URI.
    InvalidRequest,
}

/// Why a configuration has no route table.
#[derive(Debug, PartialEq, Eq)]
pub enum RouteError {
    /// The URI of a route does not parse.
    InvalidUri { route_id: String, uri: String },
    /// Two predicates lead to the same path; the route is that of the second.
    DuplicatePath { path: String, route_id: String },
}

impl ProxyError {
    /// The text of [`ProxyError::message`].
    pub open spec fn text(self) -> Seq<char> {
        match self {
            ProxyError::InvalidPath => "Failed to create PathAndQuery from constructed path"@,
            ProxyError::MissingAuthority =>
                "Backend URI must contain authority (host:port) information"@,
            ProxyError::InvalidHost => "Failed to create Host header value"@,
            ProxyError::TooManyHeaders => "size overflows MAX_SIZE"@,
            ProxyError::MissingHost => "Backend URI missing host"@,
            ProxyError::InvalidAddress(host) => "Invalid IP address in backend URI: "@ + host@,
        }
    }

    /// The message that the failure is reported with.
    pub fn message(&self) -> (r: String)
        ensures
            r@ == self.text(),
    {
        match self {
            ProxyError::InvalidPath => {
                "Failed to create PathAndQuery from constructed path".to_owned()
            },
            ProxyError::MissingAuthority => {
                "Backend URI must contain authority (host:port) information".to_owned()
            },
            ProxyError::InvalidHost => "Failed to create Host header value".to_owned(),
            ProxyError::TooManyHeaders => "size overflows MAX_SIZE".to_owned(),
            ProxyError::MissingHost => "Backend URI missing host".to_owned(),
            ProxyError::InvalidAddress(host) => {
                "Invalid IP address in backend URI: ".to_owned().concat(host.as_str())
            },
        }
    }
}

impl WebSocketError {
    /// The text of [`WebSocketError::message`].
    pub open spec fn text(self) -> Seq<char> {
        match self {
            WebSocketError::MissingAuthority =>
                "백엔드 웹소켓 URI는 authority 정보를 포함해야 합니다"@,
            WebSocketError::MissingHost => "백엔드 웹소켓 URI에 호스트가 누락되었습니다"@,
            WebSocketError::InvalidHost => "웹소켓의 Host 헤더를 생성하지 못했습니다"@,
            WebSocketError::TooManyHeaders => "size overflows MAX_SIZE"@,
            WebSocketError::InvalidRequest =>
                "백엔드 웹소켓 업그레이드 요청을 빌드하지 못했습니다"@,
        }
    }

    /// The message that the failure is reported with.
    pub fn message(&self) -> (r: String)
        ensures
            r@ == self.text(),
    {
        match self {
            WebSocketError::MissingAuthority => {
                "백엔드 웹소켓 URI는 authority 정보를 포함해야 합니다".to_owned()
            },
            WebSocketError::MissingHost => {
                "백엔드 웹소켓 URI에 호스트가 누락되었습니다".to_owned()
            },
            WebSocketError::InvalidHost => "웹소켓의 Host 헤더를 생성하지 못했습니다".to_owned(),
            WebSocketError::TooManyHeaders => "size overflows MAX_SIZE".to_owned(),
            WebSocketError::InvalidRequest => {
                "백엔드 웹소켓 업그레이드 요청을 빌드하지 못했습니다".to_owned()
            },
        }
    }
}

impl RouteError {
    /// The text of [`RouteError::message`].
    pub open spec fn text(self) -> Seq<char> {
        match self {
            RouteError::InvalidUri { route_id, uri } =>
                "라우트 설정에 잘못된 URI가 있습니다 (ID: '"@ + route_id@ + "'): '"@ + uri@ + "'"@,
            RouteError::DuplicatePath { path, route_id } =>
                "중복된 라우트 경로가 감지되었습니다: '"@ + path@ + "' (라우트 ID: '"@ + route_id@
                    + "')"@,
        }
    }

    /// The message that the failure is reported with.
    pub fn message(&self) -> (r: String)
        ensures
            r@ == self.text(),
    {
        match self {
            RouteError::InvalidUri { route_id, uri } => {
                "라우트 설정에 잘못된 URI가 있습니다 (ID: '".to_owned().concat(
                    route_id.as_str(),
                ).concat("'): '").concat(uri.as_str()).concat("'")
            },
            RouteError::DuplicatePath { path, route_id } => {
                "중복된 라우트 경로가 감지되었습니다: '".to_owned().concat(path.as_str()).concat(
                    "' (라우트 ID: '",
                ).concat(route_id.as_str()).concat("')")
            },
        }
    }
}

/// The message of a failure names, in full, what it is about.
pub proof fn law_messages_name_what_failed(a: String, b: String)
    ensures
        ProxyError::InvalidAddress(a).text() == "Invalid IP address in backend URI: "@ + a@,
        (RouteError::InvalidUri { route_id: a, uri: b }).text()
            == "라우트 설정에 잘못된 URI가 있습니다 (ID: '"@ + a@ + "'): '"@ + b@ + "'"@,
        (RouteError::DuplicatePath { path: a, route_id: b }).text()
            == "중복된 라우트 경로가 감지되었습니다: '"@ + a@ + "' (라우트 ID: '"@ + b@ + "')"@,
{
}

} // verus!
