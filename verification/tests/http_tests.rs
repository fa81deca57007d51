use tarnished_sockets::http::{
    build_http_response, calculate_websocket_key, validate_handshake, HttpMethod, HttpRequest,
    ServerError,
};

#[test]
fn calculate_websocket_key_works() {
    let calculated = calculate_websocket_key("dGhlIHNhbXBsZSBub25jZQ==");
    let expected = "s3pPLMBiTxaQ9kYGzzhZRbK+xOo=";

    assert_eq!(calculated, expected);
}

fn lines(text: &[&str]) -> Vec<Vec<u8>> {
    text.iter().map(|l| l.as_bytes().to_vec()).collect()
}

fn upgrade_request(method_line: &str, headers: &[(&str, &str)]) -> HttpRequest {
    let mut raw = vec![method_line.to_string()];
    for (name, value) in headers {
        raw.push(format!("{}: {}", name, value));
    }
    raw.push(String::new());
    let raw_lines: Vec<Vec<u8>> = raw.iter().map(|l| l.as_bytes().to_vec()).collect();
    HttpRequest::build(&raw_lines).unwrap()
}

const GOOD_HEADERS: [(&str, &str); 4] = [
    ("Connection", "keep-alive, Upgrade"),
    ("Upgrade", "websocket"),
    ("Sec-WebSocket-Version", "13"),
    ("Sec-WebSocket-Key", "dGhlIHNhbXBsZSBub25jZQ=="),
];

#[test]
fn handshake_accepts_well_formed_upgrade() {
    let request = upgrade_request("GET / HTTP/1.1", &GOOD_HEADERS);
    let result = validate_handshake(&request).unwrap();
    assert_eq!(result.sec_websocket_key, b"dGhlIHNhbXBsZSBub25jZQ==".to_vec());
}

#[test]
fn handshake_rejects_post() {
    let request = upgrade_request("POST / HTTP/1.1", &GOOD_HEADERS);
    assert!(matches!(
        validate_handshake(&request),
        Err(ServerError::HandshakeValidation)
    ));
}

#[test]
fn handshake_rejects_missing_key() {
    let request = upgrade_request(
        "GET / HTTP/1.1",
        &[
            ("Connection", "Upgrade"),
            ("Upgrade", "websocket"),
            ("Sec-WebSocket-Version", "13"),
        ],
    );
    assert!(matches!(
        validate_handshake(&request),
        Err(ServerError::HandshakeValidation)
    ));
}

#[test]
fn handshake_rejects_wrong_upgrade_header() {
    let request = upgrade_request(
        "GET / HTTP/1.1",
        &[
            ("Connection", "Upgrade"),
            ("Upgrade", "h2"),
            ("Sec-WebSocket-Version", "13"),
            ("Sec-WebSocket-Key", "dGhlIHNhbXBsZSBub25jZQ=="),
        ],
    );
    assert!(matches!(
        validate_handshake(&request),
        Err(ServerError::HandshakeValidation)
    ));
}

#[test]
fn handshake_rejects_old_http_version() {
    let request = upgrade_request("GET / HTTP/1.0", &GOOD_HEADERS);
    assert!(matches!(
        validate_handshake(&request),
        Err(ServerError::HandshakeValidation)
    ));
}

#[test]
fn build_parses_request_line_and_headers() {
    let request = HttpRequest::build(&lines(&[
        "GET /chat HTTP/1.1",
        "Host: example.com",
        "Connection: Upgrade",
        "",
    ]))
    .unwrap();
    assert!(matches!(request.method, HttpMethod::GET));
    assert_eq!(request.uri, b"/chat".to_vec());
    assert_eq!(request.http_version, b"HTTP/1.1".to_vec());
    assert_eq!(request.headers.len(), 2);
    assert_eq!(request.header(b"Host"), Some(&b"example.com".to_vec()));
    assert_eq!(request.header(b"Connection"), Some(&b"Upgrade".to_vec()));
    assert_eq!(request.header(b"Absent"), None);
}

#[test]
fn build_duplicate_header_last_writer_wins() {
    let request = HttpRequest::build(&lines(&[
        "GET / HTTP/1.1",
        "X-Token: first",
        "X-Token: second",
        "",
    ]))
    .unwrap();
    assert_eq!(request.header(b"X-Token"), Some(&b"second".to_vec()));
}

#[test]
fn build_skips_leading_empty_lines() {
    let request = HttpRequest::build(&lines(&["", "GET / HTTP/1.1", "Host: a", ""])).unwrap();
    assert!(matches!(request.method, HttpMethod::GET));
    assert_eq!(request.header(b"Host"), Some(&b"a".to_vec()));
}

#[test]
fn build_rejects_unknown_method() {
    let result = HttpRequest::build(&lines(&["BREW / HTTP/1.1", ""]));
    assert!(matches!(result, Err(ServerError::InvalidHttpMethod)));
}

#[test]
fn build_rejects_missing_tokens() {
    let result = HttpRequest::build(&lines(&["GET /", ""]));
    assert!(matches!(result, Err(ServerError::HttpRequestParse)));
}

#[test]
fn build_rejects_header_without_separator() {
    let result = HttpRequest::build(&lines(&["GET / HTTP/1.1", "NoSeparatorHere", ""]));
    assert!(matches!(result, Err(ServerError::HttpRequestParse)));
}

#[test]
fn build_rejects_truncated_head() {
    // The empty terminator line never arrives.
    let result = HttpRequest::build(&lines(&["GET / HTTP/1.1", "Host: example.com"]));
    assert!(matches!(result, Err(ServerError::HttpRequestParse)));
}

#[test]
fn response_text_is_exact() {
    let headers = vec![("Upgrade".to_string(), "websocket".to_string())];
    let response = build_http_response(101, "Switching Protocols", &headers);
    assert_eq!(
        response,
        "HTTP/1.1 101 Switching Protocols\r\nUpgrade: websocket\r\n\r\n"
    );
}

#[test]
fn response_text_without_headers() {
    let response = build_http_response(400, "Bad Request", &Vec::new());
    assert_eq!(response, "HTTP/1.1 400 Bad Request\r\n\r\n");
}
