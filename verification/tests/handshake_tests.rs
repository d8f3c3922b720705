use wsproto::handshake::{ws_gen_accept_header, ws_handshake, ws_upgrade, WsRequest};

fn header(name: &str, value: &str) -> (Vec<u8>, Vec<u8>) {
    (name.as_bytes().to_vec(), value.as_bytes().to_vec())
}

fn sample_request() -> WsRequest {
    WsRequest {
        headers: vec![
            header("Host", "example.com"),
            header("Upgrade", "websocket"),
            header("Connection", "Upgrade"),
            header("Sec-WebSocket-Version", "13"),
            header("Sec-WebSocket-Key", "dGhlIHNhbXBsZSBub25jZQ=="),
        ],
    }
}

fn find<'a>(headers: &'a [(Vec<u8>, Vec<u8>)], name: &str) -> Option<&'a [u8]> {
    headers
        .iter()
        .find(|(n, _)| n.eq_ignore_ascii_case(name.as_bytes()))
        .map(|(_, v)| v.as_slice())
}

// The sample key from the protocol specification derives the published
// accept value.
#[test]
fn test_accept_key_sample() {
    let key = b"dGhlIHNhbXBsZSBub25jZQ==".to_vec();
    let accept = ws_gen_accept_header(&key);
    assert_eq!(accept, b"s3pPLMBiTxaQ9kYGzzhZRbK+xOo=".to_vec());
}

// A valid upgrade request switches protocols, with the derived accept
// key in the response.
#[test]
fn test_handshake_success() {
    let req = sample_request();
    let resp = ws_handshake(&req).unwrap();
    assert_eq!(resp.status, 101);
    assert_eq!(
        find(&resp.headers, "sec-websocket-accept"),
        Some(b"s3pPLMBiTxaQ9kYGzzhZRbK+xOo=".as_slice())
    );
    assert_eq!(find(&resp.headers, "upgrade"), Some(b"websocket".as_slice()));
    assert_eq!(find(&resp.headers, "connection"), Some(b"Upgrade".as_slice()));
}

// Header names are matched regardless of case; values are not.
#[test]
fn test_handshake_name_case_insensitive() {
    let req = WsRequest {
        headers: vec![
            header("UPGRADE", "websocket"),
            header("SEC-WEBSOCKET-VERSION", "13"),
            header("sec-websocket-key", "dGhlIHNhbXBsZSBub25jZQ=="),
        ],
    };
    assert!(ws_handshake(&req).is_ok());

    let req = WsRequest {
        headers: vec![
            header("Upgrade", "WebSocket"),
            header("Sec-WebSocket-Version", "13"),
            header("Sec-WebSocket-Key", "dGhlIHNhbXBsZSBub25jZQ=="),
        ],
    };
    assert!(ws_handshake(&req).is_err());
}

// A request without the key header is answered with 400.
#[test]
fn test_handshake_missing_key() {
    let req = WsRequest {
        headers: vec![header("Upgrade", "websocket"), header("Sec-WebSocket-Version", "13")],
    };
    assert!(ws_handshake(&req).is_err());
    let resp = ws_upgrade(&req);
    assert_eq!(resp.status, 400);
    assert!(resp.headers.is_empty());
}

// A key that is not Base64, or that decodes to other than 16 bytes, is
// rejected.
#[test]
fn test_handshake_bad_key() {
    let mut req = sample_request();
    req.headers[4] = header("Sec-WebSocket-Key", "not base64!");
    assert!(ws_handshake(&req).is_err());
    req.headers[4] = header("Sec-WebSocket-Key", "c2hvcnQ=");
    assert!(ws_handshake(&req).is_err());
}

// A wrong version or a wrong upgrade token is rejected.
#[test]
fn test_handshake_wrong_fields() {
    let mut req = sample_request();
    req.headers[3] = header("Sec-WebSocket-Version", "8");
    assert!(ws_handshake(&req).is_err());

    let mut req = sample_request();
    req.headers[1] = header("Upgrade", "h2c");
    assert!(ws_handshake(&req).is_err());
}

// The valid request upgraded: 101 and the same headers as the
// handshake's own answer.
#[test]
fn test_upgrade_success() {
    let req = sample_request();
    let resp = ws_upgrade(&req);
    assert_eq!(resp.status, 101);
    assert_eq!(resp.headers.len(), 3);
}
