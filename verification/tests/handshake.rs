use wstcp::handshake::{Handshake, PendingResponse};
use wstcp::http::{validate_request, HeaderField, HttpVersion, Request};
use wstcp::text::{
    char_is_whitespace, chars_of, text_eq, text_eq_ignore_ascii_case, text_has_token,
    to_ascii_lower, trimmed_eq,
};
use wstcp::ErrorKind;

fn field(name: &str, value: &str) -> HeaderField {
    HeaderField { name: name.to_owned(), value: value.to_owned() }
}

fn request(fields: Vec<HeaderField>) -> Request {
    Request { method: "GET".to_owned(), version: HttpVersion::V1_1, fields }
}

fn upgrade_fields() -> Vec<HeaderField> {
    vec![
        field("Host", "server.example.com"),
        field("Upgrade", "websocket"),
        field("Connection", "Upgrade"),
        field("Sec-WebSocket-Key", "dGhlIHNhbXBsZSBub25jZQ=="),
        field("Origin", "http://example.com"),
        field("Sec-WebSocket-Protocol", "chat, superchat"),
        field("Sec-WebSocket-Version", "13"),
    ]
}

fn with(name: &str, value: &str) -> Request {
    let mut fields = upgrade_fields();
    for f in fields.iter_mut() {
        if f.name.eq_ignore_ascii_case(name) {
            f.name = name.to_owned();
            f.value = value.to_owned();
        }
    }
    request(fields)
}

fn rejected(request: &Request) -> bool {
    match validate_request(request) {
        Ok(_) => false,
        Err(e) => {
            assert_eq!(e.kind(), ErrorKind::InvalidInput);
            true
        }
    }
}

fn wire_of(handshake: Handshake) -> (Vec<u8>, bool) {
    match handshake {
        Handshake::SendResponse(mut response, succeeded) => {
            let mut out = Vec::new();
            let mut buf = [0u8; 11];
            while !response.is_idle() {
                let n = response.encode(&mut buf);
                assert!(n > 0);
                out.extend_from_slice(&buf[..n]);
            }
            (out, succeeded)
        }
        _ => panic!("no response"),
    }
}

#[test]
fn handshake_request_of_the_rfc_is_accepted() {
    let key = validate_request(&request(upgrade_fields())).unwrap();
    assert_eq!(key.0, "dGhlIHNhbXBsZSBub25jZQ==");
}

#[test]
fn handshake_method_must_be_get() {
    let mut r = request(upgrade_fields());
    r.method = "POST".to_owned();
    assert!(rejected(&r));
    r.method = "get".to_owned();
    assert!(rejected(&r));
    r.method = "GET ".to_owned();
    assert!(rejected(&r));
}

#[test]
fn handshake_version_must_be_1_1() {
    let mut r = request(upgrade_fields());
    r.version = HttpVersion::V1_0;
    assert!(rejected(&r));
}

#[test]
fn handshake_upgrade_must_name_websocket() {
    assert!(rejected(&with("Upgrade", "WebSocket")));
    assert!(rejected(&with("Upgrade", "websocket ")));
    assert!(rejected(&with("Upgrade", "h2c")));
    assert!(rejected(&with("UPGRADE", "")));
    assert!(validate_request(&with("uPgRaDe", "websocket")).is_ok());
}

#[test]
fn handshake_connection_must_hold_the_token_upgrade() {
    assert!(validate_request(&with("Connection", "keep-alive, Upgrade")).is_ok());
    assert!(validate_request(&with("Connection", "Upgrade,keep-alive")).is_ok());
    assert!(validate_request(&with("Connection", " \tUpgrade\t ,x")).is_ok());
    assert!(validate_request(&with("connection", "a,b,  Upgrade")).is_ok());
    assert!(rejected(&with("Connection", "upgrade")));
    assert!(rejected(&with("Connection", "keep-alive")));
    assert!(rejected(&with("Connection", "Upgrade x")));
    assert!(rejected(&with("Connection", "Up,grade")));
    assert!(rejected(&with("Connection", "")));
}

#[test]
fn handshake_version_of_the_protocol_must_be_13() {
    assert!(rejected(&with("Sec-WebSocket-Version", "8")));
    assert!(rejected(&with("Sec-WebSocket-Version", "13 ")));
    assert!(rejected(&with("sec-websocket-version", "130")));
    assert!(validate_request(&with("SEC-WEBSOCKET-VERSION", "13")).is_ok());
}

#[test]
fn handshake_key_must_be_there() {
    let fields: Vec<HeaderField> = upgrade_fields()
        .into_iter()
        .filter(|f| f.name != "Sec-WebSocket-Key")
        .collect();
    assert!(rejected(&request(fields)));
    assert!(rejected(&request(Vec::new())));
}

#[test]
fn handshake_last_key_is_the_one() {
    let mut fields = upgrade_fields();
    fields.push(field("sec-websocket-key", "second"));
    assert_eq!(validate_request(&request(fields)).unwrap().0, "second");
    let mut fields = upgrade_fields();
    fields.push(field("SEC-WEBSOCKET-KEY", ""));
    assert_eq!(validate_request(&request(fields)).unwrap().0, "");
}

#[test]
fn handshake_every_field_is_checked() {
    let mut fields = upgrade_fields();
    fields.push(field("Upgrade", "other"));
    assert!(rejected(&request(fields)));
    let mut fields = upgrade_fields();
    fields.insert(0, field("Sec-WebSocket-Version", "12"));
    assert!(rejected(&request(fields)));
}

#[test]
fn handshake_upgrade_connection_and_version_must_be_there() {
    for name in ["Upgrade", "Connection", "Sec-WebSocket-Version"] {
        let fields: Vec<HeaderField> =
            upgrade_fields().into_iter().filter(|f| f.name != name).collect();
        assert_eq!(fields.len(), 6);
        assert!(rejected(&request(fields)), "{}", name);
    }
    assert!(rejected(&request(vec![field("Sec-WebSocket-Key", "k")])));
    let fields = vec![
        field("sec-websocket-key", "k"),
        field("UPGRADE", "websocket"),
        field("connection", "Upgrade"),
        field("Sec-Websocket-Version", "13"),
    ];
    assert_eq!(validate_request(&request(fields)).unwrap().0, "k");
}

#[test]
fn response_bad_request_wire() {
    let (wire, succeeded) = wire_of(Handshake::response_bad_request());
    assert_eq!(wire, b"HTTP/1.1 400 Bad Request\r\nContent-Length: 0\r\n\r\n");
    assert!(!succeeded);
}

#[test]
fn response_unavailable_wire() {
    let (wire, succeeded) = wire_of(Handshake::response_unavailable());
    assert_eq!(wire, b"HTTP/1.1 503 Service Unavailable\r\nContent-Length: 0\r\n\r\n");
    assert!(!succeeded);
}

#[test]
fn response_accepted_wire() {
    let key = wstcp::WebSocketKey("dGhlIHNhbXBsZSBub25jZQ==".to_owned());
    let (wire, succeeded) = wire_of(Handshake::response_accepted(&key));
    assert_eq!(
        wire,
        &b"HTTP/1.1 101 Switching Protocols\r\nUpgrade: websocket\r\nConnection: Upgrade\r\n\
           Sec-WebSocket-Accept: s3pPLMBiTxaQ9kYGzzhZRbK+xOo=\r\n\r\n"[..]
    );
    assert!(succeeded);
}

#[test]
fn handshake_starts_by_reading_and_is_not_done() {
    let handshake = Handshake::new();
    assert!(matches!(handshake, Handshake::RecvRequest(_)));
    assert!(!handshake.done());
    assert!(Handshake::Done.done());
    assert!(!Handshake::response_bad_request().done());
}

#[test]
fn pending_response_is_written_piece_by_piece() {
    let mut response = PendingResponse::new(b"abcdef".to_vec());
    assert!(!response.is_idle());
    let mut buf = [0u8; 4];
    assert_eq!(response.encode(&mut buf), 4);
    assert_eq!(&buf, b"abcd");
    let mut buf = [b'-'; 4];
    assert_eq!(response.encode(&mut buf), 2);
    assert_eq!(&buf, b"ef--");
    assert!(response.is_idle());
    assert_eq!(response.encode(&mut buf), 0);
    assert!(PendingResponse::new(Vec::new()).is_idle());
}

#[test]
fn text_comparisons() {
    let a = chars_of("Sec-WebSocket-Key");
    let b = chars_of("sec-websocket-key");
    assert_eq!(a.len(), 17);
    assert!(text_eq_ignore_ascii_case(&a, &b));
    assert!(!text_eq(&a, &b));
    assert!(text_eq(&a, &chars_of("Sec-WebSocket-Key")));
    assert!(!text_eq_ignore_ascii_case(&a, &chars_of("sec-websocket-keys")));
    assert!(!text_eq_ignore_ascii_case(&chars_of("k"), &chars_of("\u{212A}")));
    assert!(text_eq_ignore_ascii_case(&chars_of("Ä[`"), &chars_of("Ä[`")));
    assert!(!text_eq_ignore_ascii_case(&chars_of("@"), &chars_of("`")));
    assert_eq!(to_ascii_lower('A'), 'a');
    assert_eq!(to_ascii_lower('Z'), 'z');
    assert_eq!(to_ascii_lower('q'), 'q');
    assert_eq!(to_ascii_lower('['), '[');
    assert_eq!(to_ascii_lower('É'), 'É');
}

#[test]
fn text_whitespace_is_what_trim_takes_off() {
    for n in 0u32..0x3100 {
        if let Some(c) = char::from_u32(n) {
            assert_eq!(char_is_whitespace(c), c.is_whitespace(), "U+{:04X}", n);
        }
    }
    let text = chars_of("\u{3000}\t Upgrade\u{A0}\r\n");
    assert!(trimmed_eq(&text, 0, text.len(), &chars_of("Upgrade")));
    assert!(!trimmed_eq(&text, 0, text.len() - 4, &chars_of("Upgrade")));
    assert!(trimmed_eq(&text, 3, 10, &chars_of("Upgrade")));
    assert!(trimmed_eq(&text, 0, 3, &chars_of("")));
    assert!(trimmed_eq(&text, 2, 2, &chars_of("")));
}

#[test]
fn text_tokens_between_commas() {
    let token = chars_of("Upgrade");
    for (value, expected) in [
        ("Upgrade", true),
        ("keep-alive, Upgrade", true),
        ("Upgrade ,keep-alive", true),
        (",,Upgrade,,", true),
        ("a,\u{2003}Upgrade\u{2003},b", true),
        ("", false),
        (",", false),
        ("Upgrade;q=1", false),
        ("upgrade", false),
        ("Upg rade", false),
        ("keep-alive", false),
    ] {
        let text = chars_of(value);
        assert_eq!(text_has_token(&text, ',', &token), expected, "{:?}", value);
        assert_eq!(value.split(',').any(|v| v.trim() == "Upgrade"), expected, "{:?}", value);
    }
    assert!(text_has_token(&chars_of(""), ',', &chars_of("")));
    assert!(text_has_token(&chars_of("a, ,b"), ',', &chars_of("")));
}
