use wstcp::util::{accept_hash, calc_accept_hash, WebSocketKey};

#[test]
fn util_it_works() {
    let hash = calc_accept_hash(&WebSocketKey("dGhlIHNhbXBsZSBub25jZQ==".to_owned()));
    assert_eq!(hash, "s3pPLMBiTxaQ9kYGzzhZRbK+xOo=");
}

#[test]
fn proxy_it_works() {
    let hash = accept_hash("dGhlIHNhbXBsZSBub25jZQ==");
    assert_eq!(hash, "s3pPLMBiTxaQ9kYGzzhZRbK+xOo=");
}
