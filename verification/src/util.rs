//! The answer to a `Sec-WebSocket-Key`.
use sha1::{Digest, Sha1};
use vstd::prelude::*;
use vstd::string::*;

verus! {

/// The text that RFC 6455 appends to a key before hashing it.
pub const GUID: &'static str = "258EAFA5-E914-47DA-95CA-C5AB0DC85B11";

/// The value of a `Sec-WebSocket-Key` header field.
#[derive(Debug)]
pub struct WebSocketKey(pub String);

/// The SHA-1 digest of `data`.
pub uninterp spec fn sha1_digest(data: Seq<u8>) -> Seq<u8>;

/// The Base64 text of `data`, in the standard alphabet and padded.
pub uninterp spec fn base64_text(data: Seq<u8>) -> Seq<char>;

/// The characters that Base64 text is written in.
pub open spec fn is_base64_char(c: char) -> bool {
    ||| 'A' <= c && c <= 'Z'
    ||| 'a' <= c && c <= 'z'
    ||| '0' <= c && c <= '9'
    ||| c == '+'
    ||| c == '/'
    ||| c == '='
}

/// The `Sec-WebSocket-Accept` value that answers the key `key`: the Base64
/// text of the SHA-1 digest of the key followed by the GUID.
pub open spec fn accept_hash_of(key: Seq<char>) -> Seq<char> {
    base64_text(sha1_digest(vstd::utf8::encode_utf8(key) + vstd::utf8::encode_utf8(GUID@)))
}

/// `sha1::Sha1`, fed with `data` through `Digest::input` and read with
/// `Digest::result`: the SHA-1 digest of `data`, which is twenty bytes
/// long.
#[verifier::external_body]
fn sha1_of(data: &[u8]) -> (digest: Vec<u8>)
    ensures
        digest@ == sha1_digest(data@),
        digest@.len() == 20,
{
    let mut sh = Sha1::default();
    sh.input(data);
    sh.result().to_vec()
}

/// `base64::encode`: the Base64 text of `data`, which holds no character
/// but the letters, the digits, `+`, `/` and the padding `=`, and has four
/// characters for every three bytes of `data`, begun or full.  It panics
/// where the length of the text does not fit a `usize`, which is left out
/// here.
#[verifier::external_body]
fn base64_of(data: &[u8]) -> (text: String)
    requires
        data@.len() <= usize::MAX / 2,
    ensures
        text@ == base64_text(data@),
        forall|i: int| 0 <= i < text@.len() ==> is_base64_char(#[trigger] text@[i]),
        text@.len() == 4 * ((data@.len() + 2) / 3),
{
    base64::encode(data)
}

/// The length of every `Sec-WebSocket-Accept` value: the Base64 text of
/// twenty bytes.
pub const ACCEPT_HASH_LEN: usize = 28;

/// Computes the `Sec-WebSocket-Accept` value for the key `key`.
pub fn accept_hash(key: &str) -> (hash: String)
    ensures
        hash@ == accept_hash_of(key@),
        forall|i: int| 0 <= i < hash@.len() ==> is_base64_char(#[trigger] hash@[i]),
        hash@.len() == ACCEPT_HASH_LEN,
{
    let mut input: Vec<u8> = Vec::new();
    input.extend_from_slice(key.as_bytes());
    input.extend_from_slice(GUID.as_bytes());
    assert(input@ =~= vstd::utf8::encode_utf8(key@) + vstd::utf8::encode_utf8(GUID@));
    let digest = sha1_of(input.as_slice());
    base64_of(digest.as_slice())
}

/// Computes the `Sec-WebSocket-Accept` value for the key `key`.
pub fn calc_accept_hash(key: &WebSocketKey) -> (hash: String)
    ensures
        hash@ == accept_hash_of(key.0@),
        forall|i: int| 0 <= i < hash@.len() ==> is_base64_char(#[trigger] hash@[i]),
        hash@.len() == ACCEPT_HASH_LEN,
{
    accept_hash(key.0.as_str())
}

} // verus!
