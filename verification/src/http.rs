//! The HTTP side of the opening handshake: the request as the proxy reads
//! it, and the bytes of the responses it writes.
use bytecodec::{Decode, EncodeExt, Eos};
use httpcodec::{
    NoBodyDecoder, NoBodyEncoder, ReasonPhrase, RequestDecoder, Response, ResponseEncoder,
    StatusCode,
};
use crate::error::{Error, ErrorKind};
use crate::text::{
    chars_of, eq_ignore_ascii_case, has_token, text_eq, text_eq_ignore_ascii_case, text_has_token,
};
use crate::util::WebSocketKey;
use vstd::prelude::*;

verus! {

/// `httpcodec::NoBodyDecoder`, the decoder of a body that is not there.
#[verifier::external_type_specification]
#[verifier::external_body]
pub struct ExNoBodyDecoder(NoBodyDecoder);

/// `httpcodec::RequestDecoder`, which reads an HTTP request piece by piece.
#[verifier::external_type_specification]
#[verifier::external_body]
#[verifier::reject_recursive_types(D)]
pub struct ExRequestDecoder<D>(RequestDecoder<D>);

/// `httpcodec::Response`, an HTTP response in the making.
#[verifier::external_type_specification]
#[verifier::external_body]
#[verifier::reject_recursive_types(T)]
pub struct ExResponse<T>(Response<T>);

/// HTTP version.
#[derive(Debug, Clone, Copy, PartialEq, Eq, Structural)]
pub enum HttpVersion {
    /// HTTP/1.0
    V1_0,
    /// HTTP/1.1
    V1_1,
}

/// A header field of a request or a response.
#[derive(Debug)]
pub struct HeaderField {
    pub name: String,
    pub value: String,
}

/// The head of an HTTP request, as far as the handshake reads it.
#[derive(Debug)]
pub struct Request {
    pub method: String,
    pub version: HttpVersion,
    pub fields: Vec<HeaderField>,
}

/// The bytes of a text.
pub open spec fn bytes_of(text: Seq<char>) -> Seq<u8> {
    vstd::utf8::encode_utf8(text)
}

/// The characters of which the name of a header field is made: the `tchar`
/// of RFC 7230.
pub open spec fn is_tchar(b: u8) -> bool {
    ||| b == 0x21
    ||| 0x23 <= b <= 0x27
    ||| b == 0x2A
    ||| b == 0x2B
    ||| b == 0x2D
    ||| b == 0x2E
    ||| 0x30 <= b <= 0x39
    ||| 0x41 <= b <= 0x5A
    ||| 0x5E <= b <= 0x7A
    ||| b == 0x7C
    ||| b == 0x7E
}

/// The visible ASCII characters: the `VCHAR` of RFC 7230.
pub open spec fn is_vchar(b: u8) -> bool {
    0x21 <= b <= 0x7E
}

/// The characters of which a reason phrase is made: the visible ones, the
/// space and the tab.
pub open spec fn is_phrase_char(b: u8) -> bool {
    is_vchar(b) || b == 0x20 || b == 0x09
}

/// Whether a response can have this status and this reason phrase.
pub open spec fn status_line_is_valid(status: u16, reason: Seq<u8>) -> bool {
    &&& 100 <= status < 1000
    &&& forall|i: int| 0 <= i < reason.len() ==> is_phrase_char(#[trigger] reason[i])
}

/// Whether a header can have a field of this name and this value.
pub open spec fn field_is_valid(name: Seq<u8>, value: Seq<u8>) -> bool {
    &&& forall|i: int| 0 <= i < name.len() ==> is_tchar(#[trigger] name[i])
    &&& forall|i: int| 0 <= i < value.len() ==> is_vchar(#[trigger] value[i])
}

/// The three decimal digits of a status code.
pub open spec fn status_digits(status: u16) -> Seq<u8> {
    seq![
        (0x30 + (status / 100) % 10) as u8,
        (0x30 + (status / 10) % 10) as u8,
        (0x30 + status % 10) as u8,
    ]
}

/// The status line of an HTTP/1.1 response: version, status, reason phrase,
/// each followed by a space but the last, which CR LF follows.
pub open spec fn status_line(status: u16, reason: Seq<u8>) -> Seq<u8> {
    bytes_of("HTTP/1.1"@) + seq![0x20u8] + status_digits(status) + seq![0x20u8] + reason + seq![
        0x0Du8,
        0x0Au8,
    ]
}

/// One line of a header: the name, a colon and a space, the value, CR LF.
pub open spec fn field_line(name: Seq<u8>, value: Seq<u8>) -> Seq<u8> {
    name + seq![0x3Au8, 0x20u8] + value + seq![0x0Du8, 0x0Au8]
}

/// The head of the response that `response` holds: its status line and the
/// lines of the header fields added so far.
pub uninterp spec fn response_head(response: Response<()>) -> Seq<u8>;

/// The bytes of the request that `decoder` has taken and keeps until the
/// request is taken out of it.
pub uninterp spec fn request_read(decoder: RequestDecoder<NoBodyDecoder>) -> Seq<u8>;

/// Whether no request has been taken out of `decoder` yet, with success or
/// without.
pub uninterp spec fn request_unfinished(decoder: RequestDecoder<NoBodyDecoder>) -> bool;

/// What comes of giving `decoder` the bytes `buf` to read on in the request:
/// how many of the bytes it takes, or nothing where it fails, and the
/// decoder as it is afterwards.
pub uninterp spec fn request_decoded(
    decoder: RequestDecoder<NoBodyDecoder>,
    buf: Seq<u8>,
    eos: bool,
) -> (Option<usize>, RequestDecoder<NoBodyDecoder>);

/// Whether `decoder` has read the head of a request to its end.
pub uninterp spec fn request_complete(decoder: RequestDecoder<NoBodyDecoder>) -> bool;

/// What `decoder` hands out when the request is taken out of it: the
/// request, or nothing where it fails.
pub uninterp spec fn request_handed_out(decoder: RequestDecoder<NoBodyDecoder>) -> Option<Request>;

/// `RequestDecoder::default`: a decoder that has read nothing, and out of
/// which nothing has been taken.
#[verifier::external_body]
pub(crate) fn request_decoder() -> (decoder: RequestDecoder<NoBodyDecoder>)
    ensures
        request_read(decoder) == Seq::<u8>::empty(),
        request_unfinished(decoder),
{
    RequestDecoder::default()
}

/// `Decode::decode` of `RequestDecoder`: reads on in the request, and tells
/// how many of the bytes of `buf` it took, or nothing where it failed.  What
/// it answers and what it is afterwards depend on the decoder and on what it
/// is given, and on nothing else.  It takes no more bytes than there are,
/// from the front of `buf`, and puts what it took behind what it had read.
/// The decoder is one out of which no request has been taken.
#[verifier::external_body]
pub(crate) fn request_decode(
    decoder: &mut RequestDecoder<NoBodyDecoder>,
    buf: &[u8],
    eos: bool,
) -> (r: Option<usize>)
    requires
        request_unfinished(*old(decoder)),
    ensures
        (r, *final(decoder)) == request_decoded(*old(decoder), buf@, eos),
        request_unfinished(*final(decoder)),
        r matches Some(n) ==> n <= buf@.len() && request_read(*final(decoder)) == request_read(
            *old(decoder),
        ) + buf@.take(n as int),
{
    decoder.decode(buf, Eos::new(eos)).ok()
}

/// `Decode::is_idle` of `RequestDecoder`: whether the head of a request has
/// been read to its end, which depends on the decoder alone.
#[verifier::external_body]
pub(crate) fn request_is_idle(decoder: &RequestDecoder<NoBodyDecoder>) -> (idle: bool)
    ensures
        idle == request_complete(*decoder),
{
    decoder.is_idle()
}

/// `Decode::finish_decoding` of `RequestDecoder`: hands out the request that
/// was read, with its method, its version and its header fields in the
/// order in which they came, or nothing where it failed.  What it hands out
/// depends on the decoder alone.  The decoder is used up.
#[verifier::external_body]
pub(crate) fn request_finish(decoder: RequestDecoder<NoBodyDecoder>) -> (r: Option<Request>)
    ensures
        r == request_handed_out(decoder),
{
    let mut decoder = decoder;
    let request = decoder.finish_decoding().ok()?;
    Some(
        Request {
            method: request.method().as_str().to_owned(),
            version: match request.http_version() {
                httpcodec::HttpVersion::V1_0 => HttpVersion::V1_0,
                httpcodec::HttpVersion::V1_1 => HttpVersion::V1_1,
            },
            fields: request.header().fields().map(
                |f| HeaderField { name: f.name().to_owned(), value: f.value().to_owned() },
            ).collect(),
        },
    )
}

/// `Response::new`, with `StatusCode::new` and `ReasonPhrase::new`: an
/// HTTP/1.1 response without header fields.  It is made if and only if the
/// status has three digits and the reason phrase holds no other bytes than
/// visible characters, spaces and tabs.
#[verifier::external_body]
pub(crate) fn response_new(status: u16, reason: &str) -> (r: Option<Response<()>>)
    ensures
        r is Some <==> status_line_is_valid(status, bytes_of(reason@)),
        r matches Some(response) ==> response_head(response) == status_line(
            status,
            bytes_of(reason@),
        ),
{
    let status = StatusCode::new(status).ok()?;
    let reason = ReasonPhrase::new(reason).ok()?;
    Some(Response::new(httpcodec::HttpVersion::V1_1, status, reason, ()))
}

/// `HeaderMut::add_field`, with `HeaderField::new`: adds one line to the
/// head of the response, if and only if the name is a token and the value
/// holds visible characters only; else the response is left as it was.
#[verifier::external_body]
pub(crate) fn response_add_field(response: &mut Response<()>, name: &str, value: &str) -> (added: bool)
    ensures
        added <==> field_is_valid(bytes_of(name@), bytes_of(value@)),
        added ==> response_head(*final(response)) == response_head(*old(response)) + field_line(
            bytes_of(name@),
            bytes_of(value@),
        ),
        !added ==> response_head(*final(response)) == response_head(*old(response)),
{
    match httpcodec::HeaderField::new(name, value) {
        Ok(field) => {
            response.header_mut().add_field(field);
            true
        },
        Err(_) => false,
    }
}

/// `EncodeExt::encode_into_bytes` of `ResponseEncoder<NoBodyEncoder>`: the
/// bytes of the response, which are its head and the empty line that ends
/// it.
#[verifier::external_body]
pub(crate) fn response_into_bytes(response: Response<()>) -> (r: Option<Vec<u8>>)
    ensures
        r is Some,
        r matches Some(wire) ==> wire@ == response_head(response) + seq![0x0Du8, 0x0Au8],
{
    ResponseEncoder::<NoBodyEncoder>::default().encode_into_bytes(response).ok()
}

/// What one header field asks of the handshake: an `Upgrade` field names
/// `websocket`, a `Connection` field has `Upgrade` among the tokens that
/// commas separate, a `Sec-WebSocket-Version` field says `13`.  Names are
/// read without regard to case, and any other field passes.
pub open spec fn field_is_acceptable(name: Seq<char>, value: Seq<char>) -> bool {
    if eq_ignore_ascii_case(name, "upgrade"@) {
        value == "websocket"@
    } else if eq_ignore_ascii_case(name, "connection"@) {
        has_token(value, ',', "Upgrade"@)
    } else if eq_ignore_ascii_case(name, "sec-websocket-key"@) {
        true
    } else if eq_ignore_ascii_case(name, "sec-websocket-version"@) {
        value == "13"@
    } else {
        true
    }
}

/// Whether one of `fields` has the name `name`, read without regard to
/// case.
pub open spec fn has_field(fields: Seq<HeaderField>, name: Seq<char>) -> bool {
    exists|i: int| 0 <= i < fields.len() && eq_ignore_ascii_case((#[trigger] fields[i]).name@, name)
}

/// A field of the name `name` is among the first `i + 1` fields where it is
/// among the first `i` or is the one after them.
pub proof fn lemma_has_field_next(fields: Seq<HeaderField>, i: int, name: Seq<char>)
    requires
        0 <= i < fields.len(),
    ensures
        has_field(fields.take(i + 1), name) == (has_field(fields.take(i), name)
            || eq_ignore_ascii_case(fields[i].name@, name)),
{
    let before = fields.take(i);
    let with = fields.take(i + 1);
    if has_field(before, name) {
        let k = choose|k: int|
            0 <= k < before.len() && eq_ignore_ascii_case((#[trigger] before[k]).name@, name);
        assert(with[k] == before[k]);
    }
    if eq_ignore_ascii_case(fields[i].name@, name) {
        assert(with[i] == fields[i]);
    }
    if has_field(with, name) {
        let k = choose|k: int|
            0 <= k < with.len() && eq_ignore_ascii_case((#[trigger] with[k]).name@, name);
        if k < i {
            assert(before[k] == with[k]);
        } else {
            assert(with[k] == fields[i]);
        }
    }
}

/// The value of the last `Sec-WebSocket-Key` field among `fields`.
pub open spec fn last_key(fields: Seq<HeaderField>) -> Option<Seq<char>>
    decreases fields.len(),
{
    if fields.len() == 0 {
        None
    } else if eq_ignore_ascii_case(fields.last().name@, "sec-websocket-key"@) {
        Some(fields.last().value@)
    } else {
        last_key(fields.drop_last())
    }
}

/// The key of a request that asks for a WebSocket as the proxy accepts it:
/// a `GET` in HTTP/1.1 that has an `Upgrade` field, a `Connection` field and
/// a `Sec-WebSocket-Version` field, whose header fields are all acceptable,
/// and that holds a key.  Any other request has none.
pub open spec fn handshake_key(request: Request) -> Option<Seq<char>> {
    if request.method@ == "GET"@ && request.version == HttpVersion::V1_1 && (forall|i: int|
        0 <= i < request.fields@.len() ==> field_is_acceptable(
            (#[trigger] request.fields@[i]).name@,
            request.fields@[i].value@,
        )) && has_field(request.fields@, "upgrade"@) && has_field(request.fields@, "connection"@)
        && has_field(request.fields@, "sec-websocket-version"@) {
        last_key(request.fields@)
    } else {
        None
    }
}

/// Checks one header field of a handshake request.
fn check_field(name: &[char], value: &[char]) -> (ok: bool)
    ensures
        ok == field_is_acceptable(name@, value@),
{
    if text_eq_ignore_ascii_case(name, chars_of("upgrade").as_slice()) {
        text_eq(value, chars_of("websocket").as_slice())
    } else if text_eq_ignore_ascii_case(name, chars_of("connection").as_slice()) {
        text_has_token(value, ',', chars_of("Upgrade").as_slice())
    } else if text_eq_ignore_ascii_case(name, chars_of("sec-websocket-key").as_slice()) {
        true
    } else if text_eq_ignore_ascii_case(name, chars_of("sec-websocket-version").as_slice()) {
        text_eq(value, chars_of("13").as_slice())
    } else {
        true
    }
}

/// Validates a handshake request and hands out its key.
pub fn validate_request(request: &Request) -> (r: Result<WebSocketKey, Error>)
    ensures
        match handshake_key(*request) {
            Some(key) => r matches Ok(k) && k.0@ == key,
            None => r == Err::<WebSocketKey, Error>(Error { kind: ErrorKind::InvalidInput }),
        },
{
    let method = chars_of(request.method.as_str());
    if !text_eq(method.as_slice(), chars_of("GET").as_slice()) {
        return Err(Error::new(ErrorKind::InvalidInput));
    }
    if request.version != HttpVersion::V1_1 {
        return Err(Error::new(ErrorKind::InvalidInput));
    }
    let mut key: Option<String> = None;
    let mut upgrade = false;
    let mut connection = false;
    let mut version = false;
    let mut i: usize = 0;
    proof {
        assert(!has_field(request.fields@.take(0), "upgrade"@));
        assert(!has_field(request.fields@.take(0), "connection"@));
        assert(!has_field(request.fields@.take(0), "sec-websocket-version"@));
    }
    while i < request.fields.len()
        invariant
            i <= request.fields@.len(),
            forall|k: int|
                0 <= k < i ==> field_is_acceptable(
                    (#[trigger] request.fields@[k]).name@,
                    request.fields@[k].value@,
                ),
            match last_key(request.fields@.take(i as int)) {
                Some(value) => key matches Some(k) && k@ == value,
                None => key is None,
            },
            upgrade == has_field(request.fields@.take(i as int), "upgrade"@),
            connection == has_field(request.fields@.take(i as int), "connection"@),
            version == has_field(request.fields@.take(i as int), "sec-websocket-version"@),
        decreases request.fields@.len() - i,
    {
        let field = &request.fields[i];
        let name = chars_of(field.name.as_str());
        let value = chars_of(field.value.as_str());
        if !check_field(name.as_slice(), value.as_slice()) {
            return Err(Error::new(ErrorKind::InvalidInput));
        }
        proof {
            assert(request.fields@.take(i + 1).drop_last() =~= request.fields@.take(i as int));
            lemma_has_field_next(request.fields@, i as int, "upgrade"@);
            lemma_has_field_next(request.fields@, i as int, "connection"@);
            lemma_has_field_next(request.fields@, i as int, "sec-websocket-version"@);
        }
        if text_eq_ignore_ascii_case(name.as_slice(), chars_of("sec-websocket-key").as_slice()) {
            key = Some(field.value.clone());
        }
        if text_eq_ignore_ascii_case(name.as_slice(), chars_of("upgrade").as_slice()) {
            upgrade = true;
        }
        if text_eq_ignore_ascii_case(name.as_slice(), chars_of("connection").as_slice()) {
            connection = true;
        }
        if text_eq_ignore_ascii_case(
            name.as_slice(),
            chars_of("sec-websocket-version").as_slice(),
        ) {
            version = true;
        }
        i = i + 1;
    }
    assert(request.fields@.take(i as int) =~= request.fields@);
    if !(upgrade && connection && version) {
        return Err(Error::new(ErrorKind::InvalidInput));
    }
    match key {
        Some(key) => Ok(WebSocketKey(key)),
        None => Err(Error::new(ErrorKind::InvalidInput)),
    }
}

} // verus!
