//! The opening handshake: its states and the responses that end it.
use crate::http::{
    bytes_of, field_line, is_vchar, request_decoder, request_read, request_unfinished,
    response_add_field, response_into_bytes, response_new, status_line,
};
use crate::util::{accept_hash_of, calc_accept_hash, is_base64_char, WebSocketKey};
use httpcodec::{NoBodyDecoder, RequestDecoder};
use vstd::prelude::*;
use vstd::utf8::{is_ascii_chars, is_ascii_chars_encode_utf8};

verus! {

/// CR LF, which ends every line of the head of a response.
pub open spec fn crlf() -> Seq<u8> {
    seq![0x0Du8, 0x0Au8]
}

/// The response to a request that is no valid handshake:
/// `400 Bad Request`, with an empty body.
pub open spec fn bad_request_wire() -> Seq<u8> {
    status_line(400, bytes_of("Bad Request"@)) + field_line(
        bytes_of("Content-Length"@),
        bytes_of("0"@),
    ) + crlf()
}

/// The response where the real server cannot be reached:
/// `503 Service Unavailable`, with an empty body.
pub open spec fn unavailable_wire() -> Seq<u8> {
    status_line(503, bytes_of("Service Unavailable"@)) + field_line(
        bytes_of("Content-Length"@),
        bytes_of("0"@),
    ) + crlf()
}

/// The response that accepts the handshake of the key `key`:
/// `101 Switching Protocols`, with the answer to the key.
pub open spec fn accepted_wire(key: Seq<char>) -> Seq<u8> {
    status_line(101, bytes_of("Switching Protocols"@)) + field_line(
        bytes_of("Upgrade"@),
        bytes_of("websocket"@),
    ) + field_line(bytes_of("Connection"@), bytes_of("Upgrade"@)) + field_line(
        bytes_of("Sec-WebSocket-Accept"@),
        bytes_of(accept_hash_of(key)),
    ) + crlf()
}

/// The length of every response that accepts a handshake.
pub const ACCEPTED_LEN: usize = 129;

/// The bytes of a text of ASCII characters are its characters.
pub proof fn lemma_bytes_of_ascii(text: Seq<char>)
    requires
        is_ascii_chars(text),
    ensures
        bytes_of(text).len() == text.len(),
        forall|i: int| 0 <= i < text.len() ==> (#[trigger] bytes_of(text)[i]) == text[i] as u8,
{
    is_ascii_chars_encode_utf8(text);
}

/// The response to a request that is no valid handshake, letter by letter.
pub proof fn lemma_bad_request_wire()
    ensures
        bad_request_wire() == bytes_of(
            "HTTP/1.1 400 Bad Request\r\nContent-Length: 0\r\n\r\n"@,
        ),
{
    reveal_strlit("HTTP/1.1");
    reveal_strlit("Bad Request");
    reveal_strlit("Content-Length");
    reveal_strlit("0");
    reveal_strlit("HTTP/1.1 400 Bad Request\r\nContent-Length: 0\r\n\r\n");
    lemma_bytes_of_ascii("HTTP/1.1"@);
    lemma_bytes_of_ascii("Bad Request"@);
    lemma_bytes_of_ascii("Content-Length"@);
    lemma_bytes_of_ascii("0"@);
    lemma_bytes_of_ascii("HTTP/1.1 400 Bad Request\r\nContent-Length: 0\r\n\r\n"@);
    assert(bad_request_wire() =~= bytes_of(
        "HTTP/1.1 400 Bad Request\r\nContent-Length: 0\r\n\r\n"@,
    ));
}

/// The response where the real server cannot be reached, letter by letter.
pub proof fn lemma_unavailable_wire()
    ensures
        unavailable_wire() == bytes_of(
            "HTTP/1.1 503 Service Unavailable\r\nContent-Length: 0\r\n\r\n"@,
        ),
{
    reveal_strlit("HTTP/1.1");
    reveal_strlit("Service Unavailable");
    reveal_strlit("Content-Length");
    reveal_strlit("0");
    reveal_strlit("HTTP/1.1 503 Service Unavailable\r\nContent-Length: 0\r\n\r\n");
    lemma_bytes_of_ascii("HTTP/1.1"@);
    lemma_bytes_of_ascii("Service Unavailable"@);
    lemma_bytes_of_ascii("Content-Length"@);
    lemma_bytes_of_ascii("0"@);
    lemma_bytes_of_ascii("HTTP/1.1 503 Service Unavailable\r\nContent-Length: 0\r\n\r\n"@);
    assert(unavailable_wire() =~= bytes_of(
        "HTTP/1.1 503 Service Unavailable\r\nContent-Length: 0\r\n\r\n"@,
    ));
}

/// The response that accepts a handshake, letter by letter: the head up to
/// the answer to the key, the answer, and the two line ends.
pub proof fn lemma_accepted_wire(key: Seq<char>)
    ensures
        accepted_wire(key) == bytes_of(
            "HTTP/1.1 101 Switching Protocols\r\nUpgrade: websocket\r\nConnection: Upgrade\r\nSec-WebSocket-Accept: "@,
        ) + bytes_of(accept_hash_of(key)) + bytes_of("\r\n\r\n"@),
{
    reveal_strlit("HTTP/1.1");
    reveal_strlit("Switching Protocols");
    reveal_strlit("Upgrade");
    reveal_strlit("websocket");
    reveal_strlit("Connection");
    reveal_strlit("Sec-WebSocket-Accept");
    reveal_strlit("\r\n\r\n");
    reveal_strlit(
        "HTTP/1.1 101 Switching Protocols\r\nUpgrade: websocket\r\nConnection: Upgrade\r\nSec-WebSocket-Accept: ",
    );
    lemma_bytes_of_ascii("HTTP/1.1"@);
    lemma_bytes_of_ascii("Switching Protocols"@);
    lemma_bytes_of_ascii("Upgrade"@);
    lemma_bytes_of_ascii("websocket"@);
    lemma_bytes_of_ascii("Connection"@);
    lemma_bytes_of_ascii("Sec-WebSocket-Accept"@);
    lemma_bytes_of_ascii("\r\n\r\n"@);
    lemma_bytes_of_ascii(
        "HTTP/1.1 101 Switching Protocols\r\nUpgrade: websocket\r\nConnection: Upgrade\r\nSec-WebSocket-Accept: "@,
    );
    assert(accepted_wire(key) =~= bytes_of(
        "HTTP/1.1 101 Switching Protocols\r\nUpgrade: websocket\r\nConnection: Upgrade\r\nSec-WebSocket-Accept: "@,
    ) + bytes_of(accept_hash_of(key)) + bytes_of("\r\n\r\n"@));
}

/// A response whose bytes wait to be written.
#[derive(Debug)]
pub struct PendingResponse {
    bytes: Vec<u8>,
    offset: usize,
}

impl View for PendingResponse {
    type V = Seq<u8>;

    /// The bytes that are still to be written.
    closed spec fn view(&self) -> Seq<u8> {
        self.bytes@.skip(self.offset as int)
    }
}

impl PendingResponse {
    /// The cursor lies inside the bytes.
    pub closed spec fn wf(&self) -> bool {
        self.offset <= self.bytes@.len()
    }

    /// A response of the bytes `bytes`, none of them written yet.
    pub fn new(bytes: Vec<u8>) -> (response: PendingResponse)
        ensures
            response.wf(),
            response@ == bytes@,
    {
        let response = PendingResponse { bytes, offset: 0 };
        assert(response@ =~= bytes@);
        response
    }

    /// The response that accepts the handshake of the key `key`.
    pub fn accepted(key: &WebSocketKey) -> (response: PendingResponse)
        ensures
            response.wf(),
            response@ == accepted_wire(key.0@),
            response@.len() == ACCEPTED_LEN,
    {
        let hash = calc_accept_hash(key);
        proof {
            reveal_strlit("HTTP/1.1");
            lemma_bytes_of_ascii("HTTP/1.1"@);
            reveal_strlit("Switching Protocols");
            reveal_strlit("Upgrade");
            reveal_strlit("websocket");
            reveal_strlit("Connection");
            reveal_strlit("Sec-WebSocket-Accept");
            lemma_bytes_of_ascii("Switching Protocols"@);
            lemma_bytes_of_ascii("Upgrade"@);
            lemma_bytes_of_ascii("websocket"@);
            lemma_bytes_of_ascii("Connection"@);
            lemma_bytes_of_ascii("Sec-WebSocket-Accept"@);
            assert(is_ascii_chars(hash@)) by {
                assert forall|i: int| 0 <= i < hash@.len() implies '\0' <= #[trigger] hash@[i]
                    <= '\u{7f}' by {
                    assert(is_base64_char(hash@[i]));
                }
            }
            lemma_bytes_of_ascii(hash@);
            assert forall|i: int| 0 <= i < bytes_of(hash@).len() implies is_vchar(
                #[trigger] bytes_of(hash@)[i],
            ) by {
                assert(is_base64_char(hash@[i]));
            }
        }
        let mut bytes: Vec<u8> = Vec::new();
        if let Some(mut response) = response_new(101, "Switching Protocols") {
            if response_add_field(&mut response, "Upgrade", "websocket") && response_add_field(
                &mut response,
                "Connection",
                "Upgrade",
            ) && response_add_field(&mut response, "Sec-WebSocket-Accept", hash.as_str()) {
                if let Some(wire) = response_into_bytes(response) {
                    bytes = wire;
                }
            }
        }
        PendingResponse::new(bytes)
    }

    /// The response to a request that is no valid handshake.
    pub fn bad_request() -> (response: PendingResponse)
        ensures
            response.wf(),
            response@ == bad_request_wire(),
    {
        proof {
            reveal_strlit("Bad Request");
            reveal_strlit("Content-Length");
            reveal_strlit("0");
            lemma_bytes_of_ascii("Bad Request"@);
            lemma_bytes_of_ascii("Content-Length"@);
            lemma_bytes_of_ascii("0"@);
        }
        let mut bytes: Vec<u8> = Vec::new();
        if let Some(mut response) = response_new(400, "Bad Request") {
            if response_add_field(&mut response, "Content-Length", "0") {
                if let Some(wire) = response_into_bytes(response) {
                    bytes = wire;
                }
            }
        }
        PendingResponse::new(bytes)
    }

    /// The response where the real server cannot be reached.
    pub fn unavailable() -> (response: PendingResponse)
        ensures
            response.wf(),
            response@ == unavailable_wire(),
    {
        proof {
            reveal_strlit("Service Unavailable");
            reveal_strlit("Content-Length");
            reveal_strlit("0");
            lemma_bytes_of_ascii("Service Unavailable"@);
            lemma_bytes_of_ascii("Content-Length"@);
            lemma_bytes_of_ascii("0"@);
        }
        let mut bytes: Vec<u8> = Vec::new();
        if let Some(mut response) = response_new(503, "Service Unavailable") {
            if response_add_field(&mut response, "Content-Length", "0") {
                if let Some(wire) = response_into_bytes(response) {
                    bytes = wire;
                }
            }
        }
        PendingResponse::new(bytes)
    }

    /// Returns `true` if all of the response has been written.
    pub fn is_idle(&self) -> (idle: bool)
        requires
            self.wf(),
        ensures
            idle == (self@.len() == 0),
    {
        self.offset == self.bytes.len()
    }

    /// Writes as much of the response into `buf` as `buf` takes.
    pub fn encode(&mut self, buf: &mut [u8]) -> (size: usize)
        requires
            old(self).wf(),
        ensures
            final(self).wf(),
            size == vstd::math::min(old(buf)@.len() as int, old(self)@.len() as int),
            final(buf)@ == old(self)@.take(size as int) + old(buf)@.skip(size as int),
            final(self)@ == old(self)@.skip(size as int),
    {
        let ghost out = buf@;
        let left = self.bytes.len() - self.offset;
        let size = if buf.len() < left {
            buf.len()
        } else {
            left
        };
        let mut i: usize = 0;
        while i < size
            invariant
                i <= size <= buf@.len(),
                self.offset + size <= self.bytes@.len() <= usize::MAX,
                *self == *old(self),
                buf@.len() == out.len(),
                forall|k: int| 0 <= k < i ==> buf@[k] == self.bytes@[self.offset + k],
                forall|k: int| i <= k < out.len() ==> buf@[k] == out[k],
            decreases size - i,
        {
            buf[i] = self.bytes[self.offset + i];
            i = i + 1;
        }
        self.offset = self.offset + size;
        proof {
            assert(buf@ =~= old(self)@.take(size as int) + out.skip(size as int));
            assert(self@ =~= old(self)@.skip(size as int));
        }
        size
    }
}

/// The states of the opening handshake.
#[derive(Debug)]
pub enum Handshake {
    /// The request is being read.
    RecvRequest(RequestDecoder<NoBodyDecoder>),
    /// The request was valid, and the connection to the real server is being
    /// made.
    ConnectToRealServer(WebSocketKey),
    /// A response is being written; the flag tells whether it accepts the
    /// handshake.
    SendResponse(PendingResponse, bool),
    /// The handshake has succeeded.
    Done,
}

/// A state of the handshake as contracts see it.
pub ghost enum HandshakeView {
    /// The request is being read by the decoder `decoder`.
    RecvRequest { decoder: RequestDecoder<NoBodyDecoder> },
    ConnectToRealServer { key: Seq<char> },
    SendResponse { pending: Seq<u8>, succeeded: bool },
    Done,
}

impl View for Handshake {
    type V = HandshakeView;

    open spec fn view(&self) -> HandshakeView {
        match *self {
            Handshake::RecvRequest(decoder) => HandshakeView::RecvRequest { decoder },
            Handshake::ConnectToRealServer(key) => HandshakeView::ConnectToRealServer {
                key: key.0@,
            },
            Handshake::SendResponse(response, succeeded) => HandshakeView::SendResponse {
                pending: response@,
                succeeded,
            },
            Handshake::Done => HandshakeView::Done,
        }
    }
}

impl Handshake {
    /// No request has been taken out of the decoder that reads the request,
    /// and a response in the making keeps its cursor inside its bytes.
    pub open spec fn wf(&self) -> bool {
        match *self {
            Handshake::RecvRequest(decoder) => request_unfinished(decoder),
            Handshake::SendResponse(response, _) => response.wf(),
            _ => true,
        }
    }

    /// The state in which a handshake starts: the request is to be read, and
    /// the decoder has read no byte of it.
    pub fn new() -> (handshake: Handshake)
        ensures
            handshake.wf(),
            handshake@ is RecvRequest,
            request_read(handshake@->decoder) == Seq::<u8>::empty(),
    {
        Handshake::RecvRequest(request_decoder())
    }

    /// Returns `true` if the handshake has succeeded.
    pub fn done(&self) -> (done: bool)
        ensures
            done == (self@ == HandshakeView::Done),
    {
        match *self {
            Handshake::Done => true,
            _ => false,
        }
    }

    /// The state that writes the response to an accepted handshake.
    pub fn response_accepted(key: &WebSocketKey) -> (handshake: Handshake)
        ensures
            handshake.wf(),
            handshake@ == (HandshakeView::SendResponse {
                pending: accepted_wire(key.0@),
                succeeded: true,
            }),
    {
        Handshake::SendResponse(PendingResponse::accepted(key), true)
    }

    /// The state that writes the response to a request that is no valid
    /// handshake.
    pub fn response_bad_request() -> (handshake: Handshake)
        ensures
            handshake.wf(),
            handshake@ == (HandshakeView::SendResponse {
                pending: bad_request_wire(),
                succeeded: false,
            }),
    {
        Handshake::SendResponse(PendingResponse::bad_request(), false)
    }

    /// The state that writes the response where the real server cannot be
    /// reached.
    pub fn response_unavailable() -> (handshake: Handshake)
        ensures
            handshake.wf(),
            handshake@ == (HandshakeView::SendResponse {
                pending: unavailable_wire(),
                succeeded: false,
            }),
    {
        Handshake::SendResponse(PendingResponse::unavailable(), false)
    }
}

} // verus!
