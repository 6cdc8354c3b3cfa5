//! Buffers between a socket and the codecs, and the reports of what a
//! read or a write on a non-blocking socket came to.
use crate::error::{Error, ErrorKind};
use vstd::prelude::*;

verus! {

/// State of an I/O stream, as its last read or write left it.
#[derive(Debug, Clone, Copy, PartialEq, Eq, Hash, Structural)]
#[allow(missing_docs)]
pub enum StreamState {
    Normal,
    Eos,
    WouldBlock,
    Error,
}

impl StreamState {
    /// Returns `true` if the state is `Normal`, otherwise `false`.
    pub fn is_normal(self) -> (b: bool)
        ensures
            b == (self == StreamState::Normal),
    {
        self == StreamState::Normal
    }

    /// Returns `true` if the state is `Error`, otherwise `false`.
    pub fn is_error(self) -> (b: bool)
        ensures
            b == (self == StreamState::Error),
    {
        self == StreamState::Error
    }

    /// Returns `true` if the state is `Eos`, otherwise `false`.
    pub fn is_eos(self) -> (b: bool)
        ensures
            b == (self == StreamState::Eos),
    {
        self == StreamState::Eos
    }

    /// Returns `true` if the state is `WouldBlock`, otherwise `false`.
    pub fn would_block(self) -> (b: bool)
        ensures
            b == (self == StreamState::WouldBlock),
    {
        self == StreamState::WouldBlock
    }
}

/// What one read on a non-blocking socket came to.
#[derive(Debug, Clone, Copy)]
pub enum ReadOutcome<'a> {
    /// The bytes that were read; none at all means the stream has ended.
    Data(&'a [u8]),
    /// Nothing to read yet.
    WouldBlock,
    /// The read failed.
    Failed,
}

/// A read outcome as contracts see it.
pub ghost enum ReadEvent {
    Data(Seq<u8>),
    WouldBlock,
    Failed,
}

impl<'a> View for ReadOutcome<'a> {
    type V = ReadEvent;

    open spec fn view(&self) -> ReadEvent {
        match *self {
            ReadOutcome::Data(d) => ReadEvent::Data(d@),
            ReadOutcome::WouldBlock => ReadEvent::WouldBlock,
            ReadOutcome::Failed => ReadEvent::Failed,
        }
    }
}

/// What one write on a non-blocking socket came to.
#[derive(Debug, Clone, Copy, PartialEq, Eq, Structural)]
pub enum WriteOutcome {
    /// The number of bytes that the socket took; zero means the stream has
    /// ended.
    Written(usize),
    /// The socket takes nothing yet.
    WouldBlock,
    /// The write failed.
    Failed,
}

/// A buffer as contracts see it.
pub ghost struct BufView {
    /// The bytes in the buffer, oldest first.
    pub data: Seq<u8>,
    /// How many more bytes can be appended.
    pub room: nat,
    /// The state that the last read or write left.
    pub state: StreamState,
}

/// The buffer after one read with outcome `event` was offered to it, and
/// whether the read succeeded.  A full buffer takes no read; more bytes than
/// there is room for cannot have come from a read into this buffer and
/// count as a failed read.
pub open spec fn fill_step(pre: BufView, event: ReadEvent) -> (BufView, bool) {
    if pre.room == 0 {
        (pre, true)
    } else {
        match event {
            ReadEvent::WouldBlock => (BufView { state: StreamState::WouldBlock, ..pre }, true),
            ReadEvent::Failed => (BufView { state: StreamState::Error, ..pre }, false),
            ReadEvent::Data(d) => if d.len() == 0 {
                (BufView { state: StreamState::Eos, ..pre }, true)
            } else if d.len() > pre.room {
                (BufView { state: StreamState::Error, ..pre }, false)
            } else {
                (
                    BufView {
                        data: pre.data + d,
                        room: (pre.room - d.len()) as nat,
                        state: StreamState::Normal,
                    },
                    true,
                )
            },
        }
    }
}

/// Whether filling goes on after `fill_step`: the read brought bytes and
/// there is room left.
pub open spec fn fill_goes_on(pre: BufView, event: ReadEvent) -> bool {
    pre.room > 0 && fill_step(pre, event).0.state == StreamState::Normal && fill_step(
        pre,
        event,
    ).0.room > 0 && event is Data
}

/// The room of a buffer of `capacity` bytes after bytes were taken from its
/// front and `left` of them stay: the buffer is used from its start again
/// once it has run empty.
pub open spec fn room_after_drain(capacity: nat, room: nat, left: nat) -> nat {
    if left == 0 {
        capacity
    } else {
        room
    }
}

/// The buffer after one write with outcome `outcome` was offered to it, and
/// whether the write succeeded.  An empty buffer takes no write; more bytes
/// than the buffer held cannot have been written from it and count as a
/// failed write.
pub open spec fn flush_step(pre: BufView, capacity: nat, outcome: WriteOutcome) -> (BufView, bool) {
    if pre.data.len() == 0 {
        (pre, true)
    } else {
        match outcome {
            WriteOutcome::WouldBlock => (BufView { state: StreamState::WouldBlock, ..pre }, true),
            WriteOutcome::Failed => (BufView { state: StreamState::Error, ..pre }, false),
            WriteOutcome::Written(n) => if n == 0 {
                (BufView { state: StreamState::Eos, ..pre }, true)
            } else if n > pre.data.len() {
                (BufView { state: StreamState::Error, ..pre }, false)
            } else {
                (
                    BufView {
                        data: pre.data.skip(n as int),
                        room: room_after_drain(capacity, pre.room, (pre.data.len() - n) as nat),
                        state: StreamState::Normal,
                    },
                    true,
                )
            },
        }
    }
}

/// Whether flushing goes on after `flush_step`: the write took bytes and
/// some are left.
pub open spec fn flush_goes_on(pre: BufView, capacity: nat, outcome: WriteOutcome) -> bool {
    pre.data.len() > 0 && outcome is Written && flush_step(pre, capacity, outcome).0.state
        == StreamState::Normal && flush_step(pre, capacity, outcome).0.data.len() > 0
}

/// Read buffer: bytes that came from a socket and wait for a decoder.
#[derive(Debug)]
pub struct ReadBuf {
    inner: Vec<u8>,
    head: usize,
    tail: usize,
    stream_state: StreamState,
}

impl View for ReadBuf {
    type V = BufView;

    closed spec fn view(&self) -> BufView {
        BufView {
            data: self.inner@.subrange(self.head as int, self.tail as int),
            room: (self.inner@.len() - self.tail) as nat,
            state: self.stream_state,
        }
    }
}

impl ReadBuf {
    /// The cursors lie inside the buffer, and an empty buffer starts over at
    /// its beginning.
    pub closed spec fn wf(&self) -> bool {
        &&& self.head <= self.tail <= self.inner@.len()
        &&& self.head == self.tail ==> self.tail == 0
    }

    /// The size of the buffer.
    pub closed spec fn spec_capacity(&self) -> nat {
        self.inner@.len()
    }

    /// What `wf` means for the view.
    pub proof fn lemma_wf(&self)
        requires
            self.wf(),
        ensures
            self@.data.len() + self@.room <= self.spec_capacity(),
            self@.data.len() == 0 ==> self@.room == self.spec_capacity(),
    {
    }

    /// Makes an empty buffer of `capacity` bytes.
    pub fn new(capacity: usize) -> (buf: ReadBuf)
        ensures
            buf.wf(),
            buf.spec_capacity() == capacity,
            buf@ == (BufView {
                data: Seq::<u8>::empty(),
                room: capacity as nat,
                state: StreamState::Normal,
            }),
    {
        let buf = ReadBuf {
            inner: vec![0u8; capacity],
            head: 0,
            tail: 0,
            stream_state: StreamState::Normal,
        };
        assert(buf@.data =~= Seq::<u8>::empty());
        buf
    }

    /// Returns the number of filled bytes in the buffer.
    pub fn len(&self) -> (n: usize)
        requires
            self.wf(),
        ensures
            n == self@.data.len(),
    {
        self.tail - self.head
    }

    /// Returns the free space of the buffer.
    pub fn room(&self) -> (n: usize)
        requires
            self.wf(),
        ensures
            n == self@.room,
    {
        self.inner.len() - self.tail
    }

    /// Returns the capacity of the buffer.
    pub fn capacity(&self) -> (n: usize)
        ensures
            n == self.spec_capacity(),
    {
        self.inner.len()
    }

    /// Returns `true` if the buffer is empty, otherwise `false`.
    pub fn is_empty(&self) -> (b: bool)
        requires
            self.wf(),
        ensures
            b == (self@.data.len() == 0),
    {
        self.tail == 0
    }

    /// Returns `true` if the buffer is full, otherwise `false`.
    pub fn is_full(&self) -> (b: bool)
        requires
            self.wf(),
        ensures
            b == (self@.room == 0),
    {
        self.tail == self.inner.len()
    }

    /// Returns the state of the stream that the last `fill` left.
    pub fn stream_state(&self) -> (s: StreamState)
        ensures
            s == self@.state,
    {
        self.stream_state
    }

    /// The bytes in the buffer.
    pub fn filled(&self) -> (s: &[u8])
        requires
            self.wf(),
        ensures
            s@ == self@.data,
    {
        vstd::slice::slice_subrange(self.inner.as_slice(), self.head, self.tail)
    }

    /// Removes the first `n` bytes from the buffer.
    pub fn consume(&mut self, n: usize)
        requires
            old(self).wf(),
            n <= old(self)@.data.len(),
        ensures
            final(self).wf(),
            final(self).spec_capacity() == old(self).spec_capacity(),
            final(self)@ == (BufView {
                data: old(self)@.data.skip(n as int),
                room: room_after_drain(
                    old(self).spec_capacity(),
                    old(self)@.room,
                    (old(self)@.data.len() - n) as nat,
                ),
                state: old(self)@.state,
            }),
    {
        self.head = self.head + n;
        if self.head == self.tail {
            self.head = 0;
            self.tail = 0;
        }
        assert(final(self)@.data =~= old(self)@.data.skip(n as int));
    }

    /// Takes in what one read from the socket came to.  Filling goes on, with
    /// another read, as long as this returns `Ok(true)`.
    pub fn fill(&mut self, outcome: ReadOutcome<'_>) -> (r: Result<bool, Error>)
        requires
            old(self).wf(),
        ensures
            final(self).wf(),
            final(self).spec_capacity() == old(self).spec_capacity(),
            final(self)@ == fill_step(old(self)@, outcome@).0,
            fill_step(old(self)@, outcome@).1 ==> r == Ok::<bool, Error>(
                fill_goes_on(old(self)@, outcome@),
            ),
            !fill_step(old(self)@, outcome@).1 ==> r == Err::<bool, Error>(
                Error { kind: ErrorKind::Other },
            ),
    {
        if self.tail == self.inner.len() {
            return Ok(false);
        }
        match outcome {
            ReadOutcome::WouldBlock => {
                self.stream_state = StreamState::WouldBlock;
                Ok(false)
            },
            ReadOutcome::Failed => {
                self.stream_state = StreamState::Error;
                Err(Error::new(ErrorKind::Other))
            },
            ReadOutcome::Data(d) => {
                if d.len() == 0 {
                    self.stream_state = StreamState::Eos;
                    Ok(false)
                } else if d.len() > self.inner.len() - self.tail {
                    self.stream_state = StreamState::Error;
                    Err(Error::new(ErrorKind::Other))
                } else {
                    let ghost before = self.inner@;
                    let start = self.tail;
                    let mut i: usize = 0;
                    while i < d.len()
                        invariant
                            i <= d@.len(),
                            start + d@.len() <= self.inner@.len() <= usize::MAX,
                            self.inner@.len() == before.len(),
                            self.head == old(self).head,
                            self.tail == start,
                            start == old(self).tail,
                            self.stream_state == old(self).stream_state,
                            forall|k: int| 0 <= k < start ==> self.inner@[k] == before[k],
                            forall|k: int| 0 <= k < i ==> self.inner@[start + k] == d@[k],
                        decreases d@.len() - i,
                    {
                        self.inner[start + i] = d[i];
                        i = i + 1;
                    }
                    self.tail = start + d.len();
                    self.stream_state = StreamState::Normal;
                    assert(final(self)@.data =~= old(self)@.data + d@);
                    Ok(self.tail < self.inner.len())
                }
            },
        }
    }
}

/// Write buffer: bytes that an encoder produced and that wait for the
/// socket.
#[derive(Debug)]
pub struct WriteBuf {
    inner: Vec<u8>,
    head: usize,
    tail: usize,
    stream_state: StreamState,
}

impl View for WriteBuf {
    type V = BufView;

    closed spec fn view(&self) -> BufView {
        BufView {
            data: self.inner@.subrange(self.head as int, self.tail as int),
            room: (self.inner@.len() - self.tail) as nat,
            state: self.stream_state,
        }
    }
}

impl WriteBuf {
    /// The cursors lie inside the buffer, and an empty buffer starts over at
    /// its beginning.
    pub closed spec fn wf(&self) -> bool {
        &&& self.head <= self.tail <= self.inner@.len()
        &&& self.head == self.tail ==> self.tail == 0
    }

    /// The size of the buffer.
    pub closed spec fn spec_capacity(&self) -> nat {
        self.inner@.len()
    }

    /// The free part of the buffer, which `spare` lends out.
    pub closed spec fn spare_bytes(&self) -> Seq<u8> {
        self.inner@.subrange(self.tail as int, self.inner@.len() as int)
    }

    /// What `wf` means for the view.
    pub proof fn lemma_wf(&self)
        requires
            self.wf(),
        ensures
            self@.data.len() + self@.room <= self.spec_capacity(),
            self@.data.len() == 0 ==> self@.room == self.spec_capacity(),
            self.spare_bytes().len() == self@.room,
    {
    }

    /// Makes an empty buffer of `capacity` bytes.
    pub fn new(capacity: usize) -> (buf: WriteBuf)
        ensures
            buf.wf(),
            buf.spec_capacity() == capacity,
            buf@ == (BufView {
                data: Seq::<u8>::empty(),
                room: capacity as nat,
                state: StreamState::Normal,
            }),
    {
        let buf = WriteBuf {
            inner: vec![0u8; capacity],
            head: 0,
            tail: 0,
            stream_state: StreamState::Normal,
        };
        assert(buf@.data =~= Seq::<u8>::empty());
        buf
    }

    /// Returns the number of encoded bytes in the buffer.
    pub fn len(&self) -> (n: usize)
        requires
            self.wf(),
        ensures
            n == self@.data.len(),
    {
        self.tail - self.head
    }

    /// Returns the free space of the buffer.
    pub fn room(&self) -> (n: usize)
        requires
            self.wf(),
        ensures
            n == self@.room,
    {
        self.inner.len() - self.tail
    }

    /// Returns the capacity of the buffer.
    pub fn capacity(&self) -> (n: usize)
        ensures
            n == self.spec_capacity(),
    {
        self.inner.len()
    }

    /// Returns `true` if the buffer is empty, otherwise `false`.
    pub fn is_empty(&self) -> (b: bool)
        requires
            self.wf(),
        ensures
            b == (self@.data.len() == 0),
    {
        self.tail == 0
    }

    /// Returns `true` if the buffer is full, otherwise `false`.
    pub fn is_full(&self) -> (b: bool)
        requires
            self.wf(),
        ensures
            b == (self@.room == 0),
    {
        self.tail == self.inner.len()
    }

    /// Returns the state of the stream that the last `flush` left.
    pub fn stream_state(&self) -> (s: StreamState)
        ensures
            s == self@.state,
    {
        self.stream_state
    }

    /// The bytes that wait for the socket.
    pub fn pending(&self) -> (s: &[u8])
        requires
            self.wf(),
        ensures
            s@ == self@.data,
    {
        vstd::slice::slice_subrange(self.inner.as_slice(), self.head, self.tail)
    }

    /// Lends out the free part of the buffer, for an encoder to write into.
    /// What it wrote becomes part of the buffer with `advance`.  The buffer is
    /// afterwards as long as it was if the borrower kept the slice's length,
    /// as every borrower must.
    pub fn spare(&mut self) -> (s: &mut [u8])
        requires
            old(self).wf(),
        ensures
            s@ == old(self).spare_bytes(),
            final(self).wf(),
            final(self).spec_capacity() == old(self).spec_capacity() - s@.len() + final(s)@.len(),
            final(self)@.data == old(self)@.data,
            final(self)@.room == final(s)@.len(),
            final(self)@.state == old(self)@.state,
            final(self).spare_bytes() == final(s)@,
    {
        let tail = self.tail;
        let (used, free) = self.inner.as_mut_slice().split_at_mut(tail);
        free
    }

    /// Takes the first `n` bytes of the free part into the buffer.
    pub fn advance(&mut self, n: usize)
        requires
            old(self).wf(),
            n <= old(self)@.room,
        ensures
            final(self).wf(),
            final(self).spec_capacity() == old(self).spec_capacity(),
            final(self)@ == (BufView {
                data: old(self)@.data + old(self).spare_bytes().take(n as int),
                room: (old(self)@.room - n) as nat,
                state: old(self)@.state,
            }),
            final(self).spare_bytes() == old(self).spare_bytes().skip(n as int),
    {
        let capacity: usize = self.inner.len();
        assert(self.tail + n <= capacity);
        self.tail = self.tail + n;
        proof {
            assert(final(self)@.data =~= old(self)@.data + old(self).spare_bytes().take(n as int));
            assert(final(self).spare_bytes() =~= old(self).spare_bytes().skip(n as int));
        }
    }

    /// Takes in what one write to the socket came to.  Flushing goes on, with
    /// another write, as long as this returns `Ok(true)`.
    pub fn flush(&mut self, outcome: WriteOutcome) -> (r: Result<bool, Error>)
        requires
            old(self).wf(),
        ensures
            final(self).wf(),
            final(self).spec_capacity() == old(self).spec_capacity(),
            final(self)@ == flush_step(old(self)@, old(self).spec_capacity(), outcome).0,
            flush_step(old(self)@, old(self).spec_capacity(), outcome).1 ==> r == Ok::<
                bool,
                Error,
            >(flush_goes_on(old(self)@, old(self).spec_capacity(), outcome)),
            !flush_step(old(self)@, old(self).spec_capacity(), outcome).1 ==> r == Err::<
                bool,
                Error,
            >(Error { kind: ErrorKind::Other }),
    {
        if self.tail == 0 {
            return Ok(false);
        }
        match outcome {
            WriteOutcome::WouldBlock => {
                self.stream_state = StreamState::WouldBlock;
                Ok(false)
            },
            WriteOutcome::Failed => {
                self.stream_state = StreamState::Error;
                Err(Error::new(ErrorKind::Other))
            },
            WriteOutcome::Written(n) => {
                if n == 0 {
                    self.stream_state = StreamState::Eos;
                    Ok(false)
                } else if n > self.tail - self.head {
                    self.stream_state = StreamState::Error;
                    Err(Error::new(ErrorKind::Other))
                } else {
                    self.stream_state = StreamState::Normal;
                    self.head = self.head + n;
                    if self.head == self.tail {
                        self.head = 0;
                        self.tail = 0;
                    }
                    assert(final(self)@.data =~= old(self)@.data.skip(n as int));
                    Ok(self.tail != 0)
                }
            },
        }
    }
}

} // verus!
