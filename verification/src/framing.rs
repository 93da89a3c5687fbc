//! Framing: a message on the wire ends at the first sentinel byte.
//!
//! The reader takes the stream one byte at a time, as the connection hands
//! it over, and never looks past the sentinel.

use vstd::prelude::*;

verus! {

/// The byte that ends every envelope.
pub const SENTINEL: u8 = 0;

/// Longest wait for one byte of a reply, in milliseconds.
pub const READ_TIMEOUT_MS: u64 = 500;

/// Why a read from the connection gave no byte.
#[derive(Clone, Copy, Debug, PartialEq, Eq, Structural)]
pub enum TransportError {
    /// No byte came within the read timeout.
    TimedOut,
    /// The peer reset the connection.
    ConnectionReset,
    /// The stream ended before a sentinel was seen.
    EndOfStream,
    /// The read failed for another reason.
    Other,
}

/// What one read from the connection brought.
#[derive(Clone, Copy, Debug, PartialEq, Eq, Structural)]
pub enum ReadEvent {
    Byte(u8),
    Failed(TransportError),
}

/// Whether the first sentinel of `stream` stands at `at`.
pub open spec fn is_first_sentinel(stream: Seq<u8>, at: int) -> bool {
    &&& 0 <= at < stream.len()
    &&& stream[at] == SENTINEL
    &&& forall|before: int| 0 <= before < at ==> stream[before] != SENTINEL
}

/// The payload that `stream` carries: its bytes before the first sentinel.
/// A stream without a sentinel carries none.
pub open spec fn framed_payload(stream: Seq<u8>) -> Option<Seq<u8>> {
    if exists|at: int| is_first_sentinel(stream, at) {
        Some(stream.take(choose|at: int| is_first_sentinel(stream, at)))
    } else {
        None
    }
}

/// The payload ends where the first sentinel stands, and nowhere else.
pub proof fn lemma_framed_payload_at(stream: Seq<u8>, at: int)
    requires
        is_first_sentinel(stream, at),
    ensures
        framed_payload(stream) == Some(stream.take(at)),
{
    let chosen = choose|at: int| is_first_sentinel(stream, at);
    assert(is_first_sentinel(stream, chosen));
    if chosen < at {
        assert(stream[chosen] != SENTINEL);
    } else if at < chosen {
        assert(stream[at] != SENTINEL);
    }
}

/// A payload without a sentinel, followed by a sentinel and by anything
/// whatever, is read back unchanged. The empty payload is no exception.
pub proof fn lemma_framed_payload_of_envelope(payload: Seq<u8>, rest: Seq<u8>)
    requires
        !payload.contains(SENTINEL),
    ensures
        framed_payload(payload.push(SENTINEL) + rest) == Some(payload),
{
    let stream = payload.push(SENTINEL) + rest;
    let at = payload.len() as int;
    assert forall|before: int| 0 <= before < at implies stream[before] != SENTINEL by {
        assert(stream[before] == payload[before]);
    }
    assert(is_first_sentinel(stream, at));
    lemma_framed_payload_at(stream, at);
    assert(stream.take(at) =~= payload);
}

/// A stream that never brings a sentinel carries no payload.
pub proof fn lemma_framed_payload_none(stream: Seq<u8>)
    requires
        !stream.contains(SENTINEL),
    ensures
        framed_payload(stream) is None,
{
    assert forall|at: int| !is_first_sentinel(stream, at) by {
        if 0 <= at < stream.len() {
            assert(stream.contains(stream[at]));
        }
    }
}

/// The bytes of one frame, as far as they have been read.
#[derive(Debug)]
pub struct FrameReader {
    buffer: Vec<u8>,
}

/// How far a [`FrameReader`] has come after one more read.
#[derive(Debug)]
pub enum ReadProgress {
    /// No sentinel yet: read on with this reader.
    Pending(FrameReader),
    /// The sentinel came: these are the bytes before it.
    Complete(Vec<u8>),
    /// The read failed, and the frame with it.
    Failed(TransportError),
}

/// What a [`ReadProgress`] holds, with its bytes as sequences.
pub enum ReadProgressView {
    Pending(Seq<u8>),
    Complete(Seq<u8>),
    Failed(TransportError),
}

/// How a reader that holds `received` answers `event`.
pub open spec fn read_step(received: Seq<u8>, event: ReadEvent) -> ReadProgressView {
    match event {
        ReadEvent::Byte(byte) => if byte == SENTINEL {
            ReadProgressView::Complete(received)
        } else {
            ReadProgressView::Pending(received.push(byte))
        },
        ReadEvent::Failed(cause) => ReadProgressView::Failed(cause),
    }
}

impl View for FrameReader {
    type V = Seq<u8>;

    closed spec fn view(&self) -> Seq<u8> {
        self.buffer@
    }
}

impl View for ReadProgress {
    type V = ReadProgressView;

    open spec fn view(&self) -> ReadProgressView {
        match *self {
            ReadProgress::Pending(reader) => ReadProgressView::Pending(reader@),
            ReadProgress::Complete(payload) => ReadProgressView::Complete(payload@),
            ReadProgress::Failed(cause) => ReadProgressView::Failed(cause),
        }
    }
}

impl FrameReader {
    /// A reader never holds a sentinel: the sentinel ends the frame.
    #[verifier::type_invariant]
    spec fn holds_no_sentinel(self) -> bool {
        !self.buffer@.contains(SENTINEL)
    }

    /// A reader that has read nothing yet.
    pub fn new() -> (reader: FrameReader)
        ensures
            reader@ == Seq::<u8>::empty(),
    {
        FrameReader { buffer: Vec::new() }
    }

    /// Takes in what one read brought. A sentinel completes the frame with
    /// the bytes read before it, any other byte is kept, and a failed read
    /// fails the frame with its cause. Nothing is ever read twice: the
    /// reader is used up, and only a pending frame hands out a new one.
    pub fn feed(self, event: ReadEvent) -> (progress: ReadProgress)
        ensures
            progress@ == read_step(self@, event),
            !self@.contains(SENTINEL),
    {
        proof {
            use_type_invariant(&self);
        }
        match event {
            ReadEvent::Byte(byte) => {
                let mut buffer = self.buffer;
                if byte == SENTINEL {
                    ReadProgress::Complete(buffer)
                } else {
                    let ghost before = buffer@;
                    buffer.push(byte);
                    assert(!buffer@.contains(SENTINEL)) by {
                        if buffer@.contains(SENTINEL) {
                            let at = choose|at: int| 0 <= at < buffer@.len() && buffer@[at] == SENTINEL;
                            assert(before[at] == SENTINEL);
                        }
                    }
                    ReadProgress::Pending(FrameReader { buffer })
                }
            },
            ReadEvent::Failed(cause) => ReadProgress::Failed(cause),
        }
    }
}

/// Reads one frame from a stream that delivers `stream` and then ends:
/// the bytes before the first sentinel. Whatever follows that sentinel is
/// left unread. A stream that ends before any sentinel fails with
/// [`TransportError::EndOfStream`].
pub fn get_stream_string(stream: &[u8]) -> (out: Result<Vec<u8>, TransportError>)
    ensures
        match out {
            Ok(payload) => framed_payload(stream@) == Some(payload@),
            Err(cause) => framed_payload(stream@) is None && cause == TransportError::EndOfStream,
        },
{
    let mut reader = FrameReader::new();
    let mut at: usize = 0;
    while at < stream.len()
        invariant
            at <= stream.len(),
            reader@ == stream@.take(at as int),
            forall|before: int| 0 <= before < at ==> stream@[before] != SENTINEL,
        decreases stream.len() - at,
    {
        match reader.feed(ReadEvent::Byte(stream[at])) {
            ReadProgress::Pending(next) => {
                assert(stream@.take(at as int).push(stream@[at as int]) =~= stream@.take(at + 1));
                reader = next;
            },
            ReadProgress::Complete(payload) => {
                proof {
                    lemma_framed_payload_at(stream@, at as int);
                }
                return Ok(payload);
            },
            ReadProgress::Failed(cause) => {
                return Err(cause);
            },
        }
        at += 1;
    }
    proof {
        assert(!stream@.contains(SENTINEL));
        lemma_framed_payload_none(stream@);
    }
    Err(TransportError::EndOfStream)
}

} // verus!
