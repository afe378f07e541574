//! The decisions the socket end takes: frame reassembly judged at header time, the coalesced
//! write buffer with its high-water mark, which messages may arrive at which end, and the
//! handshake's judgements. The sockets themselves, the clock and the words of a refusal belong
//! to the code that drives these.

use vstd::prelude::*;
use crate::codec::{
    DecodeError, EncodeError, Message, check_length, decode, decode_frame_header, decode_refusal,
    encode, encode_refusal, length_refusal, message_type_of, payload_rule, rule_of,
};
use crate::layout::{MessageV, frame_header_bytes, frame_of, frame_payload, message_type};
use crate::protocol::{FRAME_HEADER_BYTES, HELLO_BYTES, Hello, MAGIC, MessageType, PROTOCOL_VERSION, Role, WELCOME_BYTES, Welcome};

verus! {

broadcast use vstd::array::group_array_axioms;

/// `std::io::ErrorKind`, carried through as the operating system's answer.
#[verifier::external_type_specification]
#[verifier::external_body]
pub struct ExErrorKind(std::io::ErrorKind);

/// Why the transport gave up. Refusals carry words because a refusal that cannot be diagnosed
/// gets worked around instead of fixed.
#[derive(Debug)]
pub enum TransportError {
    /// The operating system's answer.
    Io(std::io::ErrorKind),
    /// The peer sent something the contract refuses.
    Frame(DecodeError),
    /// The far end said no during the handshake, in words.
    Refused { reason: String },
    /// The handshake bytes were not the handshake; the words name the expectation violated.
    Garbled(&'static str),
    /// The other end went away, orderly or otherwise.
    PeerClosed,
    /// The handshake's timeout elapsed.
    HandshakeTimedOut,
    /// An ACTIONS or REZ frame arrived on a spectator-role connection.
    ActionsFromSpectator,
    /// A message arrived at the end that only sends it; the name says which.
    WrongWay(&'static str),
    /// The peer left more than [`WRITE_BUFFER_LIMIT_BYTES`] unread.
    WriteBufferOverflow,
}

/// The most bytes the outgoing buffer may leave unread before the connection is declared
/// dead rather than the buffer grown.
pub const WRITE_BUFFER_LIMIT_BYTES: usize = 1048576;

/// What one write to a byte sink answered.
pub enum WriteOutcome {
    /// This many bytes, from the front of what was offered, were taken.
    Wrote(usize),
    /// The sink takes nothing more for now.
    WouldBlock,
    /// The sink failed.
    Failed(std::io::ErrorKind),
}

/// What one read from a byte source answered.
pub enum ReadOutcome {
    /// These bytes arrived; none means the source is at its end.
    Read(Vec<u8>),
    /// Nothing to read for now.
    WouldBlock,
    /// The source failed.
    Failed(std::io::ErrorKind),
}

/// Where the write buffer's bytes go: a socket, a file. An interrupted write is retried by the
/// sink itself, as `std::io::Write::write_all` does.
///
/// A sink may model what it has taken: one that does promises that every write appends exactly
/// the bytes it says it took. A sink that does not model itself promises only the count. A sink
/// may also promise to take everything it is offered, every time.
pub trait Sink {
    /// Whether this sink takes everything offered, at every write.
    open spec fn takes_everything(&self) -> bool {
        false
    }

    /// Whether this sink models the bytes it has taken.
    open spec fn models_intake(&self) -> bool {
        false
    }

    /// The bytes this sink has taken, in order, where it models them.
    open spec fn intake(&self) -> Seq<u8> {
        Seq::empty()
    }

    /// Offers `bytes`; takes a prefix of them, at most all of them, as `std::io::Write::write`
    /// promises.
    fn write_some(&mut self, bytes: &[u8]) -> (outcome: WriteOutcome)
        ensures
            outcome matches WriteOutcome::Wrote(n) ==> n <= bytes@.len(),
            old(self).takes_everything() ==> {
                &&& final(self).takes_everything()
                &&& outcome matches WriteOutcome::Wrote(n) && n == bytes@.len()
            },
            old(self).models_intake() ==> {
                &&& final(self).models_intake()
                &&& match outcome {
                    WriteOutcome::Wrote(n) => final(self).intake() == old(self).intake() + bytes@.take(n as int),
                    _ => final(self).intake() == old(self).intake(),
                }
            },
    ;
}

/// Where frames are read from: a socket, a file. An interrupted read is retried by the source
/// itself.
///
/// A source may model the bytes it will yet deliver: one that does promises that every read
/// hands out the front of them, and that a read of nothing, when something was asked for,
/// means there is nothing left. A source that does not model itself promises only the count. A
/// source may also promise to answer "would block" only when it has nothing left to deliver,
/// and never to fail.
pub trait Source {
    /// Whether this source answers "would block" only when it has nothing left to deliver.
    open spec fn waits_only_when_drained(&self) -> bool {
        false
    }

    /// Whether this source never answers with a failure.
    open spec fn never_fails(&self) -> bool {
        false
    }

    /// Whether this source models the bytes it will yet deliver.
    open spec fn models_stream(&self) -> bool {
        false
    }

    /// The bytes this source will yet deliver, in order, where it models them.
    open spec fn stream(&self) -> Seq<u8> {
        Seq::empty()
    }

    /// Reads at most `max` bytes, as `std::io::Read::read` promises.
    fn read_some(&mut self, max: usize) -> (outcome: ReadOutcome)
        ensures
            outcome matches ReadOutcome::Read(bytes) ==> bytes@.len() <= max,
            old(self).waits_only_when_drained() ==> {
                &&& final(self).waits_only_when_drained()
                &&& outcome is WouldBlock ==> old(self).stream().len() == 0
            },
            old(self).never_fails() ==> final(self).never_fails() && !(outcome is Failed),
            old(self).models_stream() ==> {
                &&& final(self).models_stream()
                &&& match outcome {
                    ReadOutcome::Read(bytes) => {
                        &&& old(self).stream() == bytes@ + final(self).stream()
                        &&& (bytes@.len() == 0 && max > 0 ==> old(self).stream().len() == 0)
                    },
                    _ => final(self).stream() == old(self).stream(),
                }
            },
    ;
}

/// A byte vector takes everything offered.
impl Sink for Vec<u8> {
    open spec fn takes_everything(&self) -> bool {
        true
    }

    open spec fn models_intake(&self) -> bool {
        true
    }

    open spec fn intake(&self) -> Seq<u8> {
        self@
    }

    fn write_some(&mut self, bytes: &[u8]) -> (outcome: WriteOutcome)
        ensures
            outcome == WriteOutcome::Wrote(bytes@.len() as usize),
            final(self)@ == old(self)@ + bytes@,
    {
        let mut i: usize = 0;
        while i < bytes.len()
            invariant
                0 <= i <= bytes@.len(),
                self@ == old(self)@ + bytes@.subrange(0, i as int),
            decreases bytes@.len() - i,
        {
            self.push(bytes[i]);
            i = i + 1;
            assert(self@ =~= old(self)@ + bytes@.subrange(0, i as int));
        }
        assert(bytes@.subrange(0, bytes@.len() as int) =~= bytes@);
        assert(bytes@.take(bytes@.len() as int) =~= bytes@);
        WriteOutcome::Wrote(bytes.len())
    }
}

/// What a flush does with one answer of its sink, `left` bytes still unwritten when they were
/// offered: `None`, carry on past the bytes taken; else the flush's own answer. A write that took
/// nothing means the peer is gone; a sink that would block leaves the rest for the next flush,
/// unless more than [`WRITE_BUFFER_LIMIT_BYTES`] would be left unread; a failure is the sink's.
pub open spec fn write_answer(outcome: WriteOutcome, left: int) -> Option<Result<bool, TransportError>> {
    match outcome {
        WriteOutcome::Wrote(n) => if n == 0 {
            Some(Err(TransportError::PeerClosed))
        } else {
            None
        },
        WriteOutcome::WouldBlock => if left > WRITE_BUFFER_LIMIT_BYTES {
            Some(Err(TransportError::WriteBufferOverflow))
        } else {
            Some(Ok(false))
        },
        WriteOutcome::Failed(kind) => Some(Err(TransportError::Io(kind))),
    }
}

/// What a flush does with one answer of its sink, `left` bytes still unwritten when they were
/// offered.
pub fn answer_to_write(outcome: &WriteOutcome, left: usize) -> (step: Option<Result<bool, TransportError>>)
    ensures
        step == write_answer(*outcome, left as int),
{
    match outcome {
        WriteOutcome::Wrote(n) => if *n == 0 {
            Some(Err(TransportError::PeerClosed))
        } else {
            None
        },
        WriteOutcome::WouldBlock => if left > WRITE_BUFFER_LIMIT_BYTES {
            Some(Err(TransportError::WriteBufferOverflow))
        } else {
            Some(Ok(false))
        },
        WriteOutcome::Failed(kind) => Some(Err(TransportError::Io(*kind))),
    }
}

/// The coalesced outgoing buffer: everything queued since the last flush leaves in as few
/// writes as the sink allows, and a partial write's remainder is carried, never dropped.
pub struct WriteBuffer {
    pending: Vec<u8>,
    written: usize,
}

impl WriteBuffer {
    /// The invariant every operation keeps.
    pub closed spec fn wf(&self) -> bool {
        self.written <= self.pending@.len()
    }

    /// The bytes queued and not yet taken by a sink, in order.
    pub closed spec fn unwritten(&self) -> Seq<u8> {
        self.pending@.subrange(self.written as int, self.pending@.len() as int)
    }

    /// An empty buffer.
    pub fn new() -> (buffer: WriteBuffer)
        ensures
            buffer.wf(),
            buffer.unwritten() == Seq::<u8>::empty(),
    {
        let buffer = WriteBuffer { pending: Vec::new(), written: 0 };
        assert(buffer.unwritten() =~= Seq::<u8>::empty());
        buffer
    }

    /// A buffer holding `pending`, none of it written yet.
    pub fn from_pending(pending: Vec<u8>) -> (buffer: WriteBuffer)
        ensures
            buffer.wf(),
            buffer.unwritten() == pending@,
    {
        let buffer = WriteBuffer { pending, written: 0 };
        assert(buffer.unwritten() =~= pending@);
        buffer
    }

    /// Stages a message for the next flush, refusing exactly what the codec refuses.
    pub fn queue(&mut self, message: &Message) -> (result: Result<(), EncodeError>)
        requires
            old(self).wf(),
        ensures
            final(self).wf(),
            match result {
                Ok(()) => encode_refusal(message@).is_none() && final(self).unwritten() == old(
                    self,
                ).unwritten() + frame_of(message@),
                Err(e) => encode_refusal(message@) == Some(e) && final(self).unwritten() == old(
                    self,
                ).unwritten(),
            },
    {
        let result = encode(message, &mut self.pending);
        proof {
            let old_pending = old(self).pending@;
            let w = self.written as int;
            if result is Ok {
                assert(self.pending@.subrange(w, self.pending@.len() as int) =~= old_pending.subrange(
                    w,
                    old_pending.len() as int,
                ) + frame_of(message@));
            } else {
                assert(self.pending@.subrange(w, self.pending@.len() as int) =~= old_pending.subrange(
                    w,
                    old_pending.len() as int,
                ));
            }
        }
        result
    }

    /// Bytes staged and not yet written.
    pub fn pending_bytes(&self) -> (count: usize)
        requires
            self.wf(),
        ensures
            count == self.unwritten().len(),
    {
        self.pending.len() - self.written
    }

    /// Pushes pending bytes into `sink`. `Ok(true)`: everything left. `Ok(false)`: the sink
    /// stopped taking and the remainder is carried for the next flush. The high-water mark is
    /// judged on what the sink left unread, after it took what it would.
    pub fn flush_into<S: Sink>(&mut self, sink: &mut S) -> (result: Result<bool, TransportError>)
        requires
            old(self).wf(),
        ensures
            final(self).wf(),
            match result {
                Ok(true) => final(self).unwritten() == Seq::<u8>::empty(),
                Ok(false) => 0 < final(self).unwritten().len() <= WRITE_BUFFER_LIMIT_BYTES,
                Err(TransportError::WriteBufferOverflow) => final(self).unwritten().len()
                    > WRITE_BUFFER_LIMIT_BYTES,
                Err(TransportError::PeerClosed) => final(self).unwritten().len() > 0,
                Err(TransportError::Io(_)) => final(self).unwritten().len() > 0,
                Err(_) => false,
            },
            result matches Ok(true) || old(self).unwritten().len() >= final(self).unwritten().len()
                && final(self).unwritten() == old(self).unwritten().subrange(
                old(self).unwritten().len() - final(self).unwritten().len(),
                old(self).unwritten().len() as int,
            ),
            old(self).unwritten().len() == 0 ==> result matches Ok(true),
            old(sink).takes_everything() ==> (result matches Ok(true)) && final(sink).takes_everything(),
            old(sink).models_intake() ==> {
                &&& final(sink).models_intake()
                &&& final(sink).intake() == old(sink).intake() + old(self).unwritten().take(
                    old(self).unwritten().len() - final(self).unwritten().len(),
                )
            },
    {
        let ghost start = self.written;
        while self.written < self.pending.len()
            invariant
                self.wf(),
                self.pending@ == old(self).pending@,
                old(self).written <= self.written,
                old(sink).takes_everything() ==> sink.takes_everything(),
                old(sink).models_intake() ==> {
                    &&& sink.models_intake()
                    &&& sink.intake() == old(sink).intake() + old(self).pending@.subrange(
                        old(self).written as int,
                        self.written as int,
                    )
                },
            decreases self.pending@.len() - self.written,
        {
            let rest = vstd::slice::slice_subrange(self.pending.as_slice(), self.written, self.pending.len());
            let ghost at = self.written;
            let ghost intake_before = sink.intake();
            assert(rest@ =~= self.pending@.subrange(at as int, self.pending@.len() as int));
            let outcome = sink.write_some(rest);
            match answer_to_write(&outcome, self.pending.len() - self.written) {
                Some(answer) => {
                    proof {
                        self.lemma_unwritten_suffix(old(self).written);
                        self.lemma_taken(old(self).pending@, old(self).written);
                        assert(rest@.take(0) =~= Seq::<u8>::empty());
                    }
                    return answer;
                },
                None => {},
            }
            if let WriteOutcome::Wrote(wrote) = outcome {
                self.written = self.written + wrote;
                assert(rest@.take(wrote as int) =~= old(self).pending@.subrange(at as int, self.written as int));
                assert(old(self).pending@.subrange(old(self).written as int, at as int) + old(self).pending@.subrange(at as int, self.written as int)
                    =~= old(self).pending@.subrange(old(self).written as int, self.written as int));
            }
        }
        proof {
            self.lemma_taken(old(self).pending@, old(self).written);
        }
        self.pending.clear();
        self.written = 0;
        assert(self.unwritten() =~= Seq::<u8>::empty());
        Ok(true)
    }

    proof fn lemma_taken(&self, pending: Seq<u8>, earlier: usize)
        requires
            self.wf(),
            self.pending@ == pending,
            earlier <= self.written,
        ensures
            ({
                let before = pending.subrange(earlier as int, pending.len() as int);
                before.take(before.len() - self.unwritten().len()) == pending.subrange(
                    earlier as int,
                    self.written as int,
                )
            }),
    {
        let before = pending.subrange(earlier as int, pending.len() as int);
        assert(before.take(before.len() - self.unwritten().len()) =~= pending.subrange(
            earlier as int,
            self.written as int,
        ));
    }

    proof fn lemma_unwritten_suffix(&self, earlier: usize)
        requires
            self.wf(),
            earlier <= self.written,
        ensures
            ({
                let before = self.pending@.subrange(earlier as int, self.pending@.len() as int);
                &&& before.len() >= self.unwritten().len()
                &&& self.unwritten() == before.subrange(before.len() - self.unwritten().len(), before.len() as int)
            }),
    {
        let before = self.pending@.subrange(earlier as int, self.pending@.len() as int);
        assert(self.unwritten() =~= before.subrange(before.len() - self.unwritten().len(), before.len() as int));
    }
}


/// The refusal three header bytes earn, judged before any payload byte is read: a type no end
/// speaks, or a length its type's rule does not allow.
pub open spec fn header_refusal(header: Seq<u8>) -> Option<DecodeError> {
    match rule_of(header[2]) {
        Err(e) => Some(e),
        Ok(rule) => length_refusal(rule, header_length(header) as usize),
    }
}

/// The payload length three header bytes declare.
pub open spec fn header_length(header: Seq<u8>) -> int {
    header[0] + 256 * header[1]
}

/// A type byte and payload that the header-time judgement lets through.
pub open spec fn frame_admitted(type_byte: u8, payload: Seq<u8>) -> bool {
    &&& rule_of(type_byte) is Ok
    &&& length_refusal(rule_of(type_byte)->Ok_0, payload.len() as usize).is_none()
}

/// What the bytes `whole`, read from the start of a frame, decide on their own: the refusal of
/// a whole header, exactly when `whole` is that header; the type byte and payload of a whole
/// admitted frame, exactly when `whole` is that frame; else nothing yet.
pub open spec fn frame_decision(whole: Seq<u8>) -> Option<Result<(u8, Seq<u8>), DecodeError>> {
    if whole.len() < FRAME_HEADER_BYTES {
        None
    } else {
        match header_refusal(whole) {
            Some(e) => if whole.len() == FRAME_HEADER_BYTES {
                Some(Err(e))
            } else {
                None
            },
            None => if whole.len() == FRAME_HEADER_BYTES + header_length(whole) {
                Some(Ok((whole[2], whole.skip(FRAME_HEADER_BYTES as int))))
            } else {
                None
            },
        }
    }
}

/// Whether no run of bytes from the start of `held`, up to all of it, decides anything on its
/// own: what a reader waiting for more holds.
pub open spec fn undecided(held: Seq<u8>) -> bool {
    forall|k: int| 0 <= k <= held.len() ==> #[trigger] frame_decision(held.take(k)) is None
}

/// Incremental frame reassembly with the header judged before the payload is read. It never
/// asks its source for more than the frame it is assembling still lacks, so one frame's bytes
/// never smear into the next.
pub struct FrameReader {
    /// The frame assembled so far, header first.
    buffer: Vec<u8>,
    /// The whole frame's size once its header has been judged; `None` while the header is short.
    expecting: Option<usize>,
}

impl FrameReader {
    /// The invariant every operation keeps.
    pub closed spec fn wf(&self) -> bool {
        match self.expecting {
            None => self.buffer@.len() <= FRAME_HEADER_BYTES,
            Some(total) => {
                &&& FRAME_HEADER_BYTES <= self.buffer@.len() <= total
                &&& total == FRAME_HEADER_BYTES + header_length(self.buffer@)
                &&& header_refusal(self.buffer@).is_none()
            },
        }
    }

    /// The bytes of the frame being assembled, received and not yet handed over.
    pub closed spec fn held(&self) -> Seq<u8> {
        self.buffer@
    }

    /// Whether the frame being assembled has had its header judged and admitted.
    pub closed spec fn judged(&self) -> bool {
        self.expecting is Some
    }

    /// A reader waiting for its first header.
    pub fn new() -> (reader: FrameReader)
        ensures
            reader.wf(),
            reader.held() == Seq::<u8>::empty(),
            !reader.judged(),
    {
        FrameReader { buffer: Vec::new(), expecting: None }
    }

    /// What the reader decides from what it already holds, before any read: the refusal of a
    /// whole header it holds, or the type byte and payload of a whole admitted frame it holds;
    /// `None` while it lacks bytes.
    pub closed spec fn decided(&self) -> Option<Result<(u8, Seq<u8>), DecodeError>> {
        let h = self.buffer@;
        match self.expecting {
            Some(total) => if h.len() == total {
                Some(Ok((h[2], h.subrange(FRAME_HEADER_BYTES as int, total as int))))
            } else {
                None
            },
            None => if h.len() < FRAME_HEADER_BYTES {
                None
            } else {
                match header_refusal(h) {
                    Some(e) => Some(Err(e)),
                    None => if header_length(h) == 0 {
                        Some(Ok((h[2], Seq::<u8>::empty())))
                    } else {
                        None
                    },
                }
            },
        }
    }

    proof fn lemma_decided_is_frame_decision(&self)
        requires
            self.wf(),
        ensures
            self.decided() == frame_decision(self.held()),
    {
        let h = self.buffer@;
        if self.expecting is Some && h.len() == self.expecting->Some_0 {
            assert(h.subrange(FRAME_HEADER_BYTES as int, h.len() as int) =~= h.skip(FRAME_HEADER_BYTES as int));
        }
        if self.expecting is None && h.len() == FRAME_HEADER_BYTES && header_refusal(h) is None
            && header_length(h) == 0 {
            assert(h.skip(FRAME_HEADER_BYTES as int) =~= Seq::<u8>::empty());
        }
    }

    proof fn lemma_undecided(&self)
        requires
            self.wf(),
            self.decided().is_none(),
        ensures
            undecided(self.held()),
    {
        self.lemma_decided_is_frame_decision();
        let h = self.buffer@;
        assert forall|k: int| 0 <= k <= h.len() implies #[trigger] frame_decision(h.take(k)) is None by {
            let p = h.take(k);
            if k == h.len() {
                assert(p =~= h);
            } else if k >= FRAME_HEADER_BYTES {
                assert(p[0] == h[0] && p[1] == h[1] && p[2] == h[2]);
                assert(header_refusal(p) == header_refusal(h));
                assert(header_length(p) == header_length(h));
            }
        }
    }

    spec fn measure(&self) -> int {
        match self.expecting {
            None => 100000 + FRAME_HEADER_BYTES - self.buffer@.len(),
            Some(total) => total - self.buffer@.len(),
        }
    }

    /// Pumps bytes from `source` towards one whole frame. `Ok(None)`: the source had no more
    /// to give, and what arrived is kept for the next call. `Ok(Some(..))`: a complete frame's
    /// type byte and payload, its header admitted, and the reader reset for the next.
    pub fn pump<S: Source>(&mut self, source: &mut S) -> (result: Result<Option<(u8, Vec<u8>)>, TransportError>)
        requires
            old(self).wf(),
        ensures
            final(self).wf(),
            match result {
                Ok(Some((type_byte, payload))) => {
                    &&& frame_admitted(type_byte, payload@)
                    &&& frame_decision(frame_header_bytes(payload@.len() as int, type_byte) + payload@)
                        == Some(Ok::<(u8, Seq<u8>), DecodeError>((type_byte, payload@)))
                    &&& old(self).held().is_prefix_of(
                        frame_header_bytes(payload@.len() as int, type_byte) + payload@,
                    )
                    &&& final(self).held() == Seq::<u8>::empty()
                    &&& !final(self).judged()
                },
                Ok(None) => {
                    &&& old(self).held().is_prefix_of(final(self).held())
                    &&& old(self).judged() ==> final(self).judged()
                    &&& final(self).decided().is_none()
                    &&& frame_decision(final(self).held()).is_none()
                    &&& undecided(final(self).held())
                },
                Err(TransportError::Frame(e)) => {
                    &&& old(self).held().is_prefix_of(final(self).held())
                    &&& final(self).held().len() == FRAME_HEADER_BYTES
                    &&& header_refusal(final(self).held()) == Some(e)
                    &&& !final(self).judged()
                    &&& final(self).decided() == Some(Err::<(u8, Seq<u8>), DecodeError>(e))
                },
                Err(TransportError::PeerClosed) => final(self).decided().is_none() && undecided(final(self).held()),
                Err(TransportError::Io(_)) => final(self).decided().is_none(),
                Err(_) => false,
            },
            old(self).decided() matches Some(Err(e)) ==> result == Err::<Option<(u8, Vec<u8>)>, TransportError>(
                TransportError::Frame(e),
            ) && final(self).held() == old(self).held(),
            old(self).decided() matches Some(Ok((t, p))) ==> (result matches Ok(Some((t2, p2))) && t2 == t
                && p2@ == p),
            old(source).models_stream() ==> {
                &&& final(source).models_stream()
                &&& match result {
                    Ok(Some((t, p))) => old(source).stream() == (frame_header_bytes(p@.len() as int, t)
                        + p@).skip(old(self).held().len() as int) + final(source).stream(),
                    _ => old(source).stream() == final(self).held().skip(old(self).held().len() as int)
                        + final(source).stream(),
                }
                &&& result matches Err(TransportError::PeerClosed) ==> final(source).stream().len() == 0
                &&& old(source).waits_only_when_drained() ==> (result matches Ok(None)
                    ==> final(source).stream().len() == 0)
            },
            old(source).waits_only_when_drained() ==> final(source).waits_only_when_drained(),
            old(source).never_fails() ==> final(source).never_fails() && !(result matches Err(TransportError::Io(_))),
    {
        let ghost start = self.buffer@;
        loop
            invariant
                self.wf(),
                old(source).models_stream() ==> {
                    &&& source.models_stream()
                    &&& old(source).stream() == self.buffer@.skip(start.len() as int) + source.stream()
                },
                start == old(self).buffer@,
                start.is_prefix_of(self.buffer@),
                old(self).judged() ==> self.judged(),
                old(self).decided() is Some ==> self.buffer@ == start && self.decided()
                    == old(self).decided(),
                old(source).waits_only_when_drained() ==> source.waits_only_when_drained(),
                old(source).never_fails() ==> source.never_fails(),
            decreases self.measure(),
        {
            let ghost before = self.buffer@;
            match self.settle() {
                Some(Ok(frame)) => {
                    return Ok(Some(frame));
                },
                Some(Err(e)) => {
                    return Err(TransportError::Frame(e));
                },
                None => {},
            }
            let want = self.lacking();
            let outcome = source.read_some(want);
            let ghost answered = outcome;
            match self.answer_to_read(outcome) {
                Some(answer) => {
                    proof {
                        match answered {
                            ReadOutcome::Read(bytes) => {
                                assert(bytes@ + source.stream() =~= source.stream());
                            },
                            _ => {},
                        }
                        self.lemma_undecided();
                    }
                    return answer;
                },
                None => {
                    proof {
                        match answered {
                            ReadOutcome::Read(bytes) => {
                                let arrived = bytes@;
                                assert((before + arrived).skip(start.len() as int) =~= before.skip(start.len() as int) + arrived);
                                assert forall|q: int| 0 <= q < start.len() implies start[q] == self.buffer@[q] by {
                                    assert(self.buffer@[q] == before[q]);
                                }
                            },
                            _ => {},
                        }
                    }
                },
            }
        }
    }

    /// What the reader does with one answer of its source, asked for no more than the frame
    /// lacks: bytes that arrived are taken in and the frame assembled further (`None`); a read
    /// of nothing means the peer closed; a source that would block leaves the reader waiting with
    /// what it holds; a failure is the source's.
    pub fn answer_to_read(&mut self, outcome: ReadOutcome) -> (step: Option<Result<Option<(u8, Vec<u8>)>, TransportError>>)
        requires
            old(self).wf(),
            outcome matches ReadOutcome::Read(bytes) ==> old(self).held().len() + bytes@.len() <= old(self).target(),
        ensures
            final(self).wf(),
            match outcome {
                ReadOutcome::Read(bytes) => if bytes@.len() == 0 {
                    &&& step == Some(Err::<Option<(u8, Vec<u8>)>, TransportError>(TransportError::PeerClosed))
                    &&& *final(self) == *old(self)
                } else {
                    &&& step is None
                    &&& final(self).held() == old(self).held() + bytes@
                    &&& final(self).judged() == old(self).judged()
                    &&& final(self).target() == old(self).target()
                },
                ReadOutcome::WouldBlock => {
                    &&& step == Some(Ok::<Option<(u8, Vec<u8>)>, TransportError>(None))
                    &&& *final(self) == *old(self)
                },
                ReadOutcome::Failed(kind) => {
                    &&& step == Some(Err::<Option<(u8, Vec<u8>)>, TransportError>(TransportError::Io(kind)))
                    &&& *final(self) == *old(self)
                },
            },
    {
        match outcome {
            ReadOutcome::Read(bytes) => {
                if bytes.len() == 0 {
                    return Some(Err(TransportError::PeerClosed));
                }
                self.receive(bytes);
                None
            },
            ReadOutcome::WouldBlock => Some(Ok(None)),
            ReadOutcome::Failed(kind) => Some(Err(TransportError::Io(kind))),
        }
    }

    /// How many bytes the frame being assembled still lacks: of its header while the header is
    /// short, of the whole frame once the header is admitted.
    pub fn lacking(&self) -> (lack: usize)
        requires
            self.wf(),
        ensures
            lack == self.target() - self.held().len(),
    {
        match self.expecting {
            Some(total) => total - self.buffer.len(),
            None => FRAME_HEADER_BYTES - self.buffer.len(),
        }
    }

    /// The size the reader is filling towards: the header until it is admitted, then the whole
    /// frame.
    pub closed spec fn target(&self) -> int {
        match self.expecting {
            Some(total) => total as int,
            None => FRAME_HEADER_BYTES as int,
        }
    }

    /// Takes bytes a read handed over, no more than the frame lacks.
    pub fn receive(&mut self, bytes: Vec<u8>)
        requires
            old(self).wf(),
            old(self).held().len() + bytes@.len() <= old(self).target(),
        ensures
            final(self).wf(),
            final(self).held() == old(self).held() + bytes@,
            final(self).judged() == old(self).judged(),
            final(self).target() == old(self).target(),
    {
        let ghost before = self.buffer@;
        let mut bytes = bytes;
        self.buffer.append(&mut bytes);
        proof {
            if self.expecting is Some {
                assert(self.buffer@[0] == before[0]);
                assert(self.buffer@[1] == before[1]);
                assert(self.buffer@[2] == before[2]);
            }
        }
    }

    /// Acts on what the reader holds, without reading: judges a whole header, then hands over a
    /// whole admitted frame and resets for the next. `None`: the frame still lacks bytes.
    pub fn settle(&mut self) -> (settled: Option<Result<(u8, Vec<u8>), DecodeError>>)
        requires
            old(self).wf(),
        ensures
            final(self).wf(),
            match settled {
                Some(Ok((t, p))) => {
                    &&& old(self).decided() == Some(Ok::<(u8, Seq<u8>), DecodeError>((t, p@)))
                    &&& frame_decision(frame_header_bytes(p@.len() as int, t) + p@) == Some(
                        Ok::<(u8, Seq<u8>), DecodeError>((t, p@)),
                    )
                    &&& frame_admitted(t, p@)
                    &&& old(self).held() == frame_header_bytes(p@.len() as int, t) + p@
                    &&& final(self).held() == Seq::<u8>::empty()
                    &&& !final(self).judged()
                },
                Some(Err(e)) => {
                    &&& old(self).decided() == Some(Err::<(u8, Seq<u8>), DecodeError>(e))
                    &&& final(self).held() == old(self).held()
                    &&& final(self).decided() == old(self).decided()
                    &&& !final(self).judged()
                },
                None => {
                    &&& old(self).decided().is_none()
                    &&& final(self).held() == old(self).held()
                    &&& final(self).decided().is_none()
                    &&& final(self).held().len() < final(self).target()
                    &&& old(self).judged() ==> final(self).judged()
                },
            },
    {
        proof {
            self.lemma_decided_is_frame_decision();
        }
        if self.expecting.is_none() && self.buffer.len() == FRAME_HEADER_BYTES {
            let (length, type_byte) = decode_frame_header([self.buffer[0], self.buffer[1], self.buffer[2]]);
            let rule = match payload_rule(type_byte) {
                Ok(rule) => rule,
                Err(e) => return Some(Err(e)),
            };
            match check_length(rule, length as usize) {
                Ok(()) => {},
                Err(e) => return Some(Err(e)),
            }
            self.expecting = Some(FRAME_HEADER_BYTES + length as usize);
        }
        match self.expecting {
            Some(total) => {
                if self.buffer.len() == total {
                    let type_byte = self.buffer[2];
                    let ghost whole = self.buffer@;
                    let payload = self.buffer.split_off(FRAME_HEADER_BYTES);
                    proof {
                        assert(payload@ =~= whole.subrange(3, total as int));
                        assert(whole =~= frame_header_bytes(payload@.len() as int, type_byte) + payload@);
                        assert(header_refusal(whole).is_none());
                        assert(header_length(whole) == payload@.len());
                        assert(whole[2] == type_byte);
                        assert(frame_admitted(type_byte, payload@));
                        if old(self).expecting is None {
                            assert(payload@ =~= Seq::<u8>::empty());
                        }
                    }
                    self.buffer = Vec::new();
                    self.expecting = None;
                    return Some(Ok((type_byte, payload)));
                }
                None
            },
            None => None,
        }
    }
}


/// The least of three numbers.
pub open spec fn min3(a: int, b: int, c: int) -> int {
    let ab = if a < b { a } else { b };
    if ab < c { ab } else { c }
}

/// A byte source over bytes already in memory, handing out at most `chunk` of them per read:
/// a recording read back whole, or a peer that dribbles.
pub struct ByteSource {
    data: Vec<u8>,
    at: usize,
    chunk: usize,
}

impl ByteSource {
    #[verifier::type_invariant]
    spec fn inv(&self) -> bool {
        &&& self.at <= self.data@.len()
        &&& self.chunk > 0
    }

    /// The most bytes one read hands out.
    pub closed spec fn chunk_spec(&self) -> usize {
        self.chunk
    }

    /// The bytes not yet read, in order.
    pub closed spec fn remaining(&self) -> Seq<u8> {
        self.data@.subrange(self.at as int, self.data@.len() as int)
    }

    /// A source of `data` that hands out at most `chunk` bytes per read; a chunk of zero is
    /// taken as one.
    pub fn new(data: Vec<u8>, chunk: usize) -> (source: ByteSource)
        ensures
            source.remaining() == data@,
            source.chunk_spec() == if chunk == 0 { 1 } else { chunk },
    {
        let chunk = if chunk == 0 { 1 } else { chunk };
        let source = ByteSource { data, at: 0, chunk };
        assert(source.remaining() =~= source.data@);
        source
    }
}

impl Source for ByteSource {
    open spec fn waits_only_when_drained(&self) -> bool {
        true
    }

    open spec fn never_fails(&self) -> bool {
        true
    }

    open spec fn models_stream(&self) -> bool {
        true
    }

    closed spec fn stream(&self) -> Seq<u8> {
        self.remaining()
    }

    /// The next bytes, as many as asked, as the chunk allows and as remain; none at the end.
    fn read_some(&mut self, max: usize) -> (outcome: ReadOutcome)
        ensures
            ({
                let n = min3(old(self).remaining().len() as int, max as int, old(self).chunk_spec() as int);
                &&& outcome matches ReadOutcome::Read(bytes) && bytes@ == old(self).remaining().take(n)
                &&& final(self).remaining() == old(self).remaining().skip(n)
                &&& final(self).chunk_spec() == old(self).chunk_spec()
            }),
    {
        proof {
            use_type_invariant(&*self);
        }
        if self.at >= self.data.len() {
            assert(self.remaining() =~= Seq::<u8>::empty());
            assert(self.remaining().skip(0) =~= self.remaining());
            return ReadOutcome::Read(Vec::new());
        }
        let mut take = self.data.len() - self.at;
        if take > max {
            take = max;
        }
        if take > self.chunk {
            take = self.chunk;
        }
        let start = self.at;
        let mut bytes: Vec<u8> = Vec::new();
        let mut i: usize = 0;
        while i < take
            invariant
                i <= take,
                start + take <= self.data.len(),
                bytes@ == self.data@.subrange(start as int, start + i),
            decreases take - i,
        {
            bytes.push(self.data[start + i]);
            i = i + 1;
            assert(bytes@ =~= self.data@.subrange(start as int, start + i));
        }
        self.at = self.at + take;
        proof {
            let r = old(self).remaining();
            assert(bytes@ =~= r.take(take as int));
            assert(self.remaining() =~= r.skip(take as int));
            assert(r =~= bytes@ + self.remaining());
        }
        ReadOutcome::Read(bytes)
    }
}

/// A connection's byte stream in both directions, which can also be hung up on.
pub trait Wire: Source + Sink {
    /// Whether the connection has been hung up on, where the wire models its stream.
    open spec fn hung_up(&self) -> bool {
        false
    }

    /// Ends the connection in both directions, now; best effort. A wire that models its stream
    /// is hung up afterwards and delivers nothing more.
    fn hang_up(&mut self)
        ensures
            old(self).models_stream() ==> {
                &&& final(self).models_stream()
                &&& final(self).hung_up()
                &&& final(self).stream() == Seq::<u8>::empty()
            },
            old(self).waits_only_when_drained() ==> final(self).waits_only_when_drained(),
            old(self).never_fails() ==> final(self).never_fails(),
    ;
}

/// Both directions of a connection held in memory: what the peer said, handed out in chunks,
/// and what this end wrote. A read with nothing left waits, as a quiet socket does; hung up, the
/// wire delivers nothing more.
pub struct MemoryWire {
    incoming: ByteSource,
    outgoing: Vec<u8>,
    hung: bool,
}

impl MemoryWire {
    /// A wire over which the peer has said `bytes`, handed out at most `chunk` at a time.
    pub fn hearing(bytes: Vec<u8>, chunk: usize) -> (wire: MemoryWire)
        ensures
            wire.models_stream(),
            wire.waits_only_when_drained(),
            wire.never_fails(),
            wire.stream() == bytes@,
            wire.models_intake(),
            wire.intake() == Seq::<u8>::empty(),
            !wire.hung_up(),
    {
        MemoryWire { incoming: ByteSource::new(bytes, chunk), outgoing: Vec::new(), hung: false }
    }

    /// What this end wrote, in order.
    pub fn written(&self) -> (bytes: &Vec<u8>)
        ensures
            bytes@ == self.intake(),
    {
        &self.outgoing
    }

    /// Whether this end hung up.
    pub fn is_hung_up(&self) -> (hung: bool)
        ensures
            hung == self.hung_up(),
    {
        self.hung
    }
}

impl Source for MemoryWire {
    open spec fn waits_only_when_drained(&self) -> bool {
        true
    }

    open spec fn never_fails(&self) -> bool {
        true
    }

    open spec fn models_stream(&self) -> bool {
        true
    }

    closed spec fn stream(&self) -> Seq<u8> {
        if self.hung {
            Seq::empty()
        } else {
            self.incoming.remaining()
        }
    }

    fn read_some(&mut self, max: usize) -> (outcome: ReadOutcome) {
        if self.hung {
            return ReadOutcome::Read(Vec::new());
        }
        match self.incoming.read_some(max) {
            ReadOutcome::Read(bytes) => {
                if bytes.len() == 0 && max > 0 {
                    ReadOutcome::WouldBlock
                } else {
                    proof {
                        if bytes@.len() == 0 {
                            assert(self.incoming.remaining() =~= old(self).incoming.remaining());
                        }
                    }
                    ReadOutcome::Read(bytes)
                }
            },
            other => other,
        }
    }
}

impl Sink for MemoryWire {
    open spec fn takes_everything(&self) -> bool {
        true
    }

    open spec fn models_intake(&self) -> bool {
        true
    }

    closed spec fn intake(&self) -> Seq<u8> {
        self.outgoing@
    }

    fn write_some(&mut self, bytes: &[u8]) -> (outcome: WriteOutcome) {
        let mut i: usize = 0;
        let ghost start = self.outgoing@;
        while i < bytes.len()
            invariant
                i <= bytes@.len(),
                self.outgoing@ == start + bytes@.take(i as int),
            decreases bytes@.len() - i,
        {
            self.outgoing.push(bytes[i]);
            i = i + 1;
            assert(self.outgoing@ =~= start + bytes@.take(i as int));
        }
        WriteOutcome::Wrote(bytes.len())
    }
}

impl Wire for MemoryWire {
    closed spec fn hung_up(&self) -> bool {
        self.hung
    }

    fn hang_up(&mut self) {
        self.hung = true;
    }
}

/// The name a message type is logged under.
pub open spec fn message_name(t: MessageType) -> &'static str {
    match t {
        MessageType::Hello => "HELLO",
        MessageType::Welcome => "WELCOME",
        MessageType::Rez => "REZ",
        MessageType::TickState => "TICK_STATE",
        MessageType::Actions => "ACTIONS",
        MessageType::Event => "EVENT",
        MessageType::Derez => "DEREZ",
        MessageType::Ping => "PING",
        MessageType::Pong => "PONG",
        MessageType::Bye => "BYE",
        MessageType::Proprioception => "PROPRIOCEPTION",
        MessageType::Refused => "REFUSED",
    }
}

/// The name a message type is logged under.
pub fn name_of(t: MessageType) -> (name: &'static str)
    ensures
        name == message_name(t),
{
    match t {
        MessageType::Hello => "HELLO",
        MessageType::Welcome => "WELCOME",
        MessageType::Rez => "REZ",
        MessageType::TickState => "TICK_STATE",
        MessageType::Actions => "ACTIONS",
        MessageType::Event => "EVENT",
        MessageType::Derez => "DEREZ",
        MessageType::Ping => "PING",
        MessageType::Pong => "PONG",
        MessageType::Bye => "BYE",
        MessageType::Proprioception => "PROPRIOCEPTION",
        MessageType::Refused => "REFUSED",
    }
}

/// Whether a message of type `t` arriving at this end is one only this end may send: WELCOME,
/// TICK_STATE, EVENT, PROPRIOCEPTION and REFUSED are the server's words, HELLO and ACTIONS the
/// client's.
pub open spec fn arrives_wrong_way(t: MessageType, server_held: bool) -> bool {
    if server_held {
        t == MessageType::Welcome || t == MessageType::TickState || t == MessageType::Event
            || t == MessageType::Proprioception || t == MessageType::Refused
    } else {
        t == MessageType::Hello || t == MessageType::Actions
    }
}

/// Whether a message of type `t` is an intent: ACTIONS or REZ, which a spectator never sends.
pub open spec fn is_intent(t: MessageType) -> bool {
    t == MessageType::Actions || t == MessageType::Rez
}

/// The message type a type byte names; a byte no type has names nothing the codec accepts.
pub open spec fn byte_type(t: u8) -> MessageType {
    if t == 1 {
        MessageType::Hello
    } else if t == 2 {
        MessageType::Welcome
    } else if t == 3 {
        MessageType::Rez
    } else if t == 4 {
        MessageType::TickState
    } else if t == 5 {
        MessageType::Actions
    } else if t == 6 {
        MessageType::Event
    } else if t == 7 {
        MessageType::Derez
    } else if t == 8 {
        MessageType::Ping
    } else if t == 9 {
        MessageType::Pong
    } else if t == 11 {
        MessageType::Proprioception
    } else if t == 12 {
        MessageType::Refused
    } else {
        MessageType::Bye
    }
}

/// The refusal a message of type `t` earns arriving at an end with `rules`: a spectator's
/// intent, then a message only this end may say.
pub open spec fn arrival_refusal(rules: EndRules, t: MessageType) -> Option<TransportError> {
    if rules.forbid_incoming_actions && is_intent(t) {
        Some(TransportError::ActionsFromSpectator)
    } else if arrives_wrong_way(t, rules.server_held) {
        Some(TransportError::WrongWay(message_name(t)))
    } else {
        None
    }
}

/// What a poll answers when its reader had already decided before reading: the refusal of the
/// header it held; or, for the whole frame it held, decode's refusal, then the end's refusal of
/// the message where the end has `rules`, else the message itself.
pub open spec fn answers_decided(
    decided: Option<Result<(u8, Seq<u8>), DecodeError>>,
    rules: Option<EndRules>,
    result: Result<Option<Message>, TransportError>,
) -> bool {
    match decided {
        None => true,
        Some(Err(e)) => result == Err::<Option<Message>, TransportError>(TransportError::Frame(e)),
        Some(Ok((t, p))) => match decode_refusal(t, p) {
            Some(e) => result == Err::<Option<Message>, TransportError>(TransportError::Frame(e)),
            None => match (match rules {
                Some(r) => arrival_refusal(r, byte_type(t)),
                None => None,
            }) {
                Some(e) => result == Err::<Option<Message>, TransportError>(e),
                None => result matches Ok(Some(m)) && message_type(m@) == byte_type(t)
                    && frame_payload(m@) == p,
            },
        },
    }
}

/// Which way each message may flow at one end of a connection, fixed at the handshake.
#[derive(Clone, Copy, PartialEq, Eq, Debug)]
pub struct EndRules {
    /// A server-held end whose peer said spectator: an arriving ACTIONS or REZ ends it.
    pub forbid_incoming_actions: bool,
    /// A client-held end that said spectator: it stages no ACTIONS or REZ.
    pub forbid_outgoing_actions: bool,
    /// The server's end: the one that may send PROPRIOCEPTION and must never receive it.
    pub server_held: bool,
}

impl EndRules {
    /// The rules of the client's end after it sent `hello`.
    pub fn client(hello: &Hello) -> (rules: EndRules)
        ensures
            !rules.forbid_incoming_actions,
            rules.forbid_outgoing_actions == (hello.role == Role::Spectator.to_byte()),
            !rules.server_held,
    {
        EndRules {
            forbid_incoming_actions: false,
            forbid_outgoing_actions: hello.role == Role::Spectator.to_byte(),
            server_held: false,
        }
    }

    /// The rules of the server's end after it accepted `hello`.
    pub fn server(hello: &Hello) -> (rules: EndRules)
        ensures
            rules.forbid_incoming_actions == (hello.role == Role::Spectator.to_byte()),
            !rules.forbid_outgoing_actions,
            rules.server_held,
    {
        EndRules {
            forbid_incoming_actions: hello.role == Role::Spectator.to_byte(),
            forbid_outgoing_actions: false,
            server_held: true,
        }
    }

    /// Whether this end may send PROPRIOCEPTION: only the server's.
    pub fn may_send_proprioception(&self) -> (may: bool)
        ensures
            may == self.server_held,
    {
        self.server_held
    }

    /// False exactly when this end introduced itself as a spectator.
    pub fn may_send_intents(&self) -> (may: bool)
        ensures
            may == !self.forbid_outgoing_actions,
    {
        !self.forbid_outgoing_actions
    }

    /// The judgement on a decoded message arriving at this end: a spectator's intent, or a
    /// message only this end may say, ends the connection.
    pub fn judge_arrival(&self, message: &Message) -> (verdict: Result<(), TransportError>)
        ensures
            ({
                let t = message_type(message@);
                match verdict {
                    Ok(()) => !(self.forbid_incoming_actions && is_intent(t)) && !arrives_wrong_way(
                        t,
                        self.server_held,
                    ),
                    Err(TransportError::ActionsFromSpectator) => self.forbid_incoming_actions
                        && is_intent(t),
                    Err(TransportError::WrongWay(name)) => !(self.forbid_incoming_actions
                        && is_intent(t)) && arrives_wrong_way(t, self.server_held) && name
                        == message_name(t),
                    Err(_) => false,
                }
            }),
            verdict == match arrival_refusal(*self, message_type(message@)) {
                Some(e) => Err::<(), TransportError>(e),
                None => Ok(()),
            },
    {
        let t = message_type_of(message);
        let intent = match t {
            MessageType::Actions => true,
            MessageType::Rez => true,
            _ => false,
        };
        if intent && self.forbid_incoming_actions {
            return Err(TransportError::ActionsFromSpectator);
        }
        let wrong_way = if self.server_held {
            match t {
                MessageType::Welcome => true,
                MessageType::TickState => true,
                MessageType::Event => true,
                MessageType::Proprioception => true,
                MessageType::Refused => true,
                _ => false,
            }
        } else {
            match t {
                MessageType::Hello => true,
                MessageType::Actions => true,
                _ => false,
            }
        };
        if wrong_way {
            return Err(TransportError::WrongWay(name_of(t)));
        }
        Ok(())
    }
}


/// The refusal `result` was earned by the bytes of one frame, or of its header, that begin with
/// what the reader held: the codec's refusal of them, or, where the end has `rules`, this end's
/// rule on their message.
pub open spec fn refusal_earned(
    held: Seq<u8>,
    rules: Option<EndRules>,
    result: Result<Option<Message>, TransportError>,
) -> bool {
    exists|whole: Seq<u8>|
        {
            &&& #[trigger] frame_decision(whole) is Some
            &&& held.is_prefix_of(whole)
            &&& answers_decided(frame_decision(whole), rules, result)
        }
}

/// What one poll of a connection took off a wire that models its stream: the whole frame it
/// handed over, or what the reader kept, or on a refusal the frame or header that earned it,
/// with the wire hung up and delivering nothing more.
pub open spec fn poll_took_from_wire<W: Wire>(
    before: Connection<W>,
    after: Connection<W>,
    result: Result<Option<Message>, TransportError>,
) -> bool {
    before.models_stream() ==> {
        &&& after.models_stream()
        &&& before.waits_only_when_drained() ==> after.waits_only_when_drained()
        &&& before.never_fails() ==> after.never_fails() && !(result matches Err(TransportError::Io(_)))
        &&& match result {
            Ok(Some(m)) => {
                &&& before.stream() == frame_of(m@).skip(before.held().len() as int) + after.stream()
                &&& after.held().len() == 0
            },
            Ok(None) => {
                &&& before.stream() == after.held().skip(before.held().len() as int) + after.stream()
                &&& undecided(after.held())
                &&& before.waits_only_when_drained() ==> after.stream().len() == 0
            },
            Err(TransportError::PeerClosed) => {
                &&& before.stream() == after.held().skip(before.held().len() as int) + after.stream()
                &&& after.stream().len() == 0
                &&& undecided(after.held())
            },
            Err(TransportError::Io(_)) => before.stream() == after.held().skip(
                before.held().len() as int,
            ) + after.stream(),
            Err(_) => {
                &&& after.hung_up()
                &&& after.stream() == Seq::<u8>::empty()
                &&& exists|whole: Seq<u8>|
                    {
                        &&& #[trigger] frame_decision(whole) is Some
                        &&& before.held().is_prefix_of(whole)
                        &&& whole.skip(before.held().len() as int).is_prefix_of(before.stream())
                        &&& answers_decided(frame_decision(whole), Some(before.rules_spec()), result)
                    }
            },
        }
    }
}

/// A framed connection over a wire: the state machine both ends turn once per tick. It reads
/// whole frames, judges each against the codec and the end's rules, and hangs up on anything
/// refused; it stages messages and pushes them out in as few writes as the wire allows.
pub struct Connection<W> {
    wire: W,
    reader: FrameReader,
    writer: WriteBuffer,
    rules: EndRules,
}

impl<W: Wire> Connection<W> {
    /// The invariant every operation keeps.
    pub closed spec fn wf(&self) -> bool {
        self.reader.wf() && self.writer.wf()
    }

    /// The rules this end was framed with.
    pub closed spec fn rules_spec(&self) -> EndRules {
        self.rules
    }

    /// The bytes staged and not yet written.
    pub closed spec fn unwritten(&self) -> Seq<u8> {
        self.writer.unwritten()
    }

    /// The bytes of the frame being read, received and not yet handed over.
    pub closed spec fn held(&self) -> Seq<u8> {
        self.reader.held()
    }

    /// What the connection's reader decides from what it holds, before any read.
    pub closed spec fn decided(&self) -> Option<Result<(u8, Seq<u8>), DecodeError>> {
        self.reader.decided()
    }

    /// Whether the wire models the bytes it will yet deliver.
    pub closed spec fn models_stream(&self) -> bool {
        self.wire.models_stream()
    }

    /// The bytes the wire will yet deliver, where it models them.
    pub closed spec fn stream(&self) -> Seq<u8> {
        self.wire.stream()
    }

    /// Whether the wire has been hung up on, where it models its stream.
    pub closed spec fn hung_up(&self) -> bool {
        self.wire.hung_up()
    }

    /// Whether the wire models the bytes it has taken.
    pub closed spec fn models_intake(&self) -> bool {
        self.wire.models_intake()
    }

    /// Whether the wire takes everything offered, at every write.
    pub closed spec fn takes_everything(&self) -> bool {
        self.wire.takes_everything()
    }

    /// Whether the wire answers "would block" only when it has nothing left to deliver.
    pub closed spec fn waits_only_when_drained(&self) -> bool {
        self.wire.waits_only_when_drained()
    }

    /// Whether the wire never answers a read with a failure.
    pub closed spec fn never_fails(&self) -> bool {
        self.wire.never_fails()
    }

    /// The bytes the wire has taken, where it models them.
    pub closed spec fn intake(&self) -> Seq<u8> {
        self.wire.intake()
    }

    /// A connection over a wire whose handshake is done, with nothing read or staged yet.
    pub fn framed(wire: W, rules: EndRules) -> (connection: Connection<W>)
        ensures
            connection.wf(),
            connection.rules_spec() == rules,
            connection.unwritten() == Seq::<u8>::empty(),
            connection.held() == Seq::<u8>::empty(),
            connection.models_stream() == wire.models_stream(),
            connection.stream() == wire.stream(),
            connection.hung_up() == wire.hung_up(),
            connection.models_intake() == wire.models_intake(),
            connection.intake() == wire.intake(),
            connection.takes_everything() == wire.takes_everything(),
            connection.waits_only_when_drained() == wire.waits_only_when_drained(),
            connection.never_fails() == wire.never_fails(),
    {
        Connection { wire, reader: FrameReader::new(), writer: WriteBuffer::new(), rules }
    }

    /// The rules this end was framed with.
    pub fn rules(&self) -> (rules: EndRules)
        ensures
            rules == self.rules_spec(),
    {
        self.rules
    }

    /// Whether this end may send PROPRIOCEPTION: only a server-held one.
    pub fn may_send_proprioception(&self) -> (may: bool)
        ensures
            may == self.rules_spec().server_held,
    {
        self.rules.may_send_proprioception()
    }

    /// False exactly when this end introduced itself as a spectator.
    pub fn may_send_intents(&self) -> (may: bool)
        ensures
            may == !self.rules_spec().forbid_outgoing_actions,
    {
        self.rules.may_send_intents()
    }

    /// One complete message if the wire holds one, `None` if it does not yet. Any refusal -
    /// an unknown type, an impossible length, a payload the codec rejects, a spectator's
    /// intent, a message only this end may say - ends the connection.
    pub fn poll(&mut self) -> (result: Result<Option<Message>, TransportError>)
        requires
            old(self).wf(),
        ensures
            final(self).wf(),
            final(self).rules_spec() == old(self).rules_spec(),
            final(self).unwritten() == old(self).unwritten(),
            match result {
                Ok(Some(m)) => {
                    let t = message_type(m@);
                    &&& frame_admitted(t.to_byte(), frame_payload(m@))
                    &&& decode_refusal(t.to_byte(), frame_payload(m@)).is_none()
                    &&& encode_refusal(m@).is_none()
                    &&& !(old(self).rules_spec().forbid_incoming_actions && is_intent(t))
                    &&& !arrives_wrong_way(t, old(self).rules_spec().server_held)
                    &&& old(self).held().is_prefix_of(frame_of(m@))
                    &&& final(self).held() == Seq::<u8>::empty()
                },
                Ok(None) => {
                    &&& old(self).held().is_prefix_of(final(self).held())
                    &&& final(self).decided().is_none()
                    &&& undecided(final(self).held())
                },
                Err(TransportError::Frame(_)) => refusal_earned(old(self).held(), Some(old(self).rules_spec()), result),
                Err(TransportError::ActionsFromSpectator) => old(self).rules_spec().forbid_incoming_actions
                    && refusal_earned(old(self).held(), Some(old(self).rules_spec()), result),
                Err(TransportError::WrongWay(_)) => refusal_earned(old(self).held(), Some(old(self).rules_spec()), result),
                Err(TransportError::PeerClosed) => final(self).decided().is_none() && undecided(final(self).held()),
                Err(TransportError::Io(_)) => final(self).decided().is_none(),
                Err(_) => false,
            },
            answers_decided(old(self).decided(), Some(old(self).rules_spec()), result),
            poll_took_from_wire(*old(self), *final(self), result),
            old(self).waits_only_when_drained() ==> final(self).waits_only_when_drained(),
            old(self).never_fails() ==> final(self).never_fails() && !(result matches Err(TransportError::Io(_))),
    {
        let ghost held = self.reader.held();
        let ghost stream = self.wire.stream();
        let ghost modelled = self.wire.models_stream();
        let (type_byte, payload) = match self.reader.pump(&mut self.wire) {
            Ok(None) => return Ok(None),
            Ok(Some(frame)) => frame,
            Err(TransportError::Frame(e)) => {
                let ghost whole = self.reader.held();
                proof {
                    assert(frame_decision(whole) == Some(Err::<(u8, Seq<u8>), DecodeError>(e)));
                    if modelled {
                        let taken = whole.skip(held.len() as int);
                        assert(taken =~= stream.subrange(0, taken.len() as int));
                    }
                }
                self.wire.hang_up();
                return Err(TransportError::Frame(e));
            },
            Err(e) => return Err(e),
        };
        let ghost whole = frame_header_bytes(payload@.len() as int, type_byte) + payload@;
        proof {
            assert(frame_decision(whole) is Some);
            if modelled {
                let taken = whole.skip(held.len() as int);
                assert(taken =~= stream.subrange(0, taken.len() as int));
            }
        }
        let message = match decode(type_byte, payload.as_slice()) {
            Ok(message) => message,
            Err(refusal) => {
                self.wire.hang_up();
                return Err(TransportError::Frame(refusal));
            },
        };
        match self.rules.judge_arrival(&message) {
            Ok(()) => Ok(Some(message)),
            Err(e) => {
                self.wire.hang_up();
                Err(e)
            },
        }
    }

    /// Stages a message for the next flush, refusing exactly what the codec refuses.
    pub fn queue(&mut self, message: &Message) -> (result: Result<(), EncodeError>)
        requires
            old(self).wf(),
        ensures
            final(self).wf(),
            final(self).rules_spec() == old(self).rules_spec(),
            match result {
                Ok(()) => encode_refusal(message@).is_none() && final(self).unwritten() == old(
                    self,
                ).unwritten() + frame_of(message@),
                Err(e) => encode_refusal(message@) == Some(e) && final(self).unwritten() == old(
                    self,
                ).unwritten(),
            },
    {
        self.writer.queue(message)
    }

    /// One coalesced write per tick: pushes everything staged. `Ok(false)`: the wire is full
    /// and the remainder is carried - call again next tick.
    pub fn flush(&mut self) -> (result: Result<bool, TransportError>)
        requires
            old(self).wf(),
        ensures
            final(self).wf(),
            final(self).rules_spec() == old(self).rules_spec(),
            match result {
                Ok(true) => final(self).unwritten() == Seq::<u8>::empty(),
                Ok(false) => 0 < final(self).unwritten().len() <= WRITE_BUFFER_LIMIT_BYTES,
                Err(TransportError::WriteBufferOverflow) => final(self).unwritten().len()
                    > WRITE_BUFFER_LIMIT_BYTES,
                Err(TransportError::PeerClosed) => final(self).unwritten().len() > 0,
                Err(TransportError::Io(_)) => final(self).unwritten().len() > 0,
                Err(_) => false,
            },
            old(self).unwritten().len() >= final(self).unwritten().len(),
            final(self).unwritten() == old(self).unwritten().skip(
                old(self).unwritten().len() - final(self).unwritten().len(),
            ),
            old(self).unwritten().len() == 0 ==> result matches Ok(true),
            old(self).takes_everything() ==> result matches Ok(true),
            old(self).takes_everything() ==> final(self).takes_everything(),
            final(self).held() == old(self).held(),
            final(self).decided() == old(self).decided(),
            old(self).models_intake() ==> {
                &&& final(self).models_intake()
                &&& final(self).intake() == old(self).intake() + old(self).unwritten().take(
                    old(self).unwritten().len() - final(self).unwritten().len(),
                )
            },
    {
        self.writer.flush_into(&mut self.wire)
    }

    /// The wire and what is still staged on it, for the farewell: the caller says BYE and
    /// closes the wire as its kind of wire needs.
    pub fn into_parts(self) -> (parts: (W, WriteBuffer))
        requires
            self.wf(),
        ensures
            parts.1.wf(),
            parts.1.unwritten() == self.unwritten(),
            parts.0.models_stream() == self.models_stream(),
            parts.0.stream() == self.stream(),
            parts.0.hung_up() == self.hung_up(),
            parts.0.models_intake() == self.models_intake(),
            parts.0.intake() == self.intake(),
            parts.0.takes_everything() == self.takes_everything(),
            parts.0.waits_only_when_drained() == self.waits_only_when_drained(),
            parts.0.never_fails() == self.never_fails(),
    {
        (self.wire, self.writer)
    }
}

/// How a handshake says no, in terms the words of the refusal are made from.
#[derive(Clone, Copy, PartialEq, Eq, Debug)]
pub enum Refusal {
    /// The opening four bytes were not the magic.
    BadMagic,
    /// The first frame was not a HELLO of HELLO's size.
    FirstFrameNotHello,
    /// The HELLO's role byte is neither spectator nor creature host.
    InvalidRole(u8),
    /// The same protocol version with another contract's fingerprint: a modified header.
    ModifiedContract,
    /// Another protocol version, named.
    OtherVersion(u32),
    /// Another world: the other end's fingerprint and this end's.
    OtherWorld { theirs: u64, ours: u64 },
}

/// What a handshake step decided: go on with the value, refuse in words, or give up on bytes that
/// are not a lawful frame.
pub enum Verdict<T> {
    Accepted(T),
    Refuse(Refusal),
    Malformed(DecodeError),
}

/// The fingerprint of the protocol contract this build speaks: what HELLO carries, and what
/// [`accept_hello`] compares against.
pub const RECORDED_FINGERPRINT: [u8; 32] = [
    0xF7, 0xDD, 0x6C, 0x1A, 0x65, 0xFF, 0x77, 0x90, 0x47, 0xEC, 0x32, 0xA3, 0x26, 0xAA, 0x58, 0x63,
    0x43, 0x58, 0x37, 0x32, 0x04, 0x46, 0xDC, 0x12, 0x83, 0x4E, 0xE7, 0x97, 0xC5, 0x2C, 0x83, 0xE9,
];

/// The fingerprint of the protocol contract this build speaks.
pub fn recorded_fingerprint() -> (fingerprint: [u8; 32])
    ensures
        fingerprint == RECORDED_FINGERPRINT,
{
    RECORDED_FINGERPRINT
}

/// The HELLO a build sends in `role` from the world `world_fingerprint`.
pub open spec fn local_hello_spec(role: Role, world_fingerprint: u64) -> Hello {
    Hello {
        protocol_version: PROTOCOL_VERSION,
        fingerprint: RECORDED_FINGERPRINT,
        role: role.to_byte(),
        reserved0: [0u8, 0u8, 0u8],
        world_fingerprint,
    }
}

/// The HELLO this build sends: its own protocol version and contract fingerprint, the role the
/// caller chose, and the fingerprint of the world it lives in.
pub fn local_hello(role: Role, world_fingerprint: u64) -> (hello: Hello)
    ensures
        hello == local_hello_spec(role, world_fingerprint),
{
    Hello {
        protocol_version: PROTOCOL_VERSION,
        fingerprint: recorded_fingerprint(),
        role: role.to_byte(),
        reserved0: [0u8, 0u8, 0u8],
        world_fingerprint,
    }
}

/// Whether two contract fingerprints are the same bytes.
pub fn same_fingerprint(a: &[u8; 32], b: &[u8; 32]) -> (same: bool)
    ensures
        same == (a@ == b@),
{
    let mut i: usize = 0;
    while i < 32
        invariant
            0 <= i <= 32,
            a@.len() == 32,
            b@.len() == 32,
            forall|k: int| 0 <= k < i ==> a@[k] == b@[k],
        decreases 32 - i,
    {
        if a[i] != b[i] {
            return false;
        }
        i = i + 1;
    }
    assert(a@ =~= b@);
    true
}

/// The refusal a contract and a world earn at an end that speaks [`RECORDED_FINGERPRINT`] in
/// the world `ours`: another contract is named by its version, another world by both
/// fingerprints.
pub open spec fn contract_refusal(version: u32, fingerprint: [u8; 32], theirs: u64, ours: u64) -> Option<Refusal> {
    if fingerprint@ != RECORDED_FINGERPRINT@ {
        if version == PROTOCOL_VERSION {
            Some(Refusal::ModifiedContract)
        } else {
            Some(Refusal::OtherVersion(version))
        }
    } else if theirs != ours {
        Some(Refusal::OtherWorld { theirs, ours })
    } else {
        None
    }
}

/// Judges a contract and a world against this build's and the world `ours`.
pub fn judge_contract(version: u32, fingerprint: &[u8; 32], theirs: u64, ours: u64) -> (verdict: Result<(), Refusal>)
    ensures
        match verdict {
            Ok(()) => contract_refusal(version, *fingerprint, theirs, ours).is_none(),
            Err(r) => contract_refusal(version, *fingerprint, theirs, ours) == Some(r),
        },
{
    if !same_fingerprint(fingerprint, &RECORDED_FINGERPRINT) {
        if version == PROTOCOL_VERSION {
            return Err(Refusal::ModifiedContract);
        } else {
            return Err(Refusal::OtherVersion(version));
        }
    }
    if theirs != ours {
        return Err(Refusal::OtherWorld { theirs, ours });
    }
    Ok(())
}

/// The server's first judgement: the four opening bytes must be the magic.
pub fn judge_magic(opening: [u8; 4]) -> (verdict: Result<(), Refusal>)
    ensures
        verdict is Ok <==> opening@ == MAGIC@,
        verdict matches Err(r) ==> r == Refusal::BadMagic,
{
    if opening[0] == MAGIC[0] && opening[1] == MAGIC[1] && opening[2] == MAGIC[2] && opening[3] == MAGIC[3] {
        assert(opening@ =~= MAGIC@);
        Ok(())
    } else {
        Err(Refusal::BadMagic)
    }
}

/// The server's second judgement: the first frame's header must announce a HELLO of HELLO's
/// size. Answers the payload length to read.
pub fn judge_hello_header(header: [u8; 3]) -> (verdict: Result<usize, Refusal>)
    ensures
        match verdict {
            Ok(length) => header[2] == MessageType::Hello.to_byte() && header[0] + 256 * header[1]
                == HELLO_BYTES && length == HELLO_BYTES,
            Err(r) => r == Refusal::FirstFrameNotHello && !(header[2] == MessageType::Hello.to_byte()
                && header[0] + 256 * header[1] == HELLO_BYTES),
        },
{
    let (length, type_byte) = decode_frame_header(header);
    if type_byte != MessageType::Hello.to_byte() || length as usize != HELLO_BYTES {
        return Err(Refusal::FirstFrameNotHello);
    }
    Ok(HELLO_BYTES)
}

/// The server's last judgement: the HELLO's payload decodes, its role is one of the two, its
/// contract is this build's and its world is `world_fingerprint`.
pub fn accept_hello(payload: &[u8], world_fingerprint: u64) -> (verdict: Verdict<Hello>)
    ensures
        match verdict {
            Verdict::Accepted(hello) => {
                &&& decode_refusal(MessageType::Hello.to_byte(), payload@).is_none()
                &&& frame_payload(MessageV::Hello(hello)) == payload@
                &&& contract_refusal(hello.protocol_version, hello.fingerprint, hello.world_fingerprint, world_fingerprint).is_none()
            },
            Verdict::Refuse(r) => {
                ||| decode_refusal(MessageType::Hello.to_byte(), payload@) matches Some(DecodeError::InvalidRole(role)) && r == Refusal::InvalidRole(role)
                ||| decode_refusal(MessageType::Hello.to_byte(), payload@).is_none() && exists|hello: Hello|
                    frame_payload(MessageV::Hello(hello)) == payload@ && contract_refusal(
                        hello.protocol_version,
                        hello.fingerprint,
                        hello.world_fingerprint,
                        world_fingerprint,
                    ) == Some(r)
            },
            Verdict::Malformed(e) => decode_refusal(MessageType::Hello.to_byte(), payload@) == Some(e)
                && !(e is InvalidRole),
        },
{
    let hello = match decode(MessageType::Hello.to_byte(), payload) {
        Ok(Message::Hello(hello)) => hello,
        Ok(_) => {
            assert(false);
            return Verdict::Malformed(DecodeError::ReservedNotZero);
        },
        Err(DecodeError::InvalidRole(role)) => return Verdict::Refuse(Refusal::InvalidRole(role)),
        Err(e) => return Verdict::Malformed(e),
    };
    match judge_contract(hello.protocol_version, &hello.fingerprint, hello.world_fingerprint, world_fingerprint) {
        Ok(()) => Verdict::Accepted(hello),
        Err(r) => Verdict::Refuse(r),
    }
}

/// The client's first judgement of the server's answer: a WELCOME of WELCOME's size, or the
/// start of a refusal line. Answers the payload length to read.
pub fn judge_answer_header(header: [u8; 3]) -> (length: Option<usize>)
    ensures
        match length {
            Some(n) => header[2] == MessageType::Welcome.to_byte() && header[0] + 256 * header[1]
                == WELCOME_BYTES && n == WELCOME_BYTES,
            None => !(header[2] == MessageType::Welcome.to_byte() && header[0] + 256 * header[1]
                == WELCOME_BYTES),
        },
{
    let (length, type_byte) = decode_frame_header(header);
    if type_byte != MessageType::Welcome.to_byte() || length as usize != WELCOME_BYTES {
        return None;
    }
    Some(WELCOME_BYTES)
}

/// The client's last judgement: the WELCOME's payload decodes and names the world the client's
/// HELLO named - a server living on another floor is walked away from.
pub fn accept_welcome(payload: &[u8], hello: &Hello) -> (verdict: Verdict<Welcome>)
    ensures
        match verdict {
            Verdict::Accepted(welcome) => {
                &&& decode_refusal(MessageType::Welcome.to_byte(), payload@).is_none()
                &&& frame_payload(MessageV::Welcome(welcome)) == payload@
                &&& welcome.world_fingerprint == hello.world_fingerprint
            },
            Verdict::Refuse(r) => {
                &&& decode_refusal(MessageType::Welcome.to_byte(), payload@).is_none()
                &&& exists|welcome: Welcome|
                    frame_payload(MessageV::Welcome(welcome)) == payload@ && welcome.world_fingerprint
                        != hello.world_fingerprint && r == (Refusal::OtherWorld {
                        theirs: welcome.world_fingerprint,
                        ours: hello.world_fingerprint,
                    })
            },
            Verdict::Malformed(e) => decode_refusal(MessageType::Welcome.to_byte(), payload@) == Some(e),
        },
{
    let welcome = match decode(MessageType::Welcome.to_byte(), payload) {
        Ok(Message::Welcome(welcome)) => welcome,
        Ok(_) => {
            assert(false);
            return Verdict::Malformed(DecodeError::ReservedNotZero);
        },
        Err(e) => return Verdict::Malformed(e),
    };
    if welcome.world_fingerprint != hello.world_fingerprint {
        return Verdict::Refuse(Refusal::OtherWorld { theirs: welcome.world_fingerprint, ours: hello.world_fingerprint });
    }
    Verdict::Accepted(welcome)
}

/// How one of a handshake's reads or writes failed, as far as the handshake cares: the two
/// ways a system says a timeout elapsed, or any other kind of failure.
#[derive(Debug)]
pub enum HandshakeFailure {
    /// The socket's read or write timeout elapsed, said as "would block".
    WouldBlock,
    /// The socket's read or write timeout elapsed, said as "timed out".
    TimedOut,
    /// Any other failure, as the system named it.
    Other(std::io::ErrorKind),
}

/// A handshake's I/O failure: a timeout, however the system words it, is the handshake timing
/// out; anything else is the system's own answer.
pub fn normalise_timeout(failure: HandshakeFailure) -> (error: TransportError)
    ensures
        error == match failure {
            HandshakeFailure::Other(kind) => TransportError::Io(kind),
            _ => TransportError::HandshakeTimedOut,
        },
{
    match failure {
        HandshakeFailure::WouldBlock => TransportError::HandshakeTimedOut,
        HandshakeFailure::TimedOut => TransportError::HandshakeTimedOut,
        HandshakeFailure::Other(kind) => TransportError::Io(kind),
    }
}

/// How a dial failed, as far as the retry policy cares.
#[derive(Debug)]
pub enum DialFailure {
    /// The far end refused or reset the dial, with the system's word for which: a server still
    /// standing up, a listener mid-accept.
    Turned(std::io::ErrorKind),
    /// The dial would block: its time ran out, said as "would block".
    WouldBlock,
    /// The dial's time ran out.
    TimedOut,
    /// Any other failure, as the system named it.
    Other(std::io::ErrorKind),
}

/// How long a client pauses before dialling again after a refused or reset dial.
pub const DIAL_RETRY_PAUSE_NANOS: u128 = 10000000;

/// What a client does after a round of dials that found no stream.
#[derive(Debug)]
pub enum DialStep {
    /// Pause for [`DIAL_RETRY_PAUSE_NANOS`], then dial again.
    Retry,
    /// Give up with this error.
    GiveUp(TransportError),
    /// Nothing was dialled: no address resolved, or no time was left to try one.
    NothingDialled,
}

/// Whether a dial's failure may pass if dialled again: a refusal or reset while the server
/// stands up, or a dial that would block.
pub open spec fn dial_is_transient(failure: DialFailure) -> bool {
    failure is Turned || failure is WouldBlock
}

/// The error a failed dial is answered with: its time running out, however worded, is the
/// handshake timing out; anything else is the system's own answer.
pub open spec fn dial_error(failure: DialFailure) -> TransportError {
    match failure {
        DialFailure::Turned(kind) => TransportError::Io(kind),
        DialFailure::Other(kind) => TransportError::Io(kind),
        _ => TransportError::HandshakeTimedOut,
    }
}

/// What a client does after a round of dials whose last failure was `last`, with `left_nanos`
/// of its timeout left: a transient failure is dialled again while more than a pause is left;
/// otherwise the last failure is the answer.
pub open spec fn dial_step(last: Option<DialFailure>, left_nanos: u128) -> DialStep {
    match last {
        None => DialStep::NothingDialled,
        Some(failure) => if dial_is_transient(failure) && left_nanos > DIAL_RETRY_PAUSE_NANOS {
            DialStep::Retry
        } else {
            DialStep::GiveUp(dial_error(failure))
        },
    }
}

/// What a client does after a round of dials whose last failure was `last`, with `left_nanos`
/// of its timeout left.
pub fn next_dial(last: Option<DialFailure>, left_nanos: u128) -> (step: DialStep)
    ensures
        step == dial_step(last, left_nanos),
{
    match last {
        None => DialStep::NothingDialled,
        Some(failure) => {
            let transient = match failure {
                DialFailure::Turned(_) => true,
                DialFailure::WouldBlock => true,
                _ => false,
            };
            if transient && left_nanos > DIAL_RETRY_PAUSE_NANOS {
                DialStep::Retry
            } else {
                DialStep::GiveUp(match failure {
                    DialFailure::Turned(kind) => TransportError::Io(kind),
                    DialFailure::Other(kind) => TransportError::Io(kind),
                    _ => TransportError::HandshakeTimedOut,
                })
            }
        },
    }
}

/// A handshake bound of no time at all is refused: it would wait for nothing and call that a
/// timeout.
pub fn judge_timeout(timeout_nanos: u128) -> (verdict: Result<(), TransportError>)
    ensures
        verdict is Ok <==> timeout_nanos > 0,
        verdict matches Err(e) ==> e is Garbled,
{
    if timeout_nanos == 0 {
        return Err(TransportError::Garbled("a zero timeout waits for nothing - give the handshake a bound"));
    }
    Ok(())
}

} // verus!
