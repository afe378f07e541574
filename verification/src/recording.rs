//! A Disk: a client whose socket is a file.
//!
//! A recording is this library's own frames written to a file by a server-held end with no
//! peer, and read back by a client-held end whose `poll` reads the file. The file opens with a
//! header naming the wire it speaks and the world it was made in, then the frames, exactly as
//! they went out, in order. A replay is judged as a handshake is: the wrong magic is garbled,
//! another contract or another world is refused.

use vstd::prelude::*;
use vstd::string::StringExecFns;
use crate::codec::{DecodeError, EncodeError, Message, decode, decode_refusal, encode_refusal};
use crate::layout::{MessageV, fingerprint_words, frame_header_bytes, frame_of, frame_payload, message_type, pack, push_u64};
use crate::protocol::PROTOCOL_VERSION;
use crate::transport::{
    FrameReader, Refusal, Sink, Source, TransportError, WRITE_BUFFER_LIMIT_BYTES, WriteBuffer,
    answers_decided, contract_refusal,
    frame_admitted, frame_decision, refusal_earned, undecided, judge_contract, recorded_fingerprint, RECORDED_FINGERPRINT,
};
use crate::words::{
    bytes_of_words, hi, lemma_bytes_of_words, lo, push_words, read_u64, read_word, word_at, word_of,
    words_of,
};

verus! {

broadcast use vstd::array::group_array_axioms;

/// The recording file's opening bytes: the format and its revision, so a file of another shape
/// refuses at the door rather than decoding as frames.
pub const RECORDING_MAGIC: [u8; 8] = [0x44, 0x49, 0x53, 0x4B, 0x00, 0x00, 0x00, 0x01];

/// The recording header's size on disk, magic included.
pub const RECORDING_HEADER_BYTES: usize = 72;

/// What a recording speaks and where it began. The dt is binary32 bits.
#[derive(Clone, Copy, PartialEq, Eq, Debug)]
pub struct RecordingHeader {
    pub protocol_version: u32,
    pub fingerprint: [u8; 32],
    pub world_fingerprint: u64,
    pub start_tick: u64,
    pub nominal_dt_seconds: u32,
    pub start_unix_seconds: u64,
}

/// The header as the little-endian words it occupies on disk: the magic's two words, then the
/// fields in order, 64-bit fields low word first.
pub open spec fn recording_header_words(h: RecordingHeader) -> Seq<u32> {
    seq![
        word_of(RECORDING_MAGIC[0], RECORDING_MAGIC[1], RECORDING_MAGIC[2], RECORDING_MAGIC[3]),
        word_of(RECORDING_MAGIC[4], RECORDING_MAGIC[5], RECORDING_MAGIC[6], RECORDING_MAGIC[7]),
        h.protocol_version,
    ] + fingerprint_words(h.fingerprint) + seq![
        lo(h.world_fingerprint),
        hi(h.world_fingerprint),
        lo(h.start_tick),
        hi(h.start_tick),
        h.nominal_dt_seconds,
        lo(h.start_unix_seconds),
        hi(h.start_unix_seconds),
    ]
}

/// The header's bytes on disk.
pub open spec fn recording_header_bytes(h: RecordingHeader) -> Seq<u8> {
    bytes_of_words(recording_header_words(h))
}

/// Whether `bytes` open with a whole header whose first eight bytes are the magic.
pub open spec fn opens_as_recording(bytes: Seq<u8>) -> bool {
    bytes.len() >= RECORDING_HEADER_BYTES && bytes.subrange(0, 8) == RECORDING_MAGIC@
}

impl RecordingHeader {
    /// The header a recording made by this build starts with.
    pub fn new(world_fingerprint: u64, start_tick: u64, nominal_dt_seconds: u32, start_unix_seconds: u64) -> (header: RecordingHeader)
        ensures
            header.protocol_version == PROTOCOL_VERSION,
            header.fingerprint == RECORDED_FINGERPRINT,
            header.world_fingerprint == world_fingerprint,
            header.start_tick == start_tick,
            header.nominal_dt_seconds == nominal_dt_seconds,
            header.start_unix_seconds == start_unix_seconds,
    {
        RecordingHeader {
            protocol_version: PROTOCOL_VERSION,
            fingerprint: recorded_fingerprint(),
            world_fingerprint,
            start_tick,
            nominal_dt_seconds,
            start_unix_seconds,
        }
    }

    /// The header's bytes, as they open the file.
    pub fn to_bytes(&self) -> (bytes: Vec<u8>)
        ensures
            bytes@ == recording_header_bytes(*self),
    {
        let mut ws: Vec<u32> = Vec::new();
        ws.push(pack(RECORDING_MAGIC[0], RECORDING_MAGIC[1], RECORDING_MAGIC[2], RECORDING_MAGIC[3]));
        ws.push(pack(RECORDING_MAGIC[4], RECORDING_MAGIC[5], RECORDING_MAGIC[6], RECORDING_MAGIC[7]));
        ws.push(self.protocol_version);
        let ghost start = ws@;
        let mut i: usize = 0;
        while i < 8
            invariant
                0 <= i <= 8,
                ws@ == start + fingerprint_words(self.fingerprint).take(i as int),
            decreases 8 - i,
        {
            let w = pack(
                self.fingerprint[4 * i],
                self.fingerprint[4 * i + 1],
                self.fingerprint[4 * i + 2],
                self.fingerprint[4 * i + 3],
            );
            ws.push(w);
            assert(fingerprint_words(self.fingerprint).take(i + 1) =~= fingerprint_words(
                self.fingerprint,
            ).take(i as int).push(w));
            i = i + 1;
        }
        assert(fingerprint_words(self.fingerprint).take(8) =~= fingerprint_words(self.fingerprint));
        push_u64(&mut ws, self.world_fingerprint);
        push_u64(&mut ws, self.start_tick);
        ws.push(self.nominal_dt_seconds);
        push_u64(&mut ws, self.start_unix_seconds);
        assert(ws@ =~= recording_header_words(*self));
        let mut bytes: Vec<u8> = Vec::new();
        push_words(&mut bytes, &ws);
        assert(bytes@ =~= recording_header_bytes(*self));
        bytes
    }

    /// Reads a header from the opening bytes of a file: fewer bytes than a header, or another
    /// magic, is not a recording.
    pub fn parse(bytes: &[u8]) -> (result: Result<RecordingHeader, TransportError>)
        ensures
            result is Ok <==> opens_as_recording(bytes@),
            match result {
                Ok(header) => recording_header_bytes(header) == bytes@.subrange(
                    0,
                    RECORDING_HEADER_BYTES as int,
                ),
                Err(e) => e is Garbled,
            },
    {
        if bytes.len() < RECORDING_HEADER_BYTES {
            return Err(TransportError::Garbled("a recording shorter than its own header"));
        }
        let mut k: usize = 0;
        while k < 8
            invariant
                0 <= k <= 8,
                bytes@.len() >= RECORDING_HEADER_BYTES,
                forall|j: int| 0 <= j < k ==> bytes@[j] == RECORDING_MAGIC[j],
            decreases 8 - k,
        {
            if bytes[k] != RECORDING_MAGIC[k] {
                assert(bytes@.subrange(0, 8)[k as int] != RECORDING_MAGIC@[k as int]);
                return Err(TransportError::Garbled("not a recording: the magic is wrong"));
            }
            k = k + 1;
        }
        assert(bytes@.subrange(0, 8) =~= RECORDING_MAGIC@);
        let fingerprint: [u8; 32] = [
            bytes[12], bytes[13], bytes[14], bytes[15], bytes[16], bytes[17], bytes[18], bytes[19],
            bytes[20], bytes[21], bytes[22], bytes[23], bytes[24], bytes[25], bytes[26], bytes[27],
            bytes[28], bytes[29], bytes[30], bytes[31], bytes[32], bytes[33], bytes[34], bytes[35],
            bytes[36], bytes[37], bytes[38], bytes[39], bytes[40], bytes[41], bytes[42], bytes[43],
        ];
        let header = RecordingHeader {
            protocol_version: read_word(bytes, 2),
            fingerprint,
            world_fingerprint: read_u64(bytes, 11),
            start_tick: read_u64(bytes, 13),
            nominal_dt_seconds: read_word(bytes, 15),
            start_unix_seconds: read_u64(bytes, 16),
        };
        proof {
            let p = bytes@.subrange(0, RECORDING_HEADER_BYTES as int);
            let ws = words_of(p);
            assert forall|j: int| 0 <= j < 18 implies #[trigger] word_at(bytes@, j) == ws[j] by {
                assert(p[4 * j] == bytes@[4 * j]);
                assert(p[4 * j + 1] == bytes@[4 * j + 1]);
                assert(p[4 * j + 2] == bytes@[4 * j + 2]);
                assert(p[4 * j + 3] == bytes@[4 * j + 3]);
            }
            assert(word_at(bytes@, 0) == ws[0]);
            assert(word_at(bytes@, 1) == ws[1]);
            assert(fingerprint_words(fingerprint) =~= ws.subrange(3, 11)) by {
                assert forall|i: int| 0 <= i < 8 implies #[trigger] fingerprint_words(fingerprint)[i]
                    == ws.subrange(3, 11)[i] by {
                    assert(word_at(bytes@, 3 + i) == ws[3 + i]);
                }
            }
            assert(recording_header_words(header) =~= ws);
            lemma_bytes_of_words(p);
        }
        Ok(header)
    }
}

/// Judges a recording's header as a handshake is judged: another contract is refused naming
/// its version, another world naming both fingerprints.
pub fn judge_recording(header: &RecordingHeader, world_fingerprint: u64) -> (verdict: Result<(), Refusal>)
    ensures
        match verdict {
            Ok(()) => contract_refusal(header.protocol_version, header.fingerprint, header.world_fingerprint, world_fingerprint).is_none(),
            Err(r) => contract_refusal(header.protocol_version, header.fingerprint, header.world_fingerprint, world_fingerprint) == Some(r),
        },
{
    judge_contract(header.protocol_version, &header.fingerprint, header.world_fingerprint, world_fingerprint)
}

/// Whether `text` occurs somewhere in `path`.
pub open spec fn occurs_in(text: Seq<char>, path: Seq<char>) -> bool {
    exists|i: int| 0 <= i && i + text.len() <= path.len() && #[trigger] path.subrange(i, i + text.len()) == text
}

/// Whether `path` holds `..` as a whole segment between `/` separators or the path's ends.
pub open spec fn has_parent_segment(path: Seq<char>) -> bool {
    exists|i: int|
        0 <= i && i + 2 <= path.len() && #[trigger] path[i] == '.' && path[i + 1] == '.' && (i == 0 || path[i
            - 1] == '/') && (i + 2 == path.len() || path[i + 2] == '/')
}

/// Whether `path` can carry no platform prefix: no backslash, no drive colon, and no leading
/// pair of separators. Such a path is split into components at `/` on every platform.
pub open spec fn plain_path(path: Seq<char>) -> bool {
    &&& forall|i: int| 0 <= i < path.len() ==> #[trigger] path[i] != '\\' && path[i] != ':'
    &&& !(path.len() >= 2 && path[0] == '/' && path[1] == '/')
}

/// The characters after the last `/` of `path`.
pub open spec fn last_segment(path: Seq<char>) -> Seq<char>
    decreases path.len(),
{
    if path.len() == 0 || path.last() == '/' {
        Seq::empty()
    } else {
        last_segment(path.drop_last()).push(path.last())
    }
}

/// A path's last segment is no longer than the path, and not empty when the path ends in
/// something other than a separator.
pub proof fn lemma_last_segment(path: Seq<char>)
    ensures
        last_segment(path).len() <= path.len(),
        path.len() > 0 && path.last() != '/' ==> last_segment(path).len() >= 1,
    decreases path.len(),
{
    if path.len() > 0 && path.last() != '/' {
        lemma_last_segment(path.drop_last());
    }
}

/// The file name of a plain path, as `std::path::Path::file_name` finds it: the last segment
/// that is neither empty nor `.`; none when that segment is `..`, or when the path is only a
/// leading `.` and separators.
pub open spec fn plain_file_name(path: Seq<char>) -> Option<Seq<char>>
    decreases path.len(),
{
    if path.len() == 0 {
        None
    } else if path.last() == '/' {
        plain_file_name(path.drop_last())
    } else {
        let name = last_segment(path);
        proof {
            lemma_last_segment(path);
        }
        let head = path.take(path.len() - name.len());
        if name == seq!['.'] {
            if head.len() == 0 {
                None
            } else {
                plain_file_name(head)
            }
        } else if name == seq!['.', '.'] {
            None
        } else {
            Some(name)
        }
    }
}

/// The index of the last `.` in `name`, or -1 when it has none.
pub open spec fn last_dot(name: Seq<char>) -> int
    decreases name.len(),
{
    if name.len() == 0 {
        -1
    } else if name.last() == '.' {
        name.len() - 1
    } else {
        last_dot(name.drop_last())
    }
}

/// The extension of a file name, as `std::path::Path::extension` splits it: the text after its
/// last `.`; none when it has no `.`, or when its last `.` is its first character.
pub open spec fn extension_of(name: Seq<char>) -> Option<Seq<char>> {
    let dot = last_dot(name);
    if dot < 1 {
        None
    } else {
        Some(name.skip(dot + 1))
    }
}

/// The extension of a plain path's file name.
pub open spec fn plain_extension(path: Seq<char>) -> Option<Seq<char>> {
    match plain_file_name(path) {
        Some(name) => extension_of(name),
        None => None,
    }
}

/// The extension of a path's file name, through `std::path::Path::extension` and
/// `OsStr::to_str`, when it has one and it is UTF-8. Claimed: the extension, after a dot, is
/// text of the path, since a file name is a piece of its path; and for a plain path, which
/// every platform splits at `/` alone, it is exactly [`plain_extension`]. Which piece of a
/// prefixed path is its file name is the platform's, and is not stated.
#[verifier::external_body]
fn path_extension(path: &str) -> (extension: Option<String>)
    ensures
        extension matches Some(e) ==> occurs_in(seq!['.'] + e@, path@),
        plain_path(path@) ==> match extension {
            Some(e) => plain_extension(path@) == Some(e@),
            None => plain_extension(path@) is None,
        },
{
    std::path::Path::new(path).extension().and_then(|e| e.to_str()).map(|e| e.to_string())
}

/// Per component of a path, through `std::path::Path::components`, whether it is `..`.
/// Claimed: a `..` component is text of the path; and a path with no platform prefix has a
/// `..` component exactly when it holds `..` as a whole `/`-separated segment. How a prefixed path splits
/// is the platform's, and is not stated.
#[verifier::external_body]
fn path_parent_flags(path: &str) -> (parents: Vec<bool>)
    ensures
        parents@.contains(true) ==> occurs_in(seq!['.', '.'], path@),
        plain_path(path@) ==> (parents@.contains(true) <==> has_parent_segment(path@)),
{
    std::path::Path::new(path).components().map(|c| matches!(c, std::path::Component::ParentDir)).collect()
}

/// Whether a path climbs: whether any of its components, flagged in order, is `..`.
pub fn climbs(parents: &Vec<bool>) -> (climbing: bool)
    ensures
        climbing == parents@.contains(true),
{
    let mut i: usize = 0;
    while i < parents.len()
        invariant
            i <= parents@.len(),
            forall|j: int| 0 <= j < i ==> !parents@[j],
        decreases parents@.len() - i,
    {
        if parents[i] {
            assert(parents@[i as int] == true);
            return true;
        }
        i = i + 1;
    }
    false
}

/// The judgement every Disk path passes before a file is touched, on what the path says of
/// itself: it names a `.disk`, and it never climbs.
pub fn judge_disk_path(extension: Option<String>, climbs: bool) -> (verdict: Result<(), TransportError>)
    ensures
        verdict is Ok <==> (extension matches Some(e) && e@ == "disk"@ && !climbs),
        verdict matches Err(e) ==> e is Refused,
        verdict matches Err(TransportError::Refused { reason }) ==> reason@ == if extension matches Some(e) && e@ == "disk"@ {
            "link: a Disk path never climbs - no .. component"@
        } else {
            "link: a Disk is named with the .disk extension"@
        },
{
    let named_disk = match extension {
        Some(e) => e == String::from_str("disk"),
        None => false,
    };
    if !named_disk {
        return Err(TransportError::Refused { reason: String::from_str("link: a Disk is named with the .disk extension") });
    }
    if climbs {
        return Err(TransportError::Refused { reason: String::from_str("link: a Disk path never climbs - no .. component") });
    }
    Ok(())
}

/// Judges a Disk path before any file is touched: a path handed across the boundary reaches
/// only where the caller's working directory or absolute root says, and a typo is a refusal
/// rather than a file somewhere surprising.
pub fn judged_path(path: &str) -> (verdict: Result<(), TransportError>)
    ensures
        verdict matches Err(e) ==> e is Refused,
        verdict is Ok ==> occurs_in(seq!['.', 'd', 'i', 's', 'k'], path@),
        plain_path(path@) ==> (verdict is Ok <==> plain_extension(path@) == Some("disk"@)
            && !has_parent_segment(path@)),
{
    let extension = path_extension(path);
    let parents = path_parent_flags(path);
    let verdict = judge_disk_path(extension, climbs(&parents));
    proof {
        reveal_strlit("disk");
        if verdict is Ok {
            let e = extension->Some_0;
            assert(seq!['.'] + e@ =~= seq!['.', 'd', 'i', 's', 'k']);
        }
    }
    verdict
}

/// A server-held end with no peer: everything queued is written to the file on flush, exactly
/// as it would have gone down a socket, and the bytes on disk are counted, header included.
pub struct Recorder<S> {
    file: S,
    writer: WriteBuffer,
    bytes_written: u64,
}

impl<S: Sink> Recorder<S> {
    /// The invariant every operation keeps.
    pub closed spec fn wf(&self) -> bool {
        self.writer.wf()
    }

    /// The bytes staged and not yet on disk.
    pub closed spec fn unwritten(&self) -> Seq<u8> {
        self.writer.unwritten()
    }

    /// The bytes on disk so far, header included.
    pub closed spec fn written_spec(&self) -> u64 {
        self.bytes_written
    }

    /// Whether the file models the bytes it has taken.
    pub closed spec fn models_intake(&self) -> bool {
        self.file.models_intake()
    }

    /// The bytes the file has taken through this recorder, where it models them.
    pub closed spec fn intake(&self) -> Seq<u8> {
        self.file.intake()
    }

    /// Whether the file takes everything offered, at every write.
    pub closed spec fn takes_everything(&self) -> bool {
        self.file.takes_everything()
    }

    /// A recorder over a file that already holds its header.
    pub fn after_header(file: S) -> (recorder: Recorder<S>)
        ensures
            recorder.wf(),
            recorder.unwritten() == Seq::<u8>::empty(),
            recorder.written_spec() == RECORDING_HEADER_BYTES,
            recorder.models_intake() == file.models_intake(),
            recorder.intake() == file.intake(),
            recorder.takes_everything() == file.takes_everything(),
    {
        Recorder { file, writer: WriteBuffer::new(), bytes_written: RECORDING_HEADER_BYTES as u64 }
    }

    /// Stages a message, refusing exactly what the codec refuses. A file has no peer, so no
    /// direction rule applies.
    pub fn queue(&mut self, message: &Message) -> (result: Result<(), EncodeError>)
        requires
            old(self).wf(),
        ensures
            final(self).wf(),
            final(self).written_spec() == old(self).written_spec(),
            match result {
                Ok(()) => encode_refusal(message@).is_none() && final(self).unwritten() == old(
                    self,
                ).unwritten() + frame_of(message@),
                Err(e) => encode_refusal(message@) == Some(e) && final(self).unwritten() == old(
                    self,
                ).unwritten(),
            },
    {
        self.writer.queue(message)
    }

    /// Writes everything staged, and counts what actually left, error or not: a short write
    /// that failed still wrote.
    pub fn flush(&mut self) -> (result: Result<bool, TransportError>)
        requires
            old(self).wf(),
            old(self).written_spec() + old(self).unwritten().len() <= u64::MAX,
        ensures
            final(self).wf(),
            final(self).written_spec() + final(self).unwritten().len() == old(self).written_spec()
                + old(self).unwritten().len(),
            match result {
                Ok(true) => final(self).unwritten() == Seq::<u8>::empty(),
                Ok(false) => 0 < final(self).unwritten().len() <= WRITE_BUFFER_LIMIT_BYTES,
                Err(TransportError::WriteBufferOverflow) => final(self).unwritten().len()
                    > WRITE_BUFFER_LIMIT_BYTES,
                Err(TransportError::PeerClosed) => final(self).unwritten().len() > 0,
                Err(TransportError::Io(_)) => final(self).unwritten().len() > 0,
                Err(_) => false,
            },
            final(self).unwritten() == old(self).unwritten().subrange(
                old(self).unwritten().len() - final(self).unwritten().len(),
                old(self).unwritten().len() as int,
            ),
            old(self).unwritten().len() == 0 ==> result matches Ok(true),
            old(self).models_intake() ==> {
                &&& final(self).models_intake()
                &&& final(self).intake() == old(self).intake() + old(self).unwritten().take(
                    old(self).unwritten().len() - final(self).unwritten().len(),
                )
                &&& final(self).written_spec() - old(self).written_spec() == final(self).intake().len()
                    - old(self).intake().len()
            },
            old(self).takes_everything() ==> (result matches Ok(true)) && final(self).takes_everything(),
    {
        let before = self.writer.pending_bytes();
        let result = self.writer.flush_into(&mut self.file);
        let after = self.writer.pending_bytes();
        self.bytes_written = self.bytes_written + (before - after) as u64;
        result
    }

    /// Bytes staged and not yet on disk.
    pub fn pending_bytes(&self) -> (count: usize)
        requires
            self.wf(),
        ensures
            count == self.unwritten().len(),
    {
        self.writer.pending_bytes()
    }

    /// Bytes on disk so far, header included: what a rotation policy reads.
    pub fn bytes_written(&self) -> (count: u64)
        ensures
            count == self.written_spec(),
    {
        self.bytes_written
    }

    /// Stages the farewell and writes what it can: a recording ends with BYE as a world does,
    /// so a replay reaching it knows the world ended rather than the file being cut. Hands the
    /// file back to be closed.
    pub fn close(self) -> (file: S)
        requires
            self.wf(),
        ensures
            self.models_intake() ==> {
                &&& file.models_intake()
                &&& self.intake().is_prefix_of(file.intake())
                &&& file.intake().skip(self.intake().len() as int).is_prefix_of(
                    self.unwritten() + frame_of(MessageV::Bye),
                )
                &&& self.takes_everything() ==> file.intake() == self.intake() + self.unwritten()
                    + frame_of(MessageV::Bye)
            },
    {
        let mut writer = self.writer;
        let mut file = self.file;
        let ghost staged = writer.unwritten();
        let ghost farewell = staged + frame_of(MessageV::Bye);
        let ghost taken_before = file.intake();
        let _ = writer.queue(&Message::Bye);
        let ghost queued = writer.unwritten();
        assert(queued.is_prefix_of(farewell)) by {
            assert(queued =~= farewell.subrange(0, queued.len() as int));
        }
        let _ = writer.flush_into(&mut file);
        proof {
            if self.models_intake() {
                let n = queued.len() - writer.unwritten().len();
                let delta = queued.take(n);
                assert(file.intake() =~= taken_before + delta);
                assert(file.intake().skip(taken_before.len() as int) =~= delta);
                assert(delta =~= farewell.subrange(0, delta.len() as int));
                if self.takes_everything() {
                    assert(queued =~= farewell);
                    assert(delta =~= farewell);
                }
            }
        }
        file
    }
}

/// Why a recording was not opened: it is not a recording, or it is one this end refuses.
pub enum Unopened {
    NotARecording(TransportError),
    Refused(Refusal),
}

/// What one poll of a replay took off a file that models its stream: the whole frame it
/// handed over or refused, else what the reader kept.
pub open spec fn poll_took_from_file<R: Source>(
    before: Replayer<R>,
    after: Replayer<R>,
    result: Result<Option<Message>, TransportError>,
) -> bool {
    before.models_stream() ==> {
        &&& after.models_stream()
        &&& before.waits_only_when_drained() ==> after.waits_only_when_drained()
        &&& before.never_fails() ==> after.never_fails() && !(result matches Err(TransportError::Io(_)))
        &&& match result {
            Ok(Some(m)) => {
                &&& before.stream() == frame_of(m@).skip(before.held().len() as int) + after.stream()
                &&& after.held().len() == 0
            },
            Err(TransportError::Frame(_)) => exists|whole: Seq<u8>|
                {
                    &&& #[trigger] frame_decision(whole) is Some
                    &&& before.held().is_prefix_of(whole)
                    &&& before.stream() == whole.skip(before.held().len() as int)
                        + after.stream()
                    &&& answers_decided(frame_decision(whole), None, result)
                },
            Err(TransportError::PeerClosed) => {
                &&& before.stream() == after.held().skip(before.held().len() as int) + after.stream()
                &&& after.stream().len() == 0
                &&& undecided(after.held())
            },
            Ok(None) => {
                &&& before.stream() == after.held().skip(before.held().len() as int) + after.stream()
                &&& undecided(after.held())
                &&& before.waits_only_when_drained() ==> after.stream().len() == 0
            },
            Err(TransportError::Io(_)) => before.stream() == after.held().skip(before.held().len() as int)
                + after.stream(),
            Err(_) => false,
        }
    }
}

/// A client-held end whose socket is a file: `poll` yields the recorded frames in order, and the
/// end of the file is the peer closing.
pub struct Replayer<S> {
    file: S,
    reader: FrameReader,
    header: RecordingHeader,
}

impl<S: Source> Replayer<S> {
    /// The invariant every operation keeps.
    pub closed spec fn wf(&self) -> bool {
        self.reader.wf()
    }

    /// The header the recording opened with.
    pub closed spec fn header_spec(&self) -> RecordingHeader {
        self.header
    }

    /// The bytes of the frame being read, received and not yet handed over.
    pub closed spec fn held(&self) -> Seq<u8> {
        self.reader.held()
    }

    /// What the replay's reader decides from what it holds, before any read.
    pub closed spec fn decided(&self) -> Option<Result<(u8, Seq<u8>), DecodeError>> {
        self.reader.decided()
    }

    /// Whether the file models the bytes it will yet deliver.
    pub closed spec fn models_stream(&self) -> bool {
        self.file.models_stream()
    }

    /// The bytes the file will yet deliver, where it models them.
    pub closed spec fn stream(&self) -> Seq<u8> {
        self.file.stream()
    }

    /// Whether the file answers "would block" only when it has nothing left to deliver.
    pub closed spec fn waits_only_when_drained(&self) -> bool {
        self.file.waits_only_when_drained()
    }

    /// Whether the file never answers a read with a failure.
    pub closed spec fn never_fails(&self) -> bool {
        self.file.never_fails()
    }

    /// Opens a recording whose opening bytes were read off `file`: the header is parsed and
    /// judged as a handshake is, and the frames after it are read from `file`.
    pub fn open(file: S, opening: &[u8], world_fingerprint: u64) -> (result: Result<Replayer<S>, Unopened>)
        ensures
            match result {
                Ok(replayer) => {
                    &&& replayer.wf()
                    &&& replayer.held() == Seq::<u8>::empty()
                    &&& replayer.models_stream() == file.models_stream()
                    &&& replayer.stream() == file.stream()
                    &&& replayer.waits_only_when_drained() == file.waits_only_when_drained()
                    &&& replayer.never_fails() == file.never_fails()
                    &&& opens_as_recording(opening@)
                    &&& recording_header_bytes(replayer.header_spec()) == opening@.subrange(0, RECORDING_HEADER_BYTES as int)
                    &&& contract_refusal(
                        replayer.header_spec().protocol_version,
                        replayer.header_spec().fingerprint,
                        replayer.header_spec().world_fingerprint,
                        world_fingerprint,
                    ).is_none()
                },
                Err(Unopened::NotARecording(e)) => e is Garbled && !opens_as_recording(opening@),
                Err(Unopened::Refused(r)) => {
                    &&& opens_as_recording(opening@)
                    &&& exists|h: RecordingHeader|
                        recording_header_bytes(h) == opening@.subrange(0, RECORDING_HEADER_BYTES as int)
                            && contract_refusal(h.protocol_version, h.fingerprint, h.world_fingerprint, world_fingerprint) == Some(r)
                },
            },
    {
        let header = match RecordingHeader::parse(opening) {
            Ok(header) => header,
            Err(e) => return Err(Unopened::NotARecording(e)),
        };
        match judge_recording(&header, world_fingerprint) {
            Ok(()) => {},
            Err(refusal) => return Err(Unopened::Refused(refusal)),
        }
        Ok(Replayer { file, reader: FrameReader::new(), header })
    }

    /// The header the recording opened with.
    pub fn header(&self) -> (header: &RecordingHeader)
        ensures
            *header == self.header_spec(),
    {
        &self.header
    }

    /// The next recorded frame, decoded and judged exactly as a socket's would be. The end of
    /// the file is [`TransportError::PeerClosed`]: the recording is over.
    pub fn poll(&mut self) -> (result: Result<Option<Message>, TransportError>)
        requires
            old(self).wf(),
        ensures
            final(self).wf(),
            final(self).header_spec() == old(self).header_spec(),
            match result {
                Ok(Some(m)) => {
                    &&& frame_admitted(message_type(m@).to_byte(), frame_payload(m@))
                    &&& decode_refusal(message_type(m@).to_byte(), frame_payload(m@)).is_none()
                    &&& encode_refusal(m@).is_none()
                    &&& old(self).held().is_prefix_of(frame_of(m@))
                    &&& final(self).held() == Seq::<u8>::empty()
                },
                Ok(None) => {
                    &&& old(self).held().is_prefix_of(final(self).held())
                    &&& final(self).decided().is_none()
                    &&& undecided(final(self).held())
                },
                Err(TransportError::Frame(_)) => refusal_earned(old(self).held(), None, result),
                Err(TransportError::PeerClosed) => final(self).decided().is_none() && undecided(final(self).held()),
                Err(TransportError::Io(_)) => final(self).decided().is_none(),
                Err(_) => false,
            },
            answers_decided(old(self).decided(), None, result),
            poll_took_from_file(*old(self), *final(self), result),
            old(self).waits_only_when_drained() ==> final(self).waits_only_when_drained(),
            old(self).never_fails() ==> final(self).never_fails() && !(result matches Err(TransportError::Io(_))),
    {
        let (type_byte, payload) = match self.reader.pump(&mut self.file) {
            Ok(None) => return Ok(None),
            Ok(Some(frame)) => frame,
            Err(e) => {
                proof {
                    let whole = self.reader.held();
                    if e is Frame {
                        assert(frame_decision(whole) is Some);
                    }
                }
                return Err(e);
            },
        };
        let ghost whole = frame_header_bytes(payload@.len() as int, type_byte) + payload@;
        assert(frame_decision(whole) is Some);
        match decode(type_byte, payload.as_slice()) {
            Ok(message) => Ok(Some(message)),
            Err(refusal) => Err(TransportError::Frame(refusal)),
        }
    }
}

} // verus!
