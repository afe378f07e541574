//! The decisions behind the C boundary: which table version is served, how a transport error
//! becomes a status code, and how every argument a C caller hands over is judged before a single
//! row is read through its pointers. The pointers themselves, and the catching of unwinds at
//! the edge, belong to the code that exports the table.

use vstd::prelude::*;
use crate::protocol::{
    CONTACTS_MAX, Proprioception, REZ_MAX_MATERIALS, REZ_MAX_TRIANGLES, REZ_MAX_VERTICES, Rez, Role,
    TICK_STATE_MAX_CREATURES, TickStateHeader, Welcome,
};
use crate::codec::{EncodeError, Message, decode_refusal, encode_refusal};
use crate::layout::{frame_payload, message_type};
use crate::recording::{Recorder, RecordingHeader, Replayer, poll_took_from_file};
use crate::transport::{
    Connection, EndRules, Sink, Source, TransportError, Wire, answers_decided, arrives_wrong_way,
    is_intent, poll_took_from_wire,
};

verus! {

/// Bumped whenever the table or its rules change; the table is served for this version only.
pub const LNK_CLIENT_ABI_VERSION: u32 = 6;

/// A status code answered across the boundary.
pub type LnkStatus = i32;

pub const LNK_OK: LnkStatus = 0;
pub const LNK_NOTHING_YET: LnkStatus = 1;
pub const LNK_REFUSED: LnkStatus = 2;
pub const LNK_HANDSHAKE_TIMED_OUT: LnkStatus = 3;
pub const LNK_PEER_CLOSED: LnkStatus = 4;
pub const LNK_FRAME_REFUSED: LnkStatus = 5;
pub const LNK_GARBLED: LnkStatus = 6;
pub const LNK_IO: LnkStatus = 7;
pub const LNK_BAD_ARGUMENT: LnkStatus = 8;
pub const LNK_PANIC: LnkStatus = 9;

/// The opaque handle a C caller holds for a client end: never built as itself, only pointed at.
pub struct LnkClient {
    _opaque: [u8; 0],
}

/// The opaque handle a C caller holds for a listening server.
pub struct LnkServer {
    _opaque: [u8; 0],
}

/// Whether the table is served to a caller that asks for `abi_version`: its own version only,
/// so an older or newer caller gets nothing rather than a table it misreads.
pub fn serves_abi_version(abi_version: u32) -> (served: bool)
    ensures
        served == (abi_version == LNK_CLIENT_ABI_VERSION),
{
    abi_version == LNK_CLIENT_ABI_VERSION
}

/// The status a transport error is answered with.
pub open spec fn status_spec(error: TransportError) -> LnkStatus {
    match error {
        TransportError::Io(_) => LNK_IO,
        TransportError::WriteBufferOverflow => LNK_IO,
        TransportError::Frame(_) => LNK_FRAME_REFUSED,
        TransportError::ActionsFromSpectator => LNK_FRAME_REFUSED,
        TransportError::WrongWay(_) => LNK_FRAME_REFUSED,
        TransportError::Refused { .. } => LNK_REFUSED,
        TransportError::Garbled(_) => LNK_GARBLED,
        TransportError::PeerClosed => LNK_PEER_CLOSED,
        TransportError::HandshakeTimedOut => LNK_HANDSHAKE_TIMED_OUT,
    }
}

/// The status a transport error is answered with across the boundary.
pub fn status_of(error: &TransportError) -> (status: LnkStatus)
    ensures
        status == status_spec(*error),
{
    match error {
        TransportError::Io(_) => LNK_IO,
        TransportError::WriteBufferOverflow => LNK_IO,
        TransportError::Frame(_) => LNK_FRAME_REFUSED,
        TransportError::ActionsFromSpectator => LNK_FRAME_REFUSED,
        TransportError::WrongWay(_) => LNK_FRAME_REFUSED,
        TransportError::Refused { .. } => LNK_REFUSED,
        TransportError::Garbled(_) => LNK_GARBLED,
        TransportError::PeerClosed => LNK_PEER_CLOSED,
        TransportError::HandshakeTimedOut => LNK_HANDSHAKE_TIMED_OUT,
    }
}

/// The status a handshake timeout handed across the boundary earns before anything is dialled
/// or taken: a zero bound would wait for nothing, and is a bad argument at either end.
pub fn timeout_argument_status(timeout_milliseconds: u32) -> (status: Option<LnkStatus>)
    ensures
        status == if timeout_milliseconds == 0 {
            Some(LNK_BAD_ARGUMENT)
        } else {
            None::<LnkStatus>
        },
{
    if timeout_milliseconds == 0 {
        Some(LNK_BAD_ARGUMENT)
    } else {
        None
    }
}

/// The role a caller's byte names: spectator (1) or creature host (2), and nothing else.
pub fn role_of_byte(role: u8) -> (named: Option<Role>)
    ensures
        match named {
            Some(r) => r.to_byte() == role,
            None => role != 1 && role != 2,
        },
{
    if role == Role::Spectator.to_byte() {
        Some(Role::Spectator)
    } else if role == Role::CreatureHost.to_byte() {
        Some(Role::CreatureHost)
    } else {
        None
    }
}

/// Whether byte offset `k` of the UTF-8 text `text` falls between two characters: at either
/// end, or before a byte that does not continue a character.
pub open spec fn char_boundary(text: Seq<u8>, k: int) -> bool {
    0 <= k <= text.len() && (k == 0 || k == text.len() || !(0x80 <= text[k] < 0xC0))
}

/// The most bytes of a detail line a caller's buffer of `capacity` bytes can hold, with room
/// left for the terminating zero.
pub open spec fn detail_room(text_len: int, capacity: u32) -> int {
    if text_len < capacity - 1 {
        text_len
    } else {
        capacity - 1
    }
}

/// How many bytes of the UTF-8 detail line `text` to copy into a caller's buffer of `capacity`
/// bytes: the longest run of whole characters that leaves room for the terminating zero, so the
/// line is never cut inside a character; `None` when the caller declined the words with a zero
/// capacity.
pub fn detail_fit(text: &[u8], capacity: u32) -> (take: Option<usize>)
    ensures
        match take {
            Some(k) => {
                &&& capacity > 0
                &&& k <= detail_room(text@.len() as int, capacity)
                &&& char_boundary(text@, k as int)
                &&& forall|j: int|
                    k < j <= detail_room(text@.len() as int, capacity) ==> !#[trigger] char_boundary(text@, j)
            },
            None => capacity == 0,
        },
{
    if capacity == 0 {
        return None;
    }
    let room = (capacity - 1) as usize;
    let mut take = if text.len() < room {
        text.len()
    } else {
        room
    };
    let ghost limit = take as int;
    assert(limit == detail_room(text@.len() as int, capacity));
    while take > 0 && take < text.len() && 0x80 <= text[take] && text[take] < 0xC0
        invariant
            take <= limit,
            limit <= text@.len(),
            limit == detail_room(text@.len() as int, capacity),
            forall|j: int| take < j <= limit ==> !#[trigger] char_boundary(text@, j),
        decreases take,
    {
        take = take - 1;
    }
    Some(take)
}

/// Whether a REZ handed across the boundary may have its rows read: every count within its cap,
/// and a row array present wherever its count is not zero. A lying count never makes the
/// library read past the arrays it was handed.
pub fn rez_arguments_acceptable(header: &Rez, has_vertices: bool, has_triangles: bool, has_materials: bool) -> (acceptable: bool)
    ensures
        acceptable == (header.vertex_count <= REZ_MAX_VERTICES && header.triangle_count
            <= REZ_MAX_TRIANGLES && header.material_count <= REZ_MAX_MATERIALS && (
        header.vertex_count == 0 || has_vertices) && (header.triangle_count == 0 || has_triangles)
            && (header.material_count == 0 || has_materials)),
{
    if header.vertex_count > REZ_MAX_VERTICES || header.triangle_count > REZ_MAX_TRIANGLES
        || header.material_count > REZ_MAX_MATERIALS {
        return false;
    }
    if (header.vertex_count > 0 && !has_vertices) || (header.triangle_count > 0 && !has_triangles)
        || (header.material_count > 0 && !has_materials) {
        return false;
    }
    true
}

/// Whether a TICK_STATE handed across the boundary may have its rows read: the count within its
/// cap, and the row array present unless the count is zero.
pub fn tick_arguments_acceptable(header: &TickStateHeader, has_states: bool) -> (acceptable: bool)
    ensures
        acceptable == (header.creature_count <= TICK_STATE_MAX_CREATURES && (header.creature_count
            == 0 || has_states)),
{
    header.creature_count <= TICK_STATE_MAX_CREATURES && (header.creature_count == 0 || has_states)
}

/// Whether a PROPRIOCEPTION handed across the boundary may have its contacts read: the count
/// within its cap, and the contact array present unless the count is zero.
pub fn contact_arguments_acceptable(header: &Proprioception, has_contacts: bool) -> (acceptable: bool)
    ensures
        acceptable == (header.contact_count <= CONTACTS_MAX && (header.contact_count == 0
            || has_contacts)),
{
    header.contact_count <= CONTACTS_MAX && (header.contact_count == 0 || has_contacts)
}

/// What a client handle stands on: a socket with its end's rules, a recording being written, or
/// a recording being read back.
#[derive(Clone, Copy, PartialEq, Eq, Debug)]
pub enum EndKind {
    Wire(EndRules),
    Recording,
    Replay,
}

impl EndKind {
    /// Whether ACTIONS and REZ may be staged here: not by a spectator, and never on a replay,
    /// which has nobody to talk to.
    pub fn may_send_intents(&self) -> (may: bool)
        ensures
            may == match *self {
                EndKind::Wire(rules) => !rules.forbid_outgoing_actions,
                EndKind::Recording => true,
                EndKind::Replay => false,
            },
    {
        match self {
            EndKind::Wire(rules) => rules.may_send_intents(),
            EndKind::Recording => true,
            EndKind::Replay => false,
        }
    }

    /// Whether PROPRIOCEPTION may be staged here: on the server's end of a wire, or into a
    /// recording.
    pub fn may_send_proprioception(&self) -> (may: bool)
        ensures
            may == match *self {
                EndKind::Wire(rules) => rules.server_held,
                EndKind::Recording => true,
                EndKind::Replay => false,
            },
    {
        match self {
            EndKind::Wire(rules) => rules.may_send_proprioception(),
            EndKind::Recording => true,
            EndKind::Replay => false,
        }
    }
}

/// What a client handle stands on, with the end itself: a connection, a recording being
/// written, or a recording being read back.
pub enum End<W, F, R> {
    Wire(Connection<W>),
    Recording(Recorder<F>),
    Replay(Replayer<R>),
}

impl<W: Wire, F: Sink, R: Source> End<W, F, R> {
    /// The end's own well-formedness.
    pub open spec fn wf(&self) -> bool {
        match self {
            End::Wire(connection) => connection.wf(),
            End::Recording(recorder) => recorder.wf(),
            End::Replay(replayer) => replayer.wf(),
        }
    }

    /// The kind of end, with a connection's rules.
    pub open spec fn kind_spec(&self) -> EndKind {
        match self {
            End::Wire(connection) => EndKind::Wire(connection.rules_spec()),
            End::Recording(_) => EndKind::Recording,
            End::Replay(_) => EndKind::Replay,
        }
    }

    /// The kind of end this is.
    pub fn kind(&self) -> (kind: EndKind)
        ensures
            kind == self.kind_spec(),
    {
        match self {
            End::Wire(connection) => EndKind::Wire(connection.rules()),
            End::Recording(_) => EndKind::Recording,
            End::Replay(_) => EndKind::Replay,
        }
    }

    /// The next message: a connection's or a replay's, and never one from a recording, which
    /// only writes.
    pub fn poll(&mut self) -> (result: Result<Option<Message>, TransportError>)
        requires
            old(self).wf(),
        ensures
            final(self).wf(),
            final(self).kind_spec() == old(self).kind_spec(),
            *old(self) is Recording ==> result matches Ok(None),
            match *old(self) {
                End::Wire(connection) => answers_decided(connection.decided(), Some(connection.rules_spec()), result),
                End::Replay(replayer) => answers_decided(replayer.decided(), None, result),
                End::Recording(_) => true,
            },
            result matches Ok(None) && !(*old(self) is Recording) ==> match *final(self) {
                End::Wire(connection) => connection.decided().is_none(),
                End::Replay(replayer) => replayer.decided().is_none(),
                End::Recording(_) => true,
            },
            result matches Ok(Some(m)) ==> decode_refusal(message_type(m@).to_byte(), frame_payload(m@)).is_none()
                && encode_refusal(m@).is_none(),
            *old(self) matches End::Wire(connection) ==> (result matches Ok(Some(m)) ==> !arrives_wrong_way(
                message_type(m@),
                connection.rules_spec().server_held,
            ) && !(connection.rules_spec().forbid_incoming_actions && is_intent(message_type(m@)))),
            match (*old(self), *final(self)) {
                (End::Wire(before), End::Wire(after)) => poll_took_from_wire(before, after, result),
                (End::Replay(before), End::Replay(after)) => poll_took_from_file(before, after, result),
                _ => true,
            },
    {
        match self {
            End::Wire(connection) => connection.poll(),
            End::Recording(_) => Ok(None),
            End::Replay(replayer) => replayer.poll(),
        }
    }

    /// Stages a message on a connection or into a recording, refusing what the codec refuses. A
    /// replay has nobody to talk to, and refuses everything.
    pub fn queue(&mut self, message: &Message) -> (result: Result<(), EncodeError>)
        requires
            old(self).wf(),
        ensures
            final(self).wf(),
            final(self).kind_spec() == old(self).kind_spec(),
            match *old(self) {
                End::Replay(_) => result == Err::<(), EncodeError>(EncodeError::ReservedNotZero),
                _ => match result {
                    Ok(()) => encode_refusal(message@).is_none(),
                    Err(e) => encode_refusal(message@) == Some(e),
                },
            },
    {
        match self {
            End::Wire(connection) => connection.queue(message),
            End::Recording(recorder) => recorder.queue(message),
            End::Replay(_) => Err(EncodeError::ReservedNotZero),
        }
    }

    /// Pushes what is staged: down the wire, or into the file. A replay has nothing to push.
    pub fn flush(&mut self) -> (result: Result<bool, TransportError>)
        requires
            old(self).wf(),
            *old(self) matches End::Recording(recorder) ==> recorder.written_spec()
                + recorder.unwritten().len() <= u64::MAX,
        ensures
            final(self).wf(),
            final(self).kind_spec() == old(self).kind_spec(),
            *old(self) is Replay ==> result matches Ok(true),
            match *old(self) {
                End::Wire(connection) => connection.takes_everything() ==> result matches Ok(true),
                End::Recording(recorder) => recorder.takes_everything() ==> result matches Ok(true),
                End::Replay(_) => true,
            },
            result matches Ok(true) && !(*old(self) is Replay) ==> match *final(self) {
                End::Wire(connection) => connection.unwritten() == Seq::<u8>::empty(),
                End::Recording(recorder) => recorder.unwritten() == Seq::<u8>::empty(),
                End::Replay(_) => true,
            },
            match (*old(self), *final(self)) {
                (End::Wire(before), End::Wire(after)) => before.models_intake() ==> {
                    &&& after.models_intake()
                    &&& after.intake() == before.intake() + before.unwritten().take(
                        before.unwritten().len() - after.unwritten().len(),
                    )
                },
                (End::Recording(before), End::Recording(after)) => before.models_intake() ==> {
                    &&& after.models_intake()
                    &&& after.intake() == before.intake() + before.unwritten().take(
                        before.unwritten().len() - after.unwritten().len(),
                    )
                },
                _ => true,
            },
    {
        match self {
            End::Wire(connection) => connection.flush(),
            End::Recording(recorder) => recorder.flush(),
            End::Replay(_) => Ok(true),
        }
    }
}

/// The WELCOME a replay opens with: the recording's start and world, as a server's would say.
pub fn replay_welcome(header: &RecordingHeader) -> (welcome: Welcome)
    ensures
        welcome.current_tick == header.start_tick,
        welcome.nominal_dt_seconds == header.nominal_dt_seconds,
        welcome.client_id == 0,
        welcome.world_fingerprint == header.world_fingerprint,
{
    Welcome {
        current_tick: header.start_tick,
        nominal_dt_seconds: header.nominal_dt_seconds,
        client_id: 0,
        world_fingerprint: header.world_fingerprint,
    }
}

} // verus!
