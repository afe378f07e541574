//! Bytes to messages and back, by refusal.

use vstd::prelude::*;
use crate::protocol::{
    Actions, Contact, CreatureState, Derez, Event, Hello, Ping, Pong, Proprioception, Refused, Rez,
    RezMaterial, RezTriangle, RezVertex, TickStateHeader, Welcome, MessageType, SegmentPose, ACTIONS_BYTES, CONTACTS_MAX,
    CONTACT_BYTES, CREATURE_STATE_BYTES, DEREZ_BYTES, EVENT_BYTES, FRAME_HEADER_BYTES, HELLO_BYTES,
    PING_BYTES, PONG_BYTES, PROPRIOCEPTION_HEADER_BYTES, REFUSED_BYTES, REZ_HEADER_BYTES,
    REZ_MATERIAL_BYTES, REZ_MAX_MATERIALS, REZ_MAX_TRIANGLES, REZ_MAX_VERTICES, REZ_TRIANGLE_BYTES,
    REZ_VERTEX_BYTES, SEGMENTS_MAX, TICK_HEADER_BYTES, TICK_STATE_MAX_CREATURES, WELCOME_BYTES,
};
use crate::ieee::{
    finite, above_zero, at_least_zero, is_zero, is_finite, is_above_zero, is_at_least_zero,
    is_zero_bits,
};
use crate::layout::{
    MessageV, first_failing, row, state_words, triangle_words, vertex_words, material_words,
    contact_words, proprioception_words, payload_words, hello_words, flatten, lemma_first_failing,
    lemma_flatten_push, push_hello_words, push_rez_header_words, push_vertex_words,
    push_triangle_words, push_material_words, push_state_words, push_tick_header_words,
    push_proprioception_words, push_contact_words, push_welcome_words, push_actions_words,
    push_event_words, push_derez_words, push_refused_words, push_u64, message_type, frame_of,
    frame_payload, fingerprint_words, pose_words, state_head_words, lemma_rows_flatten,
    rez_header_words,
};
use crate::words::{
    byte_of, words_of, push_words, lemma_words_of_bytes, read_word, read_u64, read_words3,
    read_words7, read_words, low_byte, upper_bytes_clear, lemma_low_byte_word, lemma_zero_word,
    lemma_bytes_of_words,
};

verus! {

/// A decoded message, owning its rows.
#[derive(Clone, PartialEq, Debug)]
#[allow(inconsistent_fields)]
pub enum Message {
    Hello(Hello),
    Welcome(Welcome),
    Rez { header: Rez, vertices: Vec<RezVertex>, triangles: Vec<RezTriangle>, materials: Vec<RezMaterial> },
    TickState { header: TickStateHeader, states: Vec<CreatureState> },
    Actions(Actions),
    Event(Event),
    Derez(Derez),
    Refused(Refused),
    /// The owner's letter: the body's feel this tick, contacts copied out.
    Proprioception { header: Proprioception, contacts: Vec<Contact> },
    Ping(Ping),
    Pong(Pong),
    Bye,
}

} // verus!

verus! {

/// Why a frame was refused. Every variant names the field that betrayed it.
#[derive(Clone, Copy, PartialEq, Eq, Debug)]
#[allow(inconsistent_fields)]
pub enum DecodeError {
    /// The type byte is not a message this end speaks.
    UnknownOrReservedType(u8),
    /// The payload length does not match what the type demands.
    WrongLength { expected: usize, got: usize },
    /// A TICK_STATE length that cannot be a header plus whole rows.
    RaggedTickState { got: usize },
    /// A TICK_STATE whose row count exceeds the cap.
    CountOverCap { count: u32 },
    /// A TICK_STATE whose declared count disagrees with its length.
    CountLengthMismatch { count: u32, rows_by_length: usize },
    /// A PROPRIOCEPTION length that cannot be a header plus whole contacts.
    RaggedProprioception { got: usize },
    ContactsOverCap { count: u32 },
    ContactsLengthMismatch { count: u32, rows_by_length: usize },
    /// A grounded byte that is neither 0 nor 1.
    InvalidGrounded(u8),
    /// A force, servo reading or contact that is not finite.
    ProprioceptionNotFinite,
    /// A role byte that is neither spectator nor creature host.
    InvalidRole(u8),
    /// An event kind byte no end emits.
    InvalidEventKind(u8),
    /// A REFUSED with a reason nobody named.
    InvalidRefusalReason(u8),
    /// Reserved bytes must be zero.
    ReservedNotZero,
    /// A REZ count beyond its cap, refused before any row is read.
    RezCountOverCap { vertices: u32, triangles: u32, materials: u32 },
    /// A REZ whose declared counts do not sum to its frame length.
    RezLengthMismatch { expected: usize, got: usize },
    /// A triangle naming a vertex or material that does not exist.
    RezIndexOutOfRange { triangle: u32 },
    /// A REZ real number that is not finite.
    RezNotFinite,
    /// A chain of no segments, or of more than the cap.
    RezSegmentCountOutOfRange { count: u32 },
    /// A spacing that is not finite, not positive for a chain, or not zero for a single body.
    RezSpacingInvalid,
    /// Servo bounds that cannot be.
    RezServoInvalid,
    /// A TICK_STATE row whose chain is empty or over the cap.
    SegmentCountOutOfRange { creature_id: u32, count: u32 },
    /// A TICK_STATE real number that is not finite.
    TickStateNotFinite { creature_id: u32 },
    /// A segment slot beyond the chain's length that is not all zero.
    SegmentSlotNotZero { creature_id: u32 },
}

/// Why a message was refused at the sending end: exactly what decode refuses, minus the errors
/// only raw bytes can have.
#[derive(Clone, Copy, PartialEq, Eq, Debug)]
#[allow(inconsistent_fields)]
pub enum EncodeError {
    CountOverCap { count: usize },
    /// A TICK_STATE header whose declared count disagrees with the rows supplied.
    CountRowsMismatch { count: u32, rows: usize },
    InvalidRole(u8),
    InvalidEventKind(u8),
    InvalidRefusalReason(u8),
    ReservedNotZero,
    RezCountOverCap { vertices: u32, triangles: u32, materials: u32 },
    RezCountRowsMismatch,
    RezIndexOutOfRange { triangle: u32 },
    RezNotFinite,
    ContactsOverCap { count: usize },
    ContactsRowsMismatch { count: u32, rows: usize },
    RezSegmentCountOutOfRange { count: u32 },
    RezSpacingInvalid,
    RezServoInvalid,
    SegmentCountOutOfRange { creature_id: u32, count: u32 },
    TickStateNotFinite { creature_id: u32 },
    SegmentSlotNotZero { creature_id: u32 },
    InvalidGrounded(u8),
    ProprioceptionNotFinite,
}

/// What a type byte's payload may look like, answerable from the three header bytes alone.
#[derive(Clone, Copy, PartialEq, Eq, Debug)]
pub enum PayloadRule {
    /// The length must equal this exactly.
    Exact(usize),
    /// TICK_STATE: header plus at most [`TICK_STATE_MAX_CREATURES`] whole rows.
    TickState,
    /// REZ: at least its header, at most a maximal body.
    Rez,
    /// PROPRIOCEPTION: header plus at most [`CONTACTS_MAX`] whole contacts.
    Proprioception,
}

/// The largest REZ payload: the header and every row at its cap.
pub open spec fn max_rez_payload() -> int {
    REZ_HEADER_BYTES + REZ_MAX_VERTICES * REZ_VERTEX_BYTES + REZ_MAX_TRIANGLES * REZ_TRIANGLE_BYTES
        + REZ_MAX_MATERIALS * REZ_MATERIAL_BYTES
}

/// The largest TICK_STATE payload: the header and every row at its cap.
pub open spec fn max_tick_payload() -> int {
    TICK_HEADER_BYTES + TICK_STATE_MAX_CREATURES * CREATURE_STATE_BYTES
}

/// The most bytes any legal frame occupies: the header and the larger of a maximal REZ and a
/// full TICK_STATE.
pub open spec fn max_frame_bytes_spec() -> int {
    FRAME_HEADER_BYTES + if max_rez_payload() > max_tick_payload() {
        max_rez_payload()
    } else {
        max_tick_payload()
    }
}

/// The most bytes any legal frame occupies on the wire, header included: a receive buffer this
/// big can hold anything a lawful end may send.
pub fn max_frame_bytes() -> (bytes: usize)
    ensures
        bytes == max_frame_bytes_spec(),
        bytes == 48147,
{
    let tick: usize = TICK_HEADER_BYTES + (TICK_STATE_MAX_CREATURES as usize) * CREATURE_STATE_BYTES;
    let rez: usize = REZ_HEADER_BYTES + (REZ_MAX_VERTICES as usize) * REZ_VERTEX_BYTES
        + (REZ_MAX_TRIANGLES as usize) * REZ_TRIANGLE_BYTES + (REZ_MAX_MATERIALS as usize)
        * REZ_MATERIAL_BYTES;
    FRAME_HEADER_BYTES + if rez > tick {
        rez
    } else {
        tick
    }
}

/// The three header bytes, decoded: payload length and raw type byte.
pub fn decode_frame_header(header: [u8; 3]) -> (decoded: (u16, u8))
    ensures
        decoded.0 as int == header[0] as int + 256 * header[1] as int,
        decoded.1 == header[2],
{
    ((header[0] as u16) + 256 * (header[1] as u16), header[2])
}

/// The rule a type byte's payload must satisfy, or the refusal of a type nobody speaks.
pub open spec fn rule_of(type_byte: u8) -> Result<PayloadRule, DecodeError> {
    if type_byte == 1 {
        Ok(PayloadRule::Exact(HELLO_BYTES))
    } else if type_byte == 2 {
        Ok(PayloadRule::Exact(WELCOME_BYTES))
    } else if type_byte == 3 {
        Ok(PayloadRule::Rez)
    } else if type_byte == 4 {
        Ok(PayloadRule::TickState)
    } else if type_byte == 5 {
        Ok(PayloadRule::Exact(ACTIONS_BYTES))
    } else if type_byte == 6 {
        Ok(PayloadRule::Exact(EVENT_BYTES))
    } else if type_byte == 7 {
        Ok(PayloadRule::Exact(DEREZ_BYTES))
    } else if type_byte == 8 {
        Ok(PayloadRule::Exact(PING_BYTES))
    } else if type_byte == 9 {
        Ok(PayloadRule::Exact(PONG_BYTES))
    } else if type_byte == 10 {
        Ok(PayloadRule::Exact(0))
    } else if type_byte == 11 {
        Ok(PayloadRule::Proprioception)
    } else if type_byte == 12 {
        Ok(PayloadRule::Exact(REFUSED_BYTES))
    } else {
        Err(DecodeError::UnknownOrReservedType(type_byte))
    }
}

/// The before-any-copy gate: the rule a type byte's payload must satisfy, or the refusal for a
/// type no end speaks.
pub fn payload_rule(type_byte: u8) -> (rule: Result<PayloadRule, DecodeError>)
    ensures
        rule == rule_of(type_byte),
{
    if type_byte == 1 {
        Ok(PayloadRule::Exact(HELLO_BYTES))
    } else if type_byte == 2 {
        Ok(PayloadRule::Exact(WELCOME_BYTES))
    } else if type_byte == 3 {
        Ok(PayloadRule::Rez)
    } else if type_byte == 4 {
        Ok(PayloadRule::TickState)
    } else if type_byte == 5 {
        Ok(PayloadRule::Exact(ACTIONS_BYTES))
    } else if type_byte == 6 {
        Ok(PayloadRule::Exact(EVENT_BYTES))
    } else if type_byte == 7 {
        Ok(PayloadRule::Exact(DEREZ_BYTES))
    } else if type_byte == 8 {
        Ok(PayloadRule::Exact(PING_BYTES))
    } else if type_byte == 9 {
        Ok(PayloadRule::Exact(PONG_BYTES))
    } else if type_byte == 10 {
        Ok(PayloadRule::Exact(0))
    } else if type_byte == 11 {
        Ok(PayloadRule::Proprioception)
    } else if type_byte == 12 {
        Ok(PayloadRule::Exact(REFUSED_BYTES))
    } else {
        Err(DecodeError::UnknownOrReservedType(type_byte))
    }
}

/// The refusal a payload length earns under a rule, if any.
pub open spec fn length_refusal(rule: PayloadRule, length: usize) -> Option<DecodeError> {
    match rule {
        PayloadRule::Exact(expected) => if length == expected {
            None
        } else {
            Some(DecodeError::WrongLength { expected, got: length })
        },
        PayloadRule::TickState => if length < TICK_HEADER_BYTES || (length - TICK_HEADER_BYTES)
            % (CREATURE_STATE_BYTES as int) != 0 {
            Some(DecodeError::RaggedTickState { got: length })
        } else if (length - TICK_HEADER_BYTES) / (CREATURE_STATE_BYTES as int)
            > TICK_STATE_MAX_CREATURES {
            Some(
                DecodeError::CountOverCap {
                    count: ((length - TICK_HEADER_BYTES) / (CREATURE_STATE_BYTES as int)) as u32,
                },
            )
        } else {
            None
        },
        PayloadRule::Proprioception => if length < PROPRIOCEPTION_HEADER_BYTES || (length
            - PROPRIOCEPTION_HEADER_BYTES) % (CONTACT_BYTES as int) != 0 {
            Some(DecodeError::RaggedProprioception { got: length })
        } else if (length - PROPRIOCEPTION_HEADER_BYTES) / (CONTACT_BYTES as int) > CONTACTS_MAX {
            Some(
                DecodeError::ContactsOverCap {
                    count: ((length - PROPRIOCEPTION_HEADER_BYTES) / (CONTACT_BYTES as int)) as u32,
                },
            )
        } else {
            None
        },
        PayloadRule::Rez => if length < REZ_HEADER_BYTES || length > max_rez_payload() {
            Some(DecodeError::RezLengthMismatch { expected: REZ_HEADER_BYTES, got: length })
        } else {
            None
        },
    }
}

/// The length check a rule implies, run on the header alone so the transport can hang up
/// without reading a byte of a hostile payload.
pub fn check_length(rule: PayloadRule, length: usize) -> (verdict: Result<(), DecodeError>)
    ensures
        match verdict {
            Ok(()) => length_refusal(rule, length).is_none(),
            Err(e) => length_refusal(rule, length) == Some(e),
        },
{
    match rule {
        PayloadRule::Exact(expected) => {
            if length == expected {
                Ok(())
            } else {
                Err(DecodeError::WrongLength { expected, got: length })
            }
        },
        PayloadRule::TickState => {
            if length < TICK_HEADER_BYTES || (length - TICK_HEADER_BYTES) % CREATURE_STATE_BYTES
                != 0 {
                return Err(DecodeError::RaggedTickState { got: length });
            }
            let rows = (length - TICK_HEADER_BYTES) / CREATURE_STATE_BYTES;
            if rows > TICK_STATE_MAX_CREATURES as usize {
                return Err(DecodeError::CountOverCap { count: rows as u32 });
            }
            Ok(())
        },
        PayloadRule::Proprioception => {
            if length < PROPRIOCEPTION_HEADER_BYTES || (length - PROPRIOCEPTION_HEADER_BYTES)
                % CONTACT_BYTES != 0 {
                return Err(DecodeError::RaggedProprioception { got: length });
            }
            let rows = (length - PROPRIOCEPTION_HEADER_BYTES) / CONTACT_BYTES;
            if rows > CONTACTS_MAX as usize {
                return Err(DecodeError::ContactsOverCap { count: rows as u32 });
            }
            Ok(())
        },
        PayloadRule::Rez => {
            let max_rez: usize = REZ_HEADER_BYTES + (REZ_MAX_VERTICES as usize) * REZ_VERTEX_BYTES
                + (REZ_MAX_TRIANGLES as usize) * REZ_TRIANGLE_BYTES + (REZ_MAX_MATERIALS as usize)
                * REZ_MATERIAL_BYTES;
            if length < REZ_HEADER_BYTES || length > max_rez {
                Err(DecodeError::RezLengthMismatch { expected: REZ_HEADER_BYTES, got: length })
            } else {
                Ok(())
            }
        },
    }
}

} // verus!

verus! {

/// What is wrong with one TICK_STATE row, judged on its 47 words.
#[derive(Clone, Copy, PartialEq, Eq, Debug)]
pub enum StateFault {
    /// The chain is empty or longer than [`SEGMENTS_MAX`].
    CountOutOfRange(u32),
    /// A real number of the head or of a segment slot is not finite.
    NotFinite,
    /// A slot beyond the chain is not all zero.
    SlotNotZero,
}

/// A row's faults, in the order they are judged: the chain's count, then every real number
/// (the head's and every slot's), then the slots beyond the chain.
pub open spec fn state_fault(w: Seq<u32>) -> Option<StateFault> {
    let count = w[11];
    if count == 0 || count > SEGMENTS_MAX {
        Some(StateFault::CountOutOfRange(count))
    } else if exists|i: int| (1 <= i <= 10 || 12 <= i < 47) && !finite(#[trigger] w[i]) {
        Some(StateFault::NotFinite)
    } else if exists|i: int| 12 + 5 * (count - 1) <= i < 47 && #[trigger] w[i] != 0 {
        Some(StateFault::SlotNotZero)
    } else {
        None
    }
}

/// The spacing rule: finite always; zero for a chain of one, strictly positive otherwise.
pub open spec fn spacing_fits(segment_count: u32, spacing: u32) -> bool {
    finite(spacing) && if segment_count > 1 {
        above_zero(spacing)
    } else {
        is_zero(spacing)
    }
}

/// The servos' bounds: both finite and not negative, and zero together or set together.
pub open spec fn servos_fit(max_joint_angle: u32, max_joint_torque: u32) -> bool {
    finite(max_joint_angle) && finite(max_joint_torque) && at_least_zero(max_joint_angle)
        && at_least_zero(max_joint_torque) && (is_zero(max_joint_angle) == is_zero(
        max_joint_torque,
    ))
}

pub open spec fn vertex_bad(w: Seq<u32>) -> bool {
    !(finite(w[0]) && finite(w[1]) && finite(w[2]))
}

pub open spec fn triangle_bad(w: Seq<u32>, vertices: u32, materials: u32) -> bool {
    !(w[0] < vertices && w[1] < vertices && w[2] < vertices && w[3] < materials)
}

pub open spec fn material_bad(w: Seq<u32>) -> bool {
    exists|j: int| 0 <= j < 8 && !finite(#[trigger] w[j])
}

pub open spec fn contact_bad(w: Seq<u32>) -> bool {
    exists|j: int| 0 <= j < 13 && !finite(#[trigger] w[j])
}

pub open spec fn upper_bytes_zero(w: u32) -> bool {
    byte_of(w, 1) == 0 && byte_of(w, 2) == 0 && byte_of(w, 3) == 0
}

pub open spec fn zeros3(b: [u8; 3]) -> bool {
    b[0] == 0 && b[1] == 0 && b[2] == 0
}

pub open spec fn zeros4(b: [u8; 4]) -> bool {
    b[0] == 0 && b[1] == 0 && b[2] == 0 && b[3] == 0
}

pub open spec fn zeros8(b: [u8; 8]) -> bool {
    forall|i: int| 0 <= i < 8 ==> #[trigger] b[i] == 0
}

/// The sending side's name for a row's fault.
pub open spec fn state_encode_error(creature_id: u32, fault: StateFault) -> EncodeError {
    match fault {
        StateFault::CountOutOfRange(count) => EncodeError::SegmentCountOutOfRange { creature_id, count },
        StateFault::NotFinite => EncodeError::TickStateNotFinite { creature_id },
        StateFault::SlotNotZero => EncodeError::SegmentSlotNotZero { creature_id },
    }
}

/// The receiving side's name for a row's fault.
pub open spec fn state_decode_error(creature_id: u32, fault: StateFault) -> DecodeError {
    match fault {
        StateFault::CountOutOfRange(count) => DecodeError::SegmentCountOutOfRange { creature_id, count },
        StateFault::NotFinite => DecodeError::TickStateNotFinite { creature_id },
        StateFault::SlotNotZero => DecodeError::SegmentSlotNotZero { creature_id },
    }
}

pub open spec fn states_fail(states: Seq<CreatureState>) -> spec_fn(int) -> bool {
    |r: int| state_fault(state_words(states[r])).is_some()
}

pub open spec fn triangles_fail(triangles: Seq<RezTriangle>, vertices: u32, materials: u32) -> spec_fn(int) -> bool {
    |k: int| triangle_bad(triangle_words(triangles[k]), vertices, materials)
}

/// What encode refuses a message for, in the order it judges, or `None` for a message it
/// sends.
pub open spec fn encode_refusal(m: MessageV) -> Option<EncodeError> {
    match m {
        MessageV::Hello(h) => if h.role != 1 && h.role != 2 {
            Some(EncodeError::InvalidRole(h.role))
        } else if !zeros3(h.reserved0) {
            Some(EncodeError::ReservedNotZero)
        } else {
            None
        },
        MessageV::Welcome(_) => None,
        MessageV::Rez { header, vertices, triangles, materials } => {
            let first_bad = first_failing(
                triangles.len() as int,
                triangles_fail(triangles, header.vertex_count, header.material_count),
            );
            if header.vertex_count > REZ_MAX_VERTICES || header.triangle_count > REZ_MAX_TRIANGLES
                || header.material_count > REZ_MAX_MATERIALS {
                Some(
                    EncodeError::RezCountOverCap {
                        vertices: header.vertex_count,
                        triangles: header.triangle_count,
                        materials: header.material_count,
                    },
                )
            } else if header.vertex_count != vertices.len() || header.triangle_count
                != triangles.len() || header.material_count != materials.len() {
                Some(EncodeError::RezCountRowsMismatch)
            } else if !finite(header.max_forward_speed) || !finite(header.max_turn_rate) || !finite(
                header.max_vocalisation_strength,
            ) {
                Some(EncodeError::RezNotFinite)
            } else if header.segment_count == 0 || header.segment_count > SEGMENTS_MAX {
                Some(EncodeError::RezSegmentCountOutOfRange { count: header.segment_count })
            } else if !spacing_fits(header.segment_count, header.segment_spacing) {
                Some(EncodeError::RezSpacingInvalid)
            } else if !servos_fit(header.max_joint_angle, header.max_joint_torque) {
                Some(EncodeError::RezServoInvalid)
            } else if first_bad < triangles.len() {
                Some(EncodeError::RezIndexOutOfRange { triangle: first_bad as u32 })
            } else if exists|r: int| 0 <= r < vertices.len() && vertex_bad(
                vertex_words(#[trigger] vertices[r]),
            ) {
                Some(EncodeError::RezNotFinite)
            } else if exists|r: int| 0 <= r < materials.len() && material_bad(
                material_words(#[trigger] materials[r]),
            ) {
                Some(EncodeError::RezNotFinite)
            } else {
                None
            }
        },
        MessageV::TickState { header, states } => {
            let first_bad = first_failing(states.len() as int, states_fail(states));
            if states.len() > TICK_STATE_MAX_CREATURES {
                Some(EncodeError::CountOverCap { count: states.len() as usize })
            } else if !zeros4(header.reserved0) {
                Some(EncodeError::ReservedNotZero)
            } else if header.creature_count != states.len() {
                Some(
                    EncodeError::CountRowsMismatch {
                        count: header.creature_count,
                        rows: states.len() as usize,
                    },
                )
            } else if first_bad < states.len() {
                Some(
                    state_encode_error(
                        states[first_bad].creature_id,
                        state_fault(state_words(states[first_bad])).unwrap(),
                    ),
                )
            } else {
                None
            }
        },
        MessageV::Actions(a) => if !zeros4(a.reserved0) {
            Some(EncodeError::ReservedNotZero)
        } else {
            None
        },
        MessageV::Event(e) => if e.kind != 1 && e.kind != 2 {
            Some(EncodeError::InvalidEventKind(e.kind))
        } else if !zeros3(e.reserved0) {
            Some(EncodeError::ReservedNotZero)
        } else {
            None
        },
        MessageV::Proprioception { header, contacts } => if contacts.len() > CONTACTS_MAX {
            Some(EncodeError::ContactsOverCap { count: contacts.len() as usize })
        } else if header.contact_count != contacts.len() {
            Some(
                EncodeError::ContactsRowsMismatch {
                    count: header.contact_count,
                    rows: contacts.len() as usize,
                },
            )
        } else if header.grounded > 1 {
            Some(EncodeError::InvalidGrounded(header.grounded))
        } else if !zeros3(header.reserved0) || !zeros8(header.reserved1) {
            Some(EncodeError::ReservedNotZero)
        } else if (exists|i: int| 4 <= i < 21 && !finite(
            #[trigger] proprioception_words(header)[i],
        )) || (exists|r: int| 0 <= r < contacts.len() && contact_bad(
            contact_words(#[trigger] contacts[r]),
        )) {
            Some(EncodeError::ProprioceptionNotFinite)
        } else {
            None
        },
        MessageV::Derez(d) => if !zeros4(d.reserved0) {
            Some(EncodeError::ReservedNotZero)
        } else {
            None
        },
        MessageV::Refused(r) => if r.reason < 1 || r.reason > 4 {
            Some(EncodeError::InvalidRefusalReason(r.reason))
        } else if !zeros3(r.reserved0) {
            Some(EncodeError::ReservedNotZero)
        } else {
            None
        },
        MessageV::Ping(_) => None,
        MessageV::Pong(_) => None,
        MessageV::Bye => None,
    }
}

pub open spec fn tick_rows_fail(ws: Seq<u32>) -> spec_fn(int) -> bool {
    |r: int| state_fault(row(ws, 4, 47, r)).is_some()
}

pub open spec fn rez_triangle_rows_fail(ws: Seq<u32>) -> spec_fn(int) -> bool {
    |k: int| triangle_bad(row(ws, 12 + 3 * ws[5], 4, k), ws[5], ws[7])
}

pub open spec fn rez_refusal(ws: Seq<u32>, length: usize) -> Option<DecodeError> {
    let v = ws[5];
    let t = ws[6];
    let m = ws[7];
    let expected = REZ_HEADER_BYTES + v * REZ_VERTEX_BYTES + t * REZ_TRIANGLE_BYTES + m
        * REZ_MATERIAL_BYTES;
    let first_bad = first_failing(t as int, rez_triangle_rows_fail(ws));
    if v > REZ_MAX_VERTICES || t > REZ_MAX_TRIANGLES || m > REZ_MAX_MATERIALS {
        Some(DecodeError::RezCountOverCap { vertices: v, triangles: t, materials: m })
    } else if length != expected {
        Some(DecodeError::RezLengthMismatch { expected: expected as usize, got: length })
    } else if !finite(ws[1]) || !finite(ws[2]) || !finite(ws[3]) {
        Some(DecodeError::RezNotFinite)
    } else if ws[8] == 0 || ws[8] > SEGMENTS_MAX {
        Some(DecodeError::RezSegmentCountOutOfRange { count: ws[8] })
    } else if !spacing_fits(ws[8], ws[9]) {
        Some(DecodeError::RezSpacingInvalid)
    } else if !servos_fit(ws[10], ws[11]) {
        Some(DecodeError::RezServoInvalid)
    } else if exists|r: int| 0 <= r < v && vertex_bad(#[trigger] row(ws, 12, 3, r)) {
        Some(DecodeError::RezNotFinite)
    } else if first_bad < t {
        Some(DecodeError::RezIndexOutOfRange { triangle: first_bad as u32 })
    } else if exists|r: int| 0 <= r < m && material_bad(#[trigger] row(ws, 12 + 3 * v + 4 * t, 8, r)) {
        Some(DecodeError::RezNotFinite)
    } else {
        None
    }
}

pub open spec fn tick_refusal(ws: Seq<u32>, length: usize) -> Option<DecodeError> {
    let count = ws[2];
    let rows = (length - TICK_HEADER_BYTES) / (CREATURE_STATE_BYTES as int);
    let first_bad = first_failing(rows, tick_rows_fail(ws));
    if ws[3] != 0 {
        Some(DecodeError::ReservedNotZero)
    } else if count != rows {
        Some(DecodeError::CountLengthMismatch { count, rows_by_length: rows as usize })
    } else if first_bad < rows {
        Some(
            state_decode_error(
                row(ws, 4, 47, first_bad)[0],
                state_fault(row(ws, 4, 47, first_bad)).unwrap(),
            ),
        )
    } else {
        None
    }
}

pub open spec fn proprioception_refusal(ws: Seq<u32>, length: usize) -> Option<DecodeError> {
    let rows = (length - PROPRIOCEPTION_HEADER_BYTES) / (CONTACT_BYTES as int);
    if byte_of(ws[3], 0) > 1 {
        Some(DecodeError::InvalidGrounded(byte_of(ws[3], 0)))
    } else if !upper_bytes_zero(ws[3]) || ws[22] != 0 || ws[23] != 0 {
        Some(DecodeError::ReservedNotZero)
    } else if ws[21] != rows {
        Some(DecodeError::ContactsLengthMismatch { count: ws[21], rows_by_length: rows as usize })
    } else if (exists|i: int| 4 <= i < 21 && !finite(#[trigger] ws[i])) || (exists|r: int|
        0 <= r < rows && contact_bad(#[trigger] row(ws, 24, 13, r))) {
        Some(DecodeError::ProprioceptionNotFinite)
    } else {
        None
    }
}

/// What decode refuses a well-sized payload for, by type, judged on its words.
pub open spec fn body_refusal(type_byte: u8, ws: Seq<u32>, length: usize) -> Option<DecodeError> {
    if type_byte == 1 {
        if byte_of(ws[9], 0) != 1 && byte_of(ws[9], 0) != 2 {
            Some(DecodeError::InvalidRole(byte_of(ws[9], 0)))
        } else if !upper_bytes_zero(ws[9]) {
            Some(DecodeError::ReservedNotZero)
        } else {
            None
        }
    } else if type_byte == 3 {
        rez_refusal(ws, length)
    } else if type_byte == 4 {
        tick_refusal(ws, length)
    } else if type_byte == 5 {
        if ws[23] != 0 {
            Some(DecodeError::ReservedNotZero)
        } else {
            None
        }
    } else if type_byte == 6 {
        if byte_of(ws[7], 0) != 1 && byte_of(ws[7], 0) != 2 {
            Some(DecodeError::InvalidEventKind(byte_of(ws[7], 0)))
        } else if !upper_bytes_zero(ws[7]) {
            Some(DecodeError::ReservedNotZero)
        } else {
            None
        }
    } else if type_byte == 7 {
        if ws[3] != 0 {
            Some(DecodeError::ReservedNotZero)
        } else {
            None
        }
    } else if type_byte == 11 {
        proprioception_refusal(ws, length)
    } else if type_byte == 12 {
        if byte_of(ws[3], 0) < 1 || byte_of(ws[3], 0) > 4 {
            Some(DecodeError::InvalidRefusalReason(byte_of(ws[3], 0)))
        } else if !upper_bytes_zero(ws[3]) {
            Some(DecodeError::ReservedNotZero)
        } else {
            None
        }
    } else {
        None
    }
}

/// What decode refuses a payload for, or `None` for a payload it accepts: the type, then the
/// length under the type's rule, then the payload's own fields.
pub open spec fn decode_refusal(type_byte: u8, payload: Seq<u8>) -> Option<DecodeError> {
    match rule_of(type_byte) {
        Err(e) => Some(e),
        Ok(rule) => match length_refusal(rule, payload.len() as usize) {
            Some(e) => Some(e),
            None => body_refusal(type_byte, words_of(payload), payload.len() as usize),
        },
    }
}

} // verus!

verus! {

/// `r` is what encoding `m`'s payload answers: its words, or the refusal.
pub open spec fn encoded_as(m: MessageV, r: Result<Vec<u32>, EncodeError>) -> bool {
    match r {
        Ok(ws) => encode_refusal(m).is_none() && ws@ == payload_words(m),
        Err(e) => encode_refusal(m) == Some(e),
    }
}

fn fits_spacing(segment_count: u32, spacing: u32) -> (r: bool)
    ensures
        r == spacing_fits(segment_count, spacing),
{
    is_finite(spacing) && if segment_count > 1 {
        is_above_zero(spacing)
    } else {
        is_zero_bits(spacing)
    }
}

fn fits_servos(max_joint_angle: u32, max_joint_torque: u32) -> (r: bool)
    ensures
        r == servos_fit(max_joint_angle, max_joint_torque),
{
    is_finite(max_joint_angle) && is_finite(max_joint_torque) && is_at_least_zero(max_joint_angle)
        && is_at_least_zero(max_joint_torque) && (is_zero_bits(max_joint_angle) == is_zero_bits(
        max_joint_torque,
    ))
}

/// The chain rules of one row, both ways: a count in range, every real number finite, every
/// slot beyond the chain all zero.
#[verifier::loop_isolation(false)]
fn judge_state(w: &Vec<u32>) -> (verdict: Result<(), StateFault>)
    requires
        w@.len() == 47,
    ensures
        match verdict {
            Ok(()) => state_fault(w@).is_none(),
            Err(fault) => state_fault(w@) == Some(fault),
        },
{
    let count = w[11];
    if count == 0 || count > SEGMENTS_MAX {
        return Err(StateFault::CountOutOfRange(count));
    }
    let mut i: usize = 1;
    while i < 47
        invariant
            1 <= i <= 47,
            w@.len() == 47,
            forall|j: int| (1 <= j <= 10 || 12 <= j < 47) && j < i ==> finite(#[trigger] w@[j]),
        decreases 47 - i,
    {
        if i != 11 && !is_finite(w[i]) {
            return Err(StateFault::NotFinite);
        }
        i = i + 1;
    }
    let mut i: usize = 12 + 5 * (count as usize - 1);
    while i < 47
        invariant
            12 + 5 * (count - 1) <= i,
            i <= 47 || 12 + 5 * (count - 1) == i,
            w@.len() == 47,
            count == w@[11],
            forall|j: int| 12 + 5 * (count - 1) <= j < i ==> #[trigger] w@[j] == 0,
        decreases 47 - i,
    {
        if w[i] != 0 {
            return Err(StateFault::SlotNotZero);
        }
        i = i + 1;
    }
    Ok(())
}

fn state_to_words(s: &CreatureState) -> (w: Vec<u32>)
    ensures
        w@ == state_words(*s),
        w@.len() == 47,
{
    let mut w: Vec<u32> = Vec::new();
    push_state_words(&mut w, s);
    assert(w@ =~= state_words(*s));
    w
}

fn encode_hello(h: &Hello) -> (r: Result<Vec<u32>, EncodeError>)
    ensures
        encoded_as(MessageV::Hello(*h), r),
{
    if h.role != 1 && h.role != 2 {
        return Err(EncodeError::InvalidRole(h.role));
    }
    if h.reserved0[0] != 0 || h.reserved0[1] != 0 || h.reserved0[2] != 0 {
        return Err(EncodeError::ReservedNotZero);
    }
    let mut ws: Vec<u32> = Vec::new();
    push_hello_words(&mut ws, h);
    assert(ws@ =~= hello_words(*h));
    Ok(ws)
}

#[verifier::loop_isolation(false)]
fn encode_rez(header: &Rez, vertices: &Vec<RezVertex>, triangles: &Vec<RezTriangle>, materials: &Vec<RezMaterial>) -> (r: Result<Vec<u32>, EncodeError>)
    ensures
        encoded_as(
            MessageV::Rez {
                header: *header,
                vertices: vertices@,
                triangles: triangles@,
                materials: materials@,
            },
            r,
        ),
{
    if header.vertex_count > REZ_MAX_VERTICES || header.triangle_count > REZ_MAX_TRIANGLES
        || header.material_count > REZ_MAX_MATERIALS {
        return Err(
            EncodeError::RezCountOverCap {
                vertices: header.vertex_count,
                triangles: header.triangle_count,
                materials: header.material_count,
            },
        );
    }
    if header.vertex_count as usize != vertices.len() || header.triangle_count as usize
        != triangles.len() || header.material_count as usize != materials.len() {
        return Err(EncodeError::RezCountRowsMismatch);
    }
    if !is_finite(header.max_forward_speed) || !is_finite(header.max_turn_rate) || !is_finite(
        header.max_vocalisation_strength,
    ) {
        return Err(EncodeError::RezNotFinite);
    }
    if header.segment_count == 0 || header.segment_count > SEGMENTS_MAX {
        return Err(EncodeError::RezSegmentCountOutOfRange { count: header.segment_count });
    }
    if !fits_spacing(header.segment_count, header.segment_spacing) {
        return Err(EncodeError::RezSpacingInvalid);
    }
    if !fits_servos(header.max_joint_angle, header.max_joint_torque) {
        return Err(EncodeError::RezServoInvalid);
    }
    let ghost fails = triangles_fail(triangles@, header.vertex_count, header.material_count);
    let mut i: usize = 0;
    while i < triangles.len()
        invariant
            0 <= i <= triangles@.len(),
            fails == triangles_fail(triangles@, header.vertex_count, header.material_count),
            forall|k: int| 0 <= k < i ==> !#[trigger] fails(k),
        decreases triangles@.len() - i,
    {
        let t = &triangles[i];
        if !(t.vertices[0] < header.vertex_count && t.vertices[1] < header.vertex_count
            && t.vertices[2] < header.vertex_count && t.material < header.material_count) {
            proof {
                lemma_first_failing(triangles@.len() as int, fails, i as int);
            }
            return Err(EncodeError::RezIndexOutOfRange { triangle: i as u32 });
        }
        i = i + 1;
    }
    proof {
        lemma_first_failing(triangles@.len() as int, fails, triangles@.len() as int);
    }
    let mut i: usize = 0;
    while i < vertices.len()
        invariant
            0 <= i <= vertices@.len(),
            forall|k: int| 0 <= k < i ==> !vertex_bad(vertex_words(#[trigger] vertices@[k])),
        decreases vertices@.len() - i,
    {
        let v = &vertices[i];
        if !(is_finite(v.position[0]) && is_finite(v.position[1]) && is_finite(v.position[2])) {
            assert(vertex_bad(vertex_words(vertices@[i as int])));
            return Err(EncodeError::RezNotFinite);
        }
        i = i + 1;
    }
    let mut i: usize = 0;
    while i < materials.len()
        invariant
            0 <= i <= materials@.len(),
            forall|k: int| 0 <= k < i ==> !material_bad(material_words(#[trigger] materials@[k])),
        decreases materials@.len() - i,
    {
        let mut w: Vec<u32> = Vec::new();
        push_material_words(&mut w, &materials[i]);
        let mut j: usize = 0;
        while j < 8
            invariant
                0 <= j <= 8,
                w@ == material_words(materials@[i as int]),
                w@.len() == 8,
                forall|k: int| 0 <= k < j ==> finite(#[trigger] w@[k]),
            decreases 8 - j,
        {
            if !is_finite(w[j]) {
                assert(material_bad(material_words(materials@[i as int])));
                return Err(EncodeError::RezNotFinite);
            }
            j = j + 1;
        }
        i = i + 1;
    }
    let mut ws: Vec<u32> = Vec::new();
    push_rez_header_words(&mut ws, header);
    let ghost fv = |v: RezVertex| vertex_words(v);
    let ghost ft = |t: RezTriangle| triangle_words(t);
    let ghost fm = |x: RezMaterial| material_words(x);
    let ghost start = ws@;
    let mut i: usize = 0;
    while i < vertices.len()
        invariant
            0 <= i <= vertices@.len(),
            ws@ == start + flatten(vertices@.take(i as int), 3, fv),
            fv == (|v: RezVertex| vertex_words(v)),
        decreases vertices@.len() - i,
    {
        proof {
            lemma_flatten_push(vertices@.take(i as int), 3, fv, vertices@[i as int]);
            assert(vertices@.take(i + 1) =~= vertices@.take(i as int).push(vertices@[i as int]));
        }
        push_vertex_words(&mut ws, &vertices[i]);
        i = i + 1;
    }
    assert(vertices@.take(vertices@.len() as int) =~= vertices@);
    let ghost start = ws@;
    let mut i: usize = 0;
    while i < triangles.len()
        invariant
            0 <= i <= triangles@.len(),
            ws@ == start + flatten(triangles@.take(i as int), 4, ft),
            ft == (|t: RezTriangle| triangle_words(t)),
        decreases triangles@.len() - i,
    {
        proof {
            lemma_flatten_push(triangles@.take(i as int), 4, ft, triangles@[i as int]);
            assert(triangles@.take(i + 1) =~= triangles@.take(i as int).push(triangles@[i as int]));
        }
        push_triangle_words(&mut ws, &triangles[i]);
        i = i + 1;
    }
    assert(triangles@.take(triangles@.len() as int) =~= triangles@);
    let ghost start = ws@;
    let mut i: usize = 0;
    while i < materials.len()
        invariant
            0 <= i <= materials@.len(),
            ws@ == start + flatten(materials@.take(i as int), 8, fm),
            fm == (|x: RezMaterial| material_words(x)),
        decreases materials@.len() - i,
    {
        proof {
            lemma_flatten_push(materials@.take(i as int), 8, fm, materials@[i as int]);
            assert(materials@.take(i + 1) =~= materials@.take(i as int).push(materials@[i as int]));
        }
        push_material_words(&mut ws, &materials[i]);
        i = i + 1;
    }
    assert(materials@.take(materials@.len() as int) =~= materials@);
    Ok(ws)
}

} // verus!

verus! {

#[verifier::loop_isolation(false)]
fn encode_tick_state(header: &TickStateHeader, states: &Vec<CreatureState>) -> (r: Result<Vec<u32>, EncodeError>)
    ensures
        encoded_as(MessageV::TickState { header: *header, states: states@ }, r),
{
    if states.len() > TICK_STATE_MAX_CREATURES as usize {
        return Err(EncodeError::CountOverCap { count: states.len() });
    }
    if header.reserved0[0] != 0 || header.reserved0[1] != 0 || header.reserved0[2] != 0
        || header.reserved0[3] != 0 {
        return Err(EncodeError::ReservedNotZero);
    }
    if header.creature_count as usize != states.len() {
        return Err(EncodeError::CountRowsMismatch { count: header.creature_count, rows: states.len() });
    }
    let mut ws: Vec<u32> = Vec::new();
    push_tick_header_words(&mut ws, header);
    let ghost fails = states_fail(states@);
    let ghost fs = |s: CreatureState| state_words(s);
    let ghost start = ws@;
    let mut i: usize = 0;
    while i < states.len()
        invariant
            0 <= i <= states@.len(),
            fails == states_fail(states@),
            forall|k: int| 0 <= k < i ==> !#[trigger] fails(k),
            ws@ == start + flatten(states@.take(i as int), 47, fs),
            fs == (|s: CreatureState| state_words(s)),
        decreases states@.len() - i,
    {
        let w = state_to_words(&states[i]);
        match judge_state(&w) {
            Ok(()) => {},
            Err(fault) => {
                proof {
                    lemma_first_failing(states@.len() as int, fails, i as int);
                }
                let creature_id = states[i].creature_id;
                return Err(
                    match fault {
                        StateFault::CountOutOfRange(count) => EncodeError::SegmentCountOutOfRange { creature_id, count },
                        StateFault::NotFinite => EncodeError::TickStateNotFinite { creature_id },
                        StateFault::SlotNotZero => EncodeError::SegmentSlotNotZero { creature_id },
                    },
                );
            },
        }
        proof {
            lemma_flatten_push(states@.take(i as int), 47, fs, states@[i as int]);
            assert(states@.take(i + 1) =~= states@.take(i as int).push(states@[i as int]));
        }
        push_state_words(&mut ws, &states[i]);
        i = i + 1;
    }
    proof {
        lemma_first_failing(states@.len() as int, fails, states@.len() as int);
    }
    assert(states@.take(states@.len() as int) =~= states@);
    Ok(ws)
}

#[verifier::loop_isolation(false)]
fn encode_proprioception(header: &Proprioception, contacts: &Vec<Contact>) -> (r: Result<Vec<u32>, EncodeError>)
    ensures
        encoded_as(MessageV::Proprioception { header: *header, contacts: contacts@ }, r),
{
    if contacts.len() > CONTACTS_MAX as usize {
        return Err(EncodeError::ContactsOverCap { count: contacts.len() });
    }
    if header.contact_count as usize != contacts.len() {
        return Err(EncodeError::ContactsRowsMismatch { count: header.contact_count, rows: contacts.len() });
    }
    if header.grounded > 1 {
        return Err(EncodeError::InvalidGrounded(header.grounded));
    }
    if header.reserved0[0] != 0 || header.reserved0[1] != 0 || header.reserved0[2] != 0 {
        return Err(EncodeError::ReservedNotZero);
    }
    let mut k: usize = 0;
    while k < 8
        invariant
            0 <= k <= 8,
            forall|j: int| 0 <= j < k ==> #[trigger] header.reserved1[j] == 0,
        decreases 8 - k,
    {
        if header.reserved1[k] != 0 {
            return Err(EncodeError::ReservedNotZero);
        }
        k = k + 1;
    }
    let mut ws: Vec<u32> = Vec::new();
    push_proprioception_words(&mut ws, header);
    assert(ws@ =~= proprioception_words(*header));
    let mut i: usize = 4;
    while i < 21
        invariant
            4 <= i <= 21,
            ws@ == proprioception_words(*header),
            forall|j: int| 4 <= j < i ==> finite(#[trigger] ws@[j]),
        decreases 21 - i,
    {
        if !is_finite(ws[i]) {
            return Err(EncodeError::ProprioceptionNotFinite);
        }
        i = i + 1;
    }
    let ghost fc = |c: Contact| contact_words(c);
    let ghost start = ws@;
    let mut r: usize = 0;
    while r < contacts.len()
        invariant
            0 <= r <= contacts@.len(),
            forall|k: int| 0 <= k < r ==> !contact_bad(contact_words(#[trigger] contacts@[k])),
            ws@ == start + flatten(contacts@.take(r as int), 13, fc),
            fc == (|c: Contact| contact_words(c)),
        decreases contacts@.len() - r,
    {
        let mut cw: Vec<u32> = Vec::new();
        push_contact_words(&mut cw, &contacts[r]);
        assert(cw@ =~= contact_words(contacts@[r as int]));
        let mut j: usize = 0;
        while j < 13
            invariant
                0 <= j <= 13,
                cw@ == contact_words(contacts@[r as int]),
                forall|k: int| 0 <= k < j ==> finite(#[trigger] cw@[k]),
            decreases 13 - j,
        {
            if !is_finite(cw[j]) {
                assert(contact_bad(contact_words(contacts@[r as int])));
                return Err(EncodeError::ProprioceptionNotFinite);
            }
            j = j + 1;
        }
        proof {
            lemma_flatten_push(contacts@.take(r as int), 13, fc, contacts@[r as int]);
            assert(contacts@.take(r + 1) =~= contacts@.take(r as int).push(contacts@[r as int]));
        }
        push_contact_words(&mut ws, &contacts[r]);
        r = r + 1;
    }
    assert(contacts@.take(contacts@.len() as int) =~= contacts@);
    Ok(ws)
}

fn encode_fixed(message: &Message) -> (r: Result<Vec<u32>, EncodeError>)
    requires
        !(message is Rez || message is TickState || message is Proprioception || message is Hello),
    ensures
        encoded_as(message@, r),
{
    let mut ws: Vec<u32> = Vec::new();
    match message {
        Message::Welcome(welcome) => {
            push_welcome_words(&mut ws, welcome);
        },
        Message::Actions(actions) => {
            if actions.reserved0[0] != 0 || actions.reserved0[1] != 0 || actions.reserved0[2] != 0
                || actions.reserved0[3] != 0 {
                return Err(EncodeError::ReservedNotZero);
            }
            push_actions_words(&mut ws, actions);
        },
        Message::Event(event) => {
            if event.kind != 1 && event.kind != 2 {
                return Err(EncodeError::InvalidEventKind(event.kind));
            }
            if event.reserved0[0] != 0 || event.reserved0[1] != 0 || event.reserved0[2] != 0 {
                return Err(EncodeError::ReservedNotZero);
            }
            push_event_words(&mut ws, event);
        },
        Message::Derez(derez) => {
            if derez.reserved0[0] != 0 || derez.reserved0[1] != 0 || derez.reserved0[2] != 0
                || derez.reserved0[3] != 0 {
                return Err(EncodeError::ReservedNotZero);
            }
            push_derez_words(&mut ws, derez);
        },
        Message::Refused(refused) => {
            if refused.reason < 1 || refused.reason > 4 {
                return Err(EncodeError::InvalidRefusalReason(refused.reason));
            }
            if refused.reserved0[0] != 0 || refused.reserved0[1] != 0 || refused.reserved0[2] != 0 {
                return Err(EncodeError::ReservedNotZero);
            }
            push_refused_words(&mut ws, refused);
        },
        Message::Ping(ping) => {
            push_u64(&mut ws, ping.nonce);
        },
        Message::Pong(pong) => {
            push_u64(&mut ws, pong.nonce);
        },
        _ => {},
    }
    assert(ws@ =~= payload_words(message@));
    Ok(ws)
}

/// A message to a whole frame, header and payload, appended to `out`. Refuses exactly what
/// [`decode`] refuses, and a refused encode writes nothing.
pub fn encode(message: &Message, out: &mut Vec<u8>) -> (result: Result<(), EncodeError>)
    ensures
        match result {
            Ok(()) => encode_refusal(message@).is_none() && final(out)@ == old(out)@ + frame_of(
                message@,
            ),
            Err(e) => encode_refusal(message@) == Some(e) && final(out)@ == old(out)@,
        },
{
    let words = match message {
        Message::Hello(hello) => encode_hello(hello),
        Message::Rez { header, vertices, triangles, materials } => encode_rez(header, vertices, triangles, materials),
        Message::TickState { header, states } => encode_tick_state(header, states),
        Message::Proprioception { header, contacts } => encode_proprioception(header, contacts),
        _ => encode_fixed(message),
    };
    let words = match words {
        Ok(words) => words,
        Err(e) => return Err(e),
    };
    proof {
        lemma_valid_payload_size(message@);
    }
    let length = 4 * words.len();
    let message_type = message_type_of(message);
    out.push((length % 256) as u8);
    out.push((length / 256 % 256) as u8);
    out.push(message_type.to_byte());
    push_words(out, &words);
    assert(out@ =~= old(out)@ + frame_of(message@));
    Ok(())
}

/// The type a message travels as.
pub fn message_type_of(message: &Message) -> (t: MessageType)
    ensures
        t == message_type(message@),
{
    match message {
        Message::Hello(_) => MessageType::Hello,
        Message::Welcome(_) => MessageType::Welcome,
        Message::Rez { .. } => MessageType::Rez,
        Message::TickState { .. } => MessageType::TickState,
        Message::Actions(_) => MessageType::Actions,
        Message::Event(_) => MessageType::Event,
        Message::Derez(_) => MessageType::Derez,
        Message::Refused(_) => MessageType::Refused,
        Message::Proprioception { .. } => MessageType::Proprioception,
        Message::Ping(_) => MessageType::Ping,
        Message::Pong(_) => MessageType::Pong,
        Message::Bye => MessageType::Bye,
    }
}

/// A message encode accepts has a payload no larger than the largest legal one.
pub proof fn lemma_valid_payload_size(m: MessageV)
    requires
        encode_refusal(m).is_none(),
    ensures
        payload_words(m).len() * 4 <= max_tick_payload(),
        frame_payload(m).len() == payload_words(m).len() * 4,
        frame_payload(m).len() <= max_tick_payload(),
{
    lemma_words_of_bytes(payload_words(m));
    match m {
        MessageV::Rez { header, vertices, triangles, materials } => {
            let fv = |v: RezVertex| vertex_words(v);
            let ft = |t: RezTriangle| triangle_words(t);
            let fm = |x: RezMaterial| material_words(x);
            assert(flatten(vertices, 3, fv).len() == vertices.len() * 3);
            assert(flatten(triangles, 4, ft).len() == triangles.len() * 4);
            assert(flatten(materials, 8, fm).len() == materials.len() * 8);
        },
        MessageV::TickState { header, states } => {
            let fs = |s: CreatureState| state_words(s);
            assert(flatten(states, 47, fs).len() == states.len() * 47);
        },
        MessageV::Proprioception { header, contacts } => {
            let fc = |c: Contact| contact_words(c);
            assert(flatten(contacts, 13, fc).len() == contacts.len() * 13);
        },
        _ => {},
    }
}

} // verus!

verus! {

/// `r` is what decoding a well-sized payload of type `type_byte` answers: the message whose
/// words the payload is, or the refusal.
pub open spec fn decoded_as(type_byte: u8, p: Seq<u8>, r: Result<Message, DecodeError>) -> bool {
    match r {
        Ok(m) => body_refusal(type_byte, words_of(p), p.len() as usize).is_none() && message_type(
            m@,
        ).to_byte() == type_byte && encode_refusal(m@).is_none() && payload_words(m@) == words_of(p),
        Err(e) => body_refusal(type_byte, words_of(p), p.len() as usize) == Some(e),
    }
}

fn decode_hello(p: &[u8]) -> (r: Result<Message, DecodeError>)
    requires
        p@.len() == HELLO_BYTES,
    ensures
        decoded_as(1, p@, r),
{
    let ghost ws = words_of(p@);
    let w9 = read_word(p, 9);
    let role = low_byte(w9);
    if role != 1 && role != 2 {
        return Err(DecodeError::InvalidRole(role));
    }
    if !upper_bytes_clear(w9) {
        return Err(DecodeError::ReservedNotZero);
    }
    let fingerprint: [u8; 32] = [
        p[4],
        p[5],
        p[6],
        p[7],
        p[8],
        p[9],
        p[10],
        p[11],
        p[12],
        p[13],
        p[14],
        p[15],
        p[16],
        p[17],
        p[18],
        p[19],
        p[20],
        p[21],
        p[22],
        p[23],
        p[24],
        p[25],
        p[26],
        p[27],
        p[28],
        p[29],
        p[30],
        p[31],
        p[32],
        p[33],
        p[34],
        p[35]
    ];
    let hello = Hello {
        protocol_version: read_word(p, 0),
        fingerprint,
        role,
        reserved0: [0, 0, 0],
        world_fingerprint: read_u64(p, 10),
    };
    proof {
        lemma_low_byte_word(w9);
        assert(fingerprint_words(fingerprint) =~= ws.subrange(1, 9));
        assert(payload_words(MessageV::Hello(hello)) =~= ws);
    }
    Ok(Message::Hello(hello))
}

fn decode_fixed(type_byte: u8, p: &[u8]) -> (r: Result<Message, DecodeError>)
    requires
        rule_of(type_byte) matches Ok(PayloadRule::Exact(n)) && p@.len() == n,
    ensures
        decoded_as(type_byte, p@, r),
        p@.len() % 4 == 0,
{
    let ghost ws = words_of(p@);
    if type_byte == 1 {
        decode_hello(p)
    } else if type_byte == 2 {
        let welcome = Welcome {
            current_tick: read_u64(p, 0),
            nominal_dt_seconds: read_word(p, 2),
            client_id: read_word(p, 3),
            world_fingerprint: read_u64(p, 4),
        };
        assert(payload_words(MessageV::Welcome(welcome)) =~= ws);
        Ok(Message::Welcome(welcome))
    } else if type_byte == 5 {
        if read_word(p, 23) != 0 {
            return Err(DecodeError::ReservedNotZero);
        }
        let actions = Actions {
            tick: read_u64(p, 0),
            creature_id: read_word(p, 2),
            desired_forward_speed: read_word(p, 3),
            desired_turn_rate: read_word(p, 4),
            vocalisation_strength: read_word(p, 5),
            previous_forward_speed: read_word(p, 6),
            previous_turn_rate: read_word(p, 7),
            previous_vocalisation: read_word(p, 8),
            joint_targets: read_words7(p, 9),
            previous_joint_targets: read_words7(p, 16),
            reserved0: [0, 0, 0, 0],
        };
        proof {
            lemma_zero_word();
        }
        assert(payload_words(MessageV::Actions(actions)) =~= ws);
        Ok(Message::Actions(actions))
    } else if type_byte == 6 {
        let w7 = read_word(p, 7);
        let kind = low_byte(w7);
        if kind != 1 && kind != 2 {
            return Err(DecodeError::InvalidEventKind(kind));
        }
        if !upper_bytes_clear(w7) {
            return Err(DecodeError::ReservedNotZero);
        }
        let event = Event {
            tick: read_u64(p, 0),
            position: read_words3(p, 2),
            strength: read_word(p, 5),
            creature_id: read_word(p, 6),
            kind,
            reserved0: [0, 0, 0],
        };
        proof {
            lemma_low_byte_word(w7);
            assert(event.position@[0] == ws[2] && event.position@[1] == ws[3] && event.position@[2] == ws[4]);
        }
        assert(payload_words(MessageV::Event(event)) =~= ws);
        Ok(Message::Event(event))
    } else if type_byte == 7 {
        if read_word(p, 3) != 0 {
            return Err(DecodeError::ReservedNotZero);
        }
        let derez = Derez { tick: read_u64(p, 0), creature_id: read_word(p, 2), reserved0: [0, 0, 0, 0] };
        proof {
            lemma_zero_word();
        }
        assert(payload_words(MessageV::Derez(derez)) =~= ws);
        Ok(Message::Derez(derez))
    } else if type_byte == 8 {
        let ping = Ping { nonce: read_u64(p, 0) };
        assert(payload_words(MessageV::Ping(ping)) =~= ws);
        Ok(Message::Ping(ping))
    } else if type_byte == 9 {
        let pong = Pong { nonce: read_u64(p, 0) };
        assert(payload_words(MessageV::Pong(pong)) =~= ws);
        Ok(Message::Pong(pong))
    } else if type_byte == 10 {
        assert(payload_words(MessageV::Bye) =~= ws);
        Ok(Message::Bye)
    } else {
        let w3 = read_word(p, 3);
        let reason = low_byte(w3);
        if reason < 1 || reason > 4 {
            return Err(DecodeError::InvalidRefusalReason(reason));
        }
        if !upper_bytes_clear(w3) {
            return Err(DecodeError::ReservedNotZero);
        }
        let refused = Refused { tick: read_u64(p, 0), creature_id: read_word(p, 2), reason, reserved0: [0, 0, 0] };
        proof {
            lemma_low_byte_word(w3);
        }
        assert(payload_words(MessageV::Refused(refused)) =~= ws);
        Ok(Message::Refused(refused))
    }
}

} // verus!

verus! {

fn pose_from(w: &Vec<u32>, at: usize) -> (pose: SegmentPose)
    requires
        at + 5 <= w@.len(),
    ensures
        pose_words(pose) == w@.subrange(at as int, at + 5),
{
    assert(w@.len() == w.len());
    let pose = SegmentPose { position: [w[at], w[at + 1], w[at + 2]], yaw: w[at + 3], pitch: w[at + 4] };
    assert(pose_words(pose) =~= w@.subrange(at as int, at + 5));
    pose
}

fn state_from_words(w: &Vec<u32>) -> (state: CreatureState)
    requires
        w@.len() == 47,
    ensures
        state_words(state) == w@,
{
    let segments = [
        pose_from(w, 12),
        pose_from(w, 17),
        pose_from(w, 22),
        pose_from(w, 27),
        pose_from(w, 32),
        pose_from(w, 37),
        pose_from(w, 42),
    ];
    let state = CreatureState {
        creature_id: w[0],
        position: [w[1], w[2], w[3]],
        yaw: w[4],
        pitch: w[5],
        velocity: [w[6], w[7], w[8]],
        yaw_rate: w[9],
        vocalisation: w[10],
        segment_count: w[11],
        segments,
    };
    proof {
        let f = |p: SegmentPose| pose_words(p);
        assert forall|k: int| 0 <= k < 7 implies #[trigger] row(w@, 12, 5, k) == f(segments@[k]) by {
            assert(k == 0 || k == 1 || k == 2 || k == 3 || k == 4 || k == 5 || k == 6);
        }
        lemma_rows_flatten(segments@, 5, f, w@, 12);
        assert(state_head_words(state) =~= w@.subrange(0, 12));
        assert(state_words(state) =~= w@);
    }
    state
}

#[verifier::loop_isolation(false)]
fn decode_tick_state(p: &[u8]) -> (r: Result<Message, DecodeError>)
    requires
        length_refusal(PayloadRule::TickState, p@.len() as usize).is_none(),
    ensures
        decoded_as(4, p@, r),
        r is Ok ==> p@.len() % 4 == 0,
{
    let ghost ws = words_of(p@);
    assert(p@.len() == p.len());
    let count = read_word(p, 2);
    if read_word(p, 3) != 0 {
        return Err(DecodeError::ReservedNotZero);
    }
    let rows = (p.len() - TICK_HEADER_BYTES) / CREATURE_STATE_BYTES;
    proof {
        vstd::arithmetic::div_mod::lemma_fundamental_div_mod(p.len() - 16, 188);
        assert(p@.len() == 16 + 188 * rows);
        assert(ws.len() == 4 + 47 * rows);
    }
    if count as usize != rows {
        return Err(DecodeError::CountLengthMismatch { count, rows_by_length: rows });
    }
    let ghost fails = tick_rows_fail(ws);
    let ghost fs = |s: CreatureState| state_words(s);
    let mut states: Vec<CreatureState> = Vec::new();
    let mut r: usize = 0;
    while r < rows
        invariant
            0 <= r <= rows,
            states@.len() == r,
            fails == tick_rows_fail(ws),
            fs == (|s: CreatureState| state_words(s)),
            forall|k: int| 0 <= k < r ==> !#[trigger] fails(k),
            forall|k: int| 0 <= k < r ==> #[trigger] fs(states@[k]) == row(ws, 4, 47, k),
        decreases rows - r,
    {
        assert(4 * (4 + 47 * r + 47) <= p@.len()) by (nonlinear_arith)
            requires r < rows, p@.len() == 16 + 188 * rows;
        let w = read_words(p, 4 + 47 * r, 47);
        assert(w@ == row(ws, 4, 47, r as int));
        match judge_state(&w) {
            Ok(()) => {},
            Err(fault) => {
                proof {
                    lemma_first_failing(rows as int, fails, r as int);
                }
                let creature_id = w[0];
                return Err(
                    match fault {
                        StateFault::CountOutOfRange(count) => DecodeError::SegmentCountOutOfRange { creature_id, count },
                        StateFault::NotFinite => DecodeError::TickStateNotFinite { creature_id },
                        StateFault::SlotNotZero => DecodeError::SegmentSlotNotZero { creature_id },
                    },
                );
            },
        }
        let state = state_from_words(&w);
        states.push(state);
        r = r + 1;
    }
    proof {
        lemma_first_failing(rows as int, fails, rows as int);
        assert forall|k: int| 0 <= k < states@.len() implies #[trigger] row(ws, 4, 47, k) == fs(states@[k]) by {}
        assert(4 + states@.len() * 47 <= ws.len());
        lemma_rows_flatten(states@, 47, fs, ws, 4);
        assert forall|k: int| 0 <= k < states@.len() implies !#[trigger] states_fail(states@)(k) by {
            assert(!fails(k));
        }
        lemma_first_failing(states@.len() as int, states_fail(states@), states@.len() as int);
        lemma_zero_word();
    }
    let header = TickStateHeader { tick: read_u64(p, 0), creature_count: count, reserved0: [0, 0, 0, 0] };
    let message = Message::TickState { header, states };
    assert(payload_words(message@) =~= ws);
    Ok(message)
}

} // verus!

verus! {

fn contact_from_words(w: &Vec<u32>) -> (contact: Contact)
    requires
        w@.len() == 13,
    ensures
        contact_words(contact) == w@,
{
    let contact = Contact {
        position: [w[0], w[1], w[2]],
        impulse: [w[3], w[4], w[5]],
        normal: [w[6], w[7], w[8]],
        depth: w[9],
        slip: [w[10], w[11], w[12]],
    };
    assert(contact_words(contact) =~= w@);
    contact
}

#[verifier::loop_isolation(false)]
fn decode_proprioception(p: &[u8]) -> (r: Result<Message, DecodeError>)
    requires
        length_refusal(PayloadRule::Proprioception, p@.len() as usize).is_none(),
    ensures
        decoded_as(11, p@, r),
        r is Ok ==> p@.len() % 4 == 0,
{
    let ghost ws = words_of(p@);
    assert(p@.len() == p.len());
    let rows = (p.len() - PROPRIOCEPTION_HEADER_BYTES) / CONTACT_BYTES;
    proof {
        vstd::arithmetic::div_mod::lemma_fundamental_div_mod(p.len() - 96, 52);
        assert(p@.len() == 96 + 52 * rows);
        assert(ws.len() == 24 + 13 * rows);
    }
    let w3 = read_word(p, 3);
    let grounded = low_byte(w3);
    if grounded > 1 {
        return Err(DecodeError::InvalidGrounded(grounded));
    }
    if !upper_bytes_clear(w3) || read_word(p, 22) != 0 || read_word(p, 23) != 0 {
        return Err(DecodeError::ReservedNotZero);
    }
    let count = read_word(p, 21);
    if count as usize != rows {
        return Err(DecodeError::ContactsLengthMismatch { count, rows_by_length: rows });
    }
    let mut i: usize = 4;
    while i < 21
        invariant
            4 <= i <= 21,
            forall|j: int| 4 <= j < i ==> finite(#[trigger] ws[j]),
        decreases 21 - i,
    {
        if !is_finite(read_word(p, i)) {
            assert(!finite(ws[i as int]));
            return Err(DecodeError::ProprioceptionNotFinite);
        }
        i = i + 1;
    }
    let ghost fc = |c: Contact| contact_words(c);
    let mut contacts: Vec<Contact> = Vec::new();
    let mut r: usize = 0;
    while r < rows
        invariant
            0 <= r <= rows,
            contacts@.len() == r,
            fc == (|c: Contact| contact_words(c)),
            forall|k: int| 0 <= k < r ==> !contact_bad(#[trigger] row(ws, 24, 13, k)),
            forall|k: int| 0 <= k < r ==> #[trigger] fc(contacts@[k]) == row(ws, 24, 13, k),
        decreases rows - r,
    {
        assert(4 * (24 + 13 * r + 13) <= p@.len()) by (nonlinear_arith)
            requires r < rows, p@.len() == 96 + 52 * rows;
        let w = read_words(p, 24 + 13 * r, 13);
        assert(w@ == row(ws, 24, 13, r as int));
        let mut j: usize = 0;
        while j < 13
            invariant
                0 <= j <= 13,
                forall|k: int| 0 <= k < j ==> finite(#[trigger] w@[k]),
            decreases 13 - j,
        {
            if !is_finite(w[j]) {
                assert(contact_bad(row(ws, 24, 13, r as int)));
                return Err(DecodeError::ProprioceptionNotFinite);
            }
            j = j + 1;
        }
        let contact = contact_from_words(&w);
        contacts.push(contact);
        r = r + 1;
    }
    let header = Proprioception {
        tick: read_u64(p, 0),
        creature_id: read_word(p, 2),
        grounded,
        reserved0: [0, 0, 0],
        specific_force: read_words3(p, 4),
        joint_angles: read_words7(p, 7),
        joint_torques: read_words7(p, 14),
        contact_count: count,
        reserved1: [0, 0, 0, 0, 0, 0, 0, 0],
    };
    proof {
        lemma_low_byte_word(w3);
        lemma_zero_word();
        assert forall|k: int| 0 <= k < contacts@.len() implies #[trigger] row(ws, 24, 13, k) == fc(contacts@[k]) by {}
        lemma_rows_flatten(contacts@, 13, fc, ws, 24);
        assert(proprioception_words(header) =~= ws.subrange(0, 24));
        assert forall|k: int| 0 <= k < contacts@.len() implies !contact_bad(contact_words(#[trigger] contacts@[k])) by {
            assert(!contact_bad(row(ws, 24, 13, k)));
        }
    }
    let message = Message::Proprioception { header, contacts };
    assert(payload_words(message@) =~= ws);
    Ok(message)
}

/// The REZ vertex rows of a payload whose counts and length agree.
#[verifier::loop_isolation(false)]
fn rez_vertices(p: &[u8], v: u32) -> (r: Result<Vec<RezVertex>, ()>)
    requires
        4 * (12 + 3 * v) <= p@.len(),
        v <= REZ_MAX_VERTICES,
    ensures
        match r {
            Ok(vertices) => vertices@.len() == v && (forall|k: int| 0 <= k < v ==> !vertex_bad(
                #[trigger] row(words_of(p@), 12, 3, k),
            )) && (forall|k: int| 0 <= k < v ==> #[trigger] vertex_words(vertices@[k]) == row(
                words_of(p@),
                12,
                3,
                k,
            )),
            Err(()) => exists|k: int| 0 <= k < v && vertex_bad(#[trigger] row(words_of(p@), 12, 3, k)),
        },
{
    assert(p@.len() == p.len());
    let ghost ws = words_of(p@);
    let mut vertices: Vec<RezVertex> = Vec::new();
    let mut r: usize = 0;
    while r < v as usize
        invariant
            0 <= r <= v,
            vertices@.len() == r,
            forall|k: int| 0 <= k < r ==> !vertex_bad(#[trigger] row(ws, 12, 3, k)),
            forall|k: int| 0 <= k < r ==> #[trigger] vertex_words(vertices@[k]) == row(ws, 12, 3, k),
        decreases v - r,
    {
        let position = read_words3(p, 12 + 3 * r);
        assert(position@ == row(ws, 12, 3, r as int));
        if !(is_finite(position[0]) && is_finite(position[1]) && is_finite(position[2])) {
            assert(vertex_bad(row(ws, 12, 3, r as int)));
            return Err(());
        }
        vertices.push(RezVertex { position });
        r = r + 1;
    }
    Ok(vertices)
}

/// The REZ triangle rows, or the index of the first one naming what does not exist.
#[verifier::loop_isolation(false)]
fn rez_triangles(p: &[u8], tbase: usize, t: u32, v: u32, m: u32) -> (r: Result<Vec<RezTriangle>, u32>)
    requires
        words_of(p@).len() >= 8,
        v == words_of(p@)[5],
        m == words_of(p@)[7],
        tbase == 12 + 3 * v,
        4 * (tbase + 4 * t) <= p@.len(),
        t <= REZ_MAX_TRIANGLES,
    ensures
        match r {
            Ok(triangles) => triangles@.len() == t && first_failing(t as int, rez_triangle_rows_fail(words_of(p@))) == t
                && (forall|k: int| 0 <= k < t ==> !triangle_bad(#[trigger] row(words_of(p@), tbase as int, 4, k), v, m))
                && (forall|k: int| 0 <= k < t ==> #[trigger] triangle_words(triangles@[k]) == row(words_of(p@), tbase as int, 4, k)),
            Err(k) => k < t && first_failing(t as int, rez_triangle_rows_fail(words_of(p@))) == k,
        },
{
    let ghost ws = words_of(p@);
    assert(p@.len() == p.len());
    let ghost fails = rez_triangle_rows_fail(ws);
    let mut triangles: Vec<RezTriangle> = Vec::new();
    let mut k: usize = 0;
    while k < t as usize
        invariant
            0 <= k <= t,
            triangles@.len() == k,
            fails == rez_triangle_rows_fail(ws),
            forall|q: int| 0 <= q < k ==> !#[trigger] fails(q),
            forall|q: int| 0 <= q < k ==> #[trigger] triangle_words(triangles@[q]) == row(ws, tbase as int, 4, q),
        decreases t - k,
    {
        let corners = read_words3(p, tbase + 4 * k);
        let material = read_word(p, tbase + 4 * k + 3);
        let triangle = RezTriangle { vertices: corners, material };
        assert(triangle_words(triangle) =~= row(ws, tbase as int, 4, k as int));
        if !(corners[0] < v && corners[1] < v && corners[2] < v && material < m) {
            proof {
                lemma_first_failing(t as int, fails, k as int);
            }
            return Err(k as u32);
        }
        triangles.push(triangle);
        k = k + 1;
    }
    proof {
        lemma_first_failing(t as int, fails, t as int);
        assert forall|q: int| 0 <= q < t implies !triangle_bad(#[trigger] row(ws, tbase as int, 4, q), v, m) by {
            assert(!fails(q));
        }
    }
    Ok(triangles)
}

/// The REZ material rows of a payload whose counts and length agree.
#[verifier::loop_isolation(false)]
fn rez_materials(p: &[u8], mbase: usize, m: u32) -> (r: Result<Vec<RezMaterial>, ()>)
    requires
        4 * (mbase + 8 * m) <= p@.len(),
        m <= REZ_MAX_MATERIALS,
    ensures
        match r {
            Ok(materials) => materials@.len() == m && (forall|q: int| 0 <= q < m ==> !material_bad(
                #[trigger] row(words_of(p@), mbase as int, 8, q),
            )) && (forall|q: int| 0 <= q < m ==> #[trigger] material_words(materials@[q]) == row(
                words_of(p@),
                mbase as int,
                8,
                q,
            )),
            Err(()) => exists|q: int| 0 <= q < m && material_bad(#[trigger] row(words_of(p@), mbase as int, 8, q)),
        },
{
    assert(p@.len() == p.len());
    let ghost ws = words_of(p@);
    let mut materials: Vec<RezMaterial> = Vec::new();
    let mut r: usize = 0;
    while r < m as usize
        invariant
            0 <= r <= m,
            materials@.len() == r,
            forall|q: int| 0 <= q < r ==> !material_bad(#[trigger] row(ws, mbase as int, 8, q)),
            forall|q: int| 0 <= q < r ==> #[trigger] material_words(materials@[q]) == row(ws, mbase as int, 8, q),
        decreases m - r,
    {
        let w = read_words(p, mbase + 8 * r, 8);
        assert(w@ == row(ws, mbase as int, 8, r as int));
        let mut j: usize = 0;
        while j < 8
            invariant
                0 <= j <= 8,
                forall|q: int| 0 <= q < j ==> finite(#[trigger] w@[q]),
            decreases 8 - j,
        {
            if !is_finite(w[j]) {
                assert(material_bad(row(ws, mbase as int, 8, r as int)));
                return Err(());
            }
            j = j + 1;
        }
        let material = RezMaterial {
            colour: [w[0], w[1], w[2]],
            index_of_refraction: w[3],
            emission: [w[4], w[5], w[6]],
            transmission: w[7],
        };
        assert(material_words(material) =~= w@);
        materials.push(material);
        r = r + 1;
    }
    Ok(materials)
}

/// The one variable-size client input, judged whole before a single row is kept: counts
/// against caps, the exact length against the counts, every index against its count, every
/// real number for finiteness.
fn decode_rez(p: &[u8]) -> (r: Result<Message, DecodeError>)
    requires
        length_refusal(PayloadRule::Rez, p@.len() as usize).is_none(),
    ensures
        decoded_as(3, p@, r),
        r is Ok ==> p@.len() % 4 == 0,
{
    let ghost ws = words_of(p@);
    assert(p@.len() == p.len());
    let header = Rez {
        creature_id: read_word(p, 0),
        max_forward_speed: read_word(p, 1),
        max_turn_rate: read_word(p, 2),
        max_vocalisation_strength: read_word(p, 3),
        max_contact_count: read_word(p, 4),
        vertex_count: read_word(p, 5),
        triangle_count: read_word(p, 6),
        material_count: read_word(p, 7),
        segment_count: read_word(p, 8),
        segment_spacing: read_word(p, 9),
        max_joint_angle: read_word(p, 10),
        max_joint_torque: read_word(p, 11),
    };
    let v = header.vertex_count;
    let t = header.triangle_count;
    let m = header.material_count;
    if v > REZ_MAX_VERTICES || t > REZ_MAX_TRIANGLES || m > REZ_MAX_MATERIALS {
        return Err(DecodeError::RezCountOverCap { vertices: v, triangles: t, materials: m });
    }
    let expected = REZ_HEADER_BYTES + v as usize * REZ_VERTEX_BYTES + t as usize * REZ_TRIANGLE_BYTES
        + m as usize * REZ_MATERIAL_BYTES;
    if p.len() != expected {
        return Err(DecodeError::RezLengthMismatch { expected, got: p.len() });
    }
    assert(ws.len() == 12 + 3 * v + 4 * t + 8 * m);
    if !is_finite(header.max_forward_speed) || !is_finite(header.max_turn_rate) || !is_finite(
        header.max_vocalisation_strength,
    ) {
        return Err(DecodeError::RezNotFinite);
    }
    if header.segment_count == 0 || header.segment_count > SEGMENTS_MAX {
        return Err(DecodeError::RezSegmentCountOutOfRange { count: header.segment_count });
    }
    if !fits_spacing(header.segment_count, header.segment_spacing) {
        return Err(DecodeError::RezSpacingInvalid);
    }
    if !fits_servos(header.max_joint_angle, header.max_joint_torque) {
        return Err(DecodeError::RezServoInvalid);
    }
    let vertices = match rez_vertices(p, v) {
        Ok(vertices) => vertices,
        Err(()) => return Err(DecodeError::RezNotFinite),
    };
    let tbase = 12 + 3 * v as usize;
    let triangles = match rez_triangles(p, tbase, t, v, m) {
        Ok(triangles) => triangles,
        Err(k) => return Err(DecodeError::RezIndexOutOfRange { triangle: k }),
    };
    let mbase = tbase + 4 * t as usize;
    let materials = match rez_materials(p, mbase, m) {
        Ok(materials) => materials,
        Err(()) => return Err(DecodeError::RezNotFinite),
    };
    proof {
        let fv = |x: RezVertex| vertex_words(x);
        let ft = |x: RezTriangle| triangle_words(x);
        let fm = |x: RezMaterial| material_words(x);
        assert forall|q: int| 0 <= q < vertices@.len() implies #[trigger] row(ws, 12, 3, q) == fv(vertices@[q]) by {}
        lemma_rows_flatten(vertices@, 3, fv, ws, 12);
        assert forall|q: int| 0 <= q < triangles@.len() implies #[trigger] row(ws, tbase as int, 4, q) == ft(triangles@[q]) by {}
        lemma_rows_flatten(triangles@, 4, ft, ws, tbase as int);
        assert forall|q: int| 0 <= q < materials@.len() implies #[trigger] row(ws, mbase as int, 8, q) == fm(materials@[q]) by {}
        lemma_rows_flatten(materials@, 8, fm, ws, mbase as int);
        assert(rez_header_words(header) =~= ws.subrange(0, 12));
        let tf = triangles_fail(triangles@, v, m);
        assert forall|q: int| 0 <= q < triangles@.len() implies !#[trigger] tf(q) by {
            assert(!triangle_bad(row(ws, tbase as int, 4, q), v, m));
        }
        lemma_first_failing(triangles@.len() as int, tf, triangles@.len() as int);
        assert forall|q: int| 0 <= q < vertices@.len() implies !vertex_bad(vertex_words(#[trigger] vertices@[q])) by {
            assert(!vertex_bad(row(ws, 12, 3, q)));
        }
        assert forall|q: int| 0 <= q < materials@.len() implies !material_bad(material_words(#[trigger] materials@[q])) by {
            assert(!material_bad(row(ws, mbase as int, 8, q)));
        }
    }
    let message = Message::Rez { header, vertices, triangles, materials };
    assert(payload_words(message@) =~= ws);
    Ok(message)
}

/// A whole payload to a message, every refusal a named error, no panic on any input. The
/// payload is judged by its type's rule and length first, so a hostile length is refused
/// before any field is read.
pub fn decode(type_byte: u8, payload: &[u8]) -> (result: Result<Message, DecodeError>)
    ensures
        match result {
            Ok(m) => decode_refusal(type_byte, payload@).is_none() && message_type(m@).to_byte()
                == type_byte && encode_refusal(m@).is_none() && frame_payload(m@) == payload@,
            Err(e) => decode_refusal(type_byte, payload@) == Some(e),
        },
{
    let rule = match payload_rule(type_byte) {
        Ok(rule) => rule,
        Err(e) => return Err(e),
    };
    match check_length(rule, payload.len()) {
        Ok(()) => {},
        Err(e) => return Err(e),
    }
    assert(payload@.len() == payload.len());
    let result = match rule {
        PayloadRule::TickState => decode_tick_state(payload),
        PayloadRule::Rez => decode_rez(payload),
        PayloadRule::Proprioception => decode_proprioception(payload),
        PayloadRule::Exact(_) => decode_fixed(type_byte, payload),
    };
    proof {
        if result is Ok {
            lemma_bytes_of_words(payload@);
        }
    }
    result
}

} // verus!
