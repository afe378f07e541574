//! The Link protocol's contract: constants, message vocabulary and wire structs.
//!
//! Wire structs keep primitive fields rather than Rust enums, deliberately: a hostile byte is a
//! value to refuse, never an invalid bit pattern. Every real number travels as the four bytes
//! of an IEEE-754 binary32, and a struct here holds it as the `u32` of those bits (see
//! [`crate::ieee`]), so a value crosses the library exactly as it crossed the wire.

use vstd::prelude::*;
use crate::words::{bytes_of_words, lemma_bytes_of_word, lemma_bytes_of_words_add, lemma_bytes_of_no_words};

verus! {

/// `LNK_PROTOCOL_VERSION`: bumped whenever any declaration changes meaning or layout. The
/// handshake carries the header's fingerprint rather than this number; the number exists for
/// the human-readable refusal.
pub const PROTOCOL_VERSION: u32 = 6;

/// `LNK_DEFAULT_PORT`: where Master Control listens when nobody names another port.
pub const DEFAULT_PORT: u16 = 30702;

/// `LNK_KEEPALIVE_PING_MILLIS`: heard nothing for this long, send a PING.
pub const KEEPALIVE_PING_MILLIS: u32 = 1000;

/// `LNK_KEEPALIVE_DEAD_MILLIS`: heard nothing for this long, the peer is dead.
pub const KEEPALIVE_DEAD_MILLIS: u32 = 10000;

/// `LNK_ACTIONS_REPEAT_TICKS`: how long a host's last accepted intent is re-applied when its
/// ACTIONS are merely missing, before zeroed coast.
pub const ACTIONS_REPEAT_TICKS: u32 = 1;

/// The first four bytes a client ever sends: `LNK1`.
pub const MAGIC: [u8; 4] = [0x4C, 0x4E, 0x4B, 0x31];

/// Bytes of frame header on the wire: two of little-endian payload length, one of type.
pub const FRAME_HEADER_BYTES: usize = 3;

/// The framing's own ceiling: length is a `u16`, so no payload can exceed this.
pub const FRAME_PAYLOAD_LIMIT: usize = 65535;

/// The most creatures one TICK_STATE may carry.
pub const TICK_STATE_MAX_CREATURES: u32 = 256;

/// The most segments a creature's chain has, the head counted.
pub const SEGMENTS_MAX: u32 = 8;

/// The trailing segment slots a TICK_STATE row carries behind the head.
pub const TRAILING_SEGMENTS_MAX: usize = 7;

/// The three caps of the one variable-size client input.
pub const REZ_MAX_VERTICES: u32 = 1024;
pub const REZ_MAX_TRIANGLES: u32 = 2048;
pub const REZ_MAX_MATERIALS: u32 = 16;

/// `LNK_CONTACTS_MAX`: the most contacts a PROPRIOCEPTION carries.
pub const CONTACTS_MAX: u32 = 16;

/// The payload sizes, in bytes, of every wire struct.
pub const HELLO_BYTES: usize = 48;
pub const WELCOME_BYTES: usize = 24;
pub const REZ_HEADER_BYTES: usize = 48;
pub const REZ_VERTEX_BYTES: usize = 12;
pub const REZ_TRIANGLE_BYTES: usize = 16;
pub const REZ_MATERIAL_BYTES: usize = 32;
pub const TICK_HEADER_BYTES: usize = 16;
pub const SEGMENT_POSE_BYTES: usize = 20;
pub const CREATURE_STATE_BYTES: usize = 188;
pub const ACTIONS_BYTES: usize = 96;
pub const EVENT_BYTES: usize = 32;
pub const DEREZ_BYTES: usize = 16;
pub const REFUSED_BYTES: usize = 16;
pub const PROPRIOCEPTION_HEADER_BYTES: usize = 96;
pub const CONTACT_BYTES: usize = 52;
pub const PING_BYTES: usize = 8;
pub const PONG_BYTES: usize = 8;
pub const WORLD_DEFINITION_BYTES: usize = 40;

/// Message types as they appear in the frame header's third byte. Zero is no type.
#[derive(Clone, Copy, PartialEq, Eq, Debug)]
pub enum MessageType {
    Hello,
    Welcome,
    Rez,
    TickState,
    Actions,
    Event,
    Derez,
    Ping,
    Pong,
    Bye,
    Proprioception,
    Refused,
}

impl MessageType {
    /// The type byte on the wire.
    #[verifier::allow_in_spec]
    pub fn to_byte(self) -> u8
        returns
            match self {
                MessageType::Hello => 1u8,
                MessageType::Welcome => 2u8,
                MessageType::Rez => 3u8,
                MessageType::TickState => 4u8,
                MessageType::Actions => 5u8,
                MessageType::Event => 6u8,
                MessageType::Derez => 7u8,
                MessageType::Ping => 8u8,
                MessageType::Pong => 9u8,
                MessageType::Bye => 10u8,
                MessageType::Proprioception => 11u8,
                MessageType::Refused => 12u8,
            },
    {
        match self {
            MessageType::Hello => 1,
            MessageType::Welcome => 2,
            MessageType::Rez => 3,
            MessageType::TickState => 4,
            MessageType::Actions => 5,
            MessageType::Event => 6,
            MessageType::Derez => 7,
            MessageType::Ping => 8,
            MessageType::Pong => 9,
            MessageType::Bye => 10,
            MessageType::Proprioception => 11,
            MessageType::Refused => 12,
        }
    }
}

/// What a client is, stated in HELLO. Zero is invalid.
#[derive(Clone, Copy, PartialEq, Eq, Debug)]
pub enum Role {
    Spectator,
    CreatureHost,
}

impl Role {
    /// The role byte on the wire.
    #[verifier::allow_in_spec]
    pub fn to_byte(self) -> u8
        returns
            match self {
                Role::Spectator => 1u8,
                Role::CreatureHost => 2u8,
            },
    {
        match self {
            Role::Spectator => 1,
            Role::CreatureHost => 2,
        }
    }
}

/// Event kinds. Zero is invalid.
#[derive(Clone, Copy, PartialEq, Eq, Debug)]
pub enum EventKind {
    Vocalisation,
    /// A body sliding along a face: footsteps, a scrape along a wall.
    Scratch,
}

impl EventKind {
    /// The kind byte on the wire.
    #[verifier::allow_in_spec]
    pub fn to_byte(self) -> u8
        returns
            match self {
                EventKind::Vocalisation => 1u8,
                EventKind::Scratch => 2u8,
            },
    {
        match self {
            EventKind::Vocalisation => 1,
            EventKind::Scratch => 2,
        }
    }
}

/// Why the world refused a host's REZ. Zero and anything unnamed is no reason.
#[derive(Clone, Copy, PartialEq, Eq, Debug)]
pub enum RefusalReason {
    /// Another host wears the identity.
    Owned,
    /// No room for one more row.
    Full,
    /// No spot on the spawn lattice.
    Crowded,
    /// A bound or the mesh outside what the world allows.
    Bounds,
}

impl RefusalReason {
    /// The reason byte on the wire.
    #[verifier::allow_in_spec]
    pub fn to_byte(self) -> u8
        returns
            match self {
                RefusalReason::Owned => 1u8,
                RefusalReason::Full => 2u8,
                RefusalReason::Crowded => 3u8,
                RefusalReason::Bounds => 4u8,
            },
    {
        match self {
            RefusalReason::Owned => 1,
            RefusalReason::Full => 2,
            RefusalReason::Crowded => 3,
            RefusalReason::Bounds => 4,
        }
    }
}

/// `LnkWorldDefinition`: the shared simulation truth, gathered so it can be fingerprinted.
/// Real-valued fields hold binary32 bits.
#[derive(Clone, Copy, PartialEq, Eq, Debug)]
pub struct WorldDefinition {
    pub floor_cells: u32,
    pub floor_cell_size: u32,
    pub floor_height: u32,
    pub relief_amplitude: u32,
    pub relief_wavelength: u32,
    pub relief_octaves: u32,
    pub relief_terraces: u32,
    pub relief_seed: u32,
    pub dt_seconds: u32,
    pub body_half_height: u32,
}

/// The definition's fields as words, in field order.
pub open spec fn world_words(d: WorldDefinition) -> Seq<u32> {
    seq![
        d.floor_cells,
        d.floor_cell_size,
        d.floor_height,
        d.relief_amplitude,
        d.relief_wavelength,
        d.relief_octaves,
        d.relief_terraces,
        d.relief_seed,
        d.dt_seconds,
        d.body_half_height,
    ]
}

/// The FNV-1a offset basis and prime, 64-bit.
pub const FNV_OFFSET_BASIS: u64 = 14695981039346656037;
pub const FNV_PRIME: u64 = 1099511628211;

/// FNV-1a continued from `hash` over `bytes`: per byte, xor it in, then multiply by the
/// prime modulo 2^64.
pub open spec fn fnv1a_from(hash: u64, bytes: Seq<u8>) -> u64
    decreases bytes.len(),
{
    if bytes.len() == 0 {
        hash
    } else {
        fnv1a_from((hash ^ (bytes[0] as u64)).wrapping_mul(FNV_PRIME), bytes.drop_first())
    }
}

/// FNV-1a, 64-bit, over a byte sequence.
pub open spec fn fnv1a(bytes: Seq<u8>) -> u64 {
    fnv1a_from(FNV_OFFSET_BASIS, bytes)
}

proof fn lemma_fnv1a_push(hash: u64, bytes: Seq<u8>, b: u8)
    ensures
        fnv1a_from(hash, bytes.push(b)) == (fnv1a_from(hash, bytes) ^ (b as u64)).wrapping_mul(
            FNV_PRIME,
        ),
    decreases bytes.len(),
{
    let next = (hash ^ (bytes.push(b)[0] as u64)).wrapping_mul(FNV_PRIME);
    if bytes.len() == 0 {
        assert(bytes.push(b).drop_first() =~= Seq::<u8>::empty());
        assert(fnv1a_from(hash, bytes.push(b)) == fnv1a_from(next, Seq::<u8>::empty()));
    } else {
        assert(bytes.push(b)[0] == bytes[0]);
        assert(bytes.push(b).drop_first() =~= bytes.drop_first().push(b));
        lemma_fnv1a_push(next, bytes.drop_first(), b);
    }
}

/// The fingerprint's hash is FNV-1a as published for 64 bits: it starts from the offset basis
/// 14695981039346656037, and each byte is xored in, then the hash multiplied by the prime
/// 1099511628211 modulo 2^64.
pub proof fn law_fnv1a_is_the_published_hash(bytes: Seq<u8>, b: u8)
    ensures
        fnv1a(Seq::<u8>::empty()) == 14695981039346656037u64,
        fnv1a(bytes.push(b)) == (fnv1a(bytes) ^ (b as u64)).wrapping_mul(1099511628211u64),
{
    lemma_fnv1a_push(FNV_OFFSET_BASIS, bytes, b);
}

/// The world fingerprint: FNV-1a over the definition's bytes in field order, each field's four
/// bytes little-endian. Every citizen computes its own through this one function, so two ends
/// disagreeing can only mean their values disagree.
pub fn world_fingerprint(definition: &WorldDefinition) -> (hash: u64)
    ensures
        hash == fnv1a(bytes_of_words(world_words(*definition))),
{
    let fields: [u32; 10] = [
        definition.floor_cells,
        definition.floor_cell_size,
        definition.floor_height,
        definition.relief_amplitude,
        definition.relief_wavelength,
        definition.relief_octaves,
        definition.relief_terraces,
        definition.relief_seed,
        definition.dt_seconds,
        definition.body_half_height,
    ];
    let ghost all = world_words(*definition);
    assert(fields@ =~= all);
    proof {
        lemma_bytes_of_no_words();
        assert(all.take(0) =~= Seq::<u32>::empty());
    }
    let mut hash: u64 = FNV_OFFSET_BASIS;
    let mut i: usize = 0;
    while i < 10
        invariant
            0 <= i <= 10,
            fields@ == all,
            all.len() == 10,
            hash == fnv1a(bytes_of_words(all.take(i as int))),
        decreases 10 - i,
    {
        let bits = fields[i];
        let ghost before = bytes_of_words(all.take(i as int));
        let ghost word = bytes_of_words(seq![bits]);
        let b0 = (bits & 0xff) as u8;
        let b1 = ((bits >> 8u32) & 0xff) as u8;
        let b2 = ((bits >> 16u32) & 0xff) as u8;
        let b3 = ((bits >> 24u32) & 0xff) as u8;
        proof {
            lemma_bytes_of_word(bits);
            assert(word =~= seq![b0, b1, b2, b3]);
            assert(before.push(b0) =~= before + word.take(1));
            assert((before + word.take(1)).push(b1) =~= before + word.take(2));
            assert((before + word.take(2)).push(b2) =~= before + word.take(3));
            assert((before + word.take(3)).push(b3) =~= before + word);
            lemma_fnv1a_push(FNV_OFFSET_BASIS, before, b0);
            lemma_fnv1a_push(FNV_OFFSET_BASIS, before + word.take(1), b1);
            lemma_fnv1a_push(FNV_OFFSET_BASIS, before + word.take(2), b2);
            lemma_fnv1a_push(FNV_OFFSET_BASIS, before + word.take(3), b3);
        }
        hash = (hash ^ (b0 as u64)).wrapping_mul(FNV_PRIME);
        hash = (hash ^ (b1 as u64)).wrapping_mul(FNV_PRIME);
        hash = (hash ^ (b2 as u64)).wrapping_mul(FNV_PRIME);
        hash = (hash ^ (b3 as u64)).wrapping_mul(FNV_PRIME);
        proof {
            assert(all.take(i + 1) =~= all.take(i as int) + seq![bits]);
            lemma_bytes_of_words_add(all.take(i as int), seq![bits]);
        }
        i = i + 1;
    }
    assert(all.take(10) =~= all);
    hash
}

/// HELLO, client to server, the first frame after the magic.
#[derive(Clone, Copy, PartialEq, Eq, Debug)]
pub struct Hello {
    pub protocol_version: u32,
    /// The SHA-256 of the protocol header this end was built against.
    pub fingerprint: [u8; 32],
    /// `Role` as a raw byte; the codec refuses anything but 1 or 2.
    pub role: u8,
    /// Always zero.
    pub reserved0: [u8; 3],
    /// [`world_fingerprint`] over the client's [`WorldDefinition`].
    pub world_fingerprint: u64,
}

/// WELCOME, server to client, the acceptance of a HELLO.
#[derive(Clone, Copy, PartialEq, Eq, Debug)]
pub struct Welcome {
    pub current_tick: u64,
    /// Seconds per tick, binary32 bits.
    pub nominal_dt_seconds: u32,
    pub client_id: u32,
    pub world_fingerprint: u64,
}

/// REZ, both directions: a creature enters the world. The header, then `vertex_count`
/// [`RezVertex`] rows, `triangle_count` [`RezTriangle`] rows and `material_count`
/// [`RezMaterial`] rows. Real-valued fields hold binary32 bits.
#[derive(Clone, Copy, PartialEq, Eq, Debug)]
pub struct Rez {
    pub creature_id: u32,
    pub max_forward_speed: u32,
    pub max_turn_rate: u32,
    pub max_vocalisation_strength: u32,
    pub max_contact_count: u32,
    pub vertex_count: u32,
    pub triangle_count: u32,
    pub material_count: u32,
    /// Segments in the chain, the head counted: one to [`SEGMENTS_MAX`].
    pub segment_count: u32,
    /// Distance between segment origins: zero for a single body, positive for a chain.
    pub segment_spacing: u32,
    /// The servos' bounds; zero is no such actuator.
    pub max_joint_angle: u32,
    pub max_joint_torque: u32,
}

/// One vertex position in body frame (binary32 bits).
#[derive(Clone, Copy, PartialEq, Eq, Debug)]
pub struct RezVertex {
    pub position: [u32; 3],
}

/// One triangle: three vertex indices and the material its surface wears.
#[derive(Clone, Copy, PartialEq, Eq, Debug)]
pub struct RezTriangle {
    pub vertices: [u32; 3],
    pub material: u32,
}

/// One material (binary32 bits).
#[derive(Clone, Copy, PartialEq, Eq, Debug)]
pub struct RezMaterial {
    pub colour: [u32; 3],
    pub index_of_refraction: u32,
    pub emission: [u32; 3],
    pub transmission: u32,
}

/// One trailing segment's pose (binary32 bits).
#[derive(Clone, Copy, PartialEq, Eq, Debug, Default)]
pub struct SegmentPose {
    pub position: [u32; 3],
    pub yaw: u32,
    pub pitch: u32,
}

/// One creature's row in a TICK_STATE: the head's pose, velocity and voice, then the chain.
#[derive(Clone, Copy, PartialEq, Eq, Debug)]
pub struct CreatureState {
    pub creature_id: u32,
    pub position: [u32; 3],
    pub yaw: u32,
    pub pitch: u32,
    pub velocity: [u32; 3],
    pub yaw_rate: u32,
    pub vocalisation: u32,
    /// Segments in the chain, the head counted.
    pub segment_count: u32,
    /// The trailing segments; slots beyond the chain are all zero.
    pub segments: [SegmentPose; TRAILING_SEGMENTS_MAX],
}

/// TICK_STATE's header; `creature_count` [`CreatureState`] rows follow.
#[derive(Clone, Copy, PartialEq, Eq, Debug)]
pub struct TickStateHeader {
    pub tick: u64,
    pub creature_count: u32,
    /// Always zero.
    pub reserved0: [u8; 4],
}

/// ACTIONS, creature host to server: the staged intent for a tick, with the previous tick's
/// resent whole beside it (binary32 bits).
#[derive(Clone, Copy, PartialEq, Eq, Debug)]
pub struct Actions {
    pub tick: u64,
    pub creature_id: u32,
    pub desired_forward_speed: u32,
    pub desired_turn_rate: u32,
    pub vocalisation_strength: u32,
    pub previous_forward_speed: u32,
    pub previous_turn_rate: u32,
    pub previous_vocalisation: u32,
    /// The angle each servo is asked to hold.
    pub joint_targets: [u32; 7],
    pub previous_joint_targets: [u32; 7],
    /// Always zero.
    pub reserved0: [u8; 4],
}

/// EVENT, server to every client: a tick-stamped notification.
#[derive(Clone, Copy, PartialEq, Eq, Debug)]
pub struct Event {
    pub tick: u64,
    pub position: [u32; 3],
    pub strength: u32,
    pub creature_id: u32,
    /// `EventKind` as a raw byte; the codec refuses anything unknown.
    pub kind: u8,
    /// Always zero.
    pub reserved0: [u8; 3],
}

/// One contact a body felt this tick (binary32 bits).
#[derive(Clone, Copy, PartialEq, Eq, Debug)]
pub struct Contact {
    pub position: [u32; 3],
    pub impulse: [u32; 3],
    pub normal: [u32; 3],
    pub depth: u32,
    pub slip: [u32; 3],
}

/// PROPRIOCEPTION, server to the one host that owns the creature; `contact_count`
/// [`Contact`] rows follow.
#[derive(Clone, Copy, PartialEq, Eq, Debug)]
pub struct Proprioception {
    pub tick: u64,
    pub creature_id: u32,
    /// 1 when the feet touch the ground this tick, else 0.
    pub grounded: u8,
    /// Always zero.
    pub reserved0: [u8; 3],
    pub specific_force: [u32; 3],
    pub joint_angles: [u32; 7],
    pub joint_torques: [u32; 7],
    pub contact_count: u32,
    /// Always zero.
    pub reserved1: [u8; 8],
}

/// DEREZ, server to every client: the creature leaves the world at this tick.
#[derive(Clone, Copy, PartialEq, Eq, Debug)]
pub struct Derez {
    pub tick: u64,
    pub creature_id: u32,
    /// Always zero.
    pub reserved0: [u8; 4],
}

/// REFUSED, server to the one host whose REZ the world refused.
#[derive(Clone, Copy, PartialEq, Eq, Debug)]
pub struct Refused {
    pub tick: u64,
    pub creature_id: u32,
    /// `RefusalReason` as a raw byte.
    pub reason: u8,
    /// Always zero.
    pub reserved0: [u8; 3],
}

/// PING, either direction.
#[derive(Clone, Copy, PartialEq, Eq, Debug)]
pub struct Ping {
    pub nonce: u64,
}

/// PONG, the answer to a PING, carrying the same nonce.
#[derive(Clone, Copy, PartialEq, Eq, Debug)]
pub struct Pong {
    pub nonce: u64,
}

/// The exact payload size of a fixed-size message; `None` for the three whose size is a
/// header plus rows.
pub fn exact_payload_bytes(message: MessageType) -> (bytes: Option<usize>)
    ensures
        bytes == match message {
            MessageType::Hello => Some(HELLO_BYTES),
            MessageType::Welcome => Some(WELCOME_BYTES),
            MessageType::Rez => None,
            MessageType::TickState => None,
            MessageType::Actions => Some(ACTIONS_BYTES),
            MessageType::Event => Some(EVENT_BYTES),
            MessageType::Derez => Some(DEREZ_BYTES),
            MessageType::Ping => Some(PING_BYTES),
            MessageType::Pong => Some(PONG_BYTES),
            MessageType::Bye => Some(0usize),
            MessageType::Proprioception => None,
            MessageType::Refused => Some(REFUSED_BYTES),
        },
{
    match message {
        MessageType::Hello => Some(HELLO_BYTES),
        MessageType::Welcome => Some(WELCOME_BYTES),
        MessageType::Rez => None,
        MessageType::TickState => None,
        MessageType::Actions => Some(ACTIONS_BYTES),
        MessageType::Event => Some(EVENT_BYTES),
        MessageType::Derez => Some(DEREZ_BYTES),
        MessageType::Ping => Some(PING_BYTES),
        MessageType::Pong => Some(PONG_BYTES),
        MessageType::Bye => Some(0),
        MessageType::Proprioception => None,
        MessageType::Refused => Some(REFUSED_BYTES),
    }
}

} // verus!
