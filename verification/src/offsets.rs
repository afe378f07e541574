//! Where every field of a fixed message sits in the bytes on the wire, stated by byte offset
//! and little-endian byte order, as the structs are laid out; and the world fingerprint's input,
//! field by field.

use vstd::prelude::*;
use vstd::arithmetic::div_mod::lemma_fundamental_div_mod_converse;
use crate::layout::{
    MessageV, frame_payload, payload_words, welcome_words, derez_words, hello_words, event_words,
    refused_words, nonce_words, actions_words, fingerprint_words, flatten, rez_header_words,
    vertex_words, triangle_words, material_words, tick_header_words, state_words, state_head_words,
    pose_words, proprioception_words, contact_words,
};
use crate::protocol::{
    Actions, Contact, CreatureState, Derez, Event, Hello, Ping, Pong, Proprioception, Refused, Rez,
    RezMaterial, RezTriangle, RezVertex, SegmentPose, TickStateHeader, WorldDefinition, Welcome,
    world_words,
};
use crate::words::{byte_of, bytes_of_words, hi, lo, lemma_bytes_word, word_of};

verus! {

/// Byte `i` of a 32-bit value, 0 the least significant.
pub open spec fn byte32(x: u32, i: int) -> u8 {
    ((x >> ((8 * i) as u32)) & 0xff) as u8
}

/// Byte `i` of a 64-bit value, 0 the least significant.
pub open spec fn byte64(x: u64, i: int) -> u8 {
    ((x >> ((8 * i) as u64)) & 0xff) as u8
}

/// Whether `p` holds `x` at byte offset `at`, least significant byte first.
pub open spec fn holds_u32(p: Seq<u8>, at: int, x: u32) -> bool {
    forall|i: int| 0 <= i < 4 ==> #[trigger] p[at + i] == byte32(x, i)
}

/// Whether `p` holds `x` at byte offset `at`, least significant byte first.
pub open spec fn holds_u64(p: Seq<u8>, at: int, x: u64) -> bool {
    forall|i: int| 0 <= i < 8 ==> #[trigger] p[at + i] == byte64(x, i)
}

proof fn lemma_byte32(w: u32)
    ensures
        forall|i: int| 0 <= i < 4 ==> #[trigger] byte_of(w, i) == byte32(w, i),
{
    assert(((w >> 0u32) & 0xff) as u8 == (w & 0xff) as u8) by (bit_vector);
    assert forall|i: int| 0 <= i < 4 implies #[trigger] byte_of(w, i) == byte32(w, i) by {
        if i == 0 {
            assert((8 * i) as u32 == 0u32);
        } else if i == 1 {
            assert((8 * i) as u32 == 8u32);
        } else if i == 2 {
            assert((8 * i) as u32 == 16u32);
        } else {
            assert((8 * i) as u32 == 24u32);
        }
    }
}

proof fn lemma_byte64(x: u64)
    ensures
        forall|i: int| 0 <= i < 4 ==> #[trigger] byte_of(lo(x), i) == byte64(x, i),
        forall|i: int| 0 <= i < 4 ==> #[trigger] byte_of(hi(x), i) == byte64(x, i + 4),
{
    assert((((x & 0xffff_ffff) as u32) & 0xff) as u8 == ((x >> 0u64) & 0xff) as u8) by (bit_vector);
    assert(((((x & 0xffff_ffff) as u32) >> 8u32) & 0xff) as u8 == ((x >> 8u64) & 0xff) as u8) by (bit_vector);
    assert(((((x & 0xffff_ffff) as u32) >> 16u32) & 0xff) as u8 == ((x >> 16u64) & 0xff) as u8) by (bit_vector);
    assert(((((x & 0xffff_ffff) as u32) >> 24u32) & 0xff) as u8 == ((x >> 24u64) & 0xff) as u8) by (bit_vector);
    assert((((x >> 32u64) as u32) & 0xff) as u8 == ((x >> 32u64) & 0xff) as u8) by (bit_vector);
    assert(((((x >> 32u64) as u32) >> 8u32) & 0xff) as u8 == ((x >> 40u64) & 0xff) as u8) by (bit_vector);
    assert(((((x >> 32u64) as u32) >> 16u32) & 0xff) as u8 == ((x >> 48u64) & 0xff) as u8) by (bit_vector);
    assert(((((x >> 32u64) as u32) >> 24u32) & 0xff) as u8 == ((x >> 56u64) & 0xff) as u8) by (bit_vector);
    assert forall|i: int| 0 <= i < 4 implies #[trigger] byte_of(lo(x), i) == byte64(x, i) by {
        if i == 0 {
            assert((8 * i) as u64 == 0u64);
        } else if i == 1 {
            assert((8 * i) as u64 == 8u64);
        } else if i == 2 {
            assert((8 * i) as u64 == 16u64);
        } else {
            assert((8 * i) as u64 == 24u64);
        }
    }
    assert forall|i: int| 0 <= i < 4 implies #[trigger] byte_of(hi(x), i) == byte64(x, i + 4) by {
        if i == 0 {
            assert((8 * (i + 4)) as u64 == 32u64);
        } else if i == 1 {
            assert((8 * (i + 4)) as u64 == 40u64);
        } else if i == 2 {
            assert((8 * (i + 4)) as u64 == 48u64);
        } else {
            assert((8 * (i + 4)) as u64 == 56u64);
        }
    }
}

proof fn lemma_word_bytes_at(ws: Seq<u32>, j: int)
    requires
        0 <= j < ws.len(),
    ensures
        bytes_of_words(ws).len() == 4 * ws.len(),
        forall|k: int| 0 <= k < 4 ==> #[trigger] bytes_of_words(ws)[4 * j + k] == byte_of(ws[j], k),
{
    reveal(bytes_of_words);
    assert forall|k: int| 0 <= k < 4 implies #[trigger] bytes_of_words(ws)[4 * j + k] == byte_of(ws[j], k) by {
        assert((4 * j + k) / 4 == j);
        assert((4 * j + k) % 4 == k);
    }
}

proof fn lemma_holds_u32(ws: Seq<u32>, j: int, x: u32)
    requires
        0 <= j < ws.len(),
        ws[j] == x,
    ensures
        holds_u32(bytes_of_words(ws), 4 * j, x),
{
    lemma_word_bytes_at(ws, j);
    lemma_byte32(x);
    assert forall|i: int| 0 <= i < 4 implies #[trigger] bytes_of_words(ws)[4 * j + i] == byte32(x, i) by {
        assert(bytes_of_words(ws)[4 * j + i] == byte_of(ws[j], i));
    }
}

proof fn lemma_holds_u64(ws: Seq<u32>, j: int, x: u64)
    requires
        0 <= j,
        j + 1 < ws.len(),
        ws[j] == lo(x),
        ws[j + 1] == hi(x),
    ensures
        holds_u64(bytes_of_words(ws), 4 * j, x),
{
    lemma_word_bytes_at(ws, j);
    lemma_word_bytes_at(ws, j + 1);
    lemma_byte64(x);
    let p = bytes_of_words(ws);
    assert forall|i: int| 0 <= i < 8 implies #[trigger] p[4 * j + i] == byte64(x, i) by {
        if i < 4 {
            assert(p[4 * j + i] == byte_of(ws[j], i));
        } else {
            assert(p[4 * (j + 1) + (i - 4)] == byte_of(ws[j + 1], i - 4));
            assert(byte_of(hi(x), i - 4) == byte64(x, (i - 4) + 4));
        }
    }
}

/// Four bytes name one 32-bit value.
proof fn lemma_byte32_injective(x: u32, y: u32)
    requires
        forall|i: int| 0 <= i < 4 ==> #[trigger] byte32(x, i) == byte32(y, i),
    ensures
        x == y,
{
    lemma_byte32(x);
    lemma_byte32(y);
    assert(byte_of(x, 0) == byte_of(y, 0) && byte_of(x, 1) == byte_of(y, 1) && byte_of(x, 2) == byte_of(y, 2)
        && byte_of(x, 3) == byte_of(y, 3)) by {
        assert(byte32(x, 0) == byte32(y, 0));
        assert(byte32(x, 1) == byte32(y, 1));
        assert(byte32(x, 2) == byte32(y, 2));
        assert(byte32(x, 3) == byte32(y, 3));
    }
    crate::words::lemma_word_bytes(x);
    crate::words::lemma_word_bytes(y);
}

/// A WELCOME's payload is its fields at their struct offsets, least significant byte first:
/// the current tick at bytes 0 to 8, the nominal dt's bits at 8 to 12, the client id at 12 to
/// 16, the world fingerprint at 16 to 24.
pub proof fn law_welcome_payload_is_laid_out_by_field(w: Welcome)
    ensures
        ({
            let p = frame_payload(MessageV::Welcome(w));
            &&& p.len() == 24
            &&& holds_u64(p, 0, w.current_tick)
            &&& holds_u32(p, 8, w.nominal_dt_seconds)
            &&& holds_u32(p, 12, w.client_id)
            &&& holds_u64(p, 16, w.world_fingerprint)
        }),
{
    let ws = welcome_words(w);
    assert(payload_words(MessageV::Welcome(w)) == ws);
    lemma_word_bytes_at(ws, 0);
    lemma_holds_u64(ws, 0, w.current_tick);
    lemma_holds_u32(ws, 2, w.nominal_dt_seconds);
    lemma_holds_u32(ws, 3, w.client_id);
    lemma_holds_u64(ws, 4, w.world_fingerprint);
}

/// A DEREZ's payload is its fields at their struct offsets, least significant byte first: the
/// tick at bytes 0 to 8, the creature id at 8 to 12, the reserved bytes at 12 to 16 as they
/// stand. With `decode`'s contract, which hands back the message whose payload is the bytes
/// decoded, a decoded DEREZ reads its tick from bytes 0 to 8 and its creature id from 8 to 12.
pub proof fn law_derez_payload_is_laid_out_by_field(d: Derez)
    ensures
        ({
            let p = frame_payload(MessageV::Derez(d));
            &&& p.len() == 16
            &&& holds_u64(p, 0, d.tick)
            &&& holds_u32(p, 8, d.creature_id)
            &&& p[12] == d.reserved0[0] && p[13] == d.reserved0[1] && p[14] == d.reserved0[2]
                && p[15] == d.reserved0[3]
        }),
{
    let ws = derez_words(d);
    assert(payload_words(MessageV::Derez(d)) == ws);
    lemma_word_bytes_at(ws, 3);
    lemma_holds_u64(ws, 0, d.tick);
    lemma_holds_u32(ws, 2, d.creature_id);
    lemma_bytes_word(d.reserved0[0], d.reserved0[1], d.reserved0[2], d.reserved0[3]);
    let p = bytes_of_words(ws);
    assert(p[4 * 3int + 0] == byte_of(ws[3], 0));
    assert(p[4 * 3int + 1] == byte_of(ws[3], 1));
    assert(p[4 * 3int + 2] == byte_of(ws[3], 2));
    assert(p[4 * 3int + 3] == byte_of(ws[3], 3));
}

/// Two DEREZ payloads that are the same bytes are the same DEREZ: a decoder that reads one
/// field from another's bytes cannot meet `decode`'s contract.
pub proof fn law_derez_payload_determines_fields(d1: Derez, d2: Derez)
    requires
        frame_payload(MessageV::Derez(d1)) == frame_payload(MessageV::Derez(d2)),
    ensures
        d1.tick == d2.tick,
        d1.creature_id == d2.creature_id,
        d1.reserved0 == d2.reserved0,
{
    law_derez_payload_is_laid_out_by_field(d1);
    law_derez_payload_is_laid_out_by_field(d2);
    let p = frame_payload(MessageV::Derez(d1));
    assert forall|i: int| 0 <= i < 4 implies #[trigger] byte32(d1.creature_id, i) == byte32(d2.creature_id, i) by {
        assert(p[8 + i] == byte32(d1.creature_id, i));
    }
    lemma_byte32_injective(d1.creature_id, d2.creature_id);
    assert forall|i: int| 0 <= i < 8 implies #[trigger] byte64(d1.tick, i) == byte64(d2.tick, i) by {
        assert(p[0int + i] == byte64(d1.tick, i));
    }
    lemma_byte64_injective(d1.tick, d2.tick);
    assert(d1.reserved0 =~= d2.reserved0);
}

/// Eight bytes name one 64-bit value.
proof fn lemma_byte64_injective(x: u64, y: u64)
    requires
        forall|i: int| 0 <= i < 8 ==> #[trigger] byte64(x, i) == byte64(y, i),
    ensures
        x == y,
{
    lemma_byte64(x);
    lemma_byte64(y);
    assert forall|i: int| 0 <= i < 4 implies #[trigger] byte32(lo(x), i) == byte32(lo(y), i) by {
        lemma_byte32(lo(x));
        lemma_byte32(lo(y));
        assert(byte_of(lo(x), i) == byte64(x, i));
        assert(byte_of(lo(y), i) == byte64(y, i));
    }
    assert forall|i: int| 0 <= i < 4 implies #[trigger] byte32(hi(x), i) == byte32(hi(y), i) by {
        lemma_byte32(hi(x));
        lemma_byte32(hi(y));
        assert(byte_of(hi(x), i) == byte64(x, i + 4));
        assert(byte_of(hi(y), i) == byte64(y, i + 4));
    }
    lemma_byte32_injective(lo(x), lo(y));
    lemma_byte32_injective(hi(x), hi(y));
    crate::words::lemma_join_split(x);
    crate::words::lemma_join_split(y);
}

/// The bytes the world fingerprint hashes are the definition's ten fields, each at four times
/// its place in the struct, least significant byte first: every field is hashed, once, where
/// the definition lays it out.
pub proof fn law_world_fingerprint_hashes_every_field(d: WorldDefinition)
    ensures
        ({
            let b = bytes_of_words(world_words(d));
            &&& b.len() == 40
            &&& holds_u32(b, 0, d.floor_cells)
            &&& holds_u32(b, 4, d.floor_cell_size)
            &&& holds_u32(b, 8, d.floor_height)
            &&& holds_u32(b, 12, d.relief_amplitude)
            &&& holds_u32(b, 16, d.relief_wavelength)
            &&& holds_u32(b, 20, d.relief_octaves)
            &&& holds_u32(b, 24, d.relief_terraces)
            &&& holds_u32(b, 28, d.relief_seed)
            &&& holds_u32(b, 32, d.dt_seconds)
            &&& holds_u32(b, 36, d.body_half_height)
        }),
{
    let ws = world_words(d);
    lemma_word_bytes_at(ws, 0);
    lemma_holds_u32(ws, 0, d.floor_cells);
    lemma_holds_u32(ws, 1, d.floor_cell_size);
    lemma_holds_u32(ws, 2, d.floor_height);
    lemma_holds_u32(ws, 3, d.relief_amplitude);
    lemma_holds_u32(ws, 4, d.relief_wavelength);
    lemma_holds_u32(ws, 5, d.relief_octaves);
    lemma_holds_u32(ws, 6, d.relief_terraces);
    lemma_holds_u32(ws, 7, d.relief_seed);
    lemma_holds_u32(ws, 8, d.dt_seconds);
    lemma_holds_u32(ws, 9, d.body_half_height);
}

/// Two world definitions whose fingerprints are taken over the same bytes are the same
/// definition: a world differing in any one field is hashed from different bytes.
pub proof fn law_world_fingerprint_input_determines_the_world(d1: WorldDefinition, d2: WorldDefinition)
    requires
        bytes_of_words(world_words(d1)) == bytes_of_words(world_words(d2)),
    ensures
        d1 == d2,
{
    law_world_fingerprint_hashes_every_field(d1);
    law_world_fingerprint_hashes_every_field(d2);
    let b = bytes_of_words(world_words(d1));
    assert forall|k: int, i: int| 0 <= k < 10 && 0 <= i < 4 implies #[trigger] b[4 * k + i] == b[4 * k + i] by {}
    lemma_field_equal(b, 0, d1.floor_cells, d2.floor_cells);
    lemma_field_equal(b, 4, d1.floor_cell_size, d2.floor_cell_size);
    lemma_field_equal(b, 8, d1.floor_height, d2.floor_height);
    lemma_field_equal(b, 12, d1.relief_amplitude, d2.relief_amplitude);
    lemma_field_equal(b, 16, d1.relief_wavelength, d2.relief_wavelength);
    lemma_field_equal(b, 20, d1.relief_octaves, d2.relief_octaves);
    lemma_field_equal(b, 24, d1.relief_terraces, d2.relief_terraces);
    lemma_field_equal(b, 28, d1.relief_seed, d2.relief_seed);
    lemma_field_equal(b, 32, d1.dt_seconds, d2.dt_seconds);
    lemma_field_equal(b, 36, d1.body_half_height, d2.body_half_height);
}

proof fn lemma_field_equal(b: Seq<u8>, at: int, x: u32, y: u32)
    requires
        holds_u32(b, at, x),
        holds_u32(b, at, y),
    ensures
        x == y,
{
    assert forall|i: int| 0 <= i < 4 implies #[trigger] byte32(x, i) == byte32(y, i) by {
        assert(b[at + i] == byte32(x, i));
    }
    lemma_byte32_injective(x, y);
}

proof fn lemma_bytes_at(ws: Seq<u32>, j: int, b0: u8, b1: u8, b2: u8, b3: u8)
    requires
        0 <= j < ws.len(),
        ws[j] == word_of(b0, b1, b2, b3),
    ensures
        bytes_of_words(ws)[4 * j] == b0,
        bytes_of_words(ws)[4 * j + 1] == b1,
        bytes_of_words(ws)[4 * j + 2] == b2,
        bytes_of_words(ws)[4 * j + 3] == b3,
{
    lemma_word_bytes_at(ws, j);
    lemma_bytes_word(b0, b1, b2, b3);
    assert(bytes_of_words(ws)[4 * j + 0] == byte_of(ws[j], 0));
}

/// A HELLO's payload is its fields at their struct offsets, least significant byte first: the
/// protocol version at bytes 0 to 4, the contract fingerprint's 32 bytes at 4 to 36 in order,
/// the role at 36, the reserved bytes at 37 to 40, the world fingerprint at 40 to 48.
pub proof fn law_hello_payload_is_laid_out_by_field(h: Hello)
    ensures
        ({
            let p = frame_payload(MessageV::Hello(h));
            &&& p.len() == 48
            &&& holds_u32(p, 0, h.protocol_version)
            &&& forall|i: int| 0 <= i < 32 ==> #[trigger] p[4 + i] == h.fingerprint[i]
            &&& p[36] == h.role
            &&& p[37] == h.reserved0[0] && p[38] == h.reserved0[1] && p[39] == h.reserved0[2]
            &&& holds_u64(p, 40, h.world_fingerprint)
        }),
{
    let ws = hello_words(h);
    assert(payload_words(MessageV::Hello(h)) == ws);
    assert(ws.len() == 12);
    lemma_word_bytes_at(ws, 0);
    lemma_holds_u32(ws, 0, h.protocol_version);
    let p = bytes_of_words(ws);
    assert forall|i: int| 0 <= i < 32 implies #[trigger] p[4 + i] == h.fingerprint[i] by {
        let k = i / 4;
        let r = i % 4;
        assert(ws[1 + k] == fingerprint_words(h.fingerprint)[k]);
        lemma_bytes_at(ws, 1 + k, h.fingerprint[4 * k], h.fingerprint[4 * k + 1], h.fingerprint[4 * k + 2],
            h.fingerprint[4 * k + 3]);
        assert(4 + i == 4 * (1 + k) + r);
    }
    lemma_bytes_at(ws, 9, h.role, h.reserved0[0], h.reserved0[1], h.reserved0[2]);
    lemma_holds_u64(ws, 10, h.world_fingerprint);
}

/// An EVENT's payload is its fields at their struct offsets, least significant byte first: the
/// tick at bytes 0 to 8, the position's three coordinates at 8, 12 and 16, the strength at 20,
/// the creature id at 24, the kind at 28, the reserved bytes at 29 to 32.
pub proof fn law_event_payload_is_laid_out_by_field(e: Event)
    ensures
        ({
            let p = frame_payload(MessageV::Event(e));
            &&& p.len() == 32
            &&& holds_u64(p, 0, e.tick)
            &&& holds_u32(p, 8, e.position[0])
            &&& holds_u32(p, 12, e.position[1])
            &&& holds_u32(p, 16, e.position[2])
            &&& holds_u32(p, 20, e.strength)
            &&& holds_u32(p, 24, e.creature_id)
            &&& p[28] == e.kind
            &&& p[29] == e.reserved0[0] && p[30] == e.reserved0[1] && p[31] == e.reserved0[2]
        }),
{
    let ws = event_words(e);
    assert(payload_words(MessageV::Event(e)) == ws);
    lemma_word_bytes_at(ws, 0);
    lemma_holds_u64(ws, 0, e.tick);
    lemma_holds_u32(ws, 2, e.position[0]);
    lemma_holds_u32(ws, 3, e.position[1]);
    lemma_holds_u32(ws, 4, e.position[2]);
    lemma_holds_u32(ws, 5, e.strength);
    lemma_holds_u32(ws, 6, e.creature_id);
    lemma_bytes_at(ws, 7, e.kind, e.reserved0[0], e.reserved0[1], e.reserved0[2]);
}

/// A REFUSED's payload is its fields at their struct offsets, least significant byte first: the
/// tick at bytes 0 to 8, the creature id at 8 to 12, the reason at 12, the reserved bytes at 13
/// to 16.
pub proof fn law_refused_payload_is_laid_out_by_field(r: Refused)
    ensures
        ({
            let p = frame_payload(MessageV::Refused(r));
            &&& p.len() == 16
            &&& holds_u64(p, 0, r.tick)
            &&& holds_u32(p, 8, r.creature_id)
            &&& p[12] == r.reason
            &&& p[13] == r.reserved0[0] && p[14] == r.reserved0[1] && p[15] == r.reserved0[2]
        }),
{
    let ws = refused_words(r);
    assert(payload_words(MessageV::Refused(r)) == ws);
    lemma_word_bytes_at(ws, 0);
    lemma_holds_u64(ws, 0, r.tick);
    lemma_holds_u32(ws, 2, r.creature_id);
    lemma_bytes_at(ws, 3, r.reason, r.reserved0[0], r.reserved0[1], r.reserved0[2]);
}

/// A PING's and a PONG's payload is the nonce, least significant byte first, and nothing else.
pub proof fn law_ping_and_pong_payloads_are_the_nonce(ping: Ping, pong: Pong)
    ensures
        frame_payload(MessageV::Ping(ping)).len() == 8,
        holds_u64(frame_payload(MessageV::Ping(ping)), 0, ping.nonce),
        frame_payload(MessageV::Pong(pong)).len() == 8,
        holds_u64(frame_payload(MessageV::Pong(pong)), 0, pong.nonce),
{
    assert(payload_words(MessageV::Ping(ping)) == nonce_words(ping.nonce));
    assert(payload_words(MessageV::Pong(pong)) == nonce_words(pong.nonce));
    lemma_word_bytes_at(nonce_words(ping.nonce), 0);
    lemma_word_bytes_at(nonce_words(pong.nonce), 0);
    lemma_holds_u64(nonce_words(ping.nonce), 0, ping.nonce);
    lemma_holds_u64(nonce_words(pong.nonce), 0, pong.nonce);
}

/// An ACTIONS's payload is its fields at their struct offsets, least significant byte first:
/// the tick at bytes 0 to 8, the creature id at 8, the desired forward speed, turn rate and
/// vocalisation at 12, 16 and 20, their previous values at 24, 28 and 32, the seven joint
/// targets from 36 and their previous values from 64, four bytes each, and the reserved bytes
/// at 92 to 96.
pub proof fn law_actions_payload_is_laid_out_by_field(a: Actions)
    ensures
        ({
            let p = frame_payload(MessageV::Actions(a));
            &&& p.len() == 96
            &&& holds_u64(p, 0, a.tick)
            &&& holds_u32(p, 8, a.creature_id)
            &&& holds_u32(p, 12, a.desired_forward_speed)
            &&& holds_u32(p, 16, a.desired_turn_rate)
            &&& holds_u32(p, 20, a.vocalisation_strength)
            &&& holds_u32(p, 24, a.previous_forward_speed)
            &&& holds_u32(p, 28, a.previous_turn_rate)
            &&& holds_u32(p, 32, a.previous_vocalisation)
            &&& forall|k: int| 0 <= k < 7 ==> holds_u32(p, 36 + 4 * k, #[trigger] a.joint_targets[k])
            &&& forall|k: int| 0 <= k < 7 ==> holds_u32(p, 64 + 4 * k, #[trigger] a.previous_joint_targets[k])
            &&& p[92] == a.reserved0[0] && p[93] == a.reserved0[1] && p[94] == a.reserved0[2]
                && p[95] == a.reserved0[3]
        }),
{
    let ws = actions_words(a);
    assert(payload_words(MessageV::Actions(a)) == ws);
    assert(ws.len() == 24);
    lemma_word_bytes_at(ws, 0);
    lemma_holds_u64(ws, 0, a.tick);
    lemma_holds_u32(ws, 2, a.creature_id);
    lemma_holds_u32(ws, 3, a.desired_forward_speed);
    lemma_holds_u32(ws, 4, a.desired_turn_rate);
    lemma_holds_u32(ws, 5, a.vocalisation_strength);
    lemma_holds_u32(ws, 6, a.previous_forward_speed);
    lemma_holds_u32(ws, 7, a.previous_turn_rate);
    lemma_holds_u32(ws, 8, a.previous_vocalisation);
    assert forall|k: int| 0 <= k < 7 implies holds_u32(bytes_of_words(ws), 36 + 4 * k, #[trigger] a.joint_targets[k]) by {
        assert(ws[9 + k] == a.joint_targets[k]);
        lemma_holds_u32(ws, 9 + k, a.joint_targets[k]);
        assert(4 * (9 + k) == 36 + 4 * k);
    }
    assert forall|k: int| 0 <= k < 7 implies holds_u32(bytes_of_words(ws), 64 + 4 * k, #[trigger] a.previous_joint_targets[k]) by {
        assert(ws[16 + k] == a.previous_joint_targets[k]);
        lemma_holds_u32(ws, 16 + k, a.previous_joint_targets[k]);
        assert(4 * (16 + k) == 64 + 4 * k);
    }
    lemma_bytes_at(ws, 23, a.reserved0[0], a.reserved0[1], a.reserved0[2], a.reserved0[3]);
}

proof fn lemma_flatten_at<T>(rows: Seq<T>, width: nat, f: spec_fn(T) -> Seq<u32>, r: int, c: int)
    requires
        0 <= r < rows.len(),
        0 <= c < width,
    ensures
        flatten(rows, width, f).len() == rows.len() * width,
        0 <= width * r + c < rows.len() * width,
        flatten(rows, width, f)[width * r + c] == f(rows[r])[c],
{
    let w = width as int;
    assert(0 <= w * r + c < rows.len() * w) by (nonlinear_arith)
        requires
            0 <= r < rows.len(),
            0 <= c < w,
    ;
    lemma_fundamental_div_mod_converse(w * r + c, w, r, c);
}

/// A REZ's payload opens with its header's twelve fields, four bytes each at four times their
/// place in the struct, least significant byte first; then each vertex's three coordinates,
/// twelve bytes a row from byte 48; then each triangle's three corners and material, sixteen
/// bytes a row; then each material's colour, index of refraction, emission and transmission,
/// thirty-two bytes a row.
pub proof fn law_rez_payload_is_laid_out_by_field(
    h: Rez,
    vertices: Seq<RezVertex>,
    triangles: Seq<RezTriangle>,
    materials: Seq<RezMaterial>,
)
    ensures
        ({
            let p = frame_payload(MessageV::Rez { header: h, vertices, triangles, materials });
            let v = vertices.len() as int;
            let t = triangles.len() as int;
            &&& p.len() == 48 + 12 * v + 16 * t + 32 * materials.len()
            &&& holds_u32(p, 0, h.creature_id)
            &&& holds_u32(p, 4, h.max_forward_speed)
            &&& holds_u32(p, 8, h.max_turn_rate)
            &&& holds_u32(p, 12, h.max_vocalisation_strength)
            &&& holds_u32(p, 16, h.max_contact_count)
            &&& holds_u32(p, 20, h.vertex_count)
            &&& holds_u32(p, 24, h.triangle_count)
            &&& holds_u32(p, 28, h.material_count)
            &&& holds_u32(p, 32, h.segment_count)
            &&& holds_u32(p, 36, h.segment_spacing)
            &&& holds_u32(p, 40, h.max_joint_angle)
            &&& holds_u32(p, 44, h.max_joint_torque)
            &&& forall|r: int, c: int| 0 <= r < v && 0 <= c < 3 ==> holds_u32(p, 48 + 12 * r + 4 * c,
                #[trigger] vertices[r].position[c])
            &&& forall|r: int, c: int| 0 <= r < t && 0 <= c < 3 ==> holds_u32(p, 48 + 12 * v + 16 * r + 4 * c,
                #[trigger] triangles[r].vertices[c])
            &&& forall|r: int| 0 <= r < t ==> holds_u32(p, 48 + 12 * v + 16 * r + 12, #[trigger] triangles[r].material)
            &&& forall|r: int, c: int| 0 <= r < materials.len() && 0 <= c < 3 ==> holds_u32(p, 48 + 12 * v + 16 * t
                + 32 * r + 4 * c, #[trigger] materials[r].colour[c])
            &&& forall|r: int| 0 <= r < materials.len() ==> holds_u32(p, 48 + 12 * v + 16 * t + 32 * r + 12,
                #[trigger] materials[r].index_of_refraction)
            &&& forall|r: int, c: int| 0 <= r < materials.len() && 0 <= c < 3 ==> holds_u32(p, 48 + 12 * v + 16
                * t + 32 * r + 16 + 4 * c, #[trigger] materials[r].emission[c])
            &&& forall|r: int| 0 <= r < materials.len() ==> holds_u32(p, 48 + 12 * v + 16 * t + 32 * r + 28,
                #[trigger] materials[r].transmission)
        }),
{
    let m = MessageV::Rez { header: h, vertices, triangles, materials };
    let hw = rez_header_words(h);
    let fv = flatten(vertices, 3, |x: RezVertex| vertex_words(x));
    let ft = flatten(triangles, 4, |x: RezTriangle| triangle_words(x));
    let fm = flatten(materials, 8, |x: RezMaterial| material_words(x));
    let ws = payload_words(m);
    assert(ws == hw + fv + ft + fm);
    let v = vertices.len() as int;
    let t = triangles.len() as int;
    assert(fv.len() == 3 * v && ft.len() == 4 * t && fm.len() == 8 * materials.len()) by (nonlinear_arith)
        requires
            v == vertices.len(),
            t == triangles.len(),
            fv.len() == vertices.len() * 3,
            ft.len() == triangles.len() * 4,
            fm.len() == materials.len() * 8,
    ;
    lemma_word_bytes_at(ws, 0);
    assert forall|j: int| 0 <= j < 12 implies holds_u32(bytes_of_words(ws), 4 * j, #[trigger] hw[j]) by {
        lemma_holds_u32(ws, j, hw[j]);
    }
    assert(holds_u32(bytes_of_words(ws), 4 * 0int, hw[0]));
    assert(holds_u32(bytes_of_words(ws), 4 * 1int, hw[1]));
    assert(holds_u32(bytes_of_words(ws), 4 * 2int, hw[2]));
    assert(holds_u32(bytes_of_words(ws), 4 * 3int, hw[3]));
    assert(holds_u32(bytes_of_words(ws), 4 * 4int, hw[4]));
    assert(holds_u32(bytes_of_words(ws), 4 * 5int, hw[5]));
    assert(holds_u32(bytes_of_words(ws), 4 * 6int, hw[6]));
    assert(holds_u32(bytes_of_words(ws), 4 * 7int, hw[7]));
    assert(holds_u32(bytes_of_words(ws), 4 * 8int, hw[8]));
    assert(holds_u32(bytes_of_words(ws), 4 * 9int, hw[9]));
    assert(holds_u32(bytes_of_words(ws), 4 * 10int, hw[10]));
    assert(holds_u32(bytes_of_words(ws), 4 * 11int, hw[11]));
    assert forall|r: int, c: int| 0 <= r < v && 0 <= c < 3 implies holds_u32(bytes_of_words(ws), 48 + 12 * r + 4
        * c, #[trigger] vertices[r].position[c]) by {
        lemma_flatten_at(vertices, 3, |x: RezVertex| vertex_words(x), r, c);
        assert(ws[12 + 3 * r + c] == fv[3 * r + c]);
        lemma_holds_u32(ws, 12 + 3 * r + c, vertices[r].position[c]);
    }
    assert forall|r: int, c: int| 0 <= r < t && 0 <= c < 3 implies holds_u32(bytes_of_words(ws), 48 + 12 * v + 16
        * r + 4 * c, #[trigger] triangles[r].vertices[c]) by {
        lemma_flatten_at(triangles, 4, |x: RezTriangle| triangle_words(x), r, c);
        assert(ws[12 + 3 * v + 4 * r + c] == ft[4 * r + c]);
        lemma_holds_u32(ws, 12 + 3 * v + 4 * r + c, triangles[r].vertices[c]);
    }
    assert forall|r: int| 0 <= r < t implies holds_u32(bytes_of_words(ws), 48 + 12 * v + 16 * r + 12,
        #[trigger] triangles[r].material) by {
        lemma_flatten_at(triangles, 4, |x: RezTriangle| triangle_words(x), r, 3);
        assert(ws[12 + 3 * v + 4 * r + 3] == ft[4 * r + 3]);
        lemma_holds_u32(ws, 12 + 3 * v + 4 * r + 3, triangles[r].material);
    }
    let base = 12 + 3 * v + 4 * t;
    assert forall|r: int, c: int| 0 <= r < materials.len() && 0 <= c < 3 implies holds_u32(bytes_of_words(ws), 48
        + 12 * v + 16 * t + 32 * r + 4 * c, #[trigger] materials[r].colour[c]) by {
        lemma_flatten_at(materials, 8, |x: RezMaterial| material_words(x), r, c);
        assert(ws[base + 8 * r + c] == fm[8 * r + c]);
        lemma_holds_u32(ws, base + 8 * r + c, materials[r].colour[c]);
    }
    assert forall|r: int| 0 <= r < materials.len() implies holds_u32(bytes_of_words(ws), 48 + 12 * v + 16 * t + 32
        * r + 12, #[trigger] materials[r].index_of_refraction) by {
        lemma_flatten_at(materials, 8, |x: RezMaterial| material_words(x), r, 3);
        assert(ws[base + 8 * r + 3] == fm[8 * r + 3]);
        lemma_holds_u32(ws, base + 8 * r + 3, materials[r].index_of_refraction);
    }
    assert forall|r: int, c: int| 0 <= r < materials.len() && 0 <= c < 3 implies holds_u32(bytes_of_words(ws), 48
        + 12 * v + 16 * t + 32 * r + 16 + 4 * c, #[trigger] materials[r].emission[c]) by {
        lemma_flatten_at(materials, 8, |x: RezMaterial| material_words(x), r, 4 + c);
        assert(ws[base + 8 * r + 4 + c] == fm[8 * r + (4 + c)]);
        lemma_holds_u32(ws, base + 8 * r + 4 + c, materials[r].emission[c]);
    }
    assert forall|r: int| 0 <= r < materials.len() implies holds_u32(bytes_of_words(ws), 48 + 12 * v + 16 * t + 32
        * r + 28, #[trigger] materials[r].transmission) by {
        lemma_flatten_at(materials, 8, |x: RezMaterial| material_words(x), r, 7);
        assert(ws[base + 8 * r + 7] == fm[8 * r + 7]);
        lemma_holds_u32(ws, base + 8 * r + 7, materials[r].transmission);
    }
}

/// A TICK_STATE's payload is its header, then one 188-byte row per creature, each field at its
/// struct offset, least significant byte first: the tick at bytes 0 to 8, the count at 8, the
/// reserved bytes at 12 to 16; in row `r`, from byte 16 + 188r, the creature id at 0, the
/// position at 4, 8 and 12, the yaw at 16, the pitch at 20, the velocity at 24, 28 and 32, the
/// yaw rate at 36, the vocalisation at 40, the segment count at 44, and trailing segment `k`'s
/// position, yaw and pitch from 48 + 20k.
pub proof fn law_tick_state_payload_is_laid_out_by_field(h: TickStateHeader, states: Seq<CreatureState>)
    ensures
        ({
            let p = frame_payload(MessageV::TickState { header: h, states });
            &&& p.len() == 16 + 188 * states.len()
            &&& holds_u64(p, 0, h.tick)
            &&& holds_u32(p, 8, h.creature_count)
            &&& p[12] == h.reserved0[0] && p[13] == h.reserved0[1] && p[14] == h.reserved0[2] && p[15]
                == h.reserved0[3]
            &&& forall|r: int| 0 <= r < states.len() ==> {
                let s = #[trigger] states[r];
                let at = 16 + 188 * r;
                &&& holds_u32(p, at, s.creature_id)
                &&& holds_u32(p, at + 4, s.position[0])
                &&& holds_u32(p, at + 8, s.position[1])
                &&& holds_u32(p, at + 12, s.position[2])
                &&& holds_u32(p, at + 16, s.yaw)
                &&& holds_u32(p, at + 20, s.pitch)
                &&& holds_u32(p, at + 24, s.velocity[0])
                &&& holds_u32(p, at + 28, s.velocity[1])
                &&& holds_u32(p, at + 32, s.velocity[2])
                &&& holds_u32(p, at + 36, s.yaw_rate)
                &&& holds_u32(p, at + 40, s.vocalisation)
                &&& holds_u32(p, at + 44, s.segment_count)
                &&& forall|k: int| 0 <= k < 7 ==> {
                    let seg = #[trigger] s.segments[k];
                    &&& holds_u32(p, at + 48 + 20 * k, seg.position[0])
                    &&& holds_u32(p, at + 52 + 20 * k, seg.position[1])
                    &&& holds_u32(p, at + 56 + 20 * k, seg.position[2])
                    &&& holds_u32(p, at + 60 + 20 * k, seg.yaw)
                    &&& holds_u32(p, at + 64 + 20 * k, seg.pitch)
                }
            }
        }),
{
    let m = MessageV::TickState { header: h, states };
    let hw = tick_header_words(h);
    let f = |x: CreatureState| state_words(x);
    let fs = flatten(states, 47, f);
    let ws = payload_words(m);
    assert(ws == hw + fs);
    assert(fs.len() == 47 * states.len()) by (nonlinear_arith)
        requires
            fs.len() == states.len() * 47,
    ;
    lemma_word_bytes_at(ws, 0);
    lemma_holds_u64(ws, 0, h.tick);
    lemma_holds_u32(ws, 2, h.creature_count);
    lemma_bytes_at(ws, 3, h.reserved0[0], h.reserved0[1], h.reserved0[2], h.reserved0[3]);
    let p = bytes_of_words(ws);
    assert forall|r: int| 0 <= r < states.len() implies {
        let s = #[trigger] states[r];
        let at = 16 + 188 * r;
        &&& holds_u32(p, at, s.creature_id)
        &&& holds_u32(p, at + 4, s.position[0])
        &&& holds_u32(p, at + 8, s.position[1])
        &&& holds_u32(p, at + 12, s.position[2])
        &&& holds_u32(p, at + 16, s.yaw)
        &&& holds_u32(p, at + 20, s.pitch)
        &&& holds_u32(p, at + 24, s.velocity[0])
        &&& holds_u32(p, at + 28, s.velocity[1])
        &&& holds_u32(p, at + 32, s.velocity[2])
        &&& holds_u32(p, at + 36, s.yaw_rate)
        &&& holds_u32(p, at + 40, s.vocalisation)
        &&& holds_u32(p, at + 44, s.segment_count)
        &&& forall|k: int| 0 <= k < 7 ==> {
            let seg = #[trigger] s.segments[k];
            &&& holds_u32(p, at + 48 + 20 * k, seg.position[0])
            &&& holds_u32(p, at + 52 + 20 * k, seg.position[1])
            &&& holds_u32(p, at + 56 + 20 * k, seg.position[2])
            &&& holds_u32(p, at + 60 + 20 * k, seg.yaw)
            &&& holds_u32(p, at + 64 + 20 * k, seg.pitch)
        }
    } by {
        let s = states[r];
        let sw = state_words(s);
        let head = state_head_words(s);
        let g = |x: SegmentPose| pose_words(x);
        let fp = flatten(s.segments@, 5, g);
        assert(sw == head + fp);
        assert forall|c: int| 0 <= c < 47 implies ws[4 + 47 * r + c] == #[trigger] sw[c] by {
            lemma_flatten_at(states, 47, f, r, c);
        }
        assert forall|c: int| 0 <= c < 12 implies holds_u32(p, 4 * (4 + 47 * r + c), #[trigger] head[c]) by {
            lemma_holds_u32(ws, 4 + 47 * r + c, head[c]);
        }
        assert(holds_u32(p, 4 * (4 + 47 * r + 0), head[0]));
        assert(holds_u32(p, 4 * (4 + 47 * r + 1), head[1]));
        assert(holds_u32(p, 4 * (4 + 47 * r + 2), head[2]));
        assert(holds_u32(p, 4 * (4 + 47 * r + 3), head[3]));
        assert(holds_u32(p, 4 * (4 + 47 * r + 4), head[4]));
        assert(holds_u32(p, 4 * (4 + 47 * r + 5), head[5]));
        assert(holds_u32(p, 4 * (4 + 47 * r + 6), head[6]));
        assert(holds_u32(p, 4 * (4 + 47 * r + 7), head[7]));
        assert(holds_u32(p, 4 * (4 + 47 * r + 8), head[8]));
        assert(holds_u32(p, 4 * (4 + 47 * r + 9), head[9]));
        assert(holds_u32(p, 4 * (4 + 47 * r + 10), head[10]));
        assert(holds_u32(p, 4 * (4 + 47 * r + 11), head[11]));
        assert forall|k: int| 0 <= k < 7 implies {
            let seg = #[trigger] s.segments[k];
            &&& holds_u32(p, 16 + 188 * r + 48 + 20 * k, seg.position[0])
            &&& holds_u32(p, 16 + 188 * r + 52 + 20 * k, seg.position[1])
            &&& holds_u32(p, 16 + 188 * r + 56 + 20 * k, seg.position[2])
            &&& holds_u32(p, 16 + 188 * r + 60 + 20 * k, seg.yaw)
            &&& holds_u32(p, 16 + 188 * r + 64 + 20 * k, seg.pitch)
        } by {
            let seg = s.segments[k];
            assert forall|c: int| 0 <= c < 5 implies holds_u32(p, 4 * (4 + 47 * r + 12 + 5 * k + c),
                #[trigger] pose_words(seg)[c]) by {
                lemma_flatten_at(s.segments@, 5, g, k, c);
                assert(sw[12 + 5 * k + c] == fp[5 * k + c]);
                assert(ws[4 + 47 * r + (12 + 5 * k + c)] == sw[12 + 5 * k + c]);
                lemma_holds_u32(ws, 4 + 47 * r + 12 + 5 * k + c, pose_words(seg)[c]);
            }
            assert(holds_u32(p, 4 * (4 + 47 * r + 12 + 5 * k + 0), pose_words(seg)[0]));
            assert(holds_u32(p, 4 * (4 + 47 * r + 12 + 5 * k + 1), pose_words(seg)[1]));
            assert(holds_u32(p, 4 * (4 + 47 * r + 12 + 5 * k + 2), pose_words(seg)[2]));
            assert(holds_u32(p, 4 * (4 + 47 * r + 12 + 5 * k + 3), pose_words(seg)[3]));
            assert(holds_u32(p, 4 * (4 + 47 * r + 12 + 5 * k + 4), pose_words(seg)[4]));
        }
    }
}

/// A PROPRIOCEPTION's payload is its header, then one 52-byte row per contact, each field at
/// its struct offset, least significant byte first: the tick at bytes 0 to 8, the creature id
/// at 8, the grounded byte at 12 and reserved bytes to 16, the specific force at 16, 20 and 24,
/// the seven joint angles from 28 and the seven joint torques from 56, four bytes each, the
/// contact count at 84 and eight reserved bytes to 96; then contact row `r` from byte 96 + 52r,
/// laid out as [`holds_contact`] says.
pub proof fn law_proprioception_payload_is_laid_out_by_field(h: Proprioception, contacts: Seq<Contact>)
    ensures
        ({
            let p = frame_payload(MessageV::Proprioception { header: h, contacts });
            &&& p.len() == 96 + 52 * contacts.len()
            &&& holds_u64(p, 0, h.tick)
            &&& holds_u32(p, 8, h.creature_id)
            &&& p[12] == h.grounded
            &&& p[13] == h.reserved0[0] && p[14] == h.reserved0[1] && p[15] == h.reserved0[2]
            &&& forall|c: int| 0 <= c < 3 ==> holds_u32(p, 16 + 4 * c, #[trigger] h.specific_force[c])
            &&& forall|k: int| 0 <= k < 7 ==> holds_u32(p, 28 + 4 * k, #[trigger] h.joint_angles[k])
            &&& forall|k: int| 0 <= k < 7 ==> holds_u32(p, 56 + 4 * k, #[trigger] h.joint_torques[k])
            &&& holds_u32(p, 84, h.contact_count)
            &&& forall|i: int| 0 <= i < 8 ==> p[88 + i] == #[trigger] h.reserved1[i]
            &&& forall|r: int| 0 <= r < contacts.len() ==> holds_contact(p, 96 + 52 * r, #[trigger] contacts[r])
        }),
{
    let m = MessageV::Proprioception { header: h, contacts };
    let hw = proprioception_words(h);
    let f = |x: Contact| contact_words(x);
    let fc = flatten(contacts, 13, f);
    let ws = payload_words(m);
    assert(ws == hw + fc);
    assert(hw.len() == 24);
    assert(fc.len() == 13 * contacts.len()) by (nonlinear_arith)
        requires
            fc.len() == contacts.len() * 13,
    ;
    lemma_word_bytes_at(ws, 0);
    lemma_holds_u64(ws, 0, h.tick);
    lemma_holds_u32(ws, 2, h.creature_id);
    lemma_bytes_at(ws, 3, h.grounded, h.reserved0[0], h.reserved0[1], h.reserved0[2]);
    let p = bytes_of_words(ws);
    assert forall|c: int| 0 <= c < 3 implies holds_u32(p, 16 + 4 * c, #[trigger] h.specific_force[c]) by {
        lemma_holds_u32(ws, 4 + c, h.specific_force[c]);
    }
    assert forall|k: int| 0 <= k < 7 implies holds_u32(p, 28 + 4 * k, #[trigger] h.joint_angles[k]) by {
        lemma_holds_u32(ws, 7 + k, h.joint_angles[k]);
    }
    assert forall|k: int| 0 <= k < 7 implies holds_u32(p, 56 + 4 * k, #[trigger] h.joint_torques[k]) by {
        lemma_holds_u32(ws, 14 + k, h.joint_torques[k]);
    }
    lemma_holds_u32(ws, 21, h.contact_count);
    lemma_bytes_at(ws, 22, h.reserved1[0], h.reserved1[1], h.reserved1[2], h.reserved1[3]);
    lemma_bytes_at(ws, 23, h.reserved1[4], h.reserved1[5], h.reserved1[6], h.reserved1[7]);
    assert forall|i: int| 0 <= i < 8 implies p[88 + i] == #[trigger] h.reserved1[i] by {
        if i < 4 {
            assert(88 + i == 4 * 22 + i);
        } else {
            assert(88 + i == 4 * 23 + (i - 4));
        }
    }
    lemma_contact_rows(h, contacts);
}

/// Whether `p` holds the contact `x` from byte offset `at`: the position at 0, 4 and 8, the
/// impulse at 12, 16 and 20, the normal at 24, 28 and 32, the depth at 36, the slip at 40, 44
/// and 48, each least significant byte first.
pub open spec fn holds_contact(p: Seq<u8>, at: int, x: Contact) -> bool {
    &&& holds_u32(p, at + 36, x.depth)
    &&& forall|c: int| 0 <= c < 3 ==> {
        &&& holds_u32(p, at + 4 * c, #[trigger] x.position[c])
        &&& holds_u32(p, at + 12 + 4 * c, x.impulse[c])
        &&& holds_u32(p, at + 24 + 4 * c, x.normal[c])
        &&& holds_u32(p, at + 40 + 4 * c, x.slip[c])
    }
}

proof fn lemma_contact_rows(h: Proprioception, contacts: Seq<Contact>)
    ensures
        ({
            let p = frame_payload(MessageV::Proprioception { header: h, contacts });
            forall|r: int| 0 <= r < contacts.len() ==> holds_contact(p, 96 + 52 * r, #[trigger] contacts[r])
        }),
{
    let m = MessageV::Proprioception { header: h, contacts };
    let hw = proprioception_words(h);
    let f = |x: Contact| contact_words(x);
    let fc = flatten(contacts, 13, f);
    let ws = payload_words(m);
    assert(ws == hw + fc);
    assert(hw.len() == 24);
    let p = bytes_of_words(ws);
    assert forall|r: int| 0 <= r < contacts.len() implies holds_contact(p, 96 + 52 * r, #[trigger] contacts[r]) by {
        let x = contacts[r];
        let cw = contact_words(x);
        assert forall|j: int| 0 <= j < 13 implies holds_u32(p, 4 * (24 + 13 * r + j), #[trigger] cw[j]) by {
            lemma_flatten_at(contacts, 13, f, r, j);
            lemma_holds_u32(ws, 24 + 13 * r + j, cw[j]);
        }
        assert(holds_u32(p, 4 * (24 + 13 * r + 9), cw[9]));
        assert forall|c: int| 0 <= c < 3 implies {
            &&& holds_u32(p, 96 + 52 * r + 4 * c, #[trigger] x.position[c])
            &&& holds_u32(p, 96 + 52 * r + 12 + 4 * c, x.impulse[c])
            &&& holds_u32(p, 96 + 52 * r + 24 + 4 * c, x.normal[c])
            &&& holds_u32(p, 96 + 52 * r + 40 + 4 * c, x.slip[c])
        } by {
            assert(holds_u32(p, 4 * (24 + 13 * r + c), cw[c]));
            assert(holds_u32(p, 4 * (24 + 13 * r + (3 + c)), cw[3 + c]));
            assert(holds_u32(p, 4 * (24 + 13 * r + (6 + c)), cw[6 + c]));
            assert(holds_u32(p, 4 * (24 + 13 * r + (10 + c)), cw[10 + c]));
        }
    }
}

} // verus!
