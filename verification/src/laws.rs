//! The laws that hold across the library: what one end encodes, the other decodes as the very
//! message sent and nothing else; frames say where they end and pass the reader's header-time
//! judgement; a connection and a replay hand over what was written, whole and in order, however
//! it is cut into reads; a payload off by one byte is never a message; no message is refused at
//! both ends; only ACTIONS and REZ are refused from a spectator, and each end refuses exactly
//! what only it sends; a REZ's spacing and servo bounds follow the chain rule; a REZ's length is
//! what its counts say; a build's own HELLO is welcome in its own world; a recording header
//! reads back as written.

use vstd::prelude::*;
use crate::codec::{
    PayloadRule, rule_of, length_refusal,
    encode_refusal, decode_refusal, lemma_valid_payload_size, states_fail, tick_rows_fail,
    triangles_fail, rez_triangle_rows_fail, vertex_bad, material_bad, contact_bad,
    max_frame_bytes_spec, rez_refusal, proprioception_refusal, spacing_fits, servos_fit,
    upper_bytes_zero, DecodeError,
};
use crate::protocol::{CONTACTS_MAX, REZ_MAX_MATERIALS, REZ_MAX_TRIANGLES, REZ_MAX_VERTICES, SEGMENTS_MAX};
use crate::layout::{
    MessageV, message_type, payload_words, frame_payload, frame_of, flatten, row, state_words,
    vertex_words, triangle_words, material_words, contact_words, proprioception_words,
    tick_header_words, rez_header_words, lemma_flatten_rows, lemma_first_failing,
    lemma_first_failing_least, first_failing, pose_words, state_head_words, fingerprint_words,
};
use crate::protocol::{
    Contact, CreatureState, Rez, RezMaterial, RezTriangle, RezVertex, SegmentPose, TickStateHeader,
};
use crate::ieee::finite;
use crate::words::{
    lemma_words_of_bytes, lemma_bytes_word, lemma_zero_word, words_of, byte_of, word_of, lo, hi,
    lemma_join_split, lemma_bytes_of_words_add, lemma_bytes_of_word,
};
use crate::protocol::{
    CONTACT_BYTES, CREATURE_STATE_BYTES, MessageType, PROPRIOCEPTION_HEADER_BYTES, PROTOCOL_VERSION, Role,
    TICK_HEADER_BYTES,
};
use crate::transport::{
    arrives_wrong_way, contract_refusal, frame_admitted, frame_decision, header_length,
    header_refusal, local_hello_spec, poll_took_from_wire, undecided, Connection, Refusal, TransportError, Wire,
    RECORDED_FINGERPRINT, arrival_refusal, byte_type, EndRules,
};
use crate::recording::{
    opens_as_recording, poll_took_from_file, recording_header_bytes, recording_header_words,
    RecordingHeader, Replayer, RECORDING_HEADER_BYTES, RECORDING_MAGIC,
};
use crate::codec::Message;
use crate::transport::Source;

verus! {

proof fn lemma_tick_frames_decode(m: MessageV)
    requires
        m is TickState,
        encode_refusal(m).is_none(),
    ensures
        decode_refusal(message_type(m).to_byte(), frame_payload(m)).is_none(),
{
    match m {
        MessageV::TickState { header, states } => {
        let w = payload_words(m);
        let p = frame_payload(m);
        let n = states.len() as int;
        let fs = |s: CreatureState| state_words(s);
        lemma_words_of_bytes(w);
        lemma_valid_payload_size(m);
        assert(w.len() == 4 + 47 * n);
        assert(p.len() == 16 + 188 * n);
        vstd::arithmetic::div_mod::lemma_fundamental_div_mod_converse(188 * n, 188, n, 0);
        assert(w.subrange(4, 4 + n * 47) =~= flatten(states, 47, fs));
        lemma_flatten_rows(states, 47, fs, w, 4);
        lemma_zero_word();
        assert(w[3] == 0);
        lemma_first_failing_least(n, states_fail(states));
        assert forall|k: int| 0 <= k < n implies !#[trigger] tick_rows_fail(w)(k) by {
            assert(!states_fail(states)(k));
            assert(row(w, 4, 47, k) == fs(states[k]));
        }
        lemma_first_failing(n, tick_rows_fail(w), n);
        },
        _ => {},
    }
}

proof fn lemma_rez_words_accepted(w: Seq<u32>, length: usize)
    requires
        w.len() >= 12,
        w[5] <= REZ_MAX_VERTICES,
        w[6] <= REZ_MAX_TRIANGLES,
        w[7] <= REZ_MAX_MATERIALS,
        length == 48 + 12 * w[5] + 16 * w[6] + 32 * w[7],
        finite(w[1]) && finite(w[2]) && finite(w[3]),
        w[8] != 0 && w[8] <= SEGMENTS_MAX,
        spacing_fits(w[8], w[9]),
        servos_fit(w[10], w[11]),
        forall|r: int| 0 <= r < w[5] ==> !vertex_bad(#[trigger] row(w, 12, 3, r)),
        first_failing(w[6] as int, rez_triangle_rows_fail(w)) == w[6],
        forall|r: int| 0 <= r < w[7] ==> !material_bad(#[trigger] row(w, 12 + 3 * w[5] + 4 * w[6], 8, r)),
    ensures
        rez_refusal(w, length).is_none(),
{
}

proof fn lemma_rez_rows_accepted(
    header: Rez,
    vertices: Seq<RezVertex>,
    triangles: Seq<RezTriangle>,
    materials: Seq<RezMaterial>,
    w: Seq<u32>,
)
    requires
        header.vertex_count == vertices.len(),
        header.triangle_count == triangles.len(),
        header.material_count == materials.len(),
        header.vertex_count <= REZ_MAX_VERTICES,
        header.triangle_count <= REZ_MAX_TRIANGLES,
        header.material_count <= REZ_MAX_MATERIALS,
        w == rez_header_words(header) + flatten(vertices, 3, |x: RezVertex| vertex_words(x))
            + flatten(triangles, 4, |x: RezTriangle| triangle_words(x)) + flatten(
            materials,
            8,
            |x: RezMaterial| material_words(x),
        ),
        first_failing(triangles.len() as int, triangles_fail(triangles, header.vertex_count, header.material_count))
            == triangles.len(),
        forall|r: int| 0 <= r < vertices.len() ==> !vertex_bad(vertex_words(#[trigger] vertices[r])),
        forall|r: int| 0 <= r < materials.len() ==> !material_bad(material_words(#[trigger] materials[r])),
    ensures
        w.len() == 12 + 3 * vertices.len() + 4 * triangles.len() + 8 * materials.len(),
        w.subrange(0, 12) == rez_header_words(header),
        forall|r: int| 0 <= r < w[5] ==> !vertex_bad(#[trigger] row(w, 12, 3, r)),
        first_failing(w[6] as int, rez_triangle_rows_fail(w)) == w[6],
        forall|r: int| 0 <= r < w[7] ==> !material_bad(#[trigger] row(w, 12 + 3 * w[5] + 4 * w[6], 8, r)),
{
    let v = vertices.len() as int;
    let t = triangles.len() as int;
    let c = materials.len() as int;
    let fv = |x: RezVertex| vertex_words(x);
    let ft = |x: RezTriangle| triangle_words(x);
    let fm = |x: RezMaterial| material_words(x);
    let hw = rez_header_words(header);
    let fvw = flatten(vertices, 3, fv);
    let ftw = flatten(triangles, 4, ft);
    let fmw = flatten(materials, 8, fm);
    assert(fvw.len() == v * 3 && ftw.len() == t * 4 && fmw.len() == c * 8);
    assert(w.len() == 12 + 3 * v + 4 * t + 8 * c);
    assert(w.subrange(0, 12) =~= hw);
    assert(w[5] == v && w[6] == t && w[7] == c);
    assert(w.subrange(12, 12 + v * 3) =~= fvw);
    lemma_flatten_rows(vertices, 3, fv, w, 12);
    assert(w.subrange(12 + 3 * v, 12 + 3 * v + t * 4) =~= ftw);
    lemma_flatten_rows(triangles, 4, ft, w, 12 + 3 * v);
    assert(w.subrange(12 + 3 * v + 4 * t, 12 + 3 * v + 4 * t + c * 8) =~= fmw);
    lemma_flatten_rows(materials, 8, fm, w, 12 + 3 * v + 4 * t);
    assert forall|r: int| 0 <= r < v implies !vertex_bad(#[trigger] row(w, 12, 3, r)) by {
        assert(row(w, 12, 3, r) == fv(vertices[r]));
    }
    assert forall|r: int| 0 <= r < c implies !material_bad(#[trigger] row(w, 12 + 3 * v + 4 * t, 8, r)) by {
        assert(row(w, 12 + 3 * v + 4 * t, 8, r) == fm(materials[r]));
    }
    let encode_fails = triangles_fail(triangles, header.vertex_count, header.material_count);
    lemma_first_failing_least(t, encode_fails);
    assert forall|k: int| 0 <= k < t implies !#[trigger] rez_triangle_rows_fail(w)(k) by {
        assert(!encode_fails(k));
        assert(row(w, 12 + 3 * v, 4, k) == ft(triangles[k]));
    }
    lemma_first_failing(t, rez_triangle_rows_fail(w), t);
}

proof fn lemma_rez_encode_facts(
    header: Rez,
    vertices: Seq<RezVertex>,
    triangles: Seq<RezTriangle>,
    materials: Seq<RezMaterial>,
)
    requires
        encode_refusal(MessageV::Rez { header, vertices, triangles, materials }).is_none(),
    ensures
        header.vertex_count == vertices.len() && header.triangle_count == triangles.len()
            && header.material_count == materials.len() && header.vertex_count <= REZ_MAX_VERTICES
            && header.triangle_count <= REZ_MAX_TRIANGLES && header.material_count <= REZ_MAX_MATERIALS,
        first_failing(triangles.len() as int, triangles_fail(triangles, header.vertex_count, header.material_count))
            == triangles.len(),
        forall|r: int| 0 <= r < vertices.len() ==> !vertex_bad(vertex_words(#[trigger] vertices[r])),
        forall|r: int| 0 <= r < materials.len() ==> !material_bad(material_words(#[trigger] materials[r])),
        finite(header.max_forward_speed) && finite(header.max_turn_rate)
            && finite(header.max_vocalisation_strength) && header.segment_count != 0
            && header.segment_count <= SEGMENTS_MAX,
        spacing_fits(header.segment_count, header.segment_spacing),
        servos_fit(header.max_joint_angle, header.max_joint_torque),
{
    lemma_first_failing_least(
        triangles.len() as int,
        triangles_fail(triangles, header.vertex_count, header.material_count),
    );
}

proof fn lemma_rez_payload_accepted(p: Seq<u8>)
    requires
        48 <= p.len() <= 45616,
        rez_refusal(words_of(p), p.len() as usize).is_none(),
    ensures
        decode_refusal(3, p).is_none(),
{
}

proof fn lemma_rez_frames_decode(m: MessageV)
    requires
        m is Rez,
        encode_refusal(m).is_none(),
    ensures
        decode_refusal(message_type(m).to_byte(), frame_payload(m)).is_none(),
{
    match m {
        MessageV::Rez { header, vertices, triangles, materials } => {
            let w = payload_words(m);
            let p = frame_payload(m);
            lemma_rez_encode_facts(header, vertices, triangles, materials);
            lemma_rez_rows_accepted(header, vertices, triangles, materials, w);
            lemma_words_of_bytes(w);
            assert(w[1] == header.max_forward_speed && w[2] == header.max_turn_rate && w[3] == header.max_vocalisation_strength);
            assert(w[8] == header.segment_count && w[9] == header.segment_spacing);
            assert(w[10] == header.max_joint_angle && w[11] == header.max_joint_torque);
            lemma_rez_words_accepted(w, p.len() as usize);
            lemma_rez_payload_accepted(p);
        },
        _ => {},
    }
}

proof fn lemma_proprioception_words_accepted(w: Seq<u32>, length: usize, n: int)
    requires
        w.len() == 24 + 13 * n,
        0 <= n <= CONTACTS_MAX,
        length == 96 + 52 * n,
        byte_of(w[3], 0) <= 1,
        upper_bytes_zero(w[3]),
        w[22] == 0 && w[23] == 0,
        w[21] == n,
        forall|i: int| 4 <= i < 21 ==> finite(#[trigger] w[i]),
        forall|r: int| 0 <= r < n ==> !contact_bad(#[trigger] row(w, 24, 13, r)),
    ensures
        proprioception_refusal(w, length).is_none(),
{
    vstd::arithmetic::div_mod::lemma_fundamental_div_mod_converse(52 * n, 52, n, 0);
}

proof fn lemma_proprioception_frames_decode(m: MessageV)
    requires
        m is Proprioception,
        encode_refusal(m).is_none(),
    ensures
        decode_refusal(message_type(m).to_byte(), frame_payload(m)).is_none(),
{
    match m {
        MessageV::Proprioception { header, contacts } => {
            let w = payload_words(m);
            let p = frame_payload(m);
            let n = contacts.len() as int;
            let fc = |x: Contact| contact_words(x);
            let hw = proprioception_words(header);
            let cw = flatten(contacts, 13, fc);
            assert(w == hw + cw);
            assert(cw.len() == n * 13);
            lemma_words_of_bytes(w);
            assert(w.len() == 24 + 13 * n);
            assert(p.len() == 96 + 52 * n);
            assert(w.subrange(24, 24 + n * 13) =~= cw);
            lemma_flatten_rows(contacts, 13, fc, w, 24);
            lemma_bytes_word(header.grounded, header.reserved0[0], header.reserved0[1], header.reserved0[2]);
            lemma_zero_word();
            assert(header.reserved1[0] == 0 && header.reserved1[1] == 0 && header.reserved1[2] == 0
                && header.reserved1[3] == 0 && header.reserved1[4] == 0 && header.reserved1[5] == 0
                && header.reserved1[6] == 0 && header.reserved1[7] == 0);
            assert(w[22] == 0 && w[23] == 0);
            assert forall|i: int| 4 <= i < 21 implies finite(#[trigger] w[i]) by {
                assert(w[i] == hw[i]);
            }
            assert forall|r: int| 0 <= r < n implies !contact_bad(#[trigger] row(w, 24, 13, r)) by {
                assert(row(w, 24, 13, r) == fc(contacts[r]));
            }
            lemma_proprioception_words_accepted(w, p.len() as usize, n);
            assert(decode_refusal(11, p) == proprioception_refusal(words_of(p), p.len() as usize));
        },
        _ => {},
    }
}

/// What one end encodes, the other decodes: a message encode accepts travels as a payload
/// decode accepts, with the type byte and length encode wrote.
/// Whatever encode accepts, decode accepts: the payload of every message encode writes passes
/// every one of decode's refusals, under the message's own type byte, and the whole frame fits
/// the largest receive buffer a lawful end needs.
pub proof fn law_encoded_frames_decode(m: MessageV)
    requires
        encode_refusal(m).is_none(),
    ensures
        decode_refusal(message_type(m).to_byte(), frame_payload(m)).is_none(),
        frame_of(m).len() <= max_frame_bytes_spec(),
{
    let w = payload_words(m);
    lemma_words_of_bytes(w);
    lemma_valid_payload_size(m);
    match m {
        MessageV::Hello(h) => {
            lemma_bytes_word(h.role, h.reserved0[0], h.reserved0[1], h.reserved0[2]);
        },
        MessageV::Rez { .. } => {
            lemma_rez_frames_decode(m);
        },
        MessageV::TickState { .. } => {
            lemma_tick_frames_decode(m);
        },
        MessageV::Actions(a) => {
            lemma_zero_word();
        },
        MessageV::Event(e) => {
            lemma_bytes_word(e.kind, e.reserved0[0], e.reserved0[1], e.reserved0[2]);
        },
        MessageV::Derez(d) => {
            lemma_zero_word();
        },
        MessageV::Refused(r) => {
            lemma_bytes_word(r.reason, r.reserved0[0], r.reserved0[1], r.reserved0[2]);
        },
        MessageV::Proprioception { .. } => {
            lemma_proprioception_frames_decode(m);
        },
        _ => {},
    }
}

} // verus!

verus! {

broadcast use vstd::array::group_array_axioms;

proof fn lemma_word_of_injective(a0: u8, a1: u8, a2: u8, a3: u8, b0: u8, b1: u8, b2: u8, b3: u8)
    requires
        word_of(a0, a1, a2, a3) == word_of(b0, b1, b2, b3),
    ensures
        a0 == b0 && a1 == b1 && a2 == b2 && a3 == b3,
{
    lemma_bytes_word(a0, a1, a2, a3);
    lemma_bytes_word(b0, b1, b2, b3);
}

proof fn lemma_halves_injective(x: u64, y: u64)
    requires
        lo(x) == lo(y),
        hi(x) == hi(y),
    ensures
        x == y,
{
    lemma_join_split(x);
    lemma_join_split(y);
}

proof fn lemma_flatten_injective<T>(rows1: Seq<T>, rows2: Seq<T>, width: nat, f: spec_fn(T) -> Seq<u32>)
    requires
        width > 0,
        forall|x: T| #[trigger] f(x).len() == width,
        rows1.len() == rows2.len(),
        flatten(rows1, width, f) == flatten(rows2, width, f),
    ensures
        forall|k: int| 0 <= k < rows1.len() ==> #[trigger] f(rows1[k]) == f(rows2[k]),
{
    let flat = flatten(rows1, width, f);
    assert(flat.subrange(0, 0 + rows1.len() * width as int) =~= flat);
    lemma_flatten_rows(rows1, width, f, flat, 0);
    lemma_flatten_rows(rows2, width, f, flat, 0);
    assert forall|k: int| 0 <= k < rows1.len() implies #[trigger] f(rows1[k]) == f(rows2[k]) by {
        assert(row(flat, 0, width as int, k) == f(rows1[k]));
        assert(row(flat, 0, width as int, k) == f(rows2[k]));
    }
}

proof fn lemma_pose_injective(a: SegmentPose, b: SegmentPose)
    requires
        pose_words(a) == pose_words(b),
    ensures
        a == b,
{
    assert(pose_words(a).subrange(0, 3) =~= a.position@);
    assert(pose_words(b).subrange(0, 3) =~= b.position@);
    assert(a.position@ == b.position@);
    assert(a.position[0] == b.position[0] && a.position[1] == b.position[1] && a.position[2] == b.position[2]);
    assert(a.position =~= b.position);
    assert(pose_words(a)[3] == a.yaw && pose_words(a)[4] == a.pitch);
    assert(pose_words(b)[3] == b.yaw && pose_words(b)[4] == b.pitch);
}

proof fn lemma_state_injective(a: CreatureState, b: CreatureState)
    requires
        state_words(a) == state_words(b),
    ensures
        a == b,
{
    let f = |p: SegmentPose| pose_words(p);
    let wa = state_words(a);
    let wb = state_words(b);
    assert(wa.subrange(0, 12) =~= state_head_words(a));
    assert(wb.subrange(0, 12) =~= state_head_words(b));
    assert(state_head_words(a) == state_head_words(b));
    assert(wa.subrange(12, 47) =~= flatten(a.segments@, 5, f));
    assert(wb.subrange(12, 47) =~= flatten(b.segments@, 5, f));
    lemma_flatten_injective(a.segments@, b.segments@, 5, f);
    assert forall|k: int| 0 <= k < 7 implies a.segments[k] == b.segments[k] by {
        assert(f(a.segments@[k]) == f(b.segments@[k]));
        lemma_pose_injective(a.segments@[k], b.segments@[k]);
    }
    assert(a.segments =~= b.segments);
    assert(state_head_words(a)[1] == state_head_words(b)[1] && state_head_words(a)[2] == state_head_words(b)[2] && state_head_words(a)[3] == state_head_words(b)[3]);
    assert(a.position =~= b.position);
    assert(state_head_words(a)[6] == state_head_words(b)[6] && state_head_words(a)[7] == state_head_words(b)[7] && state_head_words(a)[8] == state_head_words(b)[8]);
    assert(a.velocity =~= b.velocity);
    assert(state_head_words(a)[0] == state_head_words(b)[0]);
    assert(state_head_words(a)[4] == state_head_words(b)[4]);
    assert(state_head_words(a)[5] == state_head_words(b)[5]);
    assert(state_head_words(a)[9] == state_head_words(b)[9]);
    assert(state_head_words(a)[10] == state_head_words(b)[10]);
    assert(state_head_words(a)[11] == state_head_words(b)[11]);
}

proof fn lemma_rows_injective<T>(rows1: Seq<T>, rows2: Seq<T>, width: nat, f: spec_fn(T) -> Seq<u32>)
    requires
        width > 0,
        forall|x: T| #[trigger] f(x).len() == width,
        forall|x: T, y: T| #[trigger] f(x) == #[trigger] f(y) ==> x == y,
        rows1.len() == rows2.len(),
        flatten(rows1, width, f) == flatten(rows2, width, f),
    ensures
        rows1 == rows2,
{
    lemma_flatten_injective(rows1, rows2, width, f);
    assert forall|k: int| 0 <= k < rows1.len() implies rows1[k] == rows2[k] by {
        assert(f(rows1[k]) == f(rows2[k]));
    }
    assert(rows1 =~= rows2);
}

proof fn lemma_tick_injective(h1: TickStateHeader, s1: Seq<CreatureState>, h2: TickStateHeader, s2: Seq<CreatureState>)
    requires
        encode_refusal(MessageV::TickState { header: h1, states: s1 }).is_none(),
        encode_refusal(MessageV::TickState { header: h2, states: s2 }).is_none(),
        payload_words(MessageV::TickState { header: h1, states: s1 }) == payload_words(MessageV::TickState { header: h2, states: s2 }),
    ensures
        h1 == h2 && s1 == s2,
{
    let f = |s: CreatureState| state_words(s);
    let w = payload_words(MessageV::TickState { header: h1, states: s1 });
    assert(w.subrange(0, 4) =~= tick_header_words(h1));
    assert(w.subrange(0, 4) =~= tick_header_words(h2));
    assert(s1.len() == h1.creature_count && s2.len() == h2.creature_count);
    assert(w[2] == h1.creature_count && w[2] == h2.creature_count);
    assert(w.subrange(4, 4 + s1.len() as int * 47) =~= flatten(s1, 47, f));
    assert(w.subrange(4, 4 + s2.len() as int * 47) =~= flatten(s2, 47, f));
    assert forall|x: CreatureState, y: CreatureState| #[trigger] f(x) == #[trigger] f(y) implies x == y by {
        lemma_state_injective(x, y);
    }
    lemma_rows_injective(s1, s2, 47, f);
    lemma_halves_injective(h1.tick, h2.tick);
    assert(h1.reserved0 =~= h2.reserved0);
}

proof fn lemma_rez_injective(m1: MessageV, m2: MessageV)
    requires
        m1 is Rez,
        m2 is Rez,
        encode_refusal(m1).is_none(),
        encode_refusal(m2).is_none(),
        payload_words(m1) == payload_words(m2),
    ensures
        m1 == m2,
{
    match (m1, m2) {
        (MessageV::Rez { header: h1, vertices: v1, triangles: t1, materials: c1 }, MessageV::Rez { header: h2, vertices: v2, triangles: t2, materials: c2 }) => {
            let w = payload_words(m1);
            let fv = |x: RezVertex| vertex_words(x);
            let ft = |x: RezTriangle| triangle_words(x);
            let fm = |x: RezMaterial| material_words(x);
            lemma_rez_encode_facts(h1, v1, t1, c1);
            lemma_rez_encode_facts(h2, v2, t2, c2);
            assert(w.subrange(0, 12) =~= rez_header_words(h1));
            assert(w.subrange(0, 12) =~= rez_header_words(h2));
            assert(rez_header_words(h1) == rez_header_words(h2));
            assert(h1 == h2) by {
                assert(rez_header_words(h1)[0] == rez_header_words(h2)[0]);
                assert(rez_header_words(h1)[1] == rez_header_words(h2)[1]);
                assert(rez_header_words(h1)[2] == rez_header_words(h2)[2]);
                assert(rez_header_words(h1)[3] == rez_header_words(h2)[3]);
                assert(rez_header_words(h1)[4] == rez_header_words(h2)[4]);
                assert(rez_header_words(h1)[5] == rez_header_words(h2)[5]);
                assert(rez_header_words(h1)[6] == rez_header_words(h2)[6]);
                assert(rez_header_words(h1)[7] == rez_header_words(h2)[7]);
                assert(rez_header_words(h1)[8] == rez_header_words(h2)[8]);
                assert(rez_header_words(h1)[9] == rez_header_words(h2)[9]);
                assert(rez_header_words(h1)[10] == rez_header_words(h2)[10]);
                assert(rez_header_words(h1)[11] == rez_header_words(h2)[11]);
            }
            let v = v1.len() as int;
            let t = t1.len() as int;
            let c = c1.len() as int;
            assert(w.subrange(12, 12 + v * 3) =~= flatten(v1, 3, fv));
            assert(w.subrange(12, 12 + v * 3) =~= flatten(v2, 3, fv));
            assert(w.subrange(12 + 3 * v, 12 + 3 * v + t * 4) =~= flatten(t1, 4, ft));
            assert(w.subrange(12 + 3 * v, 12 + 3 * v + t * 4) =~= flatten(t2, 4, ft));
            assert(w.subrange(12 + 3 * v + 4 * t, 12 + 3 * v + 4 * t + c * 8) =~= flatten(c1, 8, fm));
            assert(w.subrange(12 + 3 * v + 4 * t, 12 + 3 * v + 4 * t + c * 8) =~= flatten(c2, 8, fm));
            assert forall|x: RezVertex, y: RezVertex| #[trigger] fv(x) == #[trigger] fv(y) implies x == y by {
                assert(x.position =~= y.position);
            }
            assert forall|x: RezTriangle, y: RezTriangle| #[trigger] ft(x) == #[trigger] ft(y) implies x == y by {
                assert(ft(x)[0] == ft(y)[0] && ft(x)[1] == ft(y)[1] && ft(x)[2] == ft(y)[2] && ft(x)[3] == ft(y)[3]);
                assert(x.vertices =~= y.vertices);
            }
            assert forall|x: RezMaterial, y: RezMaterial| #[trigger] fm(x) == #[trigger] fm(y) implies x == y by {
                assert(fm(x)[0] == fm(y)[0] && fm(x)[1] == fm(y)[1] && fm(x)[2] == fm(y)[2] && fm(x)[3] == fm(y)[3]);
                assert(fm(x)[4] == fm(y)[4] && fm(x)[5] == fm(y)[5] && fm(x)[6] == fm(y)[6] && fm(x)[7] == fm(y)[7]);
                assert(x.colour =~= y.colour);
                assert(x.emission =~= y.emission);
            }
            lemma_rows_injective(v1, v2, 3, fv);
            lemma_rows_injective(t1, t2, 4, ft);
            lemma_rows_injective(c1, c2, 8, fm);
        },
        _ => {},
    }
}

proof fn lemma_proprioception_injective(m1: MessageV, m2: MessageV)
    requires
        m1 is Proprioception,
        m2 is Proprioception,
        encode_refusal(m1).is_none(),
        encode_refusal(m2).is_none(),
        payload_words(m1) == payload_words(m2),
    ensures
        m1 == m2,
{
    match (m1, m2) {
        (MessageV::Proprioception { header: h1, contacts: c1 }, MessageV::Proprioception { header: h2, contacts: c2 }) => {
            let w = payload_words(m1);
            let fc = |x: Contact| contact_words(x);
            let a = proprioception_words(h1);
            let b = proprioception_words(h2);
            assert(w.subrange(0, 24) =~= a);
            assert(w.subrange(0, 24) =~= b);
            assert(a == b);
            assert(h1 == h2) by {
                assert(a[0] == b[0] && a[1] == b[1]);
                lemma_halves_injective(h1.tick, h2.tick);
                assert(a[2] == b[2]);
                assert(a[3] == b[3]);
                lemma_word_of_injective(h1.grounded, h1.reserved0[0], h1.reserved0[1], h1.reserved0[2], h2.grounded, h2.reserved0[0], h2.reserved0[1], h2.reserved0[2]);
                assert(h1.reserved0 =~= h2.reserved0);
                assert(a[4] == b[4] && a[5] == b[5] && a[6] == b[6]);
                assert(h1.specific_force =~= h2.specific_force);
                assert forall|k: int| 0 <= k < 7 implies h1.joint_angles[k] == h2.joint_angles[k] by {
                    assert(a[7 + k] == b[7 + k]);
                }
                assert(h1.joint_angles =~= h2.joint_angles);
                assert forall|k: int| 0 <= k < 7 implies h1.joint_torques[k] == h2.joint_torques[k] by {
                    assert(a[14 + k] == b[14 + k]);
                }
                assert(h1.joint_torques =~= h2.joint_torques);
                assert(a[21] == b[21]);
                assert forall|k: int| 0 <= k < 8 implies h1.reserved1[k] == h2.reserved1[k] by {}
                assert(h1.reserved1 =~= h2.reserved1);
            }
            let n = c1.len() as int;
            assert(w.subrange(24, 24 + n * 13) =~= flatten(c1, 13, fc));
            assert(w.subrange(24, 24 + n * 13) =~= flatten(c2, 13, fc));
            assert forall|x: Contact, y: Contact| #[trigger] fc(x) == #[trigger] fc(y) implies x == y by {
                assert(fc(x)[0] == fc(y)[0] && fc(x)[1] == fc(y)[1] && fc(x)[2] == fc(y)[2]);
                assert(fc(x)[3] == fc(y)[3] && fc(x)[4] == fc(y)[4] && fc(x)[5] == fc(y)[5]);
                assert(fc(x)[6] == fc(y)[6] && fc(x)[7] == fc(y)[7] && fc(x)[8] == fc(y)[8]);
                assert(fc(x)[9] == fc(y)[9]);
                assert(fc(x)[10] == fc(y)[10] && fc(x)[11] == fc(y)[11] && fc(x)[12] == fc(y)[12]);
                assert(x.position =~= y.position);
                assert(x.impulse =~= y.impulse);
                assert(x.normal =~= y.normal);
                assert(x.slip =~= y.slip);
            }
            lemma_rows_injective(c1, c2, 13, fc);
        },
        _ => {},
    }
}

/// A payload names one message: two messages encode accepts, of the same type and with the
/// same payload bytes, are the same message. With [`law_encoded_frames_decode`] and decode's
/// contract, decoding what encode wrote gives back exactly the message encoded.
pub proof fn law_payload_determines_message(m1: MessageV, m2: MessageV)
    requires
        encode_refusal(m1).is_none(),
        encode_refusal(m2).is_none(),
        message_type(m1) == message_type(m2),
        frame_payload(m1) == frame_payload(m2),
    ensures
        m1 == m2,
{
    lemma_words_of_bytes(payload_words(m1));
    lemma_words_of_bytes(payload_words(m2));
    let a = payload_words(m1);
    let b = payload_words(m2);
    assert(a == b);
    match (m1, m2) {
        (MessageV::Hello(h1), MessageV::Hello(h2)) => {
            assert(a[0] == b[0]);
            assert forall|k: int| 0 <= k < 32 implies h1.fingerprint[k] == h2.fingerprint[k] by {
                let i = k / 4;
                vstd::arithmetic::div_mod::lemma_fundamental_div_mod(k, 4);
                assert(0 <= i < 8);
                assert(a[1 + i] == b[1 + i]);
                assert(a[1 + i] == fingerprint_words(h1.fingerprint)[i]);
                assert(b[1 + i] == fingerprint_words(h2.fingerprint)[i]);
                lemma_word_of_injective(
                    h1.fingerprint[4 * i], h1.fingerprint[4 * i + 1], h1.fingerprint[4 * i + 2], h1.fingerprint[4 * i + 3],
                    h2.fingerprint[4 * i], h2.fingerprint[4 * i + 1], h2.fingerprint[4 * i + 2], h2.fingerprint[4 * i + 3],
                );
                assert(k == 4 * i || k == 4 * i + 1 || k == 4 * i + 2 || k == 4 * i + 3);
            }
            assert(h1.fingerprint =~= h2.fingerprint);
            assert(a[9] == b[9]);
            lemma_word_of_injective(h1.role, h1.reserved0[0], h1.reserved0[1], h1.reserved0[2], h2.role, h2.reserved0[0], h2.reserved0[1], h2.reserved0[2]);
            assert(h1.reserved0 =~= h2.reserved0);
            assert(a[10] == b[10] && a[11] == b[11]);
            lemma_halves_injective(h1.world_fingerprint, h2.world_fingerprint);
        },
        (MessageV::Welcome(w1), MessageV::Welcome(w2)) => {
            assert(a[0] == b[0] && a[1] == b[1] && a[2] == b[2] && a[3] == b[3] && a[4] == b[4] && a[5] == b[5]);
            lemma_halves_injective(w1.current_tick, w2.current_tick);
            lemma_halves_injective(w1.world_fingerprint, w2.world_fingerprint);
        },
        (MessageV::Rez { .. }, MessageV::Rez { .. }) => {
            lemma_rez_injective(m1, m2);
        },
        (MessageV::TickState { header: h1, states: s1 }, MessageV::TickState { header: h2, states: s2 }) => {
            lemma_tick_injective(h1, s1, h2, s2);
        },
        (MessageV::Actions(x), MessageV::Actions(y)) => {
            assert(a[0] == b[0] && a[1] == b[1]);
            lemma_halves_injective(x.tick, y.tick);
            assert(a[2] == b[2] && a[3] == b[3] && a[4] == b[4] && a[5] == b[5] && a[6] == b[6] && a[7] == b[7] && a[8] == b[8]);
            assert forall|k: int| 0 <= k < 7 implies x.joint_targets[k] == y.joint_targets[k] by {
                assert(a[9 + k] == b[9 + k]);
            }
            assert forall|k: int| 0 <= k < 7 implies x.previous_joint_targets[k] == y.previous_joint_targets[k] by {
                assert(a[16 + k] == b[16 + k]);
            }
            assert(x.joint_targets =~= y.joint_targets);
            assert(x.previous_joint_targets =~= y.previous_joint_targets);
            assert(x.reserved0 =~= y.reserved0);
        },
        (MessageV::Event(x), MessageV::Event(y)) => {
            assert(a[0] == b[0] && a[1] == b[1]);
            lemma_halves_injective(x.tick, y.tick);
            assert(a[2] == b[2] && a[3] == b[3] && a[4] == b[4]);
            assert(x.position =~= y.position);
            assert(a[5] == b[5] && a[6] == b[6] && a[7] == b[7]);
            lemma_word_of_injective(x.kind, x.reserved0[0], x.reserved0[1], x.reserved0[2], y.kind, y.reserved0[0], y.reserved0[1], y.reserved0[2]);
            assert(x.reserved0 =~= y.reserved0);
        },
        (MessageV::Derez(x), MessageV::Derez(y)) => {
            assert(a[0] == b[0] && a[1] == b[1] && a[2] == b[2]);
            lemma_halves_injective(x.tick, y.tick);
            assert(x.reserved0 =~= y.reserved0);
        },
        (MessageV::Refused(x), MessageV::Refused(y)) => {
            assert(a[0] == b[0] && a[1] == b[1] && a[2] == b[2] && a[3] == b[3]);
            lemma_halves_injective(x.tick, y.tick);
            lemma_word_of_injective(x.reason, x.reserved0[0], x.reserved0[1], x.reserved0[2], y.reason, y.reserved0[0], y.reserved0[1], y.reserved0[2]);
            assert(x.reserved0 =~= y.reserved0);
        },
        (MessageV::Proprioception { .. }, MessageV::Proprioception { .. }) => {
            lemma_proprioception_injective(m1, m2);
        },
        (MessageV::Ping(x), MessageV::Ping(y)) => {
            assert(a[0] == b[0] && a[1] == b[1]);
            lemma_halves_injective(x.nonce, y.nonce);
        },
        (MessageV::Pong(x), MessageV::Pong(y)) => {
            assert(a[0] == b[0] && a[1] == b[1]);
            lemma_halves_injective(x.nonce, y.nonce);
        },
        _ => {},
    }
}

} // verus!

verus! {

/// Every frame encode writes passes the reader's header-time judgement: its three header bytes
/// declare the payload's true length and a type whose rule admits that length, so a lawful
/// frame is never hung up on before its payload is read.
pub proof fn law_encoded_frames_pass_the_header(m: MessageV)
    requires
        encode_refusal(m).is_none(),
    ensures
        header_refusal(frame_of(m).subrange(0, 3)).is_none(),
        header_length(frame_of(m).subrange(0, 3)) == frame_payload(m).len(),
        frame_of(m).subrange(0, 3)[2] == message_type(m).to_byte(),
        frame_admitted(message_type(m).to_byte(), frame_payload(m)),
{
    law_encoded_frames_decode(m);
    let n = frame_payload(m).len() as int;
    let h = frame_of(m).subrange(0, 3);
    assert(n <= 65535) by {
        lemma_valid_payload_size(m);
        lemma_words_of_bytes(payload_words(m));
    }
    assert(h[0] == (n % 256) as u8);
    assert(h[1] == (n / 256 % 256) as u8);
    assert(h[0] + 256 * h[1] == n);
}

/// No message is refused at both ends: whatever one end may not receive, the other may. A
/// message flows at least one way, and REZ, DEREZ, PING, PONG and BYE flow both.
pub proof fn law_every_message_flows_some_way(t: MessageType)
    ensures
        !(arrives_wrong_way(t, true) && arrives_wrong_way(t, false)),
        (t == MessageType::Rez || t == MessageType::Derez || t == MessageType::Ping || t
            == MessageType::Pong || t == MessageType::Bye) ==> !arrives_wrong_way(t, true)
            && !arrives_wrong_way(t, false),
{
}

/// A build's own HELLO passes its own server's judgement in the same world, and in any other
/// world is refused naming both worlds: the contract a build carries is the contract it checks.
pub proof fn law_own_hello_is_welcome_at_home(role: Role, ours: u64, theirs: u64)
    ensures
        encode_refusal(MessageV::Hello(local_hello_spec(role, theirs))).is_none(),
        contract_refusal(PROTOCOL_VERSION, RECORDED_FINGERPRINT, theirs, ours) == if theirs == ours {
            None::<Refusal>
        } else {
            Some(Refusal::OtherWorld { theirs, ours })
        },
{
}

/// A recording header written by this library opens as a recording: it is exactly
/// [`RECORDING_HEADER_BYTES`] long and starts with the magic.
pub proof fn law_recording_header_opens(h: RecordingHeader)
    ensures
        recording_header_bytes(h).len() == RECORDING_HEADER_BYTES,
        opens_as_recording(recording_header_bytes(h)),
{
    let w = recording_header_words(h);
    lemma_words_of_bytes(w);
    let magic = seq![w[0], w[1]];
    assert(w =~= magic + w.subrange(2, 18));
    lemma_bytes_of_words_add(magic, w.subrange(2, 18));
    assert(magic =~= seq![w[0]] + seq![w[1]]);
    lemma_bytes_of_words_add(seq![w[0]], seq![w[1]]);
    lemma_bytes_of_word(w[0]);
    lemma_bytes_of_word(w[1]);
    lemma_bytes_word(RECORDING_MAGIC[0], RECORDING_MAGIC[1], RECORDING_MAGIC[2], RECORDING_MAGIC[3]);
    lemma_bytes_word(RECORDING_MAGIC[4], RECORDING_MAGIC[5], RECORDING_MAGIC[6], RECORDING_MAGIC[7]);
    assert(recording_header_bytes(h).subrange(0, 8) =~= RECORDING_MAGIC@);
}

/// A recording header's bytes name one header: reading back what was written gives the very
/// header that was written, field for field.
pub proof fn law_recording_header_determines(h1: RecordingHeader, h2: RecordingHeader)
    requires
        recording_header_bytes(h1) == recording_header_bytes(h2),
    ensures
        h1 == h2,
{
    let a = recording_header_words(h1);
    let b = recording_header_words(h2);
    lemma_words_of_bytes(a);
    lemma_words_of_bytes(b);
    assert(a == b);
    assert(a[2] == b[2]);
    assert forall|k: int| 0 <= k < 32 implies h1.fingerprint[k] == h2.fingerprint[k] by {
        let i = k / 4;
        vstd::arithmetic::div_mod::lemma_fundamental_div_mod(k, 4);
        assert(0 <= i < 8);
        assert(a[3 + i] == b[3 + i]);
        assert(a[3 + i] == fingerprint_words(h1.fingerprint)[i]);
        assert(b[3 + i] == fingerprint_words(h2.fingerprint)[i]);
        lemma_word_of_injective(
            h1.fingerprint[4 * i], h1.fingerprint[4 * i + 1], h1.fingerprint[4 * i + 2], h1.fingerprint[4 * i + 3],
            h2.fingerprint[4 * i], h2.fingerprint[4 * i + 1], h2.fingerprint[4 * i + 2], h2.fingerprint[4 * i + 3],
        );
        assert(k == 4 * i || k == 4 * i + 1 || k == 4 * i + 2 || k == 4 * i + 3);
    }
    assert(h1.fingerprint =~= h2.fingerprint);
    assert(a[11] == b[11] && a[12] == b[12] && a[13] == b[13] && a[14] == b[14]);
    assert(a[15] == b[15] && a[16] == b[16] && a[17] == b[17]);
    lemma_halves_injective(h1.world_fingerprint, h2.world_fingerprint);
    lemma_halves_injective(h1.start_tick, h2.start_tick);
    lemma_halves_injective(h1.start_unix_seconds, h2.start_unix_seconds);
}

/// Frames say where they end: a stream that opens with one encodable frame opens with no other,
/// and what follows it is the same. Reading frames off a stream in order gives back exactly the
/// messages written to it, in order, however the stream is cut into reads.
pub proof fn law_frames_are_self_delimiting(m1: MessageV, m2: MessageV, rest1: Seq<u8>, rest2: Seq<u8>)
    requires
        encode_refusal(m1).is_none(),
        encode_refusal(m2).is_none(),
        frame_of(m1) + rest1 == frame_of(m2) + rest2,
    ensures
        m1 == m2,
        rest1 == rest2,
{
    law_encoded_frames_pass_the_header(m1);
    law_encoded_frames_pass_the_header(m2);
    let a = frame_of(m1);
    let b = frame_of(m2);
    let s1 = a + rest1;
    assert(a.subrange(0, 3) =~= s1.subrange(0, 3));
    assert(b.subrange(0, 3) =~= s1.subrange(0, 3));
    assert(frame_payload(m1).len() == frame_payload(m2).len());
    assert(message_type(m1).to_byte() == message_type(m2).to_byte());
    assert(message_type(m1) == message_type(m2));
    assert(a.len() == b.len());
    assert(a =~= s1.subrange(0, a.len() as int));
    assert(b =~= s1.subrange(0, b.len() as int));
    assert(frame_payload(m1) =~= a.subrange(3, a.len() as int));
    assert(frame_payload(m2) =~= b.subrange(3, b.len() as int));
    law_payload_determines_message(m1, m2);
    assert(rest1 =~= s1.subrange(a.len() as int, s1.len() as int));
    assert(rest2 =~= s1.subrange(b.len() as int, s1.len() as int));
}

/// A payload one byte short or one byte long is never a message: for every message encode
/// accepts, decode refuses its payload with the last byte cut off, and with any byte added.
pub proof fn law_truncated_and_padded_payloads_are_refused(m: MessageV, extra: u8)
    requires
        encode_refusal(m).is_none(),
    ensures
        frame_payload(m).len() > 0 ==> decode_refusal(message_type(m).to_byte(), frame_payload(m).drop_last()).is_some(),
        decode_refusal(message_type(m).to_byte(), frame_payload(m).push(extra)).is_some(),
{
    law_encoded_frames_decode(m);
    let t = message_type(m).to_byte();
    let p = frame_payload(m);
    let n = p.len();
    if n > 0 {
        lemma_off_by_one_refused(t, p, p.drop_last());
    }
    lemma_off_by_one_refused(t, p, p.push(extra));
}

/// A payload decode accepts, changed in length by one byte at its end, is refused.
proof fn lemma_off_by_one_refused(t: u8, p: Seq<u8>, q: Seq<u8>)
    requires
        decode_refusal(t, p).is_none(),
        q.len() == p.len() + 1 || q.len() + 1 == p.len(),
        forall|i: int| 0 <= i < p.len() && i < q.len() ==> p[i] == q[i],
        p.len() <= 65535,
    ensures
        decode_refusal(t, q).is_some(),
{
    let rule = rule_of(t)->Ok_0;
    if decode_refusal(t, q).is_none() {
        let lp = p.len() as usize;
        let lq = q.len() as usize;
        assert(length_refusal(rule, lp).is_none());
        assert(length_refusal(rule, lq).is_none());
        match rule {
            PayloadRule::Exact(expected) => {},
            PayloadRule::TickState => {
                assert((lp - TICK_HEADER_BYTES) % (CREATURE_STATE_BYTES as int) == 0);
                assert((lq - TICK_HEADER_BYTES) % (CREATURE_STATE_BYTES as int) == 0);
                assert(false) by (nonlinear_arith)
                    requires
                        (lp - 16) % 188 == 0,
                        (lq - 16) % 188 == 0,
                        lq == lp + 1 || lq + 1 == lp,
                ;
            },
            PayloadRule::Proprioception => {
                assert((lp - PROPRIOCEPTION_HEADER_BYTES) % (CONTACT_BYTES as int) == 0);
                assert((lq - PROPRIOCEPTION_HEADER_BYTES) % (CONTACT_BYTES as int) == 0);
                assert(false) by (nonlinear_arith)
                    requires
                        (lp - 96) % 52 == 0,
                        (lq - 96) % 52 == 0,
                        lq == lp + 1 || lq + 1 == lp,
                ;
            },
            PayloadRule::Rez => {
                let wp = words_of(p);
                let wq = words_of(q);
                assert(lp >= 48 && lq >= 48);
                assert forall|j: int| 5 <= j < 8 implies wp[j] == wq[j] by {
                    assert(p[4 * j] == q[4 * j]);
                    assert(p[4 * j + 1] == q[4 * j + 1]);
                    assert(p[4 * j + 2] == q[4 * j + 2]);
                    assert(p[4 * j + 3] == q[4 * j + 3]);
                }
                assert(t == 3);
                assert(rez_refusal(wp, lp).is_none());
                assert(rez_refusal(wq, lq).is_none());
            },
        }
    }
}

/// The only bytes at the start of a stream that open with a frame encode wrote and decide
/// anything on their own are that whole frame, and they decide its type byte and payload.
proof fn lemma_decision_of_a_lawful_frame(m: MessageV, rest: Seq<u8>, whole: Seq<u8>)
    requires
        encode_refusal(m).is_none(),
        frame_decision(whole) is Some,
        whole.is_prefix_of(frame_of(m) + rest),
    ensures
        whole == frame_of(m),
        frame_decision(whole) == Some(
            Ok::<(u8, Seq<u8>), crate::codec::DecodeError>((message_type(m).to_byte(), frame_payload(m))),
        ),
{
    law_encoded_frames_pass_the_header(m);
    let f = frame_of(m);
    let s = f + rest;
    let h = f.subrange(0, 3);
    assert(whole.len() >= 3);
    assert(whole[0] == s[0] && s[0] == h[0]);
    assert(whole[1] == s[1] && s[1] == h[1]);
    assert(whole[2] == s[2] && s[2] == h[2]);
    assert(header_refusal(whole) == header_refusal(h));
    assert(header_length(whole) == header_length(h));
    assert(whole.len() == f.len());
    assert(whole =~= f) by {
        assert forall|i: int| 0 <= i < whole.len() implies whole[i] == f[i] by {
            assert(whole[i] == s[i]);
        }
    }
    assert(f.skip(3) =~= frame_payload(m));
}

/// The frame of a message encode accepts decides, on its own, that message's type byte and
/// payload.
proof fn lemma_lawful_frame_decides(m: MessageV)
    requires
        encode_refusal(m).is_none(),
    ensures
        frame_decision(frame_of(m)) is Some,
{
    law_encoded_frames_pass_the_header(m);
    let f = frame_of(m);
    let h = f.subrange(0, 3);
    assert(header_refusal(f) == header_refusal(h));
    assert(header_length(f) == header_length(h));
}

/// A reader waiting for more never holds a whole frame encode wrote at the start of what it
/// holds.
proof fn lemma_no_whole_frame_waits(m: MessageV, held: Seq<u8>)
    requires
        encode_refusal(m).is_none(),
        undecided(held),
    ensures
        !frame_of(m).is_prefix_of(held),
{
    let f = frame_of(m);
    let k = f.len() as int;
    if f.is_prefix_of(held) {
        assert(held.take(k) =~= f);
        lemma_lawful_frame_decides(m);
        assert(frame_decision(held.take(k)) is None);
    }
}

/// A connection hands over what its peer wrote, whole and in order, however the wire cuts it
/// into reads. Between frames, over a wire whose stream opens with the frame of a message encode
/// accepts: a poll that hands over a message hands over that very message and leaves exactly
/// what followed it; a poll that waits keeps what it read, short of the whole frame and having
/// lost nothing; and the only refusal a poll answers is this end's own rule on that message,
/// with the wire hung up. Over a wire that waits only when it has nothing left, a poll neither
/// waits nor reports the peer gone; over one that also never fails, the frame is handed over
/// unless this end's rule refuses it. A poll that hands a frame over leaves the reader between
/// frames again, so the law applies to the next frame in turn.
pub proof fn law_polls_hand_over_frames_in_order<W: Wire>(
    before: Connection<W>,
    after: Connection<W>,
    result: Result<Option<Message>, TransportError>,
    m: MessageV,
    rest: Seq<u8>,
)
    requires
        before.models_stream(),
        before.held() == Seq::<u8>::empty(),
        before.stream() == frame_of(m) + rest,
        encode_refusal(m).is_none(),
        poll_took_from_wire(before, after, result),
        result matches Ok(Some(got)) ==> encode_refusal(got@).is_none(),
    ensures
        result matches Ok(Some(got)) ==> got@ == m && after.stream() == rest && after.held().len() == 0,
        result matches Ok(None) ==> after.held() + after.stream() == frame_of(m) + rest && after.held()
            != frame_of(m),
        before.waits_only_when_drained() ==> match result {
            Ok(None) => false,
            Err(TransportError::PeerClosed) => false,
            _ => true,
        },
        before.waits_only_when_drained() && before.never_fails() ==> (result matches Ok(Some(_)))
            || arrival_refusal(before.rules_spec(), message_type(m)) is Some,
        match result {
            Err(TransportError::PeerClosed) => true,
            Err(TransportError::Io(_)) => true,
            Err(e) => after.hung_up() && arrival_refusal(before.rules_spec(), message_type(m)) == Some(e),
            Ok(_) => true,
        },
{
    law_encoded_frames_decode(m);
    match result {
        Ok(Some(got)) => {
            assert(frame_of(got@).skip(0) =~= frame_of(got@));
            law_frames_are_self_delimiting(got@, m, after.stream(), rest);
        },
        Ok(None) => {
            assert(after.held().skip(0) =~= after.held());
            if after.held() == frame_of(m) {
                lemma_lawful_frame_decides(m);
                assert(after.held().take(after.held().len() as int) =~= after.held());
            }
            if before.waits_only_when_drained() {
                assert(after.held() + after.stream() =~= after.held());
                assert(frame_of(m) =~= after.held().subrange(0, frame_of(m).len() as int));
                lemma_no_whole_frame_waits(m, after.held());
            }
        },
        Err(TransportError::PeerClosed) => {
            assert(after.held().skip(0) =~= after.held());
            assert(after.held() + after.stream() =~= after.held());
            assert(frame_of(m) =~= after.held().subrange(0, frame_of(m).len() as int));
            lemma_no_whole_frame_waits(m, after.held());
        },
        Err(TransportError::Io(_)) => {},
        Err(e) => {
            let whole = choose|whole: Seq<u8>|
                {
                    &&& #[trigger] frame_decision(whole) is Some
                    &&& before.held().is_prefix_of(whole)
                    &&& whole.skip(before.held().len() as int).is_prefix_of(before.stream())
                    &&& crate::transport::answers_decided(frame_decision(whole), Some(before.rules_spec()), result)
                };
            assert(whole.skip(0) =~= whole);
            lemma_decision_of_a_lawful_frame(m, rest, whole);
            lemma_type_byte_names_its_type(message_type(m));
        },
    }
}

/// A message type's byte names that type again.
proof fn lemma_type_byte_names_its_type(t: MessageType)
    ensures
        byte_type(t.to_byte()) == t,
{
}

/// A replay hands over what was recorded, whole and in order, however the file is cut into
/// reads. Between frames, over a file whose stream opens with the frame of a message encode
/// accepts: a poll that hands over a message hands over that very message and leaves exactly
/// what followed it; a poll that waits keeps what it read, short of the whole frame and having
/// lost nothing; and no poll refuses that frame. Over a file that waits only when it has
/// nothing left and never fails, the frame is handed over; the reader is then between frames
/// again, so the law applies to the next frame in turn.
pub proof fn law_replays_hand_over_frames_in_order<R: Source>(
    before: Replayer<R>,
    after: Replayer<R>,
    result: Result<Option<Message>, TransportError>,
    m: MessageV,
    rest: Seq<u8>,
)
    requires
        before.models_stream(),
        before.held() == Seq::<u8>::empty(),
        before.stream() == frame_of(m) + rest,
        encode_refusal(m).is_none(),
        poll_took_from_file(before, after, result),
        result matches Ok(Some(got)) ==> encode_refusal(got@).is_none(),
    ensures
        result matches Ok(Some(got)) ==> got@ == m && after.stream() == rest && after.held().len() == 0,
        result matches Ok(None) ==> after.held() + after.stream() == frame_of(m) + rest && after.held()
            != frame_of(m),
        before.waits_only_when_drained() ==> match result {
            Ok(None) => false,
            Err(TransportError::PeerClosed) => false,
            _ => true,
        },
        before.waits_only_when_drained() && before.never_fails() ==> result matches Ok(Some(_)),
        !(result matches Err(TransportError::Frame(_))),
{
    law_encoded_frames_decode(m);
    match result {
        Ok(Some(got)) => {
            assert(frame_of(got@).skip(0) =~= frame_of(got@));
            law_frames_are_self_delimiting(got@, m, after.stream(), rest);
        },
        Ok(None) => {
            assert(after.held().skip(0) =~= after.held());
            if after.held() == frame_of(m) {
                lemma_lawful_frame_decides(m);
                assert(after.held().take(after.held().len() as int) =~= after.held());
            }
            if before.waits_only_when_drained() {
                assert(after.held() + after.stream() =~= after.held());
                assert(frame_of(m) =~= after.held().subrange(0, frame_of(m).len() as int));
                lemma_no_whole_frame_waits(m, after.held());
            }
        },
        Err(TransportError::Frame(e)) => {
            let whole = choose|whole: Seq<u8>|
                {
                    &&& #[trigger] frame_decision(whole) is Some
                    &&& before.held().is_prefix_of(whole)
                    &&& before.stream() == whole.skip(before.held().len() as int) + after.stream()
                    &&& crate::transport::answers_decided(frame_decision(whole), None, result)
                };
            assert(whole.skip(0) =~= whole);
            assert(whole.is_prefix_of(frame_of(m) + rest)) by {
                assert(whole =~= (frame_of(m) + rest).subrange(0, whole.len() as int));
            }
            lemma_decision_of_a_lawful_frame(m, rest, whole);
        },
        Err(TransportError::PeerClosed) => {
            assert(after.held().skip(0) =~= after.held());
            assert(after.held() + after.stream() =~= after.held());
            assert(frame_of(m) =~= after.held().subrange(0, frame_of(m).len() as int));
            lemma_no_whole_frame_waits(m, after.held());
        },
        _ => {},
    }
}

} // verus!

verus! {

/// A spectator may leave, and ping, and see a creature leave: at any end, of all messages only
/// ACTIONS and REZ earn `ActionsFromSpectator`, and they earn it exactly where the peer is a
/// spectator; BYE, PING, PONG and DEREZ are refused at neither end.
pub proof fn law_only_intents_are_refused_from_a_spectator(rules: EndRules, t: MessageType)
    ensures
        (arrival_refusal(rules, t) == Some(TransportError::ActionsFromSpectator)) <==> (
        rules.forbid_incoming_actions && (t == MessageType::Actions || t == MessageType::Rez)),
        (t == MessageType::Bye || t == MessageType::Ping || t == MessageType::Pong || t
            == MessageType::Derez) ==> arrival_refusal(rules, t) is None,
{
}

/// The chain rule for a REZ's segment spacing, by the bits of a binary32: a chain of more than
/// one segment takes any spacing that is a finite number above zero and nothing else; a single
/// body takes zero, of either sign, and nothing else.
pub proof fn law_chain_spacing(segment_count: u32, spacing: u32)
    ensures
        segment_count > 1 ==> (spacing_fits(segment_count, spacing) <==> 0 < spacing < 0x7f80_0000),
        segment_count <= 1 ==> (spacing_fits(segment_count, spacing) <==> (spacing == 0 || spacing
            == 0x8000_0000)),
{
    assert((spacing & 0x7f80_0000u32 != 0x7f80_0000u32 && !(spacing & 0x7f80_0000u32 == 0x7f80_0000u32
        && spacing & 0x007f_ffffu32 != 0) && spacing & 0x8000_0000u32 == 0 && !(spacing
        & 0x7fff_ffffu32 == 0)) <==> (0 < spacing && spacing < 0x7f80_0000u32)) by (bit_vector);
    assert((spacing & 0x7f80_0000u32 != 0x7f80_0000u32 && spacing & 0x7fff_ffffu32 == 0) <==> (
    spacing == 0 || spacing == 0x8000_0000u32)) by (bit_vector);
}

/// The servo rule for a REZ, by the bits of a binary32: each bound is a finite number not below
/// zero, and the two are zero together or set together.
pub proof fn law_servo_bounds(max_joint_angle: u32, max_joint_torque: u32)
    ensures
        servos_fit(max_joint_angle, max_joint_torque) <==> {
            &&& (max_joint_angle < 0x7f80_0000 || max_joint_angle == 0x8000_0000)
            &&& (max_joint_torque < 0x7f80_0000 || max_joint_torque == 0x8000_0000)
            &&& ((max_joint_angle == 0 || max_joint_angle == 0x8000_0000) == (max_joint_torque == 0
                || max_joint_torque == 0x8000_0000))
        },
{
    let a = max_joint_angle;
    let t = max_joint_torque;
    assert((a & 0x7f80_0000u32 != 0x7f80_0000u32 && !(a & 0x7f80_0000u32 == 0x7f80_0000u32 && a
        & 0x007f_ffffu32 != 0) && (a & 0x8000_0000u32 == 0 || a & 0x7fff_ffffu32 == 0)) <==> (a
        < 0x7f80_0000u32 || a == 0x8000_0000u32)) by (bit_vector);
    assert((t & 0x7f80_0000u32 != 0x7f80_0000u32 && !(t & 0x7f80_0000u32 == 0x7f80_0000u32 && t
        & 0x007f_ffffu32 != 0) && (t & 0x8000_0000u32 == 0 || t & 0x7fff_ffffu32 == 0)) <==> (t
        < 0x7f80_0000u32 || t == 0x8000_0000u32)) by (bit_vector);
    assert((a & 0x7fff_ffffu32 == 0) <==> (a == 0 || a == 0x8000_0000u32)) by (bit_vector);
    assert((t & 0x7fff_ffffu32 == 0) <==> (t == 0 || t == 0x8000_0000u32)) by (bit_vector);
}

/// Which way each message flows: apart from a spectator's intents, a server-held end refuses
/// exactly WELCOME, TICK_STATE, EVENT, PROPRIOCEPTION and REFUSED, which only it sends, and a
/// client-held end refuses exactly HELLO and ACTIONS, which only it sends.
pub proof fn law_which_way_each_message_flows(rules: EndRules, t: MessageType)
    ensures
        !(rules.forbid_incoming_actions && (t == MessageType::Actions || t == MessageType::Rez)) ==> (
        arrival_refusal(rules, t) is Some <==> if rules.server_held {
            t == MessageType::Welcome || t == MessageType::TickState || t == MessageType::Event || t
                == MessageType::Proprioception || t == MessageType::Refused
        } else {
            t == MessageType::Hello || t == MessageType::Actions
        }),
        arrival_refusal(rules, t) matches Some(e) ==> (e is ActionsFromSpectator || e is WrongWay),
{
}

/// The unsigned number four bytes of `p` from offset `at` spell, least significant first.
pub open spec fn le32(p: Seq<u8>, at: int) -> int {
    p[at] + 256 * p[at + 1] + 65536 * p[at + 2] + 16777216 * p[at + 3]
}

proof fn lemma_word_is_le32(p: Seq<u8>, j: int)
    requires
        0 <= j,
        4 * j + 4 <= p.len(),
    ensures
        words_of(p)[j] as int == le32(p, 4 * j),
{
    let b0 = p[4 * j];
    let b1 = p[4 * j + 1];
    let b2 = p[4 * j + 2];
    let b3 = p[4 * j + 3];
    assert((b0 as u32) | ((b1 as u32) << 8u32) | ((b2 as u32) << 16u32) | ((b3 as u32) << 24u32)
        == b0 as u32 + 256 * (b1 as u32) + 65536 * (b2 as u32) + 16777216 * (b3 as u32)) by (bit_vector);
    assert(j < p.len() / 4);
}

/// A REZ payload's length is what its counts say: with the vertex, triangle and material counts
/// read little-endian from bytes 20, 24 and 28, a count over its cap (1024, 2048, 16) is refused
/// naming the three counts; otherwise a payload not exactly 48 + 12v + 16t + 32m bytes long is
/// refused naming that length and the length it has; and a payload decode accepts has exactly
/// that length, every count within its cap.
pub proof fn law_rez_length_follows_its_counts(p: Seq<u8>)
    requires
        48 <= p.len() <= 45616,
    ensures
        ({
            let v = le32(p, 20);
            let t = le32(p, 24);
            let m = le32(p, 28);
            &&& (v > 1024 || t > 2048 || m > 16) ==> decode_refusal(3, p) == Some(
                DecodeError::RezCountOverCap { vertices: v as u32, triangles: t as u32, materials: m as u32 },
            )
            &&& (v <= 1024 && t <= 2048 && m <= 16 && p.len() != 48 + 12 * v + 16 * t + 32 * m)
                ==> decode_refusal(3, p) == Some(
                DecodeError::RezLengthMismatch { expected: (48 + 12 * v + 16 * t + 32 * m) as usize, got: p.len() as usize },
            )
            &&& decode_refusal(3, p) is None ==> v <= 1024 && t <= 2048 && m <= 16 && p.len() == 48 + 12 * v
                + 16 * t + 32 * m
        }),
{
    lemma_word_is_le32(p, 5);
    lemma_word_is_le32(p, 6);
    lemma_word_is_le32(p, 7);
}

} // verus!
