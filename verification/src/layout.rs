//! The wire layout of every message, stated as a sequence of little-endian words.
//!
//! Each wire struct is a fixed number of words in field order; a message's payload is its
//! header's words followed by its rows' words; the bytes on the wire are those words, each
//! little-endian ([`crate::words::bytes_of_words`]). The codec's contracts, and the laws that
//! relate encoding and decoding, are stated over these functions.

use vstd::prelude::*;
use vstd::arithmetic::div_mod::lemma_fundamental_div_mod_converse;
use crate::codec::Message;
use crate::protocol::{
    Actions, Contact, CreatureState, Derez, Event, Hello, MessageType, Ping, Pong, Proprioception,
    Refused, Rez, RezMaterial, RezTriangle, RezVertex, SegmentPose, TickStateHeader, Welcome,
};
use crate::words::{word_of, lo, hi, bytes_of_words};

verus! {

/// A message as a mathematical value: [`Message`] with its rows as sequences.
#[allow(inconsistent_fields)]
pub enum MessageV {
    Hello(Hello),
    Welcome(Welcome),
    Rez { header: Rez, vertices: Seq<RezVertex>, triangles: Seq<RezTriangle>, materials: Seq<RezMaterial> },
    TickState { header: TickStateHeader, states: Seq<CreatureState> },
    Actions(Actions),
    Event(Event),
    Derez(Derez),
    Refused(Refused),
    Proprioception { header: Proprioception, contacts: Seq<Contact> },
    Ping(Ping),
    Pong(Pong),
    Bye,
}

impl View for Message {
    type V = MessageV;

    open spec fn view(&self) -> MessageV {
        match self {
            Message::Hello(h) => MessageV::Hello(*h),
            Message::Welcome(w) => MessageV::Welcome(*w),
            Message::Rez { header, vertices, triangles, materials } => MessageV::Rez {
                header: *header,
                vertices: vertices@,
                triangles: triangles@,
                materials: materials@,
            },
            Message::TickState { header, states } => MessageV::TickState { header: *header, states: states@ },
            Message::Actions(a) => MessageV::Actions(*a),
            Message::Event(e) => MessageV::Event(*e),
            Message::Derez(d) => MessageV::Derez(*d),
            Message::Refused(r) => MessageV::Refused(*r),
            Message::Proprioception { header, contacts } => MessageV::Proprioception {
                header: *header,
                contacts: contacts@,
            },
            Message::Ping(p) => MessageV::Ping(*p),
            Message::Pong(p) => MessageV::Pong(*p),
            Message::Bye => MessageV::Bye,
        }
    }
}

/// The type a message travels as.
pub open spec fn message_type(m: MessageV) -> MessageType {
    match m {
        MessageV::Hello(_) => MessageType::Hello,
        MessageV::Welcome(_) => MessageType::Welcome,
        MessageV::Rez { .. } => MessageType::Rez,
        MessageV::TickState { .. } => MessageType::TickState,
        MessageV::Actions(_) => MessageType::Actions,
        MessageV::Event(_) => MessageType::Event,
        MessageV::Derez(_) => MessageType::Derez,
        MessageV::Refused(_) => MessageType::Refused,
        MessageV::Proprioception { .. } => MessageType::Proprioception,
        MessageV::Ping(_) => MessageType::Ping,
        MessageV::Pong(_) => MessageType::Pong,
        MessageV::Bye => MessageType::Bye,
    }
}

/// Rows of `width` words each, one after another.
pub open spec fn flatten<T>(rows: Seq<T>, width: nat, f: spec_fn(T) -> Seq<u32>) -> Seq<u32> {
    Seq::new(rows.len() * width, |i: int| f(rows[i / (width as int)])[i % (width as int)])
}

/// Row `r` of a run of `width`-word rows starting at word `base`.
pub open spec fn row(ws: Seq<u32>, base: int, width: int, r: int) -> Seq<u32> {
    ws.subrange(base + width * r, base + width * (r + 1))
}

/// Four bytes as the word they occupy.
pub open spec fn bytes_word(b: [u8; 4]) -> u32 {
    word_of(b[0], b[1], b[2], b[3])
}

/// A contract fingerprint as its eight words.
pub open spec fn fingerprint_words(fingerprint: [u8; 32]) -> Seq<u32> {
    Seq::new(8, |i: int| word_of(fingerprint[4 * i], fingerprint[4 * i + 1], fingerprint[4 * i + 2], fingerprint[4 * i + 3]))
}

/// The words a hello occupies on the wire.
pub open spec fn hello_words(h: Hello) -> Seq<u32> {
    seq![h.protocol_version] + fingerprint_words(h.fingerprint) + seq![
        word_of(h.role, h.reserved0[0], h.reserved0[1], h.reserved0[2]),
        lo(h.world_fingerprint),
        hi(h.world_fingerprint),
    ]
}

/// The words a welcome occupies on the wire.
pub open spec fn welcome_words(w: Welcome) -> Seq<u32> {
    seq![
        lo(w.current_tick),
        hi(w.current_tick),
        w.nominal_dt_seconds,
        w.client_id,
        lo(w.world_fingerprint),
        hi(w.world_fingerprint),
    ]
}

/// The words a rez header occupies on the wire.
pub open spec fn rez_header_words(h: Rez) -> Seq<u32> {
    seq![
        h.creature_id,
        h.max_forward_speed,
        h.max_turn_rate,
        h.max_vocalisation_strength,
        h.max_contact_count,
        h.vertex_count,
        h.triangle_count,
        h.material_count,
        h.segment_count,
        h.segment_spacing,
        h.max_joint_angle,
        h.max_joint_torque,
    ]
}

/// The words a vertex occupies on the wire.
pub open spec fn vertex_words(v: RezVertex) -> Seq<u32> {
    v.position@
}

/// The words a triangle occupies on the wire.
pub open spec fn triangle_words(t: RezTriangle) -> Seq<u32> {
    t.vertices@.push(t.material)
}

/// The words a material occupies on the wire.
pub open spec fn material_words(m: RezMaterial) -> Seq<u32> {
    m.colour@.push(m.index_of_refraction) + m.emission@.push(m.transmission)
}

/// The words a pose occupies on the wire.
pub open spec fn pose_words(p: SegmentPose) -> Seq<u32> {
    p.position@ + seq![p.yaw, p.pitch]
}

/// The words a state head occupies on the wire.
pub open spec fn state_head_words(s: CreatureState) -> Seq<u32> {
    seq![
        s.creature_id,
        s.position[0],
        s.position[1],
        s.position[2],
        s.yaw,
        s.pitch,
        s.velocity[0],
        s.velocity[1],
        s.velocity[2],
        s.yaw_rate,
        s.vocalisation,
        s.segment_count,
    ]
}

/// The words a state occupies on the wire.
pub open spec fn state_words(s: CreatureState) -> Seq<u32> {
    state_head_words(s) + flatten(s.segments@, 5, |p: SegmentPose| pose_words(p))
}

/// The words a tick header occupies on the wire.
pub open spec fn tick_header_words(h: TickStateHeader) -> Seq<u32> {
    seq![lo(h.tick), hi(h.tick), h.creature_count, bytes_word(h.reserved0)]
}

/// The words a actions occupies on the wire.
pub open spec fn actions_words(a: Actions) -> Seq<u32> {
    seq![
        lo(a.tick),
        hi(a.tick),
        a.creature_id,
        a.desired_forward_speed,
        a.desired_turn_rate,
        a.vocalisation_strength,
        a.previous_forward_speed,
        a.previous_turn_rate,
        a.previous_vocalisation,
    ] + a.joint_targets@ + a.previous_joint_targets@ + seq![bytes_word(a.reserved0)]
}

/// The words a event occupies on the wire.
pub open spec fn event_words(e: Event) -> Seq<u32> {
    seq![
        lo(e.tick),
        hi(e.tick),
        e.position[0],
        e.position[1],
        e.position[2],
        e.strength,
        e.creature_id,
        word_of(e.kind, e.reserved0[0], e.reserved0[1], e.reserved0[2]),
    ]
}

/// The words a contact occupies on the wire.
pub open spec fn contact_words(c: Contact) -> Seq<u32> {
    c.position@ + c.impulse@ + c.normal@ + seq![c.depth] + c.slip@
}

/// The words a proprioception occupies on the wire.
pub open spec fn proprioception_words(p: Proprioception) -> Seq<u32> {
    seq![
        lo(p.tick),
        hi(p.tick),
        p.creature_id,
        word_of(p.grounded, p.reserved0[0], p.reserved0[1], p.reserved0[2]),
        p.specific_force[0],
        p.specific_force[1],
        p.specific_force[2],
    ] + p.joint_angles@ + p.joint_torques@ + seq![
        p.contact_count,
        word_of(p.reserved1[0], p.reserved1[1], p.reserved1[2], p.reserved1[3]),
        word_of(p.reserved1[4], p.reserved1[5], p.reserved1[6], p.reserved1[7]),
    ]
}

/// The words a derez occupies on the wire.
pub open spec fn derez_words(d: Derez) -> Seq<u32> {
    seq![lo(d.tick), hi(d.tick), d.creature_id, bytes_word(d.reserved0)]
}

/// The words a refused occupies on the wire.
pub open spec fn refused_words(r: Refused) -> Seq<u32> {
    seq![lo(r.tick), hi(r.tick), r.creature_id, word_of(r.reason, r.reserved0[0], r.reserved0[1], r.reserved0[2])]
}

/// The words a PING or PONG nonce occupies on the wire.
pub open spec fn nonce_words(nonce: u64) -> Seq<u32> {
    seq![lo(nonce), hi(nonce)]
}

/// A message's payload, as words.
pub open spec fn payload_words(m: MessageV) -> Seq<u32> {
    match m {
        MessageV::Hello(h) => hello_words(h),
        MessageV::Welcome(w) => welcome_words(w),
        MessageV::Rez { header, vertices, triangles, materials } => rez_header_words(header)
            + flatten(vertices, 3, |v: RezVertex| vertex_words(v))
            + flatten(triangles, 4, |t: RezTriangle| triangle_words(t))
            + flatten(materials, 8, |x: RezMaterial| material_words(x)),
        MessageV::TickState { header, states } => tick_header_words(header)
            + flatten(states, 47, |s: CreatureState| state_words(s)),
        MessageV::Actions(a) => actions_words(a),
        MessageV::Event(e) => event_words(e),
        MessageV::Derez(d) => derez_words(d),
        MessageV::Refused(r) => refused_words(r),
        MessageV::Proprioception { header, contacts } => proprioception_words(header)
            + flatten(contacts, 13, |c: Contact| contact_words(c)),
        MessageV::Ping(p) => nonce_words(p.nonce),
        MessageV::Pong(p) => nonce_words(p.nonce),
        MessageV::Bye => Seq::empty(),
    }
}

/// A message's payload, as the bytes on the wire.
pub open spec fn frame_payload(m: MessageV) -> Seq<u8> {
    bytes_of_words(payload_words(m))
}

/// The three header bytes of a frame: little-endian length, then type.
pub open spec fn frame_header_bytes(length: int, type_byte: u8) -> Seq<u8> {
    seq![(length % 256) as u8, (length / 256 % 256) as u8, type_byte]
}

/// A whole frame: header and payload.
pub open spec fn frame_of(m: MessageV) -> Seq<u8> {
    frame_header_bytes(frame_payload(m).len() as int, message_type(m).to_byte()) + frame_payload(m)
}

/// The first index below `n` at which `fails` holds, or `n` when there is none.
pub open spec fn first_failing(n: int, fails: spec_fn(int) -> bool) -> int {
    first_failing_from(n, fails, 0)
}

/// The first index from `i` below `n` at which `fails` holds, or `n`.
pub open spec fn first_failing_from(n: int, fails: spec_fn(int) -> bool, i: int) -> int
    decreases n - i,
{
    if i >= n {
        n
    } else if fails(i) {
        i
    } else {
        first_failing_from(n, fails, i + 1)
    }
}

proof fn lemma_first_failing_from(n: int, fails: spec_fn(int) -> bool, i: int, at: int)
    requires
        0 <= i <= at <= n,
        forall|k: int| i <= k < at ==> !#[trigger] fails(k),
        at < n ==> fails(at),
    ensures
        first_failing_from(n, fails, i) == at,
    decreases at - i,
{
    if i < at {
        lemma_first_failing_from(n, fails, i + 1, at);
    }
}

/// The first failing index is `at` when nothing before it fails and it fails (or is `n`).
pub proof fn lemma_first_failing(n: int, fails: spec_fn(int) -> bool, at: int)
    requires
        0 <= at <= n,
        forall|k: int| 0 <= k < at ==> !#[trigger] fails(k),
        at < n ==> fails(at),
    ensures
        first_failing(n, fails) == at,
{
    lemma_first_failing_from(n, fails, 0, at);
}

proof fn lemma_first_failing_from_least(n: int, fails: spec_fn(int) -> bool, i: int)
    requires
        0 <= i <= n,
    ensures
        i <= first_failing_from(n, fails, i) <= n,
        forall|k: int| i <= k < first_failing_from(n, fails, i) ==> !#[trigger] fails(k),
        first_failing_from(n, fails, i) < n ==> fails(first_failing_from(n, fails, i)),
    decreases n - i,
{
    if i < n && !fails(i) {
        lemma_first_failing_from_least(n, fails, i + 1);
    }
}

/// The first failing index is the least one: nothing before it fails, and it fails unless it
/// is `n`.
pub proof fn lemma_first_failing_least(n: int, fails: spec_fn(int) -> bool)
    requires
        0 <= n,
    ensures
        0 <= first_failing(n, fails) <= n,
        forall|k: int| 0 <= k < first_failing(n, fails) ==> !#[trigger] fails(k),
        first_failing(n, fails) < n ==> fails(first_failing(n, fails)),
{
    lemma_first_failing_from_least(n, fails, 0);
}

/// The rows of a flattened run, read back, are the rows' words.
pub proof fn lemma_flatten_rows<T>(rows: Seq<T>, width: nat, f: spec_fn(T) -> Seq<u32>, ws: Seq<u32>, base: int)
    requires
        width > 0,
        forall|x: T| #[trigger] f(x).len() == width,
        0 <= base,
        base + rows.len() * width <= ws.len(),
        ws.subrange(base, base + rows.len() * width) == flatten(rows, width, f),
    ensures
        forall|r: int| 0 <= r < rows.len() ==> #[trigger] row(ws, base, width as int, r) == f(rows[r]),
{
    let w = width as int;
    assert forall|r: int| 0 <= r < rows.len() implies #[trigger] row(ws, base, w, r) == f(rows[r]) by {
        assert(w * (r + 1) <= rows.len() * w) by (nonlinear_arith)
            requires r + 1 <= rows.len(), w > 0;
        assert(w * r >= 0) by (nonlinear_arith)
            requires r >= 0, w > 0;
        assert(w * (r + 1) == w * r + w) by (nonlinear_arith);
        let flat = flatten(rows, width, f);
        assert forall|j: int| 0 <= j < w implies #[trigger] row(ws, base, w, r)[j] == f(rows[r])[j] by {
            let i = w * r + j;
            lemma_fundamental_div_mod_converse(i, w, r, j);
            assert(flat[i] == f(rows[i / w])[i % w]);
            assert(ws.subrange(base, base + rows.len() * width)[i] == ws[base + i]);
        }
        assert(row(ws, base, w, r) =~= f(rows[r]));
    }
}

/// Rows whose words are read from a run, flattened, give back the run.
pub proof fn lemma_rows_flatten<T>(rows: Seq<T>, width: nat, f: spec_fn(T) -> Seq<u32>, ws: Seq<u32>, base: int)
    requires
        width > 0,
        forall|x: T| #[trigger] f(x).len() == width,
        0 <= base,
        base + rows.len() * width <= ws.len(),
        forall|r: int| 0 <= r < rows.len() ==> #[trigger] row(ws, base, width as int, r) == f(rows[r]),
    ensures
        ws.subrange(base, base + rows.len() * width) == flatten(rows, width, f),
{
    let w = width as int;
    let flat = flatten(rows, width, f);
    let run = ws.subrange(base, base + rows.len() * width);
    assert forall|i: int| 0 <= i < flat.len() implies #[trigger] run[i] == flat[i] by {
        let r = i / w;
        let j = i % w;
        assert(i == w * r + j && 0 <= j < w) by {
            vstd::arithmetic::div_mod::lemma_fundamental_div_mod(i, w);
        }
        assert(0 <= r < rows.len()) by (nonlinear_arith)
            requires i == w * r + j, 0 <= j < w, 0 <= i < rows.len() * w, w > 0;
        assert(w * (r + 1) == w * r + w) by (nonlinear_arith);
        assert(w * (r + 1) <= rows.len() * w) by (nonlinear_arith)
            requires r + 1 <= rows.len(), w > 0;
        assert(row(ws, base, w, r)[j] == f(rows[r])[j]);
        assert(row(ws, base, w, r)[j] == ws[base + w * r + j]);
    }
    assert(run =~= flat);
}

/// Flattening one more row appends its words.
pub proof fn lemma_flatten_push<T>(rows: Seq<T>, width: nat, f: spec_fn(T) -> Seq<u32>, x: T)
    requires
        f(x).len() == width,
    ensures
        flatten(rows.push(x), width, f) == flatten(rows, width, f) + f(x),
{
    let w = width as int;
    let l = flatten(rows.push(x), width, f);
    let r = flatten(rows, width, f) + f(x);
    assert((rows.len() + 1) * w == rows.len() * w + w) by (nonlinear_arith);
    assert forall|i: int| 0 <= i < l.len() implies #[trigger] l[i] == r[i] by {
        let q = i / w;
        let j = i % w;
        assert(w > 0);
        assert(i == w * q + j && 0 <= j < w) by {
            vstd::arithmetic::div_mod::lemma_fundamental_div_mod(i, w);
        }
        if i < rows.len() * w {
            assert(q < rows.len()) by (nonlinear_arith)
                requires i == w * q + j, 0 <= j < w, i < rows.len() * w, w > 0;
            assert(q >= 0) by (nonlinear_arith)
                requires i == w * q + j, j < w, i >= 0, w > 0;
            assert(rows.push(x)[q] == rows[q]);
        } else {
            let k = i - rows.len() * w;
            assert(q == rows.len()) by (nonlinear_arith)
                requires i == w * q + j, 0 <= j < w, rows.len() * w <= i < rows.len() * w + w, w > 0;
            assert(j == k) by (nonlinear_arith)
                requires i == w * q + j, q == rows.len(), k == i - rows.len() * w;
        }
    }
    assert(l =~= r);
}

/// Appends a 64-bit value as its two words, low first.
pub fn push_u64(ws: &mut Vec<u32>, x: u64)
    ensures
        final(ws)@ == old(ws)@ + seq![lo(x), hi(x)],
{
    ws.push((x & 0xffff_ffff) as u32);
    ws.push((x >> 32u64) as u32);
    assert(ws@ =~= old(ws)@ + seq![lo(x), hi(x)]);
}

/// The word four bytes occupy.
pub fn pack(b0: u8, b1: u8, b2: u8, b3: u8) -> (w: u32)
    ensures
        w == word_of(b0, b1, b2, b3),
{
    (b0 as u32) | ((b1 as u32) << 8u32) | ((b2 as u32) << 16u32) | ((b3 as u32) << 24u32)
}

/// Appends the words of an array.
pub fn push_array3(ws: &mut Vec<u32>, a: &[u32; 3])
    ensures
        final(ws)@ == old(ws)@ + a@,
{
    ws.push(a[0]);
    ws.push(a[1]);
    ws.push(a[2]);
    assert(ws@ =~= old(ws)@ + a@);
}

/// Appends the words of an array.
pub fn push_array7(ws: &mut Vec<u32>, a: &[u32; 7])
    ensures
        final(ws)@ == old(ws)@ + a@,
{
    let mut i: usize = 0;
    while i < 7
        invariant
            0 <= i <= 7,
            ws@ == old(ws)@ + a@.take(i as int),
        decreases 7 - i,
    {
        ws.push(a[i]);
        assert(a@.take(i + 1) =~= a@.take(i as int).push(a@[i as int]));
        i = i + 1;
    }
    assert(a@.take(7) =~= a@);
}

/// Appends the words of hello.
pub fn push_hello_words(ws: &mut Vec<u32>, h: &Hello)
    ensures
        final(ws)@ == old(ws)@ + hello_words(*h),
{
    ws.push(h.protocol_version);
    let ghost start = ws@;
    let mut i: usize = 0;
    while i < 8
        invariant
            0 <= i <= 8,
            ws@ == start + fingerprint_words(h.fingerprint).take(i as int),
        decreases 8 - i,
    {
        let w = pack(h.fingerprint[4 * i], h.fingerprint[4 * i + 1], h.fingerprint[4 * i + 2], h.fingerprint[4 * i + 3]);
        ws.push(w);
        assert(fingerprint_words(h.fingerprint).take(i + 1) =~= fingerprint_words(h.fingerprint).take(i as int).push(w));
        i = i + 1;
    }
    assert(fingerprint_words(h.fingerprint).take(8) =~= fingerprint_words(h.fingerprint));
    ws.push(pack(h.role, h.reserved0[0], h.reserved0[1], h.reserved0[2]));
    push_u64(ws, h.world_fingerprint);
    assert(ws@ =~= old(ws)@ + hello_words(*h));
}

/// Appends the words of welcome.
pub fn push_welcome_words(ws: &mut Vec<u32>, w: &Welcome)
    ensures
        final(ws)@ == old(ws)@ + welcome_words(*w),
{
    push_u64(ws, w.current_tick);
    ws.push(w.nominal_dt_seconds);
    ws.push(w.client_id);
    push_u64(ws, w.world_fingerprint);
    assert(ws@ =~= old(ws)@ + welcome_words(*w));
}

/// Appends the words of rez header.
pub fn push_rez_header_words(ws: &mut Vec<u32>, h: &Rez)
    ensures
        final(ws)@ == old(ws)@ + rez_header_words(*h),
{
    ws.push(h.creature_id);
    ws.push(h.max_forward_speed);
    ws.push(h.max_turn_rate);
    ws.push(h.max_vocalisation_strength);
    ws.push(h.max_contact_count);
    ws.push(h.vertex_count);
    ws.push(h.triangle_count);
    ws.push(h.material_count);
    ws.push(h.segment_count);
    ws.push(h.segment_spacing);
    ws.push(h.max_joint_angle);
    ws.push(h.max_joint_torque);
    assert(ws@ =~= old(ws)@ + rez_header_words(*h));
}

/// Appends the words of vertex.
pub fn push_vertex_words(ws: &mut Vec<u32>, v: &RezVertex)
    ensures
        final(ws)@ == old(ws)@ + vertex_words(*v),
{
    push_array3(ws, &v.position);
}

/// Appends the words of triangle.
pub fn push_triangle_words(ws: &mut Vec<u32>, t: &RezTriangle)
    ensures
        final(ws)@ == old(ws)@ + triangle_words(*t),
{
    push_array3(ws, &t.vertices);
    ws.push(t.material);
    assert(ws@ =~= old(ws)@ + triangle_words(*t));
}

/// Appends the words of material.
pub fn push_material_words(ws: &mut Vec<u32>, m: &RezMaterial)
    ensures
        final(ws)@ == old(ws)@ + material_words(*m),
{
    push_array3(ws, &m.colour);
    ws.push(m.index_of_refraction);
    push_array3(ws, &m.emission);
    ws.push(m.transmission);
    assert(ws@ =~= old(ws)@ + material_words(*m));
}

/// Appends the words of pose.
pub fn push_pose_words(ws: &mut Vec<u32>, p: &SegmentPose)
    ensures
        final(ws)@ == old(ws)@ + pose_words(*p),
{
    push_array3(ws, &p.position);
    ws.push(p.yaw);
    ws.push(p.pitch);
    assert(ws@ =~= old(ws)@ + pose_words(*p));
}

/// Appends the words of state.
pub fn push_state_words(ws: &mut Vec<u32>, s: &CreatureState)
    ensures
        final(ws)@ == old(ws)@ + state_words(*s),
{
    ws.push(s.creature_id);
    push_array3(ws, &s.position);
    ws.push(s.yaw);
    ws.push(s.pitch);
    push_array3(ws, &s.velocity);
    ws.push(s.yaw_rate);
    ws.push(s.vocalisation);
    ws.push(s.segment_count);
    assert(ws@ =~= old(ws)@ + state_head_words(*s));
    let ghost start = ws@;
    let ghost f = |p: SegmentPose| pose_words(p);
    let mut k: usize = 0;
    while k < 7
        invariant
            0 <= k <= 7,
            ws@ == start + flatten(s.segments@.take(k as int), 5, f),
            f == (|p: SegmentPose| pose_words(p)),
        decreases 7 - k,
    {
        proof {
            lemma_flatten_push(s.segments@.take(k as int), 5, f, s.segments@[k as int]);
            assert(s.segments@.take(k + 1) =~= s.segments@.take(k as int).push(s.segments@[k as int]));
        }
        push_pose_words(ws, &s.segments[k]);
        k = k + 1;
    }
    assert(s.segments@.take(7) =~= s.segments@);
    assert(ws@ =~= old(ws)@ + state_words(*s));
}

/// Appends the words of tick header.
pub fn push_tick_header_words(ws: &mut Vec<u32>, h: &TickStateHeader)
    ensures
        final(ws)@ == old(ws)@ + tick_header_words(*h),
{
    push_u64(ws, h.tick);
    ws.push(h.creature_count);
    ws.push(pack(h.reserved0[0], h.reserved0[1], h.reserved0[2], h.reserved0[3]));
    assert(ws@ =~= old(ws)@ + tick_header_words(*h));
}

/// Appends the words of actions.
pub fn push_actions_words(ws: &mut Vec<u32>, a: &Actions)
    ensures
        final(ws)@ == old(ws)@ + actions_words(*a),
{
    push_u64(ws, a.tick);
    ws.push(a.creature_id);
    ws.push(a.desired_forward_speed);
    ws.push(a.desired_turn_rate);
    ws.push(a.vocalisation_strength);
    ws.push(a.previous_forward_speed);
    ws.push(a.previous_turn_rate);
    ws.push(a.previous_vocalisation);
    push_array7(ws, &a.joint_targets);
    push_array7(ws, &a.previous_joint_targets);
    ws.push(pack(a.reserved0[0], a.reserved0[1], a.reserved0[2], a.reserved0[3]));
    assert(ws@ =~= old(ws)@ + actions_words(*a));
}

/// Appends the words of event.
pub fn push_event_words(ws: &mut Vec<u32>, e: &Event)
    ensures
        final(ws)@ == old(ws)@ + event_words(*e),
{
    push_u64(ws, e.tick);
    push_array3(ws, &e.position);
    ws.push(e.strength);
    ws.push(e.creature_id);
    ws.push(pack(e.kind, e.reserved0[0], e.reserved0[1], e.reserved0[2]));
    assert(ws@ =~= old(ws)@ + event_words(*e));
}

/// Appends the words of contact.
pub fn push_contact_words(ws: &mut Vec<u32>, c: &Contact)
    ensures
        final(ws)@ == old(ws)@ + contact_words(*c),
{
    push_array3(ws, &c.position);
    push_array3(ws, &c.impulse);
    push_array3(ws, &c.normal);
    ws.push(c.depth);
    push_array3(ws, &c.slip);
    assert(ws@ =~= old(ws)@ + contact_words(*c));
}

/// Appends the words of proprioception.
pub fn push_proprioception_words(ws: &mut Vec<u32>, p: &Proprioception)
    ensures
        final(ws)@ == old(ws)@ + proprioception_words(*p),
{
    push_u64(ws, p.tick);
    ws.push(p.creature_id);
    ws.push(pack(p.grounded, p.reserved0[0], p.reserved0[1], p.reserved0[2]));
    push_array3(ws, &p.specific_force);
    push_array7(ws, &p.joint_angles);
    push_array7(ws, &p.joint_torques);
    ws.push(p.contact_count);
    ws.push(pack(p.reserved1[0], p.reserved1[1], p.reserved1[2], p.reserved1[3]));
    ws.push(pack(p.reserved1[4], p.reserved1[5], p.reserved1[6], p.reserved1[7]));
    assert(ws@ =~= old(ws)@ + proprioception_words(*p));
}

/// Appends the words of derez.
pub fn push_derez_words(ws: &mut Vec<u32>, d: &Derez)
    ensures
        final(ws)@ == old(ws)@ + derez_words(*d),
{
    push_u64(ws, d.tick);
    ws.push(d.creature_id);
    ws.push(pack(d.reserved0[0], d.reserved0[1], d.reserved0[2], d.reserved0[3]));
    assert(ws@ =~= old(ws)@ + derez_words(*d));
}

/// Appends the words of refused.
pub fn push_refused_words(ws: &mut Vec<u32>, r: &Refused)
    ensures
        final(ws)@ == old(ws)@ + refused_words(*r),
{
    push_u64(ws, r.tick);
    ws.push(r.creature_id);
    ws.push(pack(r.reason, r.reserved0[0], r.reserved0[1], r.reserved0[2]));
    assert(ws@ =~= old(ws)@ + refused_words(*r));
}

} // verus!
