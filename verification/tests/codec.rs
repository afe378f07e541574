use link::codec::{
    DecodeError, EncodeError, Message, PayloadRule, check_length, decode, decode_frame_header, encode,
    max_frame_bytes, payload_rule,
};
use link::protocol::{
    Actions, CONTACTS_MAX, CREATURE_STATE_BYTES, Contact, CreatureState, Derez, Event, EventKind,
    FRAME_HEADER_BYTES, FRAME_PAYLOAD_LIMIT, Hello, MessageType, PROTOCOL_VERSION, Ping, Pong,
    Proprioception, REZ_HEADER_BYTES, REZ_MATERIAL_BYTES, REZ_MAX_MATERIALS, REZ_MAX_TRIANGLES,
    REZ_MAX_VERTICES, REZ_TRIANGLE_BYTES, REZ_VERTEX_BYTES, RefusalReason, Refused, Rez, RezMaterial,
    RezTriangle, RezVertex, Role, SEGMENTS_MAX, SegmentPose, TICK_HEADER_BYTES,
    TICK_STATE_MAX_CREATURES, TRAILING_SEGMENTS_MAX, TickStateHeader, Welcome,
};

fn f(x: f32) -> u32 {
    x.to_bits()
}

fn sample_hello() -> Message {
    Message::Hello(Hello {
        protocol_version: PROTOCOL_VERSION,
        fingerprint: [0xA5; 32],
        role: Role::CreatureHost.to_byte(),
        reserved0: [0; 3],
        world_fingerprint: 0x5EED,
    })
}

fn sample_rez(vertices: u32, triangles: u32, materials: u32) -> Message {
    let header = Rez {
        creature_id: 42,
        max_forward_speed: f(1.0),
        max_turn_rate: f(1.5),
        max_vocalisation_strength: f(1.0),
        max_contact_count: 4,
        vertex_count: vertices,
        triangle_count: triangles,
        material_count: materials,
        segment_count: 1,
        segment_spacing: f(0.0),
        max_joint_angle: f(0.0),
        max_joint_torque: f(0.0),
    };
    Message::Rez {
        header,
        vertices: (0..vertices).map(|index| RezVertex { position: [f(index as f32), f(0.5), f(-1.0)] }).collect(),
        triangles: (0..triangles)
            .map(|index| RezTriangle {
                vertices: [index % vertices.max(1), (index + 1) % vertices.max(1), (index + 2) % vertices.max(1)],
                material: index % materials.max(1),
            })
            .collect(),
        materials: (0..materials)
            .map(|index| RezMaterial {
                colour: [f(0.1), f(0.2), f(index as f32)],
                index_of_refraction: f(1.5),
                emission: [f(0.0); 3],
                transmission: f(0.0),
            })
            .collect(),
    }
}

fn chained_rez() -> Message {
    let Message::Rez { header, vertices, triangles, materials } = sample_rez(4, 2, 1) else { unreachable!() };
    Message::Rez {
        header: Rez { segment_count: SEGMENTS_MAX, segment_spacing: f(0.54), max_joint_angle: f(0.0), max_joint_torque: f(0.0), ..header },
        vertices,
        triangles,
        materials,
    }
}

fn sample_proprioception(contacts: u32) -> Message {
    Message::Proprioception {
        header: Proprioception {
            tick: 4_242,
            creature_id: 7,
            grounded: u8::from(contacts > 0),
            reserved0: [0; 3],
            specific_force: [f(0.0), f(9.81), f(-0.5)],
            joint_angles: [f(0.1), f(-0.2), f(0.3), f(-0.4), f(0.5), f(-0.6), f(0.7)],
            joint_torques: [f(1.5), f(-2.5), f(3.5), f(-4.5), f(0.5), f(-0.25), f(5.0)],
            contact_count: contacts,
            reserved1: [0; 8],
        },
        contacts: (0..contacts)
            .map(|index| Contact {
                position: [f(index as f32), f(0.05), f(-1.0)],
                impulse: [f(0.0), f(0.3 + index as f32), f(0.0)],
                normal: [f(0.0), f(1.0), f(0.0)],
                depth: f(0.0),
                slip: [f(0.25), f(0.0), f(0.0)],
            })
            .collect(),
    }
}

fn chain(count: u32) -> [SegmentPose; TRAILING_SEGMENTS_MAX] {
    let mut segments = [SegmentPose::default(); TRAILING_SEGMENTS_MAX];
    for (slot, pose) in segments.iter_mut().enumerate().take((count - 1) as usize) {
        *pose = SegmentPose {
            position: [f(slot as f32), f(2.0), f(3.0 + slot as f32 * 0.5)],
            yaw: f(0.1 * slot as f32),
            pitch: f(-0.05 * slot as f32),
        };
    }
    segments
}

fn sample_tick_state(rows: u32) -> Message {
    let states = (0..rows)
        .map(|index| CreatureState {
            creature_id: index,
            position: [f(1.0), f(2.0), f(3.0)],
            yaw: f(0.5),
            pitch: f(0.1),
            velocity: [f(-1.0), f(0.0), f(4.5)],
            yaw_rate: f(-0.25),
            vocalisation: f(0.75),
            segment_count: 1 + (index % SEGMENTS_MAX),
            segments: chain(1 + (index % SEGMENTS_MAX)),
        })
        .collect();
    Message::TickState { header: TickStateHeader { tick: 777, creature_count: rows, reserved0: [0; 4] }, states }
}

fn sample_actions() -> Message {
    Message::Actions(Actions {
        tick: 42,
        creature_id: 3,
        desired_forward_speed: f(1.5),
        desired_turn_rate: f(-0.5),
        vocalisation_strength: f(1.0),
        previous_forward_speed: f(1.25),
        previous_turn_rate: f(0.5),
        previous_vocalisation: f(0.0),
        joint_targets: [f(0.0); 7],
        previous_joint_targets: [f(0.0); 7],
        reserved0: [0; 4],
    })
}

fn everything() -> Vec<Message> {
    vec![
        sample_hello(),
        sample_rez(0, 0, 0),
        sample_rez(4, 2, 1),
        sample_rez(REZ_MAX_VERTICES, REZ_MAX_TRIANGLES, REZ_MAX_MATERIALS),
        chained_rez(),
        sample_proprioception(0),
        sample_proprioception(2),
        sample_proprioception(CONTACTS_MAX),
        Message::Welcome(Welcome { current_tick: 41, nominal_dt_seconds: f(0.03125), client_id: 7, world_fingerprint: 0x5EED }),
        sample_tick_state(0),
        sample_tick_state(3),
        sample_tick_state(TICK_STATE_MAX_CREATURES),
        sample_actions(),
        Message::Event(Event {
            tick: 43,
            position: [f(10.0), f(0.0), f(-4.0)],
            strength: f(0.9),
            creature_id: 3,
            kind: EventKind::Vocalisation.to_byte(),
            reserved0: [0; 3],
        }),
        Message::Derez(Derez { tick: 44, creature_id: 3, reserved0: [0; 4] }),
        Message::Ping(Ping { nonce: 0xDEAD_BEEF }),
        Message::Pong(Pong { nonce: 0xDEAD_BEEF }),
        Message::Bye,
        Message::Refused(Refused { tick: 45, creature_id: 3, reason: RefusalReason::Crowded.to_byte(), reserved0: [0; 3] }),
    ]
}

fn frame_of(message: &Message) -> Vec<u8> {
    let mut out = Vec::new();
    encode(message, &mut out).expect("test messages are valid");
    out
}

fn max_rez_payload_bytes() -> usize {
    REZ_HEADER_BYTES
        + REZ_MAX_VERTICES as usize * REZ_VERTEX_BYTES
        + REZ_MAX_TRIANGLES as usize * REZ_TRIANGLE_BYTES
        + REZ_MAX_MATERIALS as usize * REZ_MATERIAL_BYTES
}

#[test]
fn a_refusal_is_named_or_it_is_refused_both_ways() {
    for reason in [RefusalReason::Owned, RefusalReason::Full, RefusalReason::Crowded, RefusalReason::Bounds] {
        let message = Message::Refused(Refused { tick: 9, creature_id: 512, reason: reason.to_byte(), reserved0: [0; 3] });
        let frame = frame_of(&message);
        assert_eq!(frame.len(), FRAME_HEADER_BYTES + 16);
        assert_eq!(decode(frame[2], &frame[FRAME_HEADER_BYTES..]), Ok(message));
    }
    for unnamed in [0u8, 5, 255] {
        let mut out = Vec::new();
        let refused = Refused { tick: 9, creature_id: 512, reason: unnamed, reserved0: [0; 3] };
        assert_eq!(encode(&Message::Refused(refused), &mut out), Err(EncodeError::InvalidRefusalReason(unnamed)));
        assert!(out.is_empty(), "a refused encode writes nothing");
        let mut payload = [0u8; 16];
        payload[12] = unnamed;
        assert_eq!(decode(MessageType::Refused.to_byte(), &payload), Err(DecodeError::InvalidRefusalReason(unnamed)));
    }
    let mut payload = [0u8; 16];
    payload[12] = RefusalReason::Owned.to_byte();
    payload[15] = 1;
    assert_eq!(decode(MessageType::Refused.to_byte(), &payload), Err(DecodeError::ReservedNotZero));
}

#[test]
fn every_message_survives_the_round_trip() {
    for original in everything() {
        let frame = frame_of(&original);
        let (length, type_byte) = decode_frame_header([frame[0], frame[1], frame[2]]);
        assert_eq!(length as usize, frame.len() - FRAME_HEADER_BYTES);
        let rule = payload_rule(type_byte).expect("encoded types are known");
        check_length(rule, length as usize).expect("encoded lengths are legal");
        let decoded = decode(type_byte, &frame[FRAME_HEADER_BYTES..]).expect("encoded frames decode");
        assert_eq!(decoded, original, "the wire must not launder a message into a different one");
    }
}

#[test]
fn truncated_and_padded_payloads_are_refused_for_every_type() {
    for original in everything() {
        let frame = frame_of(&original);
        let type_byte = frame[2];
        let payload = &frame[FRAME_HEADER_BYTES..];
        if !payload.is_empty() {
            let truncated = &payload[..payload.len() - 1];
            assert!(decode(type_byte, truncated).is_err(), "type {type_byte} accepted a truncated payload");
        }
        let mut padded = payload.to_vec();
        padded.push(0);
        assert!(decode(type_byte, &padded).is_err(), "type {type_byte} accepted a padded payload");
    }
}

#[test]
fn unknown_and_reserved_types_are_refused_before_any_copy() {
    for type_byte in [0u8, 13, 200, 255] {
        assert_eq!(payload_rule(type_byte), Err(DecodeError::UnknownOrReservedType(type_byte)));
    }
}

#[test]
fn the_tick_state_length_rules_refuse_ragged_overfull_and_lying_frames() {
    let ragged = TICK_HEADER_BYTES + 7;
    assert_eq!(check_length(PayloadRule::TickState, ragged), Err(DecodeError::RaggedTickState { got: ragged }));
    assert_eq!(
        check_length(PayloadRule::TickState, TICK_HEADER_BYTES - 1),
        Err(DecodeError::RaggedTickState { got: TICK_HEADER_BYTES - 1 })
    );
    let over = TICK_HEADER_BYTES + (TICK_STATE_MAX_CREATURES as usize + 1) * CREATURE_STATE_BYTES;
    assert_eq!(check_length(PayloadRule::TickState, over), Err(DecodeError::CountOverCap { count: TICK_STATE_MAX_CREATURES + 1 }));

    let frame = frame_of(&sample_tick_state(2));
    let mut payload = frame[FRAME_HEADER_BYTES..].to_vec();
    payload[8..12].copy_from_slice(&3u32.to_le_bytes());
    assert_eq!(
        decode(MessageType::TickState.to_byte(), &payload),
        Err(DecodeError::CountLengthMismatch { count: 3, rows_by_length: 2 })
    );
}

#[test]
fn invalid_roles_kinds_and_nonzero_reserved_bytes_are_refused_both_ways() {
    let hello = frame_of(&sample_hello());
    for bad_role in [0u8, 3, 255] {
        let mut payload = hello[FRAME_HEADER_BYTES..].to_vec();
        payload[36] = bad_role;
        assert_eq!(decode(MessageType::Hello.to_byte(), &payload), Err(DecodeError::InvalidRole(bad_role)));
    }
    let mut payload = hello[FRAME_HEADER_BYTES..].to_vec();
    payload[38] = 1;
    assert_eq!(decode(MessageType::Hello.to_byte(), &payload), Err(DecodeError::ReservedNotZero));

    let event = frame_of(
        everything().iter().find(|message| matches!(message, Message::Event(_))).expect("the sample set carries an EVENT"),
    );
    let mut payload = event[FRAME_HEADER_BYTES..].to_vec();
    payload[28] = 0;
    assert_eq!(decode(MessageType::Event.to_byte(), &payload), Err(DecodeError::InvalidEventKind(0)));
    payload[28] = EventKind::Scratch.to_byte();
    assert!(matches!(decode(MessageType::Event.to_byte(), &payload), Ok(Message::Event(scratch)) if scratch.kind == EventKind::Scratch.to_byte()));
    payload[28] = 3;
    assert_eq!(decode(MessageType::Event.to_byte(), &payload), Err(DecodeError::InvalidEventKind(3)));

    let mut out = Vec::new();
    let bad_role = Message::Hello(Hello {
        protocol_version: PROTOCOL_VERSION,
        fingerprint: [0; 32],
        role: 9,
        reserved0: [0; 3],
        world_fingerprint: 0x5EED,
    });
    assert_eq!(encode(&bad_role, &mut out), Err(EncodeError::InvalidRole(9)));
    assert!(out.is_empty(), "a refused encode must write nothing");

    let overfull = sample_tick_state(TICK_STATE_MAX_CREATURES);
    let Message::TickState { header, mut states } = overfull else { unreachable!() };
    states.push(states[0]);
    let one_too_many = Message::TickState {
        header: TickStateHeader { creature_count: header.creature_count + 1, ..header },
        states,
    };
    assert_eq!(encode(&one_too_many, &mut out), Err(EncodeError::CountOverCap { count: TICK_STATE_MAX_CREATURES as usize + 1 }));

    let lying = sample_tick_state(2);
    let Message::TickState { header, states } = lying else { unreachable!() };
    let lying_count = Message::TickState { header: TickStateHeader { creature_count: 3, ..header }, states };
    assert_eq!(encode(&lying_count, &mut out), Err(EncodeError::CountRowsMismatch { count: 3, rows: 2 }));
    assert!(out.is_empty(), "a refused encode must write nothing");
}

#[test]
fn an_actions_reserved_word_must_be_zero_both_ways() {
    let Message::Actions(mut actions) = sample_actions() else { unreachable!() };
    actions.reserved0 = [1, 0, 0, 0];
    let mut out = Vec::new();
    assert_eq!(encode(&Message::Actions(actions), &mut out), Err(EncodeError::ReservedNotZero));
    assert!(out.is_empty(), "a refused encode must write nothing");

    let mut frame = frame_of(&sample_actions());
    let reserved_offset = FRAME_HEADER_BYTES + 92;
    frame[reserved_offset] = 1;
    assert_eq!(decode(MessageType::Actions.to_byte(), &frame[FRAME_HEADER_BYTES..]), Err(DecodeError::ReservedNotZero));
}

#[test]
fn bye_carries_nothing_and_refuses_everything() {
    assert_eq!(check_length(PayloadRule::Exact(0), 0), Ok(()));
    assert_eq!(decode(MessageType::Bye.to_byte(), &[]), Ok(Message::Bye));
    assert_eq!(decode(MessageType::Bye.to_byte(), &[0]), Err(DecodeError::WrongLength { expected: 0, got: 1 }));
}

#[test]
fn the_receive_buffer_constant_really_is_the_largest_legal_frame() {
    let largest_rez = frame_of(&sample_rez(REZ_MAX_VERTICES, REZ_MAX_TRIANGLES, REZ_MAX_MATERIALS));
    let largest_tick = frame_of(&sample_tick_state(TICK_STATE_MAX_CREATURES));
    assert_eq!(largest_rez.len().max(largest_tick.len()), max_frame_bytes());
    assert!(largest_tick.len() > largest_rez.len(), "since v11 a full tick outweighs a full body");
    assert!(max_frame_bytes() <= FRAME_HEADER_BYTES + FRAME_PAYLOAD_LIMIT);
}

#[test]
fn a_proprioception_is_judged_at_the_header_and_refused_by_name() {
    assert_eq!(check_length(PayloadRule::Proprioception, 96 + 52 * CONTACTS_MAX as usize), Ok(()));
    assert!(matches!(check_length(PayloadRule::Proprioception, 95), Err(DecodeError::RaggedProprioception { .. })));
    assert!(matches!(check_length(PayloadRule::Proprioception, 96 + 51), Err(DecodeError::RaggedProprioception { .. })));
    assert_eq!(
        check_length(PayloadRule::Proprioception, 96 + 52 * (CONTACTS_MAX as usize + 1)),
        Err(DecodeError::ContactsOverCap { count: CONTACTS_MAX + 1 })
    );

    let frame = frame_of(&sample_proprioception(2));
    let payload = &frame[FRAME_HEADER_BYTES..];
    let mut lying = payload.to_vec();
    lying[84..88].copy_from_slice(&3u32.to_le_bytes());
    assert_eq!(
        decode(MessageType::Proprioception.to_byte(), &lying),
        Err(DecodeError::ContactsLengthMismatch { count: 3, rows_by_length: 2 })
    );
    let mut floating = payload.to_vec();
    floating[12] = 2;
    assert_eq!(decode(MessageType::Proprioception.to_byte(), &floating), Err(DecodeError::InvalidGrounded(2)));
    let mut reserved = payload.to_vec();
    reserved[14] = 1;
    assert_eq!(decode(MessageType::Proprioception.to_byte(), &reserved), Err(DecodeError::ReservedNotZero));
    let mut tail = payload.to_vec();
    tail[93] = 1;
    assert_eq!(decode(MessageType::Proprioception.to_byte(), &tail), Err(DecodeError::ReservedNotZero));
    for offset in [16usize, 28 + 4 * 3, 56 + 4 * 6, 96 + 4, 96 + 52 + 44] {
        let mut poisoned = payload.to_vec();
        poisoned[offset..offset + 4].copy_from_slice(&f32::NAN.to_le_bytes());
        assert_eq!(decode(MessageType::Proprioception.to_byte(), &poisoned), Err(DecodeError::ProprioceptionNotFinite), "offset {offset}");
    }

    let Message::Proprioception { header, contacts } = sample_proprioception(2) else { unreachable!() };
    let mut out = Vec::new();
    let mut too_many = header;
    too_many.contact_count = CONTACTS_MAX + 1;
    let rows = vec![contacts[0]; CONTACTS_MAX as usize + 1];
    assert_eq!(
        encode(&Message::Proprioception { header: too_many, contacts: rows }, &mut out),
        Err(EncodeError::ContactsOverCap { count: CONTACTS_MAX as usize + 1 })
    );
    assert_eq!(
        encode(&Message::Proprioception { header, contacts: contacts[..1].to_vec() }, &mut out),
        Err(EncodeError::ContactsRowsMismatch { count: 2, rows: 1 })
    );
    let mut floating = header;
    floating.grounded = 7;
    assert_eq!(
        encode(&Message::Proprioception { header: floating, contacts: contacts.clone() }, &mut out),
        Err(EncodeError::InvalidGrounded(7))
    );
    let mut nan = header;
    nan.specific_force[1] = f32::INFINITY.to_bits();
    assert_eq!(
        encode(&Message::Proprioception { header: nan, contacts: contacts.clone() }, &mut out),
        Err(EncodeError::ProprioceptionNotFinite)
    );
    let mut bent = header;
    bent.joint_angles[6] = f32::NAN.to_bits();
    assert_eq!(
        encode(&Message::Proprioception { header: bent, contacts: contacts.clone() }, &mut out),
        Err(EncodeError::ProprioceptionNotFinite)
    );
    let mut hot = header;
    hot.joint_torques[0] = f32::NAN.to_bits();
    assert_eq!(
        encode(&Message::Proprioception { header: hot, contacts: contacts.clone() }, &mut out),
        Err(EncodeError::ProprioceptionNotFinite)
    );
    let mut tail = header;
    tail.reserved1 = [0, 0, 1, 0, 0, 0, 0, 0];
    assert_eq!(encode(&Message::Proprioception { header: tail, contacts }, &mut out), Err(EncodeError::ReservedNotZero));
    assert!(out.is_empty(), "nothing is written before a refusal");
}

#[test]
fn a_rez_over_any_cap_is_refused_before_a_row_is_read() {
    for (vertices, triangles, materials) in [(REZ_MAX_VERTICES + 1, 0, 0), (0, REZ_MAX_TRIANGLES + 1, 0), (0, 0, REZ_MAX_MATERIALS + 1)] {
        let Message::Rez { header, .. } = sample_rez(0, 0, 0) else { unreachable!() };
        let lying = Message::Rez {
            header: Rez { vertex_count: vertices, triangle_count: triangles, material_count: materials, ..header },
            vertices: Vec::new(),
            triangles: Vec::new(),
            materials: Vec::new(),
        };
        let mut out = Vec::new();
        assert_eq!(encode(&lying, &mut out), Err(EncodeError::RezCountOverCap { vertices, triangles, materials }));
        assert!(out.is_empty(), "nothing is written before the refusal");

        let mut payload = frame_of(&sample_rez(0, 0, 0))[FRAME_HEADER_BYTES..].to_vec();
        payload[20..24].copy_from_slice(&vertices.to_le_bytes());
        payload[24..28].copy_from_slice(&triangles.to_le_bytes());
        payload[28..32].copy_from_slice(&materials.to_le_bytes());
        assert_eq!(decode(MessageType::Rez.to_byte(), &payload), Err(DecodeError::RezCountOverCap { vertices, triangles, materials }));
    }
}

#[test]
fn a_rez_whose_counts_and_length_disagree_is_refused() {
    let frame = frame_of(&sample_rez(4, 2, 1));
    let payload = &frame[FRAME_HEADER_BYTES..];
    let short = &payload[..payload.len() - 1];
    assert!(matches!(decode(MessageType::Rez.to_byte(), short), Err(DecodeError::RezLengthMismatch { .. })));
    let mut long = payload.to_vec();
    long.push(0);
    assert!(matches!(decode(MessageType::Rez.to_byte(), &long), Err(DecodeError::RezLengthMismatch { .. })));
    assert!(matches!(check_length(PayloadRule::Rez, REZ_HEADER_BYTES - 1), Err(DecodeError::RezLengthMismatch { .. })));
    assert!(matches!(check_length(PayloadRule::Rez, max_rez_payload_bytes() + 1), Err(DecodeError::RezLengthMismatch { .. })));
    assert_eq!(check_length(PayloadRule::Rez, REZ_HEADER_BYTES), Ok(()));
}

#[test]
fn a_rez_triangle_pointing_past_its_vertices_or_materials_is_refused_both_ways() {
    for (vertex, material) in [(4u32, 0u32), (0, 1), (u32::MAX, 0)] {
        let Message::Rez { header, vertices, mut triangles, materials } = sample_rez(4, 2, 1) else { unreachable!() };
        triangles[1] = RezTriangle { vertices: [0, 1, vertex], material };
        let lying = Message::Rez { header, vertices, triangles, materials };
        let mut out = Vec::new();
        assert_eq!(encode(&lying, &mut out), Err(EncodeError::RezIndexOutOfRange { triangle: 1 }));

        let mut frame = frame_of(&sample_rez(4, 2, 1));
        let triangle_at = FRAME_HEADER_BYTES + REZ_HEADER_BYTES + 4 * REZ_VERTEX_BYTES + REZ_TRIANGLE_BYTES;
        frame[triangle_at + 8..triangle_at + 12].copy_from_slice(&vertex.to_le_bytes());
        frame[triangle_at + 12..triangle_at + 16].copy_from_slice(&material.to_le_bytes());
        assert_eq!(decode(MessageType::Rez.to_byte(), &frame[FRAME_HEADER_BYTES..]), Err(DecodeError::RezIndexOutOfRange { triangle: 1 }));
    }
}

#[test]
fn a_rez_carrying_a_nan_anywhere_is_refused_both_ways() {
    let vertex_at = REZ_HEADER_BYTES;
    let material_at = REZ_HEADER_BYTES + 4 * REZ_VERTEX_BYTES + 2 * REZ_TRIANGLE_BYTES;
    for offset in [4usize, vertex_at + 4, material_at + 12] {
        for poison in [f32::NAN, f32::INFINITY, f32::NEG_INFINITY] {
            let mut frame = frame_of(&sample_rez(4, 2, 1));
            let at = FRAME_HEADER_BYTES + offset;
            frame[at..at + 4].copy_from_slice(&poison.to_le_bytes());
            assert_eq!(
                decode(MessageType::Rez.to_byte(), &frame[FRAME_HEADER_BYTES..]),
                Err(DecodeError::RezNotFinite),
                "offset {offset} poisoned with {poison} was accepted"
            );
        }
    }
    let Message::Rez { header, mut vertices, triangles, materials } = sample_rez(4, 2, 1) else { unreachable!() };
    vertices[3].position[2] = f32::NAN.to_bits();
    let mut out = Vec::new();
    assert_eq!(encode(&Message::Rez { header, vertices, triangles, materials }, &mut out), Err(EncodeError::RezNotFinite));
}

#[test]
fn a_chain_is_refused_by_name_both_ways() {
    let Message::Rez { header, .. } = sample_rez(4, 2, 1) else { unreachable!() };
    for (count, spacing, refusal) in [
        (0u32, 0.0f32, EncodeError::RezSegmentCountOutOfRange { count: 0 }),
        (SEGMENTS_MAX + 1, 0.5, EncodeError::RezSegmentCountOutOfRange { count: SEGMENTS_MAX + 1 }),
        (3, f32::NAN, EncodeError::RezSpacingInvalid),
        (3, 0.0, EncodeError::RezSpacingInvalid),
        (3, -0.5, EncodeError::RezSpacingInvalid),
        (1, 0.5, EncodeError::RezSpacingInvalid),
    ] {
        let lying = Message::Rez {
            header: Rez {
                segment_count: count,
                segment_spacing: spacing.to_bits(),
                max_joint_angle: f(0.0),
                max_joint_torque: f(0.0),
                vertex_count: 0,
                triangle_count: 0,
                material_count: 0,
                ..header
            },
            vertices: Vec::new(),
            triangles: Vec::new(),
            materials: Vec::new(),
        };
        let mut out = Vec::new();
        assert_eq!(encode(&lying, &mut out), Err(refusal), "count {count} spacing {spacing}");
        assert!(out.is_empty());
        let mut payload = frame_of(&sample_rez(0, 0, 0))[FRAME_HEADER_BYTES..].to_vec();
        payload[32..36].copy_from_slice(&count.to_le_bytes());
        payload[36..40].copy_from_slice(&spacing.to_le_bytes());
        let decoded = decode(MessageType::Rez.to_byte(), &payload);
        match refusal {
            EncodeError::RezSegmentCountOutOfRange { count } => {
                assert_eq!(decoded, Err(DecodeError::RezSegmentCountOutOfRange { count }));
            }
            _ => assert_eq!(decoded, Err(DecodeError::RezSpacingInvalid)),
        }
    }

    let Message::TickState { header, states } = sample_tick_state(1) else { unreachable!() };
    let honest = states[0];
    let poisoned = {
        let mut row = CreatureState { segment_count: 3, segments: chain(3), ..honest };
        row.segments[1].yaw = f32::NAN.to_bits();
        row
    };
    let dirty = {
        let mut row = CreatureState { segment_count: 2, segments: chain(2), ..honest };
        row.segments[5].position[0] = 1.0e-45f32.to_bits();
        row
    };
    for (row, refusal) in [
        (
            CreatureState { segment_count: 0, segments: chain(1), ..honest },
            EncodeError::SegmentCountOutOfRange { creature_id: 0, count: 0 },
        ),
        (
            CreatureState { segment_count: SEGMENTS_MAX + 1, segments: chain(SEGMENTS_MAX), ..honest },
            EncodeError::SegmentCountOutOfRange { creature_id: 0, count: SEGMENTS_MAX + 1 },
        ),
        (poisoned, EncodeError::TickStateNotFinite { creature_id: 0 }),
        (dirty, EncodeError::SegmentSlotNotZero { creature_id: 0 }),
    ] {
        let lying = Message::TickState { header, states: vec![row] };
        let mut out = Vec::new();
        assert_eq!(encode(&lying, &mut out), Err(refusal));
        assert!(out.is_empty(), "nothing is written before a refusal");
    }
    let honest_frame = frame_of(&Message::TickState {
        header,
        states: vec![CreatureState { segment_count: 2, segments: chain(2), ..honest }],
    });
    let row_at = FRAME_HEADER_BYTES + TICK_HEADER_BYTES;
    let mut over = honest_frame.clone();
    over[row_at + 44..row_at + 48].copy_from_slice(&(SEGMENTS_MAX + 1).to_le_bytes());
    assert_eq!(
        decode(MessageType::TickState.to_byte(), &over[FRAME_HEADER_BYTES..]),
        Err(DecodeError::SegmentCountOutOfRange { creature_id: 0, count: SEGMENTS_MAX + 1 })
    );
    let mut nan = honest_frame.clone();
    nan[row_at + 48 + 12..row_at + 48 + 16].copy_from_slice(&f32::NAN.to_le_bytes());
    assert_eq!(
        decode(MessageType::TickState.to_byte(), &nan[FRAME_HEADER_BYTES..]),
        Err(DecodeError::TickStateNotFinite { creature_id: 0 })
    );
    let mut dead = honest_frame.clone();
    dead[row_at + 48 + 20 * 4] = 1;
    assert_eq!(
        decode(MessageType::TickState.to_byte(), &dead[FRAME_HEADER_BYTES..]),
        Err(DecodeError::SegmentSlotNotZero { creature_id: 0 })
    );
    let mut head = honest_frame;
    head[row_at + 4..row_at + 8].copy_from_slice(&f32::INFINITY.to_le_bytes());
    assert_eq!(
        decode(MessageType::TickState.to_byte(), &head[FRAME_HEADER_BYTES..]),
        Err(DecodeError::TickStateNotFinite { creature_id: 0 })
    );
}

#[test]
fn no_input_panics_the_decoder() {
    let mut seed: u64 = 0x1DA7_2026;
    let mut junk = Vec::with_capacity(max_frame_bytes());
    for length in 0..=(max_frame_bytes() - FRAME_HEADER_BYTES) {
        junk.clear();
        for _ in 0..length {
            seed = seed.wrapping_mul(6_364_136_223_846_793_005).wrapping_add(1_442_695_040_888_963_407);
            junk.push((seed >> 56) as u8);
        }
        for type_byte in 0..=12u8 {
            let _ = decode(type_byte, &junk);
        }
        let _ = decode((seed >> 40) as u8, &junk);
    }
}

#[test]
fn servos_that_cannot_be_are_refused_both_ways() {
    let Message::Rez { header, .. } = sample_rez(0, 0, 0) else { unreachable!() };
    for (angle, torque) in [(1.0f32, 0.0f32), (0.0, 2.0), (-1.0, -1.0), (f32::NAN, 1.0), (1.0, f32::INFINITY)] {
        let bent = Message::Rez {
            header: Rez { max_joint_angle: angle.to_bits(), max_joint_torque: torque.to_bits(), ..header },
            vertices: Vec::new(),
            triangles: Vec::new(),
            materials: Vec::new(),
        };
        let mut out = Vec::new();
        assert_eq!(encode(&bent, &mut out), Err(EncodeError::RezServoInvalid), "angle {angle} torque {torque}");
        assert!(out.is_empty());
        let mut payload = frame_of(&sample_rez(0, 0, 0))[FRAME_HEADER_BYTES..].to_vec();
        payload[40..44].copy_from_slice(&angle.to_le_bytes());
        payload[44..48].copy_from_slice(&torque.to_le_bytes());
        assert_eq!(decode(MessageType::Rez.to_byte(), &payload), Err(DecodeError::RezServoInvalid));
    }
    let set = Message::Rez {
        header: Rez { max_joint_angle: f(0.75), max_joint_torque: f(3.0), ..header },
        vertices: Vec::new(),
        triangles: Vec::new(),
        materials: Vec::new(),
    };
    let frame = frame_of(&set);
    assert_eq!(decode(frame[2], &frame[FRAME_HEADER_BYTES..]), Ok(set));
}

#[test]
fn rows_that_disagree_with_their_counts_are_refused_at_the_sending_end() {
    let Message::Rez { header, vertices, triangles, materials } = sample_rez(4, 2, 1) else { unreachable!() };
    let short = Message::Rez { header, vertices: vertices[..3].to_vec(), triangles, materials };
    let mut out = Vec::new();
    assert_eq!(encode(&short, &mut out), Err(EncodeError::RezCountRowsMismatch));
    assert!(out.is_empty());
    let kindless = Message::Event(Event {
        tick: 1,
        position: [f(0.0); 3],
        strength: f(1.0),
        creature_id: 1,
        kind: 0,
        reserved0: [0; 3],
    });
    assert_eq!(encode(&kindless, &mut out), Err(EncodeError::InvalidEventKind(0)));
    assert!(out.is_empty());
}

#[test]
fn a_frame_header_is_the_length_little_endian_then_the_type() {
    assert_eq!(decode_frame_header([0x34, 0x12, 7]), (0x1234, 7));
    let frame = frame_of(&sample_tick_state(TICK_STATE_MAX_CREATURES));
    assert_eq!(frame.len(), 3 + 16 + 256 * 188);
    assert_eq!(decode_frame_header([frame[0], frame[1], frame[2]]), ((16 + 256 * 188) as u16, MessageType::TickState.to_byte()));
    assert_eq!(max_frame_bytes(), 48_147);
}

#[test]
fn every_fixed_message_is_held_to_its_exact_size() {
    assert_eq!(payload_rule(MessageType::Hello.to_byte()), Ok(PayloadRule::Exact(48)));
    assert_eq!(payload_rule(MessageType::Welcome.to_byte()), Ok(PayloadRule::Exact(24)));
    assert_eq!(payload_rule(MessageType::Rez.to_byte()), Ok(PayloadRule::Rez));
    assert_eq!(payload_rule(MessageType::TickState.to_byte()), Ok(PayloadRule::TickState));
    assert_eq!(payload_rule(MessageType::Actions.to_byte()), Ok(PayloadRule::Exact(96)));
    assert_eq!(payload_rule(MessageType::Event.to_byte()), Ok(PayloadRule::Exact(32)));
    assert_eq!(payload_rule(MessageType::Derez.to_byte()), Ok(PayloadRule::Exact(16)));
    assert_eq!(payload_rule(MessageType::Ping.to_byte()), Ok(PayloadRule::Exact(8)));
    assert_eq!(payload_rule(MessageType::Pong.to_byte()), Ok(PayloadRule::Exact(8)));
    assert_eq!(payload_rule(MessageType::Bye.to_byte()), Ok(PayloadRule::Exact(0)));
    assert_eq!(payload_rule(MessageType::Proprioception.to_byte()), Ok(PayloadRule::Proprioception));
    assert_eq!(payload_rule(MessageType::Refused.to_byte()), Ok(PayloadRule::Exact(16)));
}

#[test]
fn a_full_tick_state_fits_one_frame() {
    let full = TICK_HEADER_BYTES + TICK_STATE_MAX_CREATURES as usize * CREATURE_STATE_BYTES;
    assert_eq!(full, 48_144);
    assert!(full <= FRAME_PAYLOAD_LIMIT);
    assert_eq!(check_length(PayloadRule::TickState, full), Ok(()));
}
