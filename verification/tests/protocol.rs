use link::protocol::{
    DEFAULT_PORT, EventKind, FRAME_PAYLOAD_LIMIT, MAGIC, MessageType, PROTOCOL_VERSION, Role,
    WorldDefinition, exact_payload_bytes, world_fingerprint,
};

#[test]
fn the_magic_is_lnk1_and_the_type_numbers_are_the_headers() {
    assert_eq!(MAGIC, [0x4C, 0x4E, 0x4B, 0x31]);
    assert_eq!(MessageType::Hello.to_byte(), 1);
    assert_eq!(MessageType::Bye.to_byte(), 10);
    assert_eq!(Role::Spectator.to_byte(), 1);
    assert_eq!(Role::CreatureHost.to_byte(), 2);
    assert_eq!(EventKind::Vocalisation.to_byte(), 1);
    assert_eq!(PROTOCOL_VERSION, 6);
    assert_eq!(DEFAULT_PORT, 30_702);
}

#[test]
fn every_fixed_payload_fits_one_frame() {
    for message in [
        MessageType::Hello,
        MessageType::Welcome,
        MessageType::Actions,
        MessageType::Event,
        MessageType::Derez,
        MessageType::Ping,
        MessageType::Pong,
        MessageType::Bye,
    ] {
        let bytes = exact_payload_bytes(message).expect("fixed messages declare a size");
        assert!(bytes <= FRAME_PAYLOAD_LIMIT, "{message:?} cannot fit one frame");
    }
}

#[test]
fn the_world_fingerprint_answers_and_discriminates() {
    let definition = WorldDefinition {
        floor_cells: 64,
        floor_cell_size: 2.0f32.to_bits(),
        floor_height: 0.0f32.to_bits(),
        relief_amplitude: 5.0f32.to_bits(),
        relief_wavelength: 46.0f32.to_bits(),
        relief_octaves: 3,
        relief_terraces: 6,
        relief_seed: 42,
        dt_seconds: 0.031_25f32.to_bits(),
        body_half_height: 0.05f32.to_bits(),
    };
    let fingerprint = world_fingerprint(&definition);
    assert_ne!(fingerprint, 0, "a fingerprint of zero would look like an unset field");
    assert_eq!(fingerprint, world_fingerprint(&definition), "the same world answers the same bits");

    let mut other_floor = definition;
    other_floor.relief_seed = 43;
    assert_ne!(world_fingerprint(&other_floor), fingerprint, "a different landscape is a different world");

    let mut other_dt = definition;
    other_dt.dt_seconds = 0.02f32.to_bits();
    assert_ne!(world_fingerprint(&other_dt), fingerprint, "a bent dt is a different world too");
}

#[test]
fn the_fixed_sizes_follow_the_wire_layout() {
    assert_eq!(exact_payload_bytes(MessageType::Hello), Some(48));
    assert_eq!(exact_payload_bytes(MessageType::Welcome), Some(24));
    assert_eq!(exact_payload_bytes(MessageType::Rez), None);
    assert_eq!(exact_payload_bytes(MessageType::TickState), None);
    assert_eq!(exact_payload_bytes(MessageType::Actions), Some(96));
    assert_eq!(exact_payload_bytes(MessageType::Event), Some(32));
    assert_eq!(exact_payload_bytes(MessageType::Derez), Some(16));
    assert_eq!(exact_payload_bytes(MessageType::Ping), Some(8));
    assert_eq!(exact_payload_bytes(MessageType::Pong), Some(8));
    assert_eq!(exact_payload_bytes(MessageType::Bye), Some(0));
    assert_eq!(exact_payload_bytes(MessageType::Proprioception), None);
    assert_eq!(exact_payload_bytes(MessageType::Refused), Some(16));
}

#[test]
fn the_world_fingerprint_is_fnv1a_over_the_fields_in_order() {
    // FNV-1a of forty zero bytes, computed by hand from the offset basis and the prime.
    let mut expected: u64 = 14_695_981_039_346_656_037;
    for _ in 0..40 {
        expected = (expected ^ 0).wrapping_mul(1_099_511_628_211);
    }
    let zero = WorldDefinition {
        floor_cells: 0,
        floor_cell_size: 0,
        floor_height: 0,
        relief_amplitude: 0,
        relief_wavelength: 0,
        relief_octaves: 0,
        relief_terraces: 0,
        relief_seed: 0,
        dt_seconds: 0,
        body_half_height: 0,
    };
    assert_eq!(world_fingerprint(&zero), expected);
}
