use link::abi::{
    EndKind, LNK_BAD_ARGUMENT, LNK_CLIENT_ABI_VERSION, LNK_FRAME_REFUSED, LNK_GARBLED,
    LNK_HANDSHAKE_TIMED_OUT, LNK_IO, LNK_NOTHING_YET, LNK_OK, LNK_PANIC, LNK_PEER_CLOSED,
    LNK_REFUSED, contact_arguments_acceptable, detail_fit, replay_welcome, rez_arguments_acceptable,
    role_of_byte, serves_abi_version, status_of, tick_arguments_acceptable, timeout_argument_status,
};
use link::codec::DecodeError;
use link::protocol::{
    CONTACTS_MAX, PROTOCOL_VERSION, Proprioception, REZ_MAX_VERTICES, Rez, Role,
    TICK_STATE_MAX_CREATURES, TickStateHeader,
};
use link::recording::RecordingHeader;
use link::transport::{EndRules, TransportError, local_hello, recorded_fingerprint};

#[test]
fn the_vtable_refuses_every_version_but_its_own() {
    assert!(!serves_abi_version(0));
    assert!(!serves_abi_version(LNK_CLIENT_ABI_VERSION + 1));
    assert!(serves_abi_version(LNK_CLIENT_ABI_VERSION));
    assert_eq!(PROTOCOL_VERSION, 6);
    assert_eq!(recorded_fingerprint().len(), 32);
}

#[test]
fn old_versions_are_history() {
    for old in 1..LNK_CLIENT_ABI_VERSION {
        assert!(!serves_abi_version(old), "ABI {old} must be refused now that {LNK_CLIENT_ABI_VERSION} exists");
    }
}

#[test]
fn a_lying_tick_state_count_is_refused_before_a_single_row_is_read() {
    let over_cap = TickStateHeader { tick: 1, creature_count: TICK_STATE_MAX_CREATURES + 1, reserved0: [0; 4] };
    assert!(!tick_arguments_acceptable(&over_cap, true), "a count over the cap is refused before rows or connection are even looked at");
    let one_claimed = TickStateHeader { tick: 1, creature_count: 1, reserved0: [0; 4] };
    assert!(!tick_arguments_acceptable(&one_claimed, false), "a count with no rows behind it is refused before any read");
    assert!(tick_arguments_acceptable(&one_claimed, true));
    let none = TickStateHeader { tick: 1, creature_count: 0, reserved0: [0; 4] };
    assert!(tick_arguments_acceptable(&none, false));
}

fn bodiless_rez() -> Rez {
    Rez {
        creature_id: 1,
        max_forward_speed: 1.0f32.to_bits(),
        max_turn_rate: 1.0f32.to_bits(),
        max_vocalisation_strength: 1.0f32.to_bits(),
        max_contact_count: 4,
        vertex_count: 0,
        triangle_count: 0,
        material_count: 0,
        segment_count: 1,
        segment_spacing: 0,
        max_joint_angle: 0,
        max_joint_torque: 0,
    }
}

#[test]
fn a_lying_rez_count_is_refused_before_a_single_row_is_read() {
    let header = bodiless_rez();
    assert!(rez_arguments_acceptable(&header, false, false, false), "a bodiless REZ may pass no arrays");
    let over = Rez { vertex_count: REZ_MAX_VERTICES + 1, ..header };
    assert!(!rez_arguments_acceptable(&over, true, true, true), "a count over the cap is refused before a row is read");
    let claimed = Rez { triangle_count: 2, ..header };
    assert!(!rez_arguments_acceptable(&claimed, true, false, true), "a count with no rows behind it is refused before any read");
    assert!(rez_arguments_acceptable(&claimed, false, true, false));
}

#[test]
fn a_lying_contact_count_is_refused_before_a_single_row_is_read() {
    let header = Proprioception {
        tick: 1,
        creature_id: 1,
        grounded: 0,
        reserved0: [0; 3],
        specific_force: [0; 3],
        joint_angles: [0; 7],
        joint_torques: [0; 7],
        contact_count: CONTACTS_MAX + 1,
        reserved1: [0; 8],
    };
    assert!(!contact_arguments_acceptable(&header, true));
    let two = Proprioception { contact_count: 2, ..header };
    assert!(!contact_arguments_acceptable(&two, false));
    assert!(contact_arguments_acceptable(&two, true));
}

#[test]
fn every_transport_error_has_its_status() {
    assert_eq!(status_of(&TransportError::Io(std::io::ErrorKind::ConnectionReset)), LNK_IO);
    assert_eq!(status_of(&TransportError::WriteBufferOverflow), LNK_IO);
    assert_eq!(status_of(&TransportError::Frame(DecodeError::ReservedNotZero)), LNK_FRAME_REFUSED);
    assert_eq!(status_of(&TransportError::ActionsFromSpectator), LNK_FRAME_REFUSED);
    assert_eq!(status_of(&TransportError::WrongWay("HELLO")), LNK_FRAME_REFUSED);
    assert_eq!(status_of(&TransportError::Refused { reason: String::from("no") }), LNK_REFUSED);
    assert_eq!(status_of(&TransportError::Garbled("x")), LNK_GARBLED);
    assert_eq!(status_of(&TransportError::PeerClosed), LNK_PEER_CLOSED);
    assert_eq!(status_of(&TransportError::HandshakeTimedOut), LNK_HANDSHAKE_TIMED_OUT);
    let all = [LNK_OK, LNK_NOTHING_YET, LNK_REFUSED, LNK_HANDSHAKE_TIMED_OUT, LNK_PEER_CLOSED, LNK_FRAME_REFUSED, LNK_GARBLED, LNK_IO, LNK_BAD_ARGUMENT, LNK_PANIC];
    for (index, status) in all.iter().enumerate() {
        assert_eq!(*status as usize, index, "the statuses count up from zero");
    }
}

#[test]
fn a_role_is_one_of_two() {
    assert_eq!(role_of_byte(1), Some(Role::Spectator));
    assert_eq!(role_of_byte(2), Some(Role::CreatureHost));
    assert_eq!(role_of_byte(0), None);
    assert_eq!(role_of_byte(7), None);
}

#[test]
fn a_detail_line_fits_the_callers_buffer_with_its_terminator() {
    let text = b"0123456789";
    assert_eq!(detail_fit(text, 0), None);
    assert_eq!(detail_fit(text, 1), Some(0));
    assert_eq!(detail_fit(text, 5), Some(4));
    assert_eq!(detail_fit(text, 11), Some(10));
    assert_eq!(detail_fit(text, 256), Some(10));
}

#[test]
fn a_detail_line_never_cuts_a_character() {
    let e_acute = "\u{e9}".as_bytes();
    assert_eq!(e_acute.len(), 2);
    assert_eq!(detail_fit(e_acute, 2), Some(0), "half an e-acute is no character");
    assert_eq!(detail_fit(e_acute, 3), Some(2));
    let mixed = "a\u{e9}b\u{20ac}".as_bytes();
    assert_eq!(mixed.len(), 7);
    assert_eq!(detail_fit(mixed, 3), Some(1));
    assert_eq!(detail_fit(mixed, 4), Some(3));
    assert_eq!(detail_fit(mixed, 6), Some(4), "the euro sign is three bytes, whole or not at all");
    assert_eq!(detail_fit(mixed, 8), Some(7));
}

#[test]
fn a_zero_timeout_is_a_bad_argument_at_the_boundary() {
    assert_eq!(timeout_argument_status(0), Some(LNK_BAD_ARGUMENT));
    assert_eq!(timeout_argument_status(300), None);
}

#[test]
fn each_end_kind_knows_what_it_may_stage() {
    let spectator = EndKind::Wire(EndRules::client(&local_hello(Role::Spectator, 1)));
    assert!(!spectator.may_send_intents());
    assert!(!spectator.may_send_proprioception());
    let server = EndKind::Wire(EndRules::server(&local_hello(Role::Spectator, 1)));
    assert!(server.may_send_intents());
    assert!(server.may_send_proprioception());
    assert!(EndKind::Recording.may_send_intents() && EndKind::Recording.may_send_proprioception());
    assert!(!EndKind::Replay.may_send_intents() && !EndKind::Replay.may_send_proprioception());
}

#[test]
fn a_replay_opens_with_the_recordings_welcome() {
    let header = RecordingHeader::new(0xABCD, 500, 0.031_25f32.to_bits(), 1_700_000_000);
    let welcome = replay_welcome(&header);
    assert_eq!(welcome.current_tick, 500);
    assert_eq!(welcome.nominal_dt_seconds, 0.031_25f32.to_bits());
    assert_eq!(welcome.client_id, 0);
    assert_eq!(welcome.world_fingerprint, 0xABCD);
}
