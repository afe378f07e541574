use link::codec::{DecodeError, EncodeError, Message, encode};
use link::protocol::{
    Actions, CreatureState, Event, EventKind, Hello, MAGIC, MessageType, PROTOCOL_VERSION,
    Proprioception, RefusalReason, Refused, Rez, Role, SegmentPose, TICK_STATE_MAX_CREATURES,
    TRAILING_SEGMENTS_MAX, TickStateHeader, Welcome,
};
use link::transport::{
    ByteSource, Connection, EndRules, FrameReader, HandshakeFailure, MemoryWire, ReadOutcome, Refusal, Sink, Source,
    TransportError, Verdict, WRITE_BUFFER_LIMIT_BYTES, Wire, WriteBuffer, WriteOutcome, answer_to_write,
    DIAL_RETRY_PAUSE_NANOS, DialFailure, DialStep, next_dial,
    accept_hello, accept_welcome, judge_answer_header, judge_contract, judge_hello_header,
    judge_magic, judge_timeout, local_hello, name_of, normalise_timeout, recorded_fingerprint,
    same_fingerprint,
};

const WORLD: u64 = 0x5EED_0F7E_601D;

fn f(x: f32) -> u32 {
    x.to_bits()
}

/// A sink that takes nothing: the socket of a peer that has stopped reading.
struct Deaf;

impl Sink for Deaf {
    fn write_some(&mut self, _bytes: &[u8]) -> WriteOutcome {
        WriteOutcome::WouldBlock
    }
}

/// A sink that accepts five bytes per call: the partial-write carry, forced deterministically.
struct Dribbling {
    accepted: Vec<u8>,
}

impl Sink for Dribbling {
    fn write_some(&mut self, bytes: &[u8]) -> WriteOutcome {
        let take = bytes.len().min(5);
        self.accepted.extend_from_slice(&bytes[..take]);
        WriteOutcome::Wrote(take)
    }
}

fn frame(message: &Message) -> Vec<u8> {
    let mut out = Vec::new();
    encode(message, &mut out).expect("test messages are valid");
    out
}

fn welcome() -> Message {
    Message::Welcome(Welcome { current_tick: 100, nominal_dt_seconds: f(0.03125), client_id: 1, world_fingerprint: WORLD })
}

fn actions(tick: u64) -> Message {
    Message::Actions(Actions {
        tick,
        creature_id: 1,
        desired_forward_speed: f(1.0),
        desired_turn_rate: f(0.0),
        vocalisation_strength: f(0.0),
        previous_forward_speed: f(0.0),
        previous_turn_rate: f(0.0),
        previous_vocalisation: f(0.0),
        joint_targets: [f(0.0); 7],
        previous_joint_targets: [f(0.0); 7],
        reserved0: [0; 4],
    })
}

fn bodiless_rez() -> Message {
    Message::Rez {
        header: Rez {
            creature_id: 1,
            max_forward_speed: f(1.0),
            max_turn_rate: f(1.0),
            max_vocalisation_strength: f(1.0),
            max_contact_count: 4,
            vertex_count: 0,
            triangle_count: 0,
            material_count: 0,
            segment_count: 1,
            segment_spacing: f(0.0),
            max_joint_angle: f(0.0),
            max_joint_torque: f(0.0),
        },
        vertices: Vec::new(),
        triangles: Vec::new(),
        materials: Vec::new(),
    }
}

fn letter() -> Message {
    Message::Proprioception {
        header: Proprioception {
            tick: 1,
            creature_id: 1,
            grounded: 1,
            reserved0: [0; 3],
            specific_force: [f(0.0), f(9.81), f(0.0)],
            joint_angles: [f(0.0); 7],
            joint_torques: [f(0.0); 7],
            contact_count: 0,
            reserved1: [0; 8],
        },
        contacts: Vec::new(),
    }
}

fn tick_state() -> Message {
    Message::TickState { header: TickStateHeader { tick: 1, creature_count: 0, reserved0: [0; 4] }, states: Vec::new() }
}

fn event() -> Message {
    Message::Event(Event {
        tick: 1,
        position: [f(0.0); 3],
        strength: f(1.0),
        creature_id: 1,
        kind: EventKind::Vocalisation.to_byte(),
        reserved0: [0; 3],
    })
}

fn refusal() -> Message {
    Message::Refused(Refused { tick: 1, creature_id: 1, reason: RefusalReason::Owned.to_byte(), reserved0: [0; 3] })
}

/// A server-held end whose peer, a `role`, said `said`.
fn server_hearing(role: Role, said: &[Message]) -> Connection<MemoryWire> {
    let mut bytes = Vec::new();
    for message in said {
        bytes.extend(frame(message));
    }
    Connection::framed(MemoryWire::hearing(bytes, 4096), EndRules::server(&local_hello(role, WORLD)))
}

/// A client-held end, a `role`, whose server said `said`.
fn client_hearing(role: Role, said: &[Message]) -> Connection<MemoryWire> {
    let mut bytes = Vec::new();
    for message in said {
        bytes.extend(frame(message));
    }
    Connection::framed(MemoryWire::hearing(bytes, 4096), EndRules::client(&local_hello(role, WORLD)))
}

#[test]
fn an_unread_peer_cannot_grow_the_write_buffer_without_bound_but_a_reading_one_may_take_a_big_batch() {
    let mut writer = WriteBuffer::from_pending(vec![0u8; WRITE_BUFFER_LIMIT_BYTES + 1]);
    assert!(
        matches!(writer.flush_into(&mut Deaf), Err(TransportError::WriteBufferOverflow)),
        "a megabyte of unread pending bytes is a dead peer, not a bigger buffer"
    );
    let mut writer = WriteBuffer::from_pending(vec![0u8; 2 * WRITE_BUFFER_LIMIT_BYTES]);
    let mut sink = Vec::new();
    assert!(matches!(writer.flush_into(&mut sink), Ok(true)), "a reading peer takes the batch");
    assert_eq!(sink.len(), 2 * WRITE_BUFFER_LIMIT_BYTES);
    let mut writer = WriteBuffer::from_pending(vec![0u8; 100]);
    assert!(matches!(writer.flush_into(&mut Deaf), Ok(false)));
    assert_eq!(writer.pending_bytes(), 100);
}

#[test]
fn the_recorded_fingerprint_parses_and_is_not_nothing() {
    let fingerprint = recorded_fingerprint();
    assert_ne!(fingerprint, [0u8; 32]);
    assert_eq!(local_hello(Role::Spectator, WORLD).fingerprint, fingerprint);
}

#[test]
fn a_partial_write_carries_its_remainder_rather_than_dropping_it() {
    let mut writer = WriteBuffer::new();
    let big = Message::TickState {
        header: TickStateHeader { tick: 9, creature_count: TICK_STATE_MAX_CREATURES, reserved0: [0; 4] },
        states: vec![
            CreatureState {
                creature_id: 1,
                position: [f(0.0), f(1.0), f(2.0)],
                yaw: f(0.1),
                pitch: f(0.0),
                velocity: [f(0.0); 3],
                yaw_rate: f(0.0),
                vocalisation: f(0.0),
                segment_count: 1,
                segments: [SegmentPose::default(); TRAILING_SEGMENTS_MAX],
            };
            TICK_STATE_MAX_CREATURES as usize
        ],
    };
    writer.queue(&big).expect("queue");
    let expected = frame(&big);
    let mut sink = Dribbling { accepted: Vec::new() };
    while !writer.flush_into(&mut sink).expect("flushing into a slow sink") {}
    assert_eq!(sink.accepted, expected, "every byte, once each, in order");
}

#[test]
fn a_frame_dribbled_one_byte_at_a_time_still_arrives_whole() {
    let wire = MemoryWire::hearing(frame(&actions(7)), 1);
    let mut connection = Connection::framed(wire, EndRules::server(&local_hello(Role::CreatureHost, WORLD)));
    assert_eq!(connection.poll().expect("polling a healthy connection"), Some(actions(7)), "reassembly across arbitrarily small reads");
    assert!(matches!(connection.poll(), Ok(None)), "nothing more was said");
}

#[test]
fn a_hostile_length_hangs_up_at_the_header() {
    // Length 65535 declared for a HELLO, whose rule is exactly 48: refused from the header
    // alone, no payload ever read.
    let wire = MemoryWire::hearing(vec![0xFF, 0xFF, MessageType::Hello.to_byte()], 1);
    let mut connection = Connection::framed(wire, EndRules::server(&local_hello(Role::Spectator, WORLD)));
    let outcome = connection.poll();
    assert!(
        matches!(outcome, Err(TransportError::Frame(DecodeError::WrongLength { expected: 48, got: 65535 }))),
        "got {outcome:?}"
    );
    // The connection is over, as the header says: the wire is hung up, not merely judged.
    let (mut wire, _) = connection.into_parts();
    assert!(wire.is_hung_up(), "a refused connection must be shut");
    assert!(!matches!(wire.read_some(1), ReadOutcome::Read(bytes) if bytes.len() == 1));
}

#[test]
fn a_hostile_header_is_judged_before_any_payload_byte_is_read() {
    let mut reader = FrameReader::new();
    let mut source = ByteSource::new(vec![0xFF, 0xFF, MessageType::Hello.to_byte(), 1, 2, 3], 4096);
    let outcome = reader.pump(&mut source);
    assert!(
        matches!(outcome, Err(TransportError::Frame(DecodeError::WrongLength { expected: 48, got: 65535 }))),
        "got {outcome:?}"
    );
    // Not a byte past the header was asked for.
    assert!(matches!(source.read_some(16), ReadOutcome::Read(rest) if rest == vec![1, 2, 3]));
}

#[test]
fn a_flush_hands_the_sink_exactly_what_was_queued_in_order() {
    let mut buffer = WriteBuffer::new();
    buffer.queue(&actions(1)).expect("queue");
    buffer.queue(&Message::Bye).expect("queue");
    let mut sink: Vec<u8> = vec![7];
    assert!(matches!(buffer.flush_into(&mut sink), Ok(true)));
    let mut expected = vec![7];
    expected.extend(frame(&actions(1)));
    expected.extend(frame(&Message::Bye));
    assert_eq!(sink, expected);
    assert_eq!(buffer.pending_bytes(), 0);
    assert!(matches!(buffer.flush_into(&mut sink), Ok(true)), "nothing staged is done at once");
    assert_eq!(sink, expected);
}

#[test]
fn a_connection_flushes_down_its_wire_and_hangs_up_only_on_refusal() {
    let mut connection = Connection::framed(MemoryWire::hearing(frame(&Message::Bye), 4096), EndRules::client(&local_hello(Role::CreatureHost, WORLD)));
    connection.queue(&actions(4)).expect("queue");
    assert!(matches!(connection.flush(), Ok(true)));
    assert_eq!(connection.poll().expect("a BYE"), Some(Message::Bye));
    let (wire, staged) = connection.into_parts();
    assert_eq!(*wire.written(), frame(&actions(4)));
    assert!(!wire.is_hung_up());
    assert_eq!(staged.pending_bytes(), 0);
}

#[test]
fn a_timeout_however_worded_is_the_handshake_timing_out() {
    assert!(matches!(normalise_timeout(HandshakeFailure::WouldBlock), TransportError::HandshakeTimedOut));
    assert!(matches!(normalise_timeout(HandshakeFailure::TimedOut), TransportError::HandshakeTimedOut));
    assert!(matches!(
        normalise_timeout(HandshakeFailure::Other(std::io::ErrorKind::ConnectionReset)),
        TransportError::Io(std::io::ErrorKind::ConnectionReset)
    ));
}

#[test]
fn the_reader_never_reads_past_the_frame_it_is_assembling() {
    let mut bytes = frame(&Message::Bye);
    bytes.extend(frame(&actions(3)));
    let mut reader = FrameReader::new();
    let mut source = ByteSource::new(bytes, 4096);
    let first = reader.pump(&mut source).expect("a BYE");
    assert_eq!(first, Some((MessageType::Bye.to_byte(), Vec::new())));
    let second = reader.pump(&mut source).expect("ACTIONS");
    let (type_byte, payload) = second.expect("a whole frame");
    assert_eq!(type_byte, MessageType::Actions.to_byte());
    assert_eq!(payload.len(), 96);
    assert!(matches!(reader.pump(&mut source), Err(TransportError::PeerClosed)), "the end of the bytes is the peer closing");
}

#[test]
fn an_unknown_type_is_refused_at_the_header() {
    let mut reader = FrameReader::new();
    let mut source = ByteSource::new(vec![0, 0, 13], 1);
    assert!(matches!(reader.pump(&mut source), Err(TransportError::Frame(DecodeError::UnknownOrReservedType(13)))));
}

#[test]
fn a_short_header_waits_for_more() {
    let mut connection = Connection::framed(MemoryWire::hearing(vec![0, 0], 4096), EndRules::client(&local_hello(Role::Spectator, WORLD)));
    assert!(matches!(connection.poll(), Ok(None)));
}

#[test]
fn actions_from_a_spectator_end_the_connection_at_the_server() {
    let mut server_side = server_hearing(Role::Spectator, &[actions(9)]);
    let outcome = server_side.poll();
    assert!(matches!(outcome, Err(TransportError::ActionsFromSpectator)), "a spectator's ACTIONS must end the connection, got {outcome:?}");
    let mut host_side = server_hearing(Role::CreatureHost, &[actions(9)]);
    assert_eq!(host_side.poll().expect("a host may act"), Some(actions(9)));
}

#[test]
fn rez_from_a_spectator_ends_the_connection_at_the_server_too() {
    let mut server_side = server_hearing(Role::Spectator, &[bodiless_rez()]);
    let outcome = server_side.poll();
    assert!(
        matches!(outcome, Err(TransportError::ActionsFromSpectator)),
        "a spectator's REZ must end the connection like its ACTIONS would, got {outcome:?}"
    );
}

#[test]
fn a_refusal_flows_one_way_only() {
    let mut server_side = server_hearing(Role::CreatureHost, &[refusal()]);
    let outcome = server_side.poll();
    assert!(matches!(outcome, Err(TransportError::WrongWay("REFUSED"))), "a refusal arriving at the server ends the connection, got {outcome:?}");
    let mut client_side = client_hearing(Role::CreatureHost, &[refusal()]);
    assert_eq!(client_side.poll().expect("the world may refuse"), Some(refusal()));
}

#[test]
fn proprioception_flows_one_way_only() {
    let client = EndRules::client(&local_hello(Role::CreatureHost, WORLD));
    assert!(!client.may_send_proprioception(), "a client-held connection never sends the letter");
    let server = EndRules::server(&local_hello(Role::CreatureHost, WORLD));
    assert!(server.may_send_proprioception(), "the server-held end is the one that may");
    let mut server_side = server_hearing(Role::CreatureHost, &[letter()]);
    let outcome = server_side.poll();
    assert!(
        matches!(outcome, Err(TransportError::WrongWay("PROPRIOCEPTION"))),
        "a letter arriving at the server ends the connection, got {outcome:?}"
    );
}

#[test]
fn every_message_flows_its_own_way_only() {
    for (name, nonsense) in [("WELCOME", welcome()), ("TICK_STATE", tick_state()), ("EVENT", event())] {
        let mut server_side = server_hearing(Role::CreatureHost, &[nonsense]);
        let outcome = server_side.poll();
        assert!(
            matches!(outcome, Err(TransportError::WrongWay(said)) if said == name),
            "{name} arriving at the server ends the connection, got {outcome:?}"
        );
    }
    for (name, nonsense) in [("ACTIONS", actions(2)), ("HELLO", Message::Hello(local_hello(Role::Spectator, WORLD)))] {
        let mut client_side = client_hearing(Role::CreatureHost, &[welcome(), nonsense]);
        assert_eq!(client_side.poll().expect("the WELCOME"), Some(welcome()));
        let outcome = client_side.poll();
        assert!(
            matches!(outcome, Err(TransportError::WrongWay(said)) if said == name),
            "{name} arriving at the client ends the connection, got {outcome:?}"
        );
    }
}

#[test]
fn a_refused_arrival_hangs_up_the_wire() {
    let mut server_side = server_hearing(Role::Spectator, &[actions(1), Message::Bye]);
    assert!(server_side.poll().is_err());
    assert!(matches!(server_side.poll(), Err(TransportError::PeerClosed)), "nothing is heard after the hang-up");
    let (wire, _) = server_side.into_parts();
    assert!(wire.is_hung_up());
}

#[test]
fn the_handshake_succeeds_and_frames_flow_in_order() {
    let mut connection = server_hearing(Role::CreatureHost, &[actions(101), actions(102)]);
    connection.queue(&welcome()).expect("queue WELCOME");
    assert!(connection.flush().expect("flush WELCOME"));
    assert_eq!(connection.poll().expect("first"), Some(actions(101)), "first queued, first delivered");
    assert_eq!(connection.poll().expect("second"), Some(actions(102)), "order is the transport's promise");
    let (wire, staged) = connection.into_parts();
    assert_eq!(*wire.written(), frame(&welcome()));
    assert_eq!(staged.pending_bytes(), 0);
}

#[test]
fn a_connection_refuses_to_stage_what_the_codec_refuses() {
    let mut connection = client_hearing(Role::CreatureHost, &[]);
    let bad = Message::Hello(Hello { protocol_version: PROTOCOL_VERSION, fingerprint: [0; 32], role: 9, reserved0: [0; 3], world_fingerprint: 1 });
    assert_eq!(connection.queue(&bad), Err(EncodeError::InvalidRole(9)));
    assert!(connection.flush().expect("nothing staged"));
    let (wire, _) = connection.into_parts();
    assert!(wire.written().is_empty(), "a refused message leaves nothing behind");
}

#[test]
fn the_ends_know_their_own_permissions() {
    let spectator = EndRules::client(&local_hello(Role::Spectator, WORLD));
    assert!(!spectator.may_send_intents());
    let host = EndRules::client(&local_hello(Role::CreatureHost, WORLD));
    assert!(host.may_send_intents());
    let server = EndRules::server(&local_hello(Role::Spectator, WORLD));
    assert!(server.forbid_incoming_actions && server.server_held && server.may_send_intents());
}

#[test]
fn bad_magic_is_refused() {
    assert_eq!(judge_magic(*b"HTTP"), Err(Refusal::BadMagic));
    assert_eq!(judge_magic(MAGIC), Ok(()));
}

#[test]
fn the_first_frame_must_be_a_hello_of_hellos_size() {
    assert_eq!(judge_hello_header([48, 0, MessageType::Hello.to_byte()]), Ok(48));
    assert_eq!(judge_hello_header([47, 0, MessageType::Hello.to_byte()]), Err(Refusal::FirstFrameNotHello));
    assert_eq!(judge_hello_header([48, 0, MessageType::Welcome.to_byte()]), Err(Refusal::FirstFrameNotHello));
    assert_eq!(judge_answer_header([24, 0, MessageType::Welcome.to_byte()]), Some(24));
    assert_eq!(judge_answer_header([b'l', b'i', b'n']), None);
}

fn hello_payload(hello: &Hello) -> Vec<u8> {
    frame(&Message::Hello(*hello))[3..].to_vec()
}

#[test]
fn a_wrong_fingerprint_is_refused_naming_both_versions() {
    let mut wrong = local_hello(Role::Spectator, WORLD);
    wrong.fingerprint[0] ^= 0xFF;
    assert!(matches!(accept_hello(&hello_payload(&wrong), WORLD), Verdict::Refuse(Refusal::ModifiedContract)));
}

#[test]
fn a_wrong_fingerprint_from_another_version_names_both_versions() {
    let mut wrong = local_hello(Role::Spectator, WORLD);
    wrong.fingerprint[0] ^= 0xFF;
    wrong.protocol_version = PROTOCOL_VERSION + 1;
    assert!(matches!(accept_hello(&hello_payload(&wrong), WORLD), Verdict::Refuse(Refusal::OtherVersion(version)) if version == PROTOCOL_VERSION + 1));
}

#[test]
fn a_different_world_is_refused_at_the_door_naming_both_fingerprints() {
    let stranger = local_hello(Role::CreatureHost, WORLD + 1);
    assert!(matches!(
        accept_hello(&hello_payload(&stranger), WORLD),
        Verdict::Refuse(Refusal::OtherWorld { theirs, ours }) if theirs == WORLD + 1 && ours == WORLD
    ));
}

#[test]
fn an_invalid_role_is_refused_in_words_and_a_bent_hello_is_malformed() {
    let mut payload = hello_payload(&local_hello(Role::Spectator, WORLD));
    payload[36] = 7;
    assert!(matches!(accept_hello(&payload, WORLD), Verdict::Refuse(Refusal::InvalidRole(7))));
    let mut bent = hello_payload(&local_hello(Role::Spectator, WORLD));
    bent[37] = 1;
    assert!(matches!(accept_hello(&bent, WORLD), Verdict::Malformed(DecodeError::ReservedNotZero)));
    assert!(matches!(accept_hello(&bent[..40], WORLD), Verdict::Malformed(DecodeError::WrongLength { expected: 48, got: 40 })));
}

#[test]
fn the_own_hello_is_accepted_at_home() {
    let hello = local_hello(Role::CreatureHost, WORLD);
    assert!(matches!(accept_hello(&hello_payload(&hello), WORLD), Verdict::Accepted(accepted) if accepted == hello));
    assert_eq!(hello.protocol_version, PROTOCOL_VERSION);
    assert_eq!(hello.role, 2);
    assert_eq!(hello.world_fingerprint, WORLD);
}

#[test]
fn a_server_from_a_different_world_is_refused_by_the_client() {
    let hello = local_hello(Role::CreatureHost, WORLD + 1);
    let payload = frame(&welcome())[3..].to_vec();
    assert!(matches!(
        accept_welcome(&payload, &hello),
        Verdict::Refuse(Refusal::OtherWorld { theirs, ours }) if theirs == WORLD && ours == WORLD + 1
    ));
    let at_home = local_hello(Role::CreatureHost, WORLD);
    assert!(matches!(accept_welcome(&payload, &at_home), Verdict::Accepted(w) if Message::Welcome(w) == welcome()));
    assert!(matches!(accept_welcome(&payload[..20], &at_home), Verdict::Malformed(_)));
}

#[test]
fn a_zero_timeout_is_refused() {
    assert!(matches!(judge_timeout(0), Err(TransportError::Garbled(_))));
    assert!(judge_timeout(1).is_ok());
}

#[test]
fn the_contract_is_judged_before_the_world() {
    let mut other = recorded_fingerprint();
    other[31] = other[31].wrapping_add(1);
    assert!(!same_fingerprint(&other, &recorded_fingerprint()));
    assert_eq!(judge_contract(PROTOCOL_VERSION, &other, 1, 2), Err(Refusal::ModifiedContract));
    assert_eq!(judge_contract(PROTOCOL_VERSION, &recorded_fingerprint(), 1, 2), Err(Refusal::OtherWorld { theirs: 1, ours: 2 }));
    assert_eq!(judge_contract(PROTOCOL_VERSION, &recorded_fingerprint(), 2, 2), Ok(()));
}

#[test]
fn every_type_has_its_name() {
    assert_eq!(name_of(MessageType::TickState), "TICK_STATE");
    assert_eq!(name_of(MessageType::Proprioception), "PROPRIOCEPTION");
    assert_eq!(name_of(MessageType::Hello), "HELLO");
}

#[test]
fn a_byte_source_hands_out_at_most_its_chunk() {
    let mut source = ByteSource::new(vec![1, 2, 3, 4, 5], 2);
    assert!(matches!(source.read_some(10), ReadOutcome::Read(bytes) if bytes == vec![1, 2]));
    assert!(matches!(source.read_some(1), ReadOutcome::Read(bytes) if bytes == vec![3]));
    assert!(matches!(source.read_some(10), ReadOutcome::Read(bytes) if bytes == vec![4, 5]));
    assert!(matches!(source.read_some(10), ReadOutcome::Read(bytes) if bytes.is_empty()));
}

#[test]
fn a_refused_header_stays_refused_without_another_read() {
    let mut reader = FrameReader::new();
    let mut source = ByteSource::new(vec![0, 1, 13, 9, 9], 4096);
    assert!(matches!(reader.pump(&mut source), Err(TransportError::Frame(DecodeError::UnknownOrReservedType(13)))));
    assert!(matches!(reader.pump(&mut source), Err(TransportError::Frame(DecodeError::UnknownOrReservedType(13)))));
    assert!(matches!(source.read_some(16), ReadOutcome::Read(rest) if rest == vec![9, 9]), "nothing past the header was read");
}

#[test]
fn every_answer_of_a_sink_has_its_step() {
    assert!(matches!(answer_to_write(&WriteOutcome::Wrote(0), 10), Some(Err(TransportError::PeerClosed))));
    assert!(answer_to_write(&WriteOutcome::Wrote(4), 10).is_none());
    assert!(matches!(answer_to_write(&WriteOutcome::WouldBlock, 100), Some(Ok(false))));
    assert!(matches!(answer_to_write(&WriteOutcome::WouldBlock, WRITE_BUFFER_LIMIT_BYTES), Some(Ok(false))));
    assert!(matches!(
        answer_to_write(&WriteOutcome::WouldBlock, WRITE_BUFFER_LIMIT_BYTES + 1),
        Some(Err(TransportError::WriteBufferOverflow))
    ));
    assert!(matches!(
        answer_to_write(&WriteOutcome::Failed(std::io::ErrorKind::BrokenPipe), 1),
        Some(Err(TransportError::Io(std::io::ErrorKind::BrokenPipe)))
    ));
}

#[test]
fn every_answer_of_a_source_has_its_step() {
    let mut reader = FrameReader::new();
    assert!(matches!(reader.answer_to_read(ReadOutcome::WouldBlock), Some(Ok(None))));
    assert!(matches!(reader.answer_to_read(ReadOutcome::Read(Vec::new())), Some(Err(TransportError::PeerClosed))));
    assert!(matches!(
        reader.answer_to_read(ReadOutcome::Failed(std::io::ErrorKind::ConnectionReset)),
        Some(Err(TransportError::Io(std::io::ErrorKind::ConnectionReset)))
    ));
    assert!(reader.answer_to_read(ReadOutcome::Read(vec![0, 0])).is_none());
    assert_eq!(reader.lacking(), 1, "two of the header's three bytes are held");
    assert!(reader.answer_to_read(ReadOutcome::Read(vec![MessageType::Bye.to_byte()])).is_none());
    assert_eq!(reader.settle(), Some(Ok((MessageType::Bye.to_byte(), Vec::new()))));
}

#[test]
fn a_refused_dial_is_retried_while_the_budget_lasts() {
    let refused = || Some(DialFailure::Turned(std::io::ErrorKind::ConnectionRefused));
    assert!(matches!(next_dial(refused(), DIAL_RETRY_PAUSE_NANOS + 1), DialStep::Retry));
    assert!(matches!(
        next_dial(refused(), DIAL_RETRY_PAUSE_NANOS),
        DialStep::GiveUp(TransportError::Io(std::io::ErrorKind::ConnectionRefused))
    ));
    assert!(matches!(next_dial(Some(DialFailure::WouldBlock), 1_000_000_000), DialStep::Retry));
    assert!(matches!(next_dial(Some(DialFailure::WouldBlock), 0), DialStep::GiveUp(TransportError::HandshakeTimedOut)));
    assert!(matches!(next_dial(Some(DialFailure::TimedOut), 1_000_000_000), DialStep::GiveUp(TransportError::HandshakeTimedOut)));
    assert!(matches!(
        next_dial(Some(DialFailure::Other(std::io::ErrorKind::AddrNotAvailable)), 1_000_000_000),
        DialStep::GiveUp(TransportError::Io(std::io::ErrorKind::AddrNotAvailable))
    ));
    assert!(matches!(next_dial(None, 1_000_000_000), DialStep::NothingDialled));
}
