use link::codec::DecodeError;
use link::transport::{Refusal, TransportError};
use link::wording::{RefusalSite, detail_of, refusal_line, refusal_words};

#[test]
fn the_door_says_each_refusal_in_one_line() {
    assert_eq!(
        refusal_words(Refusal::BadMagic, RefusalSite::Door),
        "link: bad magic - this port speaks the Link protocol\n"
    );
    assert_eq!(refusal_words(Refusal::FirstFrameNotHello, RefusalSite::Door), "link: the first frame must be HELLO\n");
    assert_eq!(
        refusal_words(Refusal::InvalidRole(0), RefusalSite::Door),
        "link: role 0 is neither spectator nor creature host\n"
    );
    assert_eq!(
        refusal_words(Refusal::InvalidRole(255), RefusalSite::Door),
        "link: role 255 is neither spectator nor creature host\n"
    );
    assert_eq!(
        refusal_words(Refusal::ModifiedContract, RefusalSite::Door),
        "link: protocol fingerprint mismatch at the same version 6: one of us carries a modified lnk_protocol.h - rebuild both ends from the same header\n"
    );
    assert_eq!(
        refusal_words(Refusal::OtherVersion(4294967295), RefusalSite::Door),
        "link: protocol fingerprint mismatch: you speak protocol version 4294967295, this end speaks version 6 - rebuild against this end's lnk_protocol.h\n"
    );
    assert_eq!(
        refusal_words(Refusal::OtherWorld { theirs: 0x5EED_0F7E_601D, ours: 0xFEDC_BA98_7654_3210 }, RefusalSite::Door),
        "link: you live in a different world - world fingerprint 00005EED0F7E601D yours, FEDCBA9876543210 this world's - rebuild both ends from one world definition\n"
    );
}

#[test]
fn a_client_names_the_worlds_from_its_own_side() {
    assert_eq!(
        refusal_words(Refusal::OtherWorld { theirs: 1, ours: 0xABCDEF }, RefusalSite::Client),
        "link: this end and the server live in different worlds - world fingerprint 0000000000ABCDEF here, 0000000000000001 there - rebuild both ends from one world definition"
    );
    assert_eq!(
        refusal_words(Refusal::BadMagic, RefusalSite::Client),
        "link: bad magic - this port speaks the Link protocol"
    );
}

#[test]
fn a_replay_speaks_of_the_recording() {
    assert_eq!(
        refusal_words(Refusal::ModifiedContract, RefusalSite::Recording),
        "link: this recording was made with a modified lnk_protocol.h at the same version - one of us carries a modified header"
    );
    assert_eq!(
        refusal_words(Refusal::OtherVersion(5), RefusalSite::Recording),
        "link: this recording speaks protocol version 5 and this build speaks version 6"
    );
    assert_eq!(
        refusal_words(Refusal::OtherWorld { theirs: 0x10, ours: u64::MAX }, RefusalSite::Recording),
        "link: this recording was made in a different world - world fingerprint 0000000000000010 there, FFFFFFFFFFFFFFFF here - replay it with the world it was made in"
    );
    assert_eq!(
        refusal_words(Refusal::InvalidRole(7), RefusalSite::Recording),
        "link: role 7 is neither spectator nor creature host"
    );
}

#[test]
fn a_detail_line_names_what_went_wrong() {
    assert_eq!(detail_of(&TransportError::PeerClosed), "link: the peer closed the connection");
    assert_eq!(detail_of(&TransportError::HandshakeTimedOut), "link: the handshake timed out");
    assert_eq!(
        detail_of(&TransportError::WrongWay("WELCOME")),
        "link: WELCOME arrived at the end that only sends it - the connection is over"
    );
    assert_eq!(
        detail_of(&TransportError::Refused { reason: "link: the first frame must be HELLO".to_string() }),
        "link: the first frame must be HELLO"
    );
    assert_eq!(
        detail_of(&TransportError::Garbled("a WELCOME of WELCOME's size")),
        "link: garbled handshake: a WELCOME of WELCOME's size"
    );
    assert_eq!(
        detail_of(&TransportError::Io(std::io::ErrorKind::ConnectionReset)),
        "link: io error: ConnectionReset"
    );
    assert_eq!(
        detail_of(&TransportError::Frame(DecodeError::WrongLength { expected: 48, got: 65535 })),
        "link: the wire contract refused a frame: WrongLength { expected: 48, got: 65535 }"
    );
    assert_eq!(
        detail_of(&TransportError::ActionsFromSpectator),
        "link: a spectator sent ACTIONS - the connection is over"
    );
    assert_eq!(
        detail_of(&TransportError::WriteBufferOverflow),
        "link: the write buffer overflowed - the peer is not reading"
    );
}

#[test]
fn every_refusal_of_the_codec_is_detailed_as_debug_names_it() {
    let refusals = [
        DecodeError::UnknownOrReservedType(13),
        DecodeError::WrongLength { expected: 48, got: 0 },
        DecodeError::RaggedTickState { got: 17 },
        DecodeError::CountOverCap { count: 4294967295 },
        DecodeError::CountLengthMismatch { count: 2, rows_by_length: 1 },
        DecodeError::RaggedProprioception { got: 9 },
        DecodeError::ContactsOverCap { count: 65 },
        DecodeError::ContactsLengthMismatch { count: 3, rows_by_length: 10 },
        DecodeError::InvalidGrounded(2),
        DecodeError::ProprioceptionNotFinite,
        DecodeError::InvalidRole(0),
        DecodeError::InvalidEventKind(200),
        DecodeError::InvalidRefusalReason(9),
        DecodeError::ReservedNotZero,
        DecodeError::RezCountOverCap { vertices: 1, triangles: 22, materials: 333 },
        DecodeError::RezLengthMismatch { expected: 100, got: 99 },
        DecodeError::RezIndexOutOfRange { triangle: 5 },
        DecodeError::RezNotFinite,
        DecodeError::RezSegmentCountOutOfRange { count: 0 },
        DecodeError::RezSpacingInvalid,
        DecodeError::RezServoInvalid,
        DecodeError::SegmentCountOutOfRange { creature_id: 7, count: 9 },
        DecodeError::TickStateNotFinite { creature_id: 8 },
        DecodeError::SegmentSlotNotZero { creature_id: 10 },
    ];
    for refusal in refusals {
        assert_eq!(
            detail_of(&TransportError::Frame(refusal)),
            format!("link: the wire contract refused a frame: {refusal:?}")
        );
    }
}

#[test]
fn a_refusal_line_is_read_as_text_without_its_end() {
    let line = b"ink: bad magic - this port speaks the Link protocol\n";
    assert_eq!(refusal_line([b'l', line[0], line[1]], &line[2..]), "link: bad magic - this port speaks the Link protocol");
    assert_eq!(refusal_line([b'n', b'o', b' '], b" \t\r\n"), "no");
    assert_eq!(refusal_line([0xFF, b'o', b'k'], b""), "\u{FFFD}ok");
    assert_eq!(refusal_line([b' ', b' ', b' '], b""), "");
}
