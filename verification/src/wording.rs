//! The words a refusal is said in: the line a server writes to a client it turns away, what a
//! client says when the server lives in another world, what a replay says of a recording it will
//! not read, and the detail line a C caller receives beside a status. A refusal that cannot be
//! read gets worked around instead of fixed, so the words name both sides of every mismatch.

use vstd::prelude::*;
use vstd::string::{StrSliceExecFns, StringExecFns};
use crate::codec::DecodeError;
use crate::protocol::PROTOCOL_VERSION;
use crate::transport::{Refusal, TransportError};

verus! {

/// Where a refusal is said.
#[derive(Clone, Copy, PartialEq, Eq, Debug)]
pub enum RefusalSite {
    /// By a server, to the client it turns away, as one newline-terminated line.
    Door,
    /// By a client, of the server it dialled.
    Client,
    /// By a replay, of the recording it will not read.
    Recording,
}

/// The character of digit `d`, in base ten or sixteen: `0` to `9`, then `A` to `F`.
pub open spec fn digit_char(d: int) -> char {
    if d < 10 {
        (48 + d) as char
    } else {
        (55 + d) as char
    }
}

/// The decimal numeral of `n`, without leading zeros.
pub open spec fn decimal_text(n: nat) -> Seq<char>
    decreases n,
{
    if n < 10 {
        seq![digit_char(n as int)]
    } else {
        decimal_text(n / 10).push(digit_char((n % 10) as int))
    }
}

/// The last `width` hexadecimal digits of `n`, upper case, zero-padded.
pub open spec fn hex_text(n: nat, width: nat) -> Seq<char>
    decreases width,
{
    if width == 0 {
        Seq::empty()
    } else {
        hex_text(n / 16, (width - 1) as nat).push(digit_char((n % 16) as int))
    }
}

/// A world fingerprint as the words print it: sixteen upper-case hexadecimal digits.
pub open spec fn fingerprint_text(fingerprint: u64) -> Seq<char> {
    hex_text(fingerprint as nat, 16)
}

/// What a server says to a client it turns away, before the line's end.
pub open spec fn door_line(refusal: Refusal) -> Seq<char> {
    match refusal {
        Refusal::BadMagic => "link: bad magic - this port speaks the Link protocol"@,
        Refusal::FirstFrameNotHello => "link: the first frame must be HELLO"@,
        Refusal::InvalidRole(role) => "link: role "@ + decimal_text(role as nat)
            + " is neither spectator nor creature host"@,
        Refusal::ModifiedContract => "link: protocol fingerprint mismatch at the same version "@
            + decimal_text(PROTOCOL_VERSION as nat)
            + ": one of us carries a modified lnk_protocol.h - rebuild both ends from the same header"@,
        Refusal::OtherVersion(theirs) => "link: protocol fingerprint mismatch: you speak protocol version "@
            + decimal_text(theirs as nat) + ", this end speaks version "@ + decimal_text(
            PROTOCOL_VERSION as nat,
        ) + " - rebuild against this end's lnk_protocol.h"@,
        Refusal::OtherWorld { theirs, ours } => "link: you live in a different world - world fingerprint "@
            + fingerprint_text(theirs) + " yours, "@ + fingerprint_text(ours)
            + " this world's - rebuild both ends from one world definition"@,
    }
}

/// The words `refusal` is said in at `site`. At the door they are a newline-terminated line; a
/// client names the worlds from its own side; a replay speaks of the recording. Where a site has
/// no words of its own for a refusal, it says the door's line without its end.
pub open spec fn refusal_text(refusal: Refusal, site: RefusalSite) -> Seq<char> {
    match site {
        RefusalSite::Door => door_line(refusal) + "\n"@,
        RefusalSite::Client => match refusal {
            Refusal::OtherWorld { theirs, ours } =>
                "link: this end and the server live in different worlds - world fingerprint "@
                + fingerprint_text(ours) + " here, "@ + fingerprint_text(theirs)
                + " there - rebuild both ends from one world definition"@,
            _ => door_line(refusal),
        },
        RefusalSite::Recording => match refusal {
            Refusal::ModifiedContract =>
                "link: this recording was made with a modified lnk_protocol.h at the same version - one of us carries a modified header"@,
            Refusal::OtherVersion(theirs) => "link: this recording speaks protocol version "@
                + decimal_text(theirs as nat) + " and this build speaks version "@ + decimal_text(
                PROTOCOL_VERSION as nat,
            ),
            Refusal::OtherWorld { theirs, ours } =>
                "link: this recording was made in a different world - world fingerprint "@
                + fingerprint_text(theirs) + " there, "@ + fingerprint_text(ours)
                + " here - replay it with the world it was made in"@,
            _ => door_line(refusal),
        },
    }
}

/// The text of digit `d`.
fn digit_str(d: u64) -> (text: &'static str)
    requires
        d < 16,
    ensures
        text@ == seq![digit_char(d as int)],
{
    let text = match d {
        0 => "0",
        1 => "1",
        2 => "2",
        3 => "3",
        4 => "4",
        5 => "5",
        6 => "6",
        7 => "7",
        8 => "8",
        9 => "9",
        10 => "A",
        11 => "B",
        12 => "C",
        13 => "D",
        14 => "E",
        _ => "F",
    };
    proof {
        reveal_strlit("0");
        reveal_strlit("1");
        reveal_strlit("2");
        reveal_strlit("3");
        reveal_strlit("4");
        reveal_strlit("5");
        reveal_strlit("6");
        reveal_strlit("7");
        reveal_strlit("8");
        reveal_strlit("9");
        reveal_strlit("A");
        reveal_strlit("B");
        reveal_strlit("C");
        reveal_strlit("D");
        reveal_strlit("E");
        reveal_strlit("F");
    }
    text
}

/// Appends the decimal numeral of `n`.
fn push_decimal(words: &mut String, n: u64)
    ensures
        final(words)@ == old(words)@ + decimal_text(n as nat),
    decreases n,
{
    if n >= 10 {
        push_decimal(words, n / 10);
    }
    words.append(digit_str(n % 10));
}

/// Appends the last `width` hexadecimal digits of `n`.
fn push_hex(words: &mut String, n: u64, width: u32)
    ensures
        final(words)@ == old(words)@ + hex_text(n as nat, width as nat),
    decreases width,
{
    if width > 0 {
        push_hex(words, n / 16, width - 1);
        words.append(digit_str(n % 16));
    }
}

/// Appends what a server says to a client it turns away, before the line's end.
fn push_door_line(words: &mut String, refusal: Refusal)
    ensures
        final(words)@ == old(words)@ + door_line(refusal),
{
    match refusal {
        Refusal::BadMagic => words.append("link: bad magic - this port speaks the Link protocol"),
        Refusal::FirstFrameNotHello => words.append("link: the first frame must be HELLO"),
        Refusal::InvalidRole(role) => {
            words.append("link: role ");
            push_decimal(words, role as u64);
            words.append(" is neither spectator nor creature host");
        },
        Refusal::ModifiedContract => {
            words.append("link: protocol fingerprint mismatch at the same version ");
            push_decimal(words, PROTOCOL_VERSION as u64);
            words.append(
                ": one of us carries a modified lnk_protocol.h - rebuild both ends from the same header",
            );
        },
        Refusal::OtherVersion(theirs) => {
            words.append("link: protocol fingerprint mismatch: you speak protocol version ");
            push_decimal(words, theirs as u64);
            words.append(", this end speaks version ");
            push_decimal(words, PROTOCOL_VERSION as u64);
            words.append(" - rebuild against this end's lnk_protocol.h");
        },
        Refusal::OtherWorld { theirs, ours } => {
            words.append("link: you live in a different world - world fingerprint ");
            push_hex(words, theirs, 16);
            words.append(" yours, ");
            push_hex(words, ours, 16);
            words.append(" this world's - rebuild both ends from one world definition");
        },
    }
}

/// The words `refusal` is said in at `site`.
pub fn refusal_words(refusal: Refusal, site: RefusalSite) -> (words: String)
    ensures
        words@ == refusal_text(refusal, site),
{
    let mut words = String::new();
    match site {
        RefusalSite::Door => {
            push_door_line(&mut words, refusal);
            words.append("\n");
        },
        RefusalSite::Client => match refusal {
            Refusal::OtherWorld { theirs, ours } => {
                words.append("link: this end and the server live in different worlds - world fingerprint ");
                push_hex(&mut words, ours, 16);
                words.append(" here, ");
                push_hex(&mut words, theirs, 16);
                words.append(" there - rebuild both ends from one world definition");
            },
            _ => push_door_line(&mut words, refusal),
        },
        RefusalSite::Recording => match refusal {
            Refusal::ModifiedContract => words.append(
                "link: this recording was made with a modified lnk_protocol.h at the same version - one of us carries a modified header",
            ),
            Refusal::OtherVersion(theirs) => {
                words.append("link: this recording speaks protocol version ");
                push_decimal(&mut words, theirs as u64);
                words.append(" and this build speaks version ");
                push_decimal(&mut words, PROTOCOL_VERSION as u64);
            },
            Refusal::OtherWorld { theirs, ours } => {
                words.append("link: this recording was made in a different world - world fingerprint ");
                push_hex(&mut words, theirs, 16);
                words.append(" there, ");
                push_hex(&mut words, ours, 16);
                words.append(" here - replay it with the world it was made in");
            },
            _ => push_door_line(&mut words, refusal),
        },
    }
    words
}

/// The name the system's `Debug` gives an I/O error kind, such as `ConnectionReset`.
pub uninterp spec fn error_kind_name(kind: std::io::ErrorKind) -> Seq<char>;

/// The name `std::io::ErrorKind`'s `Debug` gives `kind`. Claimed: the text is that name, which
/// depends on the kind alone.
#[verifier::external_body]
fn kind_name(kind: std::io::ErrorKind) -> (name: String)
    ensures
        name@ == error_kind_name(kind),
{
    format!("{kind:?}")
}

/// `name: value`, as a field is printed.
pub open spec fn field_text(name: Seq<char>, value: nat) -> Seq<char> {
    name + ": "@ + decimal_text(value)
}

/// A refusal of the codec as `Debug` prints it: the variant's name, then its fields.
pub open spec fn decode_error_text(e: DecodeError) -> Seq<char> {
    match e {
        DecodeError::UnknownOrReservedType(t) => "UnknownOrReservedType("@ + decimal_text(t as nat) + ")"@,
        DecodeError::WrongLength { expected, got } => "WrongLength { "@ + field_text("expected"@, expected as nat)
            + ", "@ + field_text("got"@, got as nat) + " }"@,
        DecodeError::RaggedTickState { got } => "RaggedTickState { "@ + field_text("got"@, got as nat) + " }"@,
        DecodeError::CountOverCap { count } => "CountOverCap { "@ + field_text("count"@, count as nat) + " }"@,
        DecodeError::CountLengthMismatch { count, rows_by_length } => "CountLengthMismatch { "@
            + field_text("count"@, count as nat) + ", "@ + field_text("rows_by_length"@, rows_by_length as nat)
            + " }"@,
        DecodeError::RaggedProprioception { got } => "RaggedProprioception { "@ + field_text("got"@, got as nat)
            + " }"@,
        DecodeError::ContactsOverCap { count } => "ContactsOverCap { "@ + field_text("count"@, count as nat)
            + " }"@,
        DecodeError::ContactsLengthMismatch { count, rows_by_length } => "ContactsLengthMismatch { "@
            + field_text("count"@, count as nat) + ", "@ + field_text("rows_by_length"@, rows_by_length as nat)
            + " }"@,
        DecodeError::InvalidGrounded(g) => "InvalidGrounded("@ + decimal_text(g as nat) + ")"@,
        DecodeError::ProprioceptionNotFinite => "ProprioceptionNotFinite"@,
        DecodeError::InvalidRole(r) => "InvalidRole("@ + decimal_text(r as nat) + ")"@,
        DecodeError::InvalidEventKind(k) => "InvalidEventKind("@ + decimal_text(k as nat) + ")"@,
        DecodeError::InvalidRefusalReason(r) => "InvalidRefusalReason("@ + decimal_text(r as nat) + ")"@,
        DecodeError::ReservedNotZero => "ReservedNotZero"@,
        DecodeError::RezCountOverCap { vertices, triangles, materials } => "RezCountOverCap { "@
            + field_text("vertices"@, vertices as nat) + ", "@ + field_text("triangles"@, triangles as nat)
            + ", "@ + field_text("materials"@, materials as nat) + " }"@,
        DecodeError::RezLengthMismatch { expected, got } => "RezLengthMismatch { "@
            + field_text("expected"@, expected as nat) + ", "@ + field_text("got"@, got as nat) + " }"@,
        DecodeError::RezIndexOutOfRange { triangle } => "RezIndexOutOfRange { "@
            + field_text("triangle"@, triangle as nat) + " }"@,
        DecodeError::RezNotFinite => "RezNotFinite"@,
        DecodeError::RezSegmentCountOutOfRange { count } => "RezSegmentCountOutOfRange { "@
            + field_text("count"@, count as nat) + " }"@,
        DecodeError::RezSpacingInvalid => "RezSpacingInvalid"@,
        DecodeError::RezServoInvalid => "RezServoInvalid"@,
        DecodeError::SegmentCountOutOfRange { creature_id, count } => "SegmentCountOutOfRange { "@
            + field_text("creature_id"@, creature_id as nat) + ", "@ + field_text("count"@, count as nat) + " }"@,
        DecodeError::TickStateNotFinite { creature_id } => "TickStateNotFinite { "@
            + field_text("creature_id"@, creature_id as nat) + " }"@,
        DecodeError::SegmentSlotNotZero { creature_id } => "SegmentSlotNotZero { "@
            + field_text("creature_id"@, creature_id as nat) + " }"@,
    }
}

/// The detail line a C caller receives beside the status of `error`: the words of a refusal as
/// they were said, else what went wrong, naming what the system or the codec named.
pub open spec fn detail_text(error: TransportError) -> Seq<char> {
    match error {
        TransportError::Refused { reason } => reason@,
        TransportError::Io(kind) => "link: io error: "@ + error_kind_name(kind),
        TransportError::Frame(refusal) => "link: the wire contract refused a frame: "@ + decode_error_text(refusal),
        TransportError::Garbled(expectation) => "link: garbled handshake: "@ + expectation@,
        TransportError::PeerClosed => "link: the peer closed the connection"@,
        TransportError::HandshakeTimedOut => "link: the handshake timed out"@,
        TransportError::ActionsFromSpectator => "link: a spectator sent ACTIONS - the connection is over"@,
        TransportError::WrongWay(name) => "link: "@ + name@ + " arrived at the end that only sends it - the connection is over"@,
        TransportError::WriteBufferOverflow => "link: the write buffer overflowed - the peer is not reading"@,
    }
}

/// Appends `name: value`.
fn push_field(words: &mut String, name: &str, value: u64)
    ensures
        final(words)@ == old(words)@ + field_text(name@, value as nat),
{
    words.append(name);
    words.append(": ");
    push_decimal(words, value);
}

/// Appends a refusal of the codec as `Debug` prints it.
fn push_decode_error(words: &mut String, e: DecodeError)
    ensures
        final(words)@ == old(words)@ + decode_error_text(e),
{
    match e {
        DecodeError::UnknownOrReservedType(t) => {
            words.append("UnknownOrReservedType(");
            push_decimal(words, t as u64);
            words.append(")");
        },
        DecodeError::WrongLength { expected, got } => {
            words.append("WrongLength { ");
            push_field(words, "expected", expected as u64);
            words.append(", ");
            push_field(words, "got", got as u64);
            words.append(" }");
        },
        DecodeError::RaggedTickState { got } => {
            words.append("RaggedTickState { ");
            push_field(words, "got", got as u64);
            words.append(" }");
        },
        DecodeError::CountOverCap { count } => {
            words.append("CountOverCap { ");
            push_field(words, "count", count as u64);
            words.append(" }");
        },
        DecodeError::CountLengthMismatch { count, rows_by_length } => {
            words.append("CountLengthMismatch { ");
            push_field(words, "count", count as u64);
            words.append(", ");
            push_field(words, "rows_by_length", rows_by_length as u64);
            words.append(" }");
        },
        DecodeError::RaggedProprioception { got } => {
            words.append("RaggedProprioception { ");
            push_field(words, "got", got as u64);
            words.append(" }");
        },
        DecodeError::ContactsOverCap { count } => {
            words.append("ContactsOverCap { ");
            push_field(words, "count", count as u64);
            words.append(" }");
        },
        DecodeError::ContactsLengthMismatch { count, rows_by_length } => {
            words.append("ContactsLengthMismatch { ");
            push_field(words, "count", count as u64);
            words.append(", ");
            push_field(words, "rows_by_length", rows_by_length as u64);
            words.append(" }");
        },
        DecodeError::InvalidGrounded(g) => {
            words.append("InvalidGrounded(");
            push_decimal(words, g as u64);
            words.append(")");
        },
        DecodeError::ProprioceptionNotFinite => words.append("ProprioceptionNotFinite"),
        DecodeError::InvalidRole(r) => {
            words.append("InvalidRole(");
            push_decimal(words, r as u64);
            words.append(")");
        },
        DecodeError::InvalidEventKind(k) => {
            words.append("InvalidEventKind(");
            push_decimal(words, k as u64);
            words.append(")");
        },
        DecodeError::InvalidRefusalReason(r) => {
            words.append("InvalidRefusalReason(");
            push_decimal(words, r as u64);
            words.append(")");
        },
        DecodeError::ReservedNotZero => words.append("ReservedNotZero"),
        DecodeError::RezCountOverCap { vertices, triangles, materials } => {
            words.append("RezCountOverCap { ");
            push_field(words, "vertices", vertices as u64);
            words.append(", ");
            push_field(words, "triangles", triangles as u64);
            words.append(", ");
            push_field(words, "materials", materials as u64);
            words.append(" }");
        },
        DecodeError::RezLengthMismatch { expected, got } => {
            words.append("RezLengthMismatch { ");
            push_field(words, "expected", expected as u64);
            words.append(", ");
            push_field(words, "got", got as u64);
            words.append(" }");
        },
        DecodeError::RezIndexOutOfRange { triangle } => {
            words.append("RezIndexOutOfRange { ");
            push_field(words, "triangle", triangle as u64);
            words.append(" }");
        },
        DecodeError::RezNotFinite => words.append("RezNotFinite"),
        DecodeError::RezSegmentCountOutOfRange { count } => {
            words.append("RezSegmentCountOutOfRange { ");
            push_field(words, "count", count as u64);
            words.append(" }");
        },
        DecodeError::RezSpacingInvalid => words.append("RezSpacingInvalid"),
        DecodeError::RezServoInvalid => words.append("RezServoInvalid"),
        DecodeError::SegmentCountOutOfRange { creature_id, count } => {
            words.append("SegmentCountOutOfRange { ");
            push_field(words, "creature_id", creature_id as u64);
            words.append(", ");
            push_field(words, "count", count as u64);
            words.append(" }");
        },
        DecodeError::TickStateNotFinite { creature_id } => {
            words.append("TickStateNotFinite { ");
            push_field(words, "creature_id", creature_id as u64);
            words.append(" }");
        },
        DecodeError::SegmentSlotNotZero { creature_id } => {
            words.append("SegmentSlotNotZero { ");
            push_field(words, "creature_id", creature_id as u64);
            words.append(" }");
        },
    }
}

/// The detail line a C caller receives beside the status of `error`.
pub fn detail_of(error: &TransportError) -> (detail: String)
    ensures
        detail@ == detail_text(*error),
{
    match error {
        TransportError::Refused { reason } => reason.clone(),
        TransportError::Io(kind) => {
            let mut words = String::from_str("link: io error: ");
            let name = kind_name(*kind);
            words.append(name.as_str());
            words
        },
        TransportError::Frame(refusal) => {
            let mut words = String::from_str("link: the wire contract refused a frame: ");
            push_decode_error(&mut words, *refusal);
            words
        },
        TransportError::Garbled(expectation) => {
            let mut words = String::from_str("link: garbled handshake: ");
            words.append(expectation);
            words
        },
        TransportError::PeerClosed => String::from_str("link: the peer closed the connection"),
        TransportError::HandshakeTimedOut => String::from_str("link: the handshake timed out"),
        TransportError::ActionsFromSpectator => String::from_str(
            "link: a spectator sent ACTIONS - the connection is over",
        ),
        TransportError::WrongWay(name) => {
            let mut words = String::from_str("link: ");
            words.append(name);
            words.append(" arrived at the end that only sends it - the connection is over");
            words
        },
        TransportError::WriteBufferOverflow => String::from_str(
            "link: the write buffer overflowed - the peer is not reading",
        ),
    }
}

/// The text of `bytes` read as UTF-8, each ill-formed sequence replaced by U+FFFD, as
/// `String::from_utf8_lossy` reads it.
pub uninterp spec fn lossy_text(bytes: Seq<u8>) -> Seq<char>;

/// `String::from_utf8_lossy`, owned. Claimed: the text is that reading of the bytes, which
/// depends on them alone.
#[verifier::external_body]
fn lossy_utf8(bytes: &[u8]) -> (text: String)
    ensures
        text@ == lossy_text(bytes@),
{
    String::from_utf8_lossy(bytes).into_owned()
}

/// Whether `c` has the Unicode `White_Space` property, as `char::is_whitespace` asks.
pub open spec fn is_white_space(c: char) -> bool {
    let v = c as u32;
    ||| 9 <= v <= 13
    ||| v == 32
    ||| v == 0x85
    ||| v == 0xA0
    ||| v == 0x1680
    ||| 0x2000 <= v <= 0x200A
    ||| v == 0x2028
    ||| v == 0x2029
    ||| v == 0x202F
    ||| v == 0x205F
    ||| v == 0x3000
}

/// `text` without the white space at its end.
pub open spec fn trimmed_end(text: Seq<char>) -> Seq<char>
    decreases text.len(),
{
    if text.len() > 0 && is_white_space(text.last()) {
        trimmed_end(text.drop_last())
    } else {
        text
    }
}

/// The words a server that said no wrote in place of a WELCOME, from the bytes that arrived:
/// read as text, without the line's end.
pub open spec fn refusal_line_text(said: Seq<u8>) -> Seq<char> {
    trimmed_end(lossy_text(said))
}

/// Whether `c` is white space.
fn white_space(c: char) -> (white: bool)
    ensures
        white == is_white_space(c),
{
    let v = c as u32;
    (9 <= v && v <= 13) || v == 32 || v == 0x85 || v == 0xA0 || v == 0x1680 || (0x2000 <= v && v
        <= 0x200A) || v == 0x2028 || v == 0x2029 || v == 0x202F || v == 0x205F || v == 0x3000
}

/// The words a server that said no wrote in place of a WELCOME: the three bytes read where a
/// frame header was expected, then what followed them, read as text without the line's end.
pub fn refusal_line(header: [u8; 3], rest: &[u8]) -> (reason: String)
    ensures
        reason@ == refusal_line_text(seq![header[0], header[1], header[2]] + rest@),
{
    let mut said: Vec<u8> = Vec::new();
    said.push(header[0]);
    said.push(header[1]);
    said.push(header[2]);
    let mut i: usize = 0;
    while i < rest.len()
        invariant
            i <= rest@.len(),
            said@ == seq![header[0], header[1], header[2]] + rest@.take(i as int),
        decreases rest@.len() - i,
    {
        said.push(rest[i]);
        i = i + 1;
        assert(said@ =~= seq![header[0], header[1], header[2]] + rest@.take(i as int));
    }
    assert(rest@.take(rest@.len() as int) =~= rest@);
    let text = lossy_utf8(said.as_slice());
    let mut n: usize = text.as_str().unicode_len();
    assert(text@.subrange(0, n as int) =~= text@);
    while n > 0 && white_space(text.as_str().get_char(n - 1))
        invariant
            n <= text@.len(),
            trimmed_end(text@) == trimmed_end(text@.subrange(0, n as int)),
        decreases n,
    {
        let ghost kept = text@.subrange(0, n as int);
        assert(kept.drop_last() =~= text@.subrange(0, n - 1));
        n = n - 1;
    }
    let kept = text.as_str().substring_char(0, n);
    String::from_str(kept)
}

} // verus!
