use link::codec::Message;
use link::protocol::{CreatureState, PROTOCOL_VERSION, SegmentPose, TRAILING_SEGMENTS_MAX, TickStateHeader, Welcome};
use link::recording::{
    RECORDING_HEADER_BYTES, RECORDING_MAGIC, Recorder, RecordingHeader, Replayer, Unopened, judge_disk_path,
    climbs, judge_recording, judged_path,
};
use link::transport::{ByteSource, Refusal, TransportError, recorded_fingerprint};

fn f(x: f32) -> u32 {
    x.to_bits()
}

/// A recording made in memory: the header, then what `record` queued and flushed, then BYE.
fn disk(world: u64, record: impl FnOnce(&mut Recorder<Vec<u8>>)) -> Vec<u8> {
    let header = RecordingHeader::new(world, 100, f(0.031_25), 1_700_000_000);
    let mut recorder = Recorder::after_header(header.to_bytes());
    record(&mut recorder);
    recorder.close()
}

fn replay(bytes: &[u8], world: u64) -> Result<Replayer<ByteSource>, Unopened> {
    let split = bytes.len().min(RECORDING_HEADER_BYTES);
    Replayer::open(ByteSource::new(bytes[split..].to_vec(), 4096), &bytes[..split], world)
}

#[test]
fn a_recording_replays_what_was_said_in_order_and_ends_with_bye() {
    let bytes = disk(0xABCD, |recorder| {
        recorder
            .queue(&Message::Welcome(Welcome { current_tick: 100, nominal_dt_seconds: f(0.031_25), client_id: 0, world_fingerprint: 0xABCD }))
            .expect("queue");
        recorder
            .queue(&Message::TickState {
                header: TickStateHeader { tick: 101, creature_count: 1, reserved0: [0; 4] },
                states: vec![CreatureState {
                    creature_id: 7,
                    position: [f(1.0), f(2.0), f(3.0)],
                    yaw: f(0.5),
                    pitch: f(0.0),
                    velocity: [f(0.0); 3],
                    yaw_rate: f(0.0),
                    vocalisation: f(0.0),
                    segment_count: 1,
                    segments: [SegmentPose::default(); TRAILING_SEGMENTS_MAX],
                }],
            })
            .expect("queue");
        assert!(recorder.flush().expect("flush"));
        assert!(recorder.bytes_written() > RECORDING_HEADER_BYTES as u64);
    });

    let mut replay = replay(&bytes, 0xABCD).ok().expect("open");
    assert_eq!(replay.header().start_tick, 100);
    assert_eq!(replay.header().protocol_version, PROTOCOL_VERSION);
    assert!(matches!(replay.poll(), Ok(Some(Message::Welcome(_)))));
    match replay.poll() {
        Ok(Some(Message::TickState { header, states })) => {
            assert_eq!(header.tick, 101);
            assert_eq!(states[0].creature_id, 7);
        }
        other => panic!("expected the tick, got {other:?}"),
    }
    assert!(matches!(replay.poll(), Ok(Some(Message::Bye))));
    assert!(matches!(replay.poll(), Err(TransportError::PeerClosed)), "the end of the file is the peer closing");
}

#[test]
fn another_world_and_a_wrong_magic_are_refused_in_words() {
    let bytes = disk(1, |_| {});
    match replay(&bytes, 2) {
        Err(Unopened::Refused(Refusal::OtherWorld { theirs, ours })) => {
            assert_eq!((theirs, ours), (1, 2));
        }
        _ => panic!("expected a refusal naming both worlds"),
    }
    let junk = b"not a recording at all, and long enough to be read as a header........".to_vec();
    assert!(matches!(replay(&junk, 1), Err(Unopened::NotARecording(TransportError::Garbled(_)))));
    assert!(matches!(replay(b"short", 1), Err(Unopened::NotARecording(TransportError::Garbled(_)))));
}

#[test]
fn the_header_is_seventy_two_bytes_opening_with_the_magic() {
    let header = RecordingHeader::new(0x0123_4567_89AB_CDEF, 5, f(0.5), 9);
    let bytes = header.to_bytes();
    assert_eq!(bytes.len(), 72);
    assert_eq!(&bytes[..8], &RECORDING_MAGIC);
    assert_eq!(&bytes[8..12], &PROTOCOL_VERSION.to_le_bytes());
    assert_eq!(&bytes[12..44], &recorded_fingerprint());
    assert_eq!(&bytes[44..52], &0x0123_4567_89AB_CDEFu64.to_le_bytes());
    assert_eq!(&bytes[52..60], &5u64.to_le_bytes());
    assert_eq!(&bytes[60..64], &0.5f32.to_le_bytes());
    assert_eq!(&bytes[64..72], &9u64.to_le_bytes());
    assert_eq!(RecordingHeader::parse(&bytes).ok(), Some(header));
}

#[test]
fn a_header_read_back_is_the_header_written() {
    let header = RecordingHeader {
        protocol_version: 99,
        fingerprint: [7; 32],
        world_fingerprint: u64::MAX,
        start_tick: 1,
        nominal_dt_seconds: f(-0.0),
        start_unix_seconds: 0,
    };
    let mut bytes = header.to_bytes();
    bytes.extend_from_slice(&[1, 2, 3]);
    assert_eq!(RecordingHeader::parse(&bytes).ok(), Some(header));
    assert!(matches!(RecordingHeader::parse(&bytes[..71]), Err(TransportError::Garbled(_))));
}

#[test]
fn another_contract_is_refused_by_version() {
    let mut header = RecordingHeader::new(1, 0, 0, 0);
    header.fingerprint[3] ^= 1;
    assert_eq!(judge_recording(&header, 1), Err(Refusal::ModifiedContract));
    header.protocol_version = 5;
    assert_eq!(judge_recording(&header, 1), Err(Refusal::OtherVersion(5)));
    let mut bytes = header.to_bytes();
    bytes.extend(Vec::<u8>::new());
    assert!(matches!(replay(&bytes, 1), Err(Unopened::Refused(Refusal::OtherVersion(5)))));
}

#[test]
fn bytes_written_counts_the_header_and_every_frame() {
    let header = RecordingHeader::new(3, 0, 0, 0);
    let mut recorder = Recorder::after_header(header.to_bytes());
    assert_eq!(recorder.bytes_written(), 72);
    recorder.queue(&Message::Bye).expect("queue");
    assert!(recorder.flush().expect("flush"));
    assert_eq!(recorder.bytes_written(), 75);
    let file = recorder.close();
    assert_eq!(file.len(), 78, "the farewell follows");
}

#[test]
fn a_disk_path_must_be_a_disk_and_must_not_climb() {
    
    assert!(matches!(judged_path("../somewhere/else.disk"), Err(TransportError::Refused { .. })));
    assert!(matches!(judged_path("scratch/link-not-a-disk.txt"), Err(TransportError::Refused { .. })));
    assert!(judged_path("recordings/world.disk").is_ok());
    match judge_disk_path(Some(String::from("disk")), true) {
        Err(TransportError::Refused { reason }) => assert_eq!(reason, "link: a Disk path never climbs - no .. component"),
        other => panic!("a climbing path must be refused, got {other:?}"),
    }
    match judge_disk_path(None, false) {
        Err(TransportError::Refused { reason }) => assert_eq!(reason, "link: a Disk is named with the .disk extension"),
        other => panic!("a path without the extension must be refused, got {other:?}"),
    }
    assert!(judge_disk_path(Some(String::from("DISK")), false).is_err(), "the extension is lower case");
}

/// A file that takes four bytes and then fails.
struct Failing {
    taken: usize,
}

impl link::transport::Sink for Failing {
    fn write_some(&mut self, bytes: &[u8]) -> link::transport::WriteOutcome {
        if self.taken >= 4 {
            return link::transport::WriteOutcome::Failed(std::io::ErrorKind::StorageFull);
        }
        let take = bytes.len().min(4 - self.taken);
        self.taken += take;
        link::transport::WriteOutcome::Wrote(take)
    }
}

#[test]
fn a_short_write_that_failed_still_wrote() {
    let mut recorder = Recorder::after_header(Failing { taken: 0 });
    recorder.queue(&Message::Bye).expect("queue");
    recorder.queue(&Message::Bye).expect("queue");
    assert!(matches!(recorder.flush(), Err(TransportError::Io(std::io::ErrorKind::StorageFull))));
    assert_eq!(recorder.bytes_written(), 72 + 4, "what left is counted, error or not");
    assert_eq!(recorder.pending_bytes(), 2);
}

#[test]
fn a_replay_read_one_byte_at_a_time_gives_back_each_frame_whole() {
    let ping = Message::Ping(link::protocol::Ping { nonce: 41 });
    let bytes = disk(9, |recorder| {
        recorder.queue(&ping).expect("queue");
        recorder.queue(&Message::Derez(link::protocol::Derez { tick: 2, creature_id: 3, reserved0: [0; 4] })).expect("queue");
    });
    let split = RECORDING_HEADER_BYTES;
    let mut replay = Replayer::open(ByteSource::new(bytes[split..].to_vec(), 1), &bytes[..split], 9).ok().expect("open");
    assert_eq!(replay.poll().expect("a PING"), Some(ping));
    assert_eq!(replay.poll().expect("a DEREZ"), Some(Message::Derez(link::protocol::Derez { tick: 2, creature_id: 3, reserved0: [0; 4] })));
    assert_eq!(replay.poll().expect("the farewell"), Some(Message::Bye));
    assert!(matches!(replay.poll(), Err(TransportError::PeerClosed)));
}

#[test]
fn closing_a_recording_writes_what_was_staged_then_the_farewell() {
    let header = RecordingHeader::new(5, 1, f(0.5), 2);
    let opening = header.to_bytes();
    let mut recorder = Recorder::after_header(opening.clone());
    let ping = Message::Ping(link::protocol::Ping { nonce: 7 });
    recorder.queue(&ping).expect("queue");
    let file = recorder.close();
    let mut expected = opening;
    link::codec::encode(&ping, &mut expected).expect("encode");
    link::codec::encode(&Message::Bye, &mut expected).expect("encode");
    assert_eq!(file, expected);
}

#[test]
fn a_path_climbs_where_any_component_is_the_parent() {
    assert!(!climbs(&vec![]));
    assert!(!climbs(&vec![false, false]));
    assert!(climbs(&vec![false, true, false]));
    assert!(matches!(judged_path("recordings/../world.disk"), Err(TransportError::Refused { .. })));
    assert!(matches!(judged_path("recordings/.."), Err(TransportError::Refused { .. })));
    assert!(judged_path("recordings/..world.disk").is_ok(), "two dots inside a name are no climb");
}

#[test]
fn a_disk_path_is_judged_by_its_file_name_alone() {
    assert!(judged_path("x.disks").is_err(), "the extension is disk, not one that starts with it");
    assert!(judged_path("a.disk/b.txt").is_err(), "a directory named like a Disk is not the file");
    assert!(judged_path(".disk").is_err(), "a name that is only a dot and an extension has none");
    assert!(judged_path("recordings/.disk").is_err());
    assert!(judged_path("recordings/world.disk/").is_ok(), "a trailing separator names the same file");
    assert!(judged_path("recordings/world.disk/.").is_ok());
    assert!(judged_path("./world.disk").is_ok());
    assert!(judged_path("a/./b/world.tar.disk").is_ok());
    assert!(judged_path("world.disk/..").is_err());
}
