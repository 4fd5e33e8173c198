use errornowatcher::capture::{
    record_configuration_packets, record_game_packets, record_login_packets, DecodedPacket,
};
use errornowatcher::framing::decode_stream;
use errornowatcher::recorder::Recorder;
use std::io::{Cursor, Read};

fn recorder(should_ignore_compression: bool) -> Recorder {
    Recorder::new(
        "play.example.org".to_string(),
        should_ignore_compression,
        "1.21.4".to_string(),
        769,
        "errornowatcher v0.2.0 (abc1234)".to_string(),
    )
    .unwrap()
}

fn recorded_payloads(recorder: Recorder) -> Vec<Vec<u8>> {
    let bytes = recorder.finish().unwrap();
    let mut archive = zip::ZipArchive::new(Cursor::new(bytes)).unwrap();
    assert_eq!(archive.len(), 2);
    let mut stream = Vec::new();
    archive.by_name("recording.tmcpr").unwrap().read_to_end(&mut stream).unwrap();
    let frames = decode_stream(&stream).unwrap();
    for pair in frames.windows(2) {
        assert!(pair[0].elapsed_ms <= pair[1].elapsed_ms);
    }
    frames.into_iter().map(|frame| frame.payload).collect()
}

fn packet(identifier: u8, body: &[u8]) -> DecodedPacket {
    DecodedPacket {
        identifier: vec![identifier],
        body: body.to_vec(),
        negotiates_compression: false,
    }
}

fn login_sequence() -> Vec<DecodedPacket> {
    vec![
        packet(0x01, &[0x10, 0x11]),
        DecodedPacket {
            identifier: vec![0x03],
            body: vec![0x80, 0x02],
            negotiates_compression: true,
        },
        packet(0x04, &[]),
        packet(0x02, &[0x20; 40]),
    ]
}

#[test]
fn login_with_exclusion_on_drops_the_compression_packet() {
    let mut recorder = recorder(true);
    let failures = record_login_packets(&mut recorder, &login_sequence());
    assert!(failures.is_empty());
    let mut expected = vec![vec![0x01, 0x10, 0x11], vec![0x04]];
    let mut last = vec![0x02];
    last.extend([0x20; 40]);
    expected.push(last);
    let payloads = recorded_payloads(recorder);
    assert_eq!(payloads.len(), login_sequence().len() - 1);
    assert_eq!(payloads, expected);
}

#[test]
fn login_with_exclusion_off_keeps_every_packet() {
    let mut recorder = recorder(false);
    let failures = record_login_packets(&mut recorder, &login_sequence());
    assert!(failures.is_empty());
    let mut last = vec![0x02];
    last.extend([0x20; 40]);
    let payloads = recorded_payloads(recorder);
    assert_eq!(payloads.len(), login_sequence().len());
    assert_eq!(
        payloads,
        vec![vec![0x01, 0x10, 0x11], vec![0x03, 0x80, 0x02], vec![0x04], last]
    );
}

#[test]
fn login_without_a_compression_packet_is_kept_whole() {
    for flag in [true, false] {
        let mut recorder = recorder(flag);
        let packets = vec![packet(0x01, &[1]), packet(0x02, &[2])];
        assert!(record_login_packets(&mut recorder, &packets).is_empty());
        assert_eq!(recorded_payloads(recorder), vec![vec![0x01, 1], vec![0x02, 2]]);
    }
}

#[test]
fn login_of_no_packets_records_nothing() {
    let mut recorder = recorder(true);
    assert!(record_login_packets(&mut recorder, &[]).is_empty());
    assert_eq!(recorded_payloads(recorder), Vec::<Vec<u8>>::new());
}

#[test]
fn configuration_keeps_every_packet() {
    let mut recorder = recorder(true);
    let failures = record_configuration_packets(&mut recorder, &login_sequence());
    assert!(failures.is_empty());
    assert_eq!(recorded_payloads(recorder).len(), 4);
}

#[test]
fn game_buffers_are_recorded_in_order() {
    let mut recorder = recorder(true);
    let queue = vec![vec![0x26, 1, 2, 3], vec![], vec![0x00], vec![0x26, 1, 2, 3]];
    let failures = record_game_packets(&mut recorder, &queue);
    assert!(failures.is_empty());
    assert_eq!(recorded_payloads(recorder), queue);
}

#[test]
fn phases_follow_one_another_in_the_stream() {
    let mut recorder = recorder(true);
    assert!(record_login_packets(&mut recorder, &login_sequence()).is_empty());
    assert!(record_configuration_packets(&mut recorder, &[packet(0x07, &[9])]).is_empty());
    assert!(record_game_packets(&mut recorder, &[vec![0x2B, 5]]).is_empty());
    assert!(record_game_packets(&mut recorder, &[]).is_empty());
    assert!(record_game_packets(&mut recorder, &[vec![0x2C]]).is_empty());
    let payloads = recorded_payloads(recorder);
    assert_eq!(payloads.len(), 6);
    assert_eq!(payloads[0], vec![0x01, 0x10, 0x11]);
    assert_eq!(payloads[3], vec![0x07, 9]);
    assert_eq!(payloads[4], vec![0x2B, 5]);
    assert_eq!(payloads[5], vec![0x2C]);
}
