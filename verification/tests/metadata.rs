use errornowatcher::error::Error;
use errornowatcher::metadata::{JsonScalar, SessionMetadata, FORMAT_NAME, FORMAT_VERSION};

fn sample(elapsed_ms: u128, unix_ms: Option<u128>) -> Result<SessionMetadata, Error> {
    SessionMetadata::new(
        "play.example.org".to_string(),
        elapsed_ms,
        unix_ms,
        "1.21.4".to_string(),
        769,
        "errornowatcher v0.2.0 (abc1234)".to_string(),
    )
}

#[test]
fn metadata_duration_and_date() {
    let metadata = sample(90_000, Some(1_700_000_090_000)).unwrap();
    assert_eq!(metadata.duration_ms, 90_000);
    assert_eq!(metadata.start_wallclock_ms, 1_700_000_000_000);
    assert_eq!(metadata.server_label, "play.example.org");
    assert_eq!(metadata.game_version, "1.21.4");
    assert_eq!(metadata.protocol_version, 769);
    assert_eq!(metadata.generator, "errornowatcher v0.2.0 (abc1234)");
}

#[test]
fn metadata_of_a_session_without_duration() {
    let metadata = sample(0, Some(0)).unwrap();
    assert_eq!(metadata.duration_ms, 0);
    assert_eq!(metadata.start_wallclock_ms, 0);
}

#[test]
fn metadata_needs_a_wall_clock_after_the_epoch() {
    assert_eq!(sample(1, None), Err(Error::Serialization));
}

#[test]
fn metadata_needs_a_start_after_the_epoch() {
    assert_eq!(sample(11, Some(10)), Err(Error::Serialization));
    assert!(sample(10, Some(10)).is_ok());
}

#[test]
fn metadata_needs_numbers_of_64_bits() {
    let limit = u64::MAX as u128;
    assert_eq!(sample(limit + 1, Some(limit + 1)), Err(Error::Serialization));
    assert_eq!(sample(0, Some(limit + 1)), Err(Error::Serialization));
    let metadata = sample(limit, Some(limit)).unwrap();
    assert_eq!(metadata.duration_ms, u64::MAX);
    assert_eq!(metadata.start_wallclock_ms, 0);
    let metadata = sample(0, Some(limit)).unwrap();
    assert_eq!(metadata.start_wallclock_ms, u64::MAX);
}

#[test]
fn metadata_members_in_order() {
    let members = sample(90_000, Some(1_700_000_090_000)).unwrap().members();
    let expected = vec![
        ("date".to_string(), JsonScalar::Unsigned(1_700_000_000_000)),
        ("duration".to_string(), JsonScalar::Unsigned(90_000)),
        ("fileFormat".to_string(), JsonScalar::Text("MCPR".to_string())),
        ("fileFormatVersion".to_string(), JsonScalar::Unsigned(14)),
        (
            "generator".to_string(),
            JsonScalar::Text("errornowatcher v0.2.0 (abc1234)".to_string()),
        ),
        ("mcversion".to_string(), JsonScalar::Text("1.21.4".to_string())),
        ("protocol".to_string(), JsonScalar::Signed(769)),
        ("serverName".to_string(), JsonScalar::Text("play.example.org".to_string())),
        ("singleplayer".to_string(), JsonScalar::Flag(false)),
    ];
    assert_eq!(members, expected);
}

#[test]
fn metadata_format_is_fixed() {
    assert_eq!(FORMAT_VERSION, 14);
    assert_eq!(FORMAT_NAME, "MCPR");
    for (elapsed_ms, unix_ms) in [(0u128, 0u128), (5, 5), (1, 1_700_000_000_000)] {
        let text = sample(elapsed_ms, Some(unix_ms)).unwrap().to_json();
        let value: serde_json::Value = serde_json::from_str(&text).unwrap();
        assert_eq!(value["fileFormatVersion"].as_u64(), Some(14));
        assert_eq!(value["fileFormat"].as_str(), Some("MCPR"));
        assert_eq!(value["singleplayer"].as_bool(), Some(false));
    }
}

#[test]
fn metadata_json_text() {
    let text = sample(90_000, Some(1_700_000_090_000)).unwrap().to_json();
    assert_eq!(
        text,
        "{\"date\":1700000000000,\"duration\":90000,\"fileFormat\":\"MCPR\",\
         \"fileFormatVersion\":14,\"generator\":\"errornowatcher v0.2.0 (abc1234)\",\
         \"mcversion\":\"1.21.4\",\"protocol\":769,\"serverName\":\"play.example.org\",\
         \"singleplayer\":false}"
    );
}

#[test]
fn metadata_json_escapes_text() {
    let metadata = SessionMetadata::new(
        "a \"quoted\" \\ name\n".to_string(),
        1,
        Some(2),
        "1.21.4".to_string(),
        -1,
        "g".to_string(),
    )
    .unwrap();
    let text = metadata.to_json();
    assert!(text.contains("\"serverName\":\"a \\\"quoted\\\" \\\\ name\\n\""));
    assert!(text.contains("\"protocol\":-1"));
    let value: serde_json::Value = serde_json::from_str(&text).unwrap();
    assert_eq!(value["serverName"].as_str(), Some("a \"quoted\" \\ name\n"));
    assert_eq!(value["protocol"].as_i64(), Some(-1));
    assert_eq!(value.as_object().unwrap().len(), 9);
}

#[test]
fn metadata_json_stays_within_its_limit() {
    let labels = [
        String::new(),
        "play.example.org".to_string(),
        "\u{1}".repeat(50),
        "\"\\\n".repeat(20),
        "\u{10FFFF}".repeat(30),
    ];
    for label in &labels {
        let metadata = SessionMetadata::new(
            label.clone(),
            u64::MAX as u128,
            Some(u64::MAX as u128 * 2),
            label.clone(),
            i32::MIN,
            label.clone(),
        )
        .unwrap();
        let text = metadata.to_json();
        let label_chars = 3 * label.chars().count();
        assert!(text.len() <= 6 * label_chars + 677);
    }
    // An escape of six bytes for each character: the most that a label takes.
    let metadata = SessionMetadata::new(
        "\u{1}".repeat(50),
        0,
        Some(0),
        String::new(),
        0,
        String::new(),
    )
    .unwrap();
    assert!(metadata.to_json().contains(&"\\u0001".repeat(50)));
}
