use errornowatcher::build_info::{generator, version_formatted, UNKNOWN_COMMIT};
use errornowatcher::error::Error;

#[test]
fn version_with_commit() {
    assert_eq!(version_formatted("0.2.0", Some("abc1234")), "v0.2.0 (abc1234)");
}

#[test]
fn version_without_commit() {
    assert_eq!(version_formatted("0.2.0", None), "v0.2.0 (unknown commit)");
    assert_eq!(UNKNOWN_COMMIT, "unknown commit");
}

#[test]
fn version_of_empty_parts() {
    assert_eq!(version_formatted("", Some("")), "v ()");
}

#[test]
fn generator_names_the_program() {
    assert_eq!(generator("v0.2.0 (abc1234)"), "errornowatcher v0.2.0 (abc1234)");
    assert_eq!(
        generator(&version_formatted("1.0.0", None)),
        "errornowatcher v1.0.0 (unknown commit)"
    );
}

#[test]
fn error_messages_differ() {
    let messages = [
        Error::Io.message(),
        Error::SizeOverflow.message(),
        Error::Serialization.message(),
    ];
    assert_eq!(messages[0], "the replay archive could not be written");
    assert_eq!(messages[1], "elapsed time or payload length exceeds 32 bits");
    assert_eq!(messages[2], "the session metadata could not be serialized");
}
