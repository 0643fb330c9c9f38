use flotilla::codec::{decode_command, encode_command, DecodeFailure};
use flotilla::messages::WireEntry;
use flotilla::state::{Command, LogEntry};

fn put(key: &str, value: &str) -> Command {
    Command::Put { key: key.to_string(), value: value.to_string() }
}

#[test]
fn put_command_bytes_are_variant_then_strings() {
    let bytes = encode_command(&put("a", "b"));
    assert_eq!(bytes, vec![0u8, 1, b'a', 1, b'b']);
}

#[test]
fn delete_command_bytes_are_variant_then_key() {
    let bytes = encode_command(&Command::Delete { key: "k".to_string() });
    assert_eq!(bytes, vec![1u8, 1, b'k']);
}

#[test]
fn put_command_reads_back() {
    let c = put("hello", "world");
    let bytes = encode_command(&c);
    match decode_command(&bytes) {
        Ok(Command::Put { key, value }) => {
            assert_eq!(key, "hello");
            assert_eq!(value, "world");
        }
        other => panic!("unexpected {:?}", other),
    }
}

#[test]
fn delete_command_reads_back_ignoring_trailing_bytes() {
    let mut bytes = encode_command(&Command::Delete { key: "gone".to_string() });
    bytes.extend_from_slice(&[9, 9, 9]);
    match decode_command(&bytes) {
        Ok(Command::Delete { key }) => assert_eq!(key, "gone"),
        other => panic!("unexpected {:?}", other),
    }
}

#[test]
fn unknown_variant_is_reported() {
    assert_eq!(decode_command(&[7u8, 1, b'x']).unwrap_err(), DecodeFailure::UnknownVariant { found: 7 });
}

#[test]
fn empty_bytes_are_malformed() {
    assert_eq!(decode_command(&[]).unwrap_err(), DecodeFailure::Malformed);
}

#[test]
fn truncated_string_is_malformed() {
    assert_eq!(decode_command(&[0u8, 5, b'a']).unwrap_err(), DecodeFailure::Malformed);
}

#[test]
fn invalid_utf8_is_malformed() {
    assert_eq!(decode_command(&[1u8, 1, 0xff]).unwrap_err(), DecodeFailure::Malformed);
}

#[test]
fn log_entry_travels_and_reads_back() {
    let entry = LogEntry { term: 3, idx: 7, command: put("k", "v") };
    let wire = entry.to_wire();
    assert_eq!(wire.term, 3);
    assert_eq!(wire.index, 7);
    assert_eq!(wire.command, vec![0u8, 1, b'k', 1, b'v']);
    let back = LogEntry::from_wire(&wire).unwrap();
    assert_eq!(back.term, 3);
    assert_eq!(back.idx, 7);
    match back.command {
        Command::Put { key, value } => {
            assert_eq!(key, "k");
            assert_eq!(value, "v");
        }
        other => panic!("unexpected {:?}", other),
    }
}

#[test]
fn log_entry_with_bad_bytes_is_refused() {
    let wire = WireEntry { term: 1, index: 1, command: vec![2u8] };
    assert_eq!(LogEntry::from_wire(&wire).unwrap_err(), DecodeFailure::UnknownVariant { found: 2 });
}

#[test]
fn length_prefix_beyond_the_bytes_is_malformed() {
    let mut bytes = vec![1u8, 253];
    bytes.extend_from_slice(&[255u8; 8]);
    assert_eq!(decode_command(&bytes).unwrap_err(), DecodeFailure::Malformed);
}

#[test]
fn long_key_reads_back() {
    let key = "k".repeat(300);
    let bytes = encode_command(&Command::Delete { key: key.clone() });
    assert_eq!(&bytes[..4], &[1u8, 251, 44, 1]);
    match decode_command(&bytes) {
        Ok(Command::Delete { key: k }) => assert_eq!(k, key),
        other => panic!("unexpected {:?}", other),
    }
}

#[test]
fn two_byte_variant_number_is_read() {
    assert_eq!(decode_command(&[251u8, 44, 1]).unwrap_err(), DecodeFailure::UnknownVariant { found: 300 });
    assert_eq!(decode_command(&[252u8, 1, 0, 0, 1]).unwrap_err(), DecodeFailure::UnknownVariant { found: 16777217 });
    assert_eq!(decode_command(&[253u8, 0]).unwrap_err(), DecodeFailure::Malformed);
}
