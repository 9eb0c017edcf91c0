use editor::codec::{decode_event, encode_event};
use editor::event::{EditorEvent, EventType};

fn env(typ: EventType, data: &[&str], serial: i64) -> EditorEvent {
    EditorEvent::new(typ, data.iter().map(|s| s.to_string()).collect(), serial)
}

fn round_trips(e: &EditorEvent) {
    let line = encode_event(e);
    let back = decode_event(&line).expect("canonical line must decode");
    assert_eq!(&back, e);
}

#[test]
fn encode_open_file_exact() {
    let e = env(EventType::OpenFileCommand, &["notes.txt"], 0);
    assert_eq!(
        encode_event(&e),
        "{\"typ\":\"OpenFileCommand\",\"data\":[\"notes.txt\"],\"serial\":0}"
    );
}

#[test]
fn encode_set_available_files_exact() {
    let e = env(EventType::SetAvailableFilesCommand, &["a.txt", "b.txt"], 1);
    assert_eq!(
        encode_event(&e),
        "{\"typ\":\"SetAvailableFilesCommand\",\"data\":[\"a.txt\",\"b.txt\"],\"serial\":1}"
    );
}

#[test]
fn encode_empty_payload_exact() {
    let e = env(EventType::Exit, &[], -1);
    assert_eq!(encode_event(&e), "{\"typ\":\"Exit\",\"data\":[],\"serial\":-1}");
}

#[test]
fn round_trip_every_recognized_tag() {
    let tags = [
        EventType::GuiEvent,
        EventType::DebugNoBufferToSave,
        EventType::ErrorSwitchToFile,
        EventType::DebugGuiGotMessage,
        EventType::ErrorReadingFile,
        EventType::Exit,
        EventType::SetAvailableFilesCommand,
        EventType::ClickFileEvent,
        EventType::OpenFileCommand,
        EventType::SetBufferCommand,
        EventType::DebugGotUnknownMessage,
        EventType::BufferChanged,
        EventType::DebugMessage,
        EventType::NavigateUp,
    ];
    for (k, tag) in tags.into_iter().enumerate() {
        round_trips(&env(tag, &["one", "two"], k as i64));
    }
}

#[test]
fn round_trip_unknown_tag() {
    round_trips(&env(EventType::Unknown("Foo".to_string()), &["x"], 7));
}

#[test]
fn round_trip_escapes() {
    round_trips(&env(
        EventType::SetBufferCommand,
        &["a\"b\\c/d\ne\rf\tg\u{8}h\u{c}i\u{1}j\u{1f}k"],
        3,
    ));
}

#[test]
fn round_trip_unicode_payload() {
    round_trips(&env(EventType::BufferChanged, &["héllo wörld — 日本語 🎄"], 5));
}

#[test]
fn round_trip_serial_extremes() {
    round_trips(&env(EventType::DebugMessage, &[], i64::MIN));
    round_trips(&env(EventType::DebugMessage, &[], i64::MAX));
    round_trips(&env(EventType::DebugMessage, &[], -42));
}

#[test]
fn escape_encoding_exact() {
    let e = env(EventType::SetBufferCommand, &["a\"b\\c\nd\u{1f}"], 2);
    assert_eq!(
        encode_event(&e),
        "{\"typ\":\"SetBufferCommand\",\"data\":[\"a\\\"b\\\\c\\nd\\u001f\"],\"serial\":2}"
    );
}

#[test]
fn decode_accepts_interior_whitespace() {
    let line = "{\"typ\": \"SetAvailableFilesCommand\", \"data\": [\"a.txt\", \"b.txt\"], \"serial\": 1}";
    let e = decode_event(line).expect("spaced line must decode");
    assert_eq!(e, env(EventType::SetAvailableFilesCommand, &["a.txt", "b.txt"], 1));
}

#[test]
fn decode_accepts_whitespace_everywhere() {
    let line = " { \"typ\" : \"Exit\" ,\t\"data\" : [ \"a\" , \"b\" ] , \"serial\" : -7 } \r\n";
    let e = decode_event(line).expect("whitespace between tokens must be accepted");
    assert_eq!(e, env(EventType::Exit, &["a", "b"], -7));
}

#[test]
fn decode_accepts_trailing_newline() {
    let e = decode_event("{\"typ\":\"Exit\",\"data\":[],\"serial\":-1}\n").unwrap();
    assert_eq!(e, env(EventType::Exit, &[], -1));
}

#[test]
fn decode_accepts_u_escapes() {
    let e = decode_event("{\"typ\":\"DebugMessage\",\"data\":[\"\\u0041\\u00e9\\u0009\"],\"serial\":0}")
        .unwrap();
    assert_eq!(e.data[0], "Aé\t");
}

#[test]
fn decode_unknown_tag_is_accepted() {
    let e = decode_event("{\"typ\":\"Foo\",\"data\":[\"x\"],\"serial\":4}").unwrap();
    assert_eq!(e.typ, EventType::Unknown("Foo".to_string()));
}

#[test]
fn decode_rejects_malformed_lines() {
    let bad = [
        "",
        "{}",
        "nonsense",
        "{\"typ\":\"Exit\",\"data\":[],\"serial\":}",
        "{\"typ\":\"Exit\",\"data\":[],\"serial\":1",
        "{\"typ\":\"Exit\",\"data\":[],\"serial\":1}}",
        "{\"typ\":\"Exit\",\"data\":[],\"serial\":1}x",
        "{\"typ\":\"Exit\",\"serial\":1}",
        "{\"typ\":\"Exit\",\"data\":[],\"serial\":\"1\"}",
        "{\"typ\":3,\"data\":[],\"serial\":1}",
        "{\"typ\":\"Exit\",\"data\":[3],\"serial\":1}",
        "{\"typ\":\"Exit\",\"data\":[],\"serial\":01}",
        "{\"typ\":\"Exit\",\"data\":[],\"serial\":--1}",
        "{\"typ\":\"Exit\",\"data\":[],\"serial\":9223372036854775808}",
        "{\"typ\":\"Exit\",\"data\":[],\"serial\":-9223372036854775809}",
        "{\"typ\":\"Exit\",\"data\":[\"a\",],\"serial\":1}",
        "{\"typ\":\"Exit\",\"data\":[\"bad\\escape\"],\"serial\":1}",
        "{\"typ\":\"Exit\",\"data\":[\"lone\\ud834surrogate\"],\"serial\":1}",
        "{\"typ\":\"Exit\",\"data\":[\"unterminated],\"serial\":1}",
        "{\"serial\":1,\"typ\":\"Exit\",\"data\":[]}",
    ];
    for line in bad {
        assert!(decode_event(line).is_err(), "must reject: {line}");
    }
}

#[test]
fn decode_rejects_raw_control_character() {
    let line = "{\"typ\":\"Exit\",\"data\":[\"a\u{1}b\"],\"serial\":1}";
    assert!(decode_event(line).is_err());
}

#[test]
fn decode_serial_bounds_exact() {
    let max = decode_event("{\"typ\":\"Exit\",\"data\":[],\"serial\":9223372036854775807}").unwrap();
    assert_eq!(max.serial, i64::MAX);
    let min = decode_event("{\"typ\":\"Exit\",\"data\":[],\"serial\":-9223372036854775808}").unwrap();
    assert_eq!(min.serial, i64::MIN);
}

#[test]
fn encoded_line_is_valid_json_per_serde() {
    let e = env(
        EventType::SetBufferCommand,
        &["quote\" backslash\\ newline\n tab\t bell\u{7} ünïcode"],
        99,
    );
    let line = encode_event(&e);
    let v: serde_json::Value = serde_json::from_str(&line).expect("must be valid JSON");
    assert_eq!(v["typ"].as_str().unwrap(), "SetBufferCommand");
    assert_eq!(v["serial"].as_i64().unwrap(), 99);
    let items: Vec<&str> = v["data"].as_array().unwrap().iter().map(|x| x.as_str().unwrap()).collect();
    assert_eq!(items, vec!["quote\" backslash\\ newline\n tab\t bell\u{7} ünïcode"]);
}

#[test]
fn decode_agrees_with_serde_escaping() {
    // a payload string escaped by serde, spliced into a line of the wire
    // shape, must decode back to the same string
    let tricky = "a\"b\\c\nd\u{1f}é slash/ \ttab";
    let payload_json = serde_json::to_string(tricky).unwrap();
    let line = format!(
        "{{\"typ\":\"SetBufferCommand\",\"data\":[{}],\"serial\":12}}",
        payload_json
    );
    let e = decode_event(&line).expect("serde-escaped line must decode");
    assert_eq!(e, env(EventType::SetBufferCommand, &[tricky], 12));
}

#[test]
fn to_json_matches_encode() {
    let e = env(EventType::ClickFileEvent, &["src/lib.rs"], 8);
    assert_eq!(e.to_json(), encode_event(&e));
}
