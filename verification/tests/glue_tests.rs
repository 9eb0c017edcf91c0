use editor::codec::decode_event;
use editor::event::EventType;
use editor::glue::{
    make_number, open_file_json, read_resource, set_available_files_json, set_buffer_json,
};
use editor::models::{open_file_command_json, test_event_json, SomeEvent, Typ};

#[test]
fn set_available_files_json_exact() {
    let line = set_available_files_json(vec!["a.txt".to_string(), "b.txt".to_string()], 5);
    assert_eq!(
        line,
        "{\"typ\":\"SetAvailableFilesCommand\",\"data\":[\"a.txt\",\"b.txt\"],\"serial\":5}"
    );
}

#[test]
fn open_file_json_exact() {
    let line = open_file_json(vec!["notes.txt".to_string()], 2);
    assert_eq!(line, "{\"typ\":\"OpenFileCommand\",\"data\":[\"notes.txt\"],\"serial\":2}");
}

#[test]
fn set_buffer_json_exact() {
    let line = set_buffer_json("line one\nline \"two\"".to_string(), 3);
    assert_eq!(
        line,
        "{\"typ\":\"SetBufferCommand\",\"data\":[\"line one\\nline \\\"two\\\"\"],\"serial\":3}"
    );
}

#[test]
fn command_lines_decode_back() {
    let line = set_available_files_json(vec!["x".to_string()], 9);
    let e = decode_event(&line).unwrap();
    assert_eq!(e.typ, EventType::SetAvailableFilesCommand);
    assert_eq!(e.data, vec!["x".to_string()]);
    assert_eq!(e.serial, 9);
}

#[test]
fn number_resource_reads_back() {
    let r = make_number(17);
    assert_eq!(read_resource(&r), 17);
}

#[test]
fn test_event_json_exact() {
    let line = test_event_json("payload".to_string(), 0);
    assert_eq!(line, "{\"typ\":\"TestEvent\",\"data\":[\"payload\"],\"serial\":0}");
}

#[test]
fn open_file_command_json_exact() {
    let line = open_file_command_json("src/main.rs".to_string(), 1);
    assert_eq!(line, "{\"typ\":\"OpenFileCommand\",\"data\":[\"src/main.rs\"],\"serial\":1}");
}

#[test]
fn some_event_to_json() {
    let e = SomeEvent::new(Typ::Error, vec!["oops".to_string()], 6);
    assert_eq!(e.typ, Typ::Error);
    assert_eq!(e.to_json(), "{\"typ\":\"Error\",\"data\":[\"oops\"],\"serial\":6}");
}
