use editor::app::{EditorApp, FileRead};
use editor::codec::decode_event;
use editor::event::{EditorEvent, EventType};

fn env(typ: EventType, data: &[&str], serial: i64) -> EditorEvent {
    EditorEvent::new(typ, data.iter().map(|s| s.to_string()).collect(), serial)
}

#[test]
fn default_state_is_empty() {
    let app = EditorApp::default();
    assert_eq!(app.active_file, None);
    assert_eq!(app.buffer, None);
    assert!(app.available_files.is_empty());
    assert_eq!(app.event_count, 0);
    assert_eq!(app.serial, 0);
    assert!(!app.complete);
}

#[test]
fn set_available_files_replaces_wholesale() {
    let mut app = EditorApp::default();
    let out = app.handle_event(
        &env(EventType::SetAvailableFilesCommand, &["old.txt", "stale.txt"], 0),
        None,
    );
    assert!(out.is_empty());
    let out = app.handle_event(&env(EventType::SetAvailableFilesCommand, &["new.txt"], 1), None);
    assert!(out.is_empty());
    assert_eq!(app.available_files, vec!["new.txt".to_string()]);
    assert_eq!(app.event_count, 2);
}

#[test]
fn open_file_readable_sets_buffer_and_active_file() {
    let mut app = EditorApp::default();
    let out = app.handle_event(
        &env(EventType::OpenFileCommand, &["notes.txt"], 0),
        Some(&FileRead::Contents("hello".to_string())),
    );
    assert!(out.is_empty());
    assert_eq!(app.active_file.as_deref(), Some("notes.txt"));
    assert_eq!(app.buffer.as_deref(), Some("hello"));
    assert_eq!(app.event_count, 1);
}

#[test]
fn open_file_unreadable_reports_error_and_keeps_buffer() {
    let mut app = EditorApp::default();
    app.buffer = Some("unchanged".to_string());
    let out = app.handle_event(
        &env(EventType::OpenFileCommand, &["gone.txt"], 0),
        Some(&FileRead::Failure("no such file".to_string())),
    );
    assert_eq!(out.len(), 1);
    assert_eq!(out[0].typ, EventType::ErrorReadingFile);
    assert_eq!(out[0].data, vec!["no such file".to_string()]);
    assert_eq!(out[0].serial, 0);
    assert_eq!(app.buffer.as_deref(), Some("unchanged"));
    assert_eq!(app.active_file.as_deref(), Some("gone.txt"));
    assert_eq!(app.serial, 1);
}

#[test]
fn set_buffer_overrides() {
    let mut app = EditorApp::default();
    let out = app.handle_event(&env(EventType::SetBufferCommand, &["override"], 0), None);
    assert!(out.is_empty());
    assert_eq!(app.buffer.as_deref(), Some("override"));
}

#[test]
fn scenario_open_file_line() {
    // inbound: {"typ":"OpenFileCommand","data":["notes.txt"],"serial":0},
    // notes.txt holding "hello"
    let msg = decode_event("{\"typ\":\"OpenFileCommand\",\"data\":[\"notes.txt\"],\"serial\":0}")
        .unwrap();
    let mut app = EditorApp::default();
    let out = app.handle_event(&msg, Some(&FileRead::Contents("hello".to_string())));
    assert!(out.is_empty());
    assert_eq!(app.buffer.as_deref(), Some("hello"));
    assert_eq!(app.active_file.as_deref(), Some("notes.txt"));
}

#[test]
fn scenario_set_available_files_line() {
    let msg = decode_event(
        "{\"typ\":\"SetAvailableFilesCommand\",\"data\":[\"a.txt\",\"b.txt\"],\"serial\":1}",
    )
    .unwrap();
    let mut app = EditorApp::default();
    app.handle_event(&msg, None);
    assert_eq!(app.available_files, vec!["a.txt".to_string(), "b.txt".to_string()]);
}

#[test]
fn scenario_unknown_tag_line() {
    let msg = decode_event("{\"typ\":\"Foo\",\"data\":[\"x\",\"y\"],\"serial\":3}").unwrap();
    let mut app = EditorApp::default();
    let before = app.get_snapshot();
    let out = app.handle_event(&msg, None);
    assert_eq!(out.len(), 1);
    assert_eq!(out[0].typ, EventType::DebugGotUnknownMessage);
    assert_eq!(out[0].data, vec!["Foo, x, y, 3".to_string()]);
    assert_eq!(out[0].serial, 0);
    assert_eq!(app.event_count, before.event_count + 1);
    assert_eq!(app.active_file, before.active_file);
    assert_eq!(app.buffer, before.buffer);
    assert_eq!(app.available_files, before.available_files);
}

#[test]
fn recognized_but_unhandled_tag_is_reported() {
    let mut app = EditorApp::default();
    let out = app.handle_event(&env(EventType::Exit, &["byebye"], 9), None);
    assert_eq!(out.len(), 1);
    assert_eq!(out[0].typ, EventType::DebugGotUnknownMessage);
    assert_eq!(out[0].data, vec!["Exit, byebye, 9".to_string()]);
}

#[test]
fn handle_events_processes_in_order() {
    let mut app = EditorApp::default();
    let msgs = vec![
        env(EventType::SetAvailableFilesCommand, &["a"], 0),
        env(EventType::OpenFileCommand, &["a"], 1),
        env(EventType::Unknown("Zap".to_string()), &[], 2),
        env(EventType::SetBufferCommand, &["late text"], 3),
    ];
    let reads = vec![
        None,
        Some(FileRead::Failure("denied".to_string())),
        None,
        None,
    ];
    let out = app.handle_events(&msgs, &reads);
    // the two outbound envelopes come back in processing order
    assert_eq!(out.len(), 2);
    assert_eq!(out[0].typ, EventType::ErrorReadingFile);
    assert_eq!(out[0].serial, 0);
    assert_eq!(out[1].typ, EventType::DebugGotUnknownMessage);
    assert_eq!(out[1].serial, 1);
    // the final state reflects the last writes
    assert_eq!(app.available_files, vec!["a".to_string()]);
    assert_eq!(app.buffer.as_deref(), Some("late text"));
    assert_eq!(app.event_count, 4);
}

#[test]
fn send_serials_count_up_from_zero() {
    let mut app = EditorApp::default();
    let mut serials = Vec::new();
    for k in 0..5 {
        let e = app.send_event(EventType::ClickFileEvent, vec![format!("f{k}")]);
        assert_eq!(e.typ, EventType::ClickFileEvent);
        serials.push(e.serial);
    }
    assert_eq!(serials, vec![0, 1, 2, 3, 4]);
    assert_eq!(app.serial, 5);
}

#[test]
fn send_event_selfless_advances_counter() {
    let mut counter: i64 = 41;
    let e = editor::app::send_event_selfless(
        EventType::BufferChanged,
        vec!["text".to_string()],
        &mut counter,
    );
    assert_eq!(e.serial, 41);
    assert_eq!(counter, 42);
}

#[test]
fn dispatcher_reports_and_sends_share_one_counter() {
    let mut app = EditorApp::default();
    let first = app.send_event(EventType::ClickFileEvent, vec!["a".to_string()]);
    assert_eq!(first.serial, 0);
    let out = app.handle_event(&env(EventType::Unknown("Zap".to_string()), &[], 0), None);
    assert_eq!(out[0].serial, 1);
    let second = app.send_event(EventType::ClickFileEvent, vec!["b".to_string()]);
    assert_eq!(second.serial, 2);
}

#[test]
fn install_latch_grants_exactly_once() {
    let mut app = EditorApp::default();
    assert!(app.install_dispatcher());
    assert!(!app.install_dispatcher());
    assert!(!app.install_dispatcher());
    assert!(app.complete);
}

#[test]
fn snapshot_is_a_copy() {
    let mut app = EditorApp::default();
    app.handle_event(&env(EventType::SetBufferCommand, &["text"], 0), None);
    let snap = app.get_snapshot();
    app.handle_event(&env(EventType::SetBufferCommand, &["changed"], 1), None);
    assert_eq!(snap.buffer.as_deref(), Some("text"));
    assert_eq!(app.buffer.as_deref(), Some("changed"));
}

#[test]
fn write_outgoing_events_one_line_each() {
    let events = vec![
        env(EventType::Exit, &["byebye"], -1),
        env(EventType::DebugMessage, &["hi"], 0),
    ];
    let lines = editor::app::write_outgoing_events(&events);
    assert_eq!(
        lines,
        vec![
            "{\"typ\":\"Exit\",\"data\":[\"byebye\"],\"serial\":-1}\n".to_string(),
            "{\"typ\":\"DebugMessage\",\"data\":[\"hi\"],\"serial\":0}\n".to_string(),
        ]
    );
}

#[test]
fn file_list_starts_empty() {
    assert!(editor::app::file_list().is_empty());
}
