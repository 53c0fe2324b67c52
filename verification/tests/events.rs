use dirwatch::inotify::{decode_buffer, format_event_line, watch_mask, Event, INotifyError, WatchEvent};

fn record(mask: u32, name: &[u8]) -> Vec<u8> {
    let mut out: Vec<u8> = Vec::new();
    out.extend_from_slice(&1i32.to_le_bytes());
    out.extend_from_slice(&mask.to_le_bytes());
    out.extend_from_slice(&0u32.to_le_bytes());
    out.extend_from_slice(&(name.len() as u32).to_le_bytes());
    out.extend_from_slice(name);
    out
}

#[test]
fn known_masks_map_to_their_kinds() {
    assert_eq!(Event::from(0x1), Event::Access);
    assert_eq!(Event::from(0x2), Event::Modify);
    assert_eq!(Event::from(0x100), Event::Create);
    assert_eq!(Event::from(0x200), Event::Delete);
    assert_eq!(Event::from(0x8000), Event::Ignored);
}

#[test]
fn unrecognized_masks_map_to_unknown() {
    assert_eq!(Event::from(0x0), Event::Unknown);
    assert_eq!(Event::from(0x3), Event::Unknown);
    assert_eq!(Event::from(0x102), Event::Unknown);
    assert_eq!(Event::from(0xdead_beef), Event::Unknown);
}

#[test]
fn masks_round_back() {
    assert_eq!(Event::Create.mask(), 0x100);
    assert_eq!(Event::Modify.mask(), 0x2);
    assert_eq!(Event::Unknown.mask(), 0x0);
    assert_eq!(watch_mask(), 0x102);
}

#[test]
fn created_record_gives_create_log_line() {
    let buf = record(0x100, b"x.txt\0\0\0");
    let events = decode_buffer(&buf).unwrap();
    assert_eq!(events.len(), 1);
    assert_eq!(events[0].event, Event::Create);
    assert_eq!(events[0].name, "x.txt");
    assert_eq!(format_event_line(&events[0]), "Create|x.txt");
}

#[test]
fn unrecognized_bitmask_does_not_abort_the_decode() {
    let mut buf = record(0x12345, b"odd\0");
    buf.extend_from_slice(&record(0x2, b"kept\0\0\0"));
    let events = decode_buffer(&buf).unwrap();
    assert_eq!(events.len(), 2);
    assert_eq!(events[0].event, Event::Unknown);
    assert_eq!(events[0].name, "odd");
    assert_eq!(events[1].event, Event::Modify);
    assert_eq!(events[1].name, "kept");
}

#[test]
fn empty_buffer_decodes_to_no_events() {
    let buf: Vec<u8> = Vec::new();
    let events = decode_buffer(&buf).unwrap();
    assert!(events.is_empty());
}

#[test]
fn truncated_header_is_an_error() {
    let buf = vec![0u8; 10];
    assert!(decode_buffer(&buf).is_err());
}

#[test]
fn name_running_past_the_end_is_an_error() {
    let mut buf = record(0x100, b"x");
    buf.pop();
    assert!(decode_buffer(&buf).is_err());
}

#[test]
fn non_text_name_is_an_error() {
    let buf = record(0x100, &[0xff, 0xfe, 0x01]);
    assert!(matches!(decode_buffer(&buf), Err(INotifyError::Utf8Error)));
}

#[test]
fn labels_spell_the_kinds() {
    assert_eq!(Event::Access.label(), "Access");
    assert_eq!(Event::CloseNoWrite.label(), "CloseNoWrite");
    assert_eq!(Event::MovedTo.label(), "MovedTo");
    assert_eq!(Event::Unknown.label(), "Unknown");
}

#[test]
fn log_line_format_is_kind_bar_name() {
    let e = WatchEvent { event: Event::Delete, name: "gone.txt".to_string() };
    assert_eq!(format_event_line(&e), "Delete|gone.txt");
}
