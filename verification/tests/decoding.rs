use shortcuts_vdf::collection::{index_key, Parser, ParserError};
use shortcuts_vdf::cursor::ByteCursor;
use shortcuts_vdf::decode::{parse_object, DecodeError};
use shortcuts_vdf::shortcut::{Field, ProjectError, Shortcut};
use shortcuts_vdf::tree::{LooseMap, Value};

fn push_cstr(v: &mut Vec<u8>, s: &str) {
    for b in s.bytes() {
        v.push(b);
    }
    v.push(0);
}

fn push_text_entry(v: &mut Vec<u8>, key: &str, val: &str) {
    v.push(1);
    push_cstr(v, key);
    push_cstr(v, val);
}

fn push_int_entry(v: &mut Vec<u8>, key: &str, n: u32) {
    v.push(2);
    push_cstr(v, key);
    for b in n.to_le_bytes() {
        v.push(b);
    }
}

/// One complete, well-formed shortcut node with the given name, keyed
/// fields filled with simple values.
fn push_shortcut_node(v: &mut Vec<u8>, index_key: &str, app_name: &str, is_hidden: u32) {
    v.push(0);
    push_cstr(v, index_key);
    push_text_entry(v, "AppName", app_name);
    push_text_entry(v, "exe", "calc.exe");
    push_text_entry(v, "StartDir", "/");
    push_int_entry(v, "IsHidden", is_hidden);
    push_text_entry(v, "icon", "");
    push_text_entry(v, "LaunchOptions", "");
    push_int_entry(v, "AllowDesktopConfig", 1);
    push_int_entry(v, "OpenVR", 0);
    push_text_entry(v, "ShortcutPath", "");
    push_int_entry(v, "LastPlayTime", 12345);
    v.push(8);
}

fn decode(bytes: Vec<u8>) -> LooseMap {
    let mut cur = ByteCursor::new(bytes);
    parse_object(&mut cur).expect("decode failed")
}

fn get_int(m: &LooseMap, key: &str) -> u32 {
    match m.get(&key.to_string()) {
        Some(Value::Int(n)) => *n,
        other => panic!("expected integer for {key}, got {other:?}"),
    }
}

fn get_text(m: &LooseMap, key: &str) -> String {
    match m.get(&key.to_string()) {
        Some(Value::Text(s)) => s.clone(),
        other => panic!("expected text for {key}, got {other:?}"),
    }
}

#[test]
fn little_endian_one() {
    let mut bytes = Vec::new();
    bytes.push(2);
    push_cstr(&mut bytes, "a");
    bytes.extend_from_slice(&[0x01, 0x00, 0x00, 0x00]);
    bytes.push(8);
    let m = decode(bytes);
    assert_eq!(get_int(&m, "a"), 1);
}

#[test]
fn little_endian_256() {
    let mut bytes = Vec::new();
    bytes.push(2);
    push_cstr(&mut bytes, "a");
    bytes.extend_from_slice(&[0x00, 0x01, 0x00, 0x00]);
    bytes.push(8);
    let m = decode(bytes);
    assert_eq!(get_int(&m, "a"), 256);
}

#[test]
fn terminator_consumes_exactly() {
    // an object ending at tag 8, followed by bytes that belong to the caller
    let mut bytes = Vec::new();
    push_text_entry(&mut bytes, "k", "v");
    bytes.push(8);
    bytes.push(0xAB);
    bytes.push(0xCD);
    let mut cur = ByteCursor::new(bytes);
    let m = parse_object(&mut cur).expect("decode failed");
    assert_eq!(get_text(&m, "k"), "v");
    // nothing beyond the terminator was consumed
    assert_eq!(cur.next_byte(), Some(0xAB));
    assert_eq!(cur.next_byte(), Some(0xCD));
    assert_eq!(cur.next_byte(), None);
}

#[test]
fn decoding_is_deterministic() {
    let mut bytes = Vec::new();
    push_text_entry(&mut bytes, "k", "v");
    push_int_entry(&mut bytes, "n", 7);
    bytes.push(0);
    push_cstr(&mut bytes, "sub");
    push_text_entry(&mut bytes, "inner", "x");
    bytes.push(8);
    bytes.push(8);
    let first = decode(bytes.clone());
    let second = decode(bytes);
    assert_eq!(first, second);
}

#[test]
fn duplicate_key_keeps_later_value() {
    let mut bytes = Vec::new();
    push_text_entry(&mut bytes, "k", "first");
    push_text_entry(&mut bytes, "k", "second");
    bytes.push(8);
    let m = decode(bytes);
    assert_eq!(get_text(&m, "k"), "second");
}

#[test]
fn duplicate_key_across_types_keeps_later_value() {
    let mut bytes = Vec::new();
    push_text_entry(&mut bytes, "k", "text");
    push_int_entry(&mut bytes, "k", 9);
    bytes.push(8);
    let m = decode(bytes);
    assert_eq!(get_int(&m, "k"), 9);
}

#[test]
fn unrecognized_tag_is_skipped() {
    let mut bytes = Vec::new();
    push_text_entry(&mut bytes, "before", "a");
    bytes.push(0x05);
    push_cstr(&mut bytes, "ignored");
    push_text_entry(&mut bytes, "after", "b");
    bytes.push(8);
    let m = decode(bytes);
    assert_eq!(get_text(&m, "before"), "a");
    assert_eq!(get_text(&m, "after"), "b");
    assert!(m.get(&"ignored".to_string()).is_none());
}

#[test]
fn end_of_input_acts_as_terminator() {
    let mut bytes = Vec::new();
    push_text_entry(&mut bytes, "k", "v");
    // no closing tag: exhaustion ends the outermost object
    let m = decode(bytes);
    assert_eq!(get_text(&m, "k"), "v");
}

#[test]
fn malformed_text_is_fatal() {
    let mut bytes = Vec::new();
    bytes.push(1);
    bytes.push(0xFF); // not valid UTF-8
    bytes.push(0);
    push_cstr(&mut bytes, "v");
    bytes.push(8);
    let mut cur = ByteCursor::new(bytes);
    assert_eq!(parse_object(&mut cur), Err(DecodeError::MalformedText));
}

#[test]
fn truncated_integer_is_fatal() {
    let mut bytes = Vec::new();
    bytes.push(2);
    push_cstr(&mut bytes, "n");
    bytes.push(0x01);
    bytes.push(0x02); // only two of the four integer bytes
    let mut cur = ByteCursor::new(bytes);
    assert_eq!(parse_object(&mut cur), Err(DecodeError::TruncatedInteger));
}

#[test]
fn non_ascii_text_decodes() {
    let mut bytes = Vec::new();
    push_text_entry(&mut bytes, "k", "caf\u{e9} \u{2603}");
    bytes.push(8);
    let m = decode(bytes);
    assert_eq!(get_text(&m, "k"), "caf\u{e9} \u{2603}");
}

#[test]
fn end_to_end_scenario() {
    let mut bytes = Vec::new();
    bytes.push(0);
    push_cstr(&mut bytes, "shortcuts");
    push_shortcut_node(&mut bytes, "0", "Calc", 0);
    bytes.push(8);
    bytes.push(8);
    let mut parser = Parser::new("shortcuts.vdf", bytes).expect("open failed");
    let record = parser.next().expect("one record").expect("well formed");
    assert_eq!(record.id, 0);
    assert_eq!(record.app_name, "Calc");
    assert_eq!(record.exe, "calc.exe");
    assert_eq!(record.start_dir, "/");
    assert!(!record.is_hidden);
    assert!(record.allow_desktop_config);
    assert!(!record.open_vr);
    assert_eq!(record.last_play_time, 12345);
    assert!(record.tags.is_empty());
    assert!(parser.next().is_none());
}

#[test]
fn boolean_coercion_values() {
    // v == 1 is true; 0 and any other nonzero value are false
    for (stored, expected) in [(0u32, false), (1u32, true), (2u32, false)] {
        let mut bytes = Vec::new();
        bytes.push(0);
        push_cstr(&mut bytes, "shortcuts");
        push_shortcut_node(&mut bytes, "0", "App", stored);
        bytes.push(8);
        bytes.push(8);
        let mut parser = Parser::new("f", bytes).expect("open failed");
        let record = parser.next().expect("one record").expect("well formed");
        assert_eq!(record.is_hidden, expected, "stored value {stored}");
    }
}

#[test]
fn index_gap_stops_iteration() {
    let mut bytes = Vec::new();
    bytes.push(0);
    push_cstr(&mut bytes, "shortcuts");
    push_shortcut_node(&mut bytes, "0", "A", 0);
    push_shortcut_node(&mut bytes, "1", "B", 0);
    push_shortcut_node(&mut bytes, "3", "D", 0); // "2" is missing
    bytes.push(8);
    bytes.push(8);
    let mut parser = Parser::new("f", bytes).expect("open failed");
    let a = parser.next().expect("record 0").expect("well formed");
    let b = parser.next().expect("record 1").expect("well formed");
    assert_eq!((a.id, a.app_name.as_str()), (0, "A"));
    assert_eq!((b.id, b.app_name.as_str()), (1, "B"));
    // the gap terminates the sequence permanently; "3" is never reached
    assert!(parser.next().is_none());
    assert!(parser.next().is_none());
}

#[test]
fn missing_shortcuts_key_is_invalid_structure() {
    let mut bytes = Vec::new();
    push_text_entry(&mut bytes, "unrelated", "x");
    bytes.push(8);
    assert!(matches!(Parser::new("f", bytes), Err(ParserError::InvalidStructure)));
}

#[test]
fn wrongly_typed_shortcuts_key_is_invalid_structure() {
    let mut bytes = Vec::new();
    push_text_entry(&mut bytes, "shortcuts", "not an object");
    bytes.push(8);
    assert!(matches!(Parser::new("f", bytes), Err(ParserError::InvalidStructure)));
}

#[test]
fn decode_error_propagates_from_new() {
    let mut bytes = Vec::new();
    bytes.push(2);
    push_cstr(&mut bytes, "n");
    bytes.push(0x01); // truncated integer in the root object
    assert!(matches!(
        Parser::new("f", bytes),
        Err(ParserError::Decode(DecodeError::TruncatedInteger))
    ));
}

#[test]
fn missing_field_is_reported() {
    let mut bytes = Vec::new();
    bytes.push(0);
    push_cstr(&mut bytes, "shortcuts");
    bytes.push(0);
    push_cstr(&mut bytes, "0");
    push_text_entry(&mut bytes, "AppName", "App");
    // no "exe" and nothing after it
    bytes.push(8);
    bytes.push(8);
    bytes.push(8);
    let mut parser = Parser::new("f", bytes).expect("open failed");
    let outcome = parser.next().expect("element present");
    assert_eq!(outcome, Err(ProjectError::Missing(Field::Exe)));
    // a malformed element terminates the sequence
    assert!(parser.next().is_none());
}

#[test]
fn wrongly_typed_field_is_reported() {
    let mut bytes = Vec::new();
    bytes.push(0);
    push_cstr(&mut bytes, "shortcuts");
    bytes.push(0);
    push_cstr(&mut bytes, "0");
    push_text_entry(&mut bytes, "AppName", "App");
    push_int_entry(&mut bytes, "exe", 3); // text expected
    bytes.push(8);
    bytes.push(8);
    bytes.push(8);
    let mut parser = Parser::new("f", bytes).expect("open failed");
    let outcome = parser.next().expect("element present");
    assert_eq!(outcome, Err(ProjectError::WrongType(Field::Exe)));
}

#[test]
fn non_object_element_is_reported() {
    let mut bytes = Vec::new();
    bytes.push(0);
    push_cstr(&mut bytes, "shortcuts");
    push_text_entry(&mut bytes, "0", "just text");
    bytes.push(8);
    bytes.push(8);
    let mut parser = Parser::new("f", bytes).expect("open failed");
    let outcome = parser.next().expect("element present");
    assert_eq!(outcome, Err(ProjectError::NotAnObject));
    assert!(parser.next().is_none());
}

#[test]
fn index_key_is_decimal() {
    assert_eq!(index_key(0), "0");
    assert_eq!(index_key(7), "7");
    assert_eq!(index_key(10), "10");
    assert_eq!(index_key(409), "409");
    assert_eq!(index_key(u32::MAX), "4294967295");
}

#[test]
fn shortcut_new_sets_fields() {
    let s = Shortcut::new(
        3,
        "App",
        "app.exe",
        "/opt",
        true,
        "icon.png".to_string(),
        "--flag",
        false,
        "/path",
        99,
        true,
        vec!["tag".to_string()],
    );
    assert_eq!(s.id, 3);
    assert_eq!(s.app_name, "App");
    assert_eq!(s.exe, "app.exe");
    assert_eq!(s.start_dir, "/opt");
    assert!(s.is_hidden);
    assert_eq!(s.icon, "icon.png");
    assert_eq!(s.launch_options, "--flag");
    assert!(!s.allow_desktop_config);
    assert_eq!(s.shortcut_path, "/path");
    assert_eq!(s.last_play_time, 99);
    assert!(s.open_vr);
    assert_eq!(s.tags, vec!["tag".to_string()]);
}

#[test]
fn default_shortcut_values() {
    let s = Shortcut::default();
    assert_eq!(s.id, 0);
    assert_eq!(s.app_name, "Default Shortcut");
    assert_eq!(s.exe, "calc.exe");
    assert_eq!(s.start_dir, "/");
    assert!(!s.is_hidden);
    assert_eq!(s.icon, "");
    assert_eq!(s.launch_options, "");
    assert!(s.allow_desktop_config);
    assert_eq!(s.shortcut_path, "");
    assert!(!s.open_vr);
    assert!(s.tags.is_empty());
}

#[test]
fn filename_is_kept() {
    let mut bytes = Vec::new();
    bytes.push(0);
    push_cstr(&mut bytes, "shortcuts");
    bytes.push(8);
    bytes.push(8);
    let parser = Parser::new("my/shortcuts.vdf", bytes).expect("open failed");
    assert_eq!(parser.filename(), "my/shortcuts.vdf");
}

#[test]
fn empty_input_has_no_shortcuts() {
    assert!(matches!(Parser::new("f", Vec::new()), Err(ParserError::InvalidStructure)));
}

#[test]
fn nested_terminator_returns_to_parent_level() {
    let mut bytes = Vec::new();
    bytes.push(0);
    push_cstr(&mut bytes, "sub");
    push_text_entry(&mut bytes, "inner", "x");
    bytes.push(8); // ends only the nested object
    push_text_entry(&mut bytes, "after", "y");
    bytes.push(8);
    let m = decode(bytes);
    match m.get(&"sub".to_string()) {
        Some(Value::Object(sub)) => assert_eq!(get_text(sub, "inner"), "x"),
        other => panic!("expected object for sub, got {other:?}"),
    }
    assert_eq!(get_text(&m, "after"), "y");
}

#[test]
fn deeply_nested_objects_decode() {
    let mut bytes = Vec::new();
    bytes.push(0);
    push_cstr(&mut bytes, "a");
    bytes.push(0);
    push_cstr(&mut bytes, "b");
    push_int_entry(&mut bytes, "n", 5);
    bytes.push(8);
    bytes.push(8);
    bytes.push(8);
    let m = decode(bytes);
    let a = match m.get(&"a".to_string()) {
        Some(Value::Object(a)) => a,
        other => panic!("expected object for a, got {other:?}"),
    };
    let b = match a.get(&"b".to_string()) {
        Some(Value::Object(b)) => b,
        other => panic!("expected object for b, got {other:?}"),
    };
    assert_eq!(get_int(b, "n"), 5);
}

#[test]
fn end_of_input_inside_key_is_implicit_terminator() {
    // the key runs to the end of the input; the text value is then empty
    let bytes = vec![1, b'a', b'b'];
    let m = decode(bytes);
    assert_eq!(get_text(&m, "ab"), "");
}
