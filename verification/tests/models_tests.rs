use trace_viewer::ansi_parser::{parse_ansi, AnsiSegment, AnsiStyle};
use trace_viewer::decode::{action_from_json, action_to_json, decode_event};
use trace_viewer::json::{get_field, parse_json, JsonValue};
use trace_viewer::models::{
    ActionEntry, ContextEntry, LogEntry, PageEntry, ResourceSnapshot, ScreencastFrame,
    SerializedError, TestCaseCollection, TestStatus, TraceEvent, TraceModel,
};

#[test]
fn test_parse_simple_text() {
    let input = "Hello, world!";
    let segments = parse_ansi(input);
    assert_eq!(segments.len(), 1);
    assert_eq!(segments[0].text, "Hello, world!");
    assert_eq!(segments[0].styles.len(), 0);
}

#[test]
fn test_parse_red_text() {
    let input = "\x1b[31mRed text\x1b[39m";
    let segments = parse_ansi(input);
    assert_eq!(segments.len(), 1);
    assert_eq!(segments[0].text, "Red text");
    assert!(segments[0].styles.contains(&AnsiStyle::FgRed));
}

#[test]
fn test_parse_bracket_format() {
    let input = "[31mRed[39m";
    let segments = parse_ansi(input);
    assert_eq!(segments.len(), 1);
    assert_eq!(segments[0].text, "Red");
    assert!(segments[0].styles.contains(&AnsiStyle::FgRed));
}

#[test]
fn test_parse_mixed_styles() {
    let input = "[2mexpect([22m[31mreceived[39m[2m).[22m";
    let segments = parse_ansi(input);
    assert!(!segments.is_empty());
}

#[test]
fn test_css_classes() {
    let segment = AnsiSegment::new("test".to_string(), vec![AnsiStyle::Bold, AnsiStyle::FgRed]);
    let classes = segment.css_classes();
    assert!(classes.contains("ansi-bold"));
    assert!(classes.contains("ansi-red"));
}

#[test]
fn test_trace_model_default() {
    let model = TraceModel::default();
    assert_eq!(model.contexts.len(), 0);
}

#[test]
fn test_trace_model_new() {
    let model = TraceModel::new();
    assert_eq!(model.contexts.len(), 0);
}

fn decode_line(line: &str) -> TraceEvent {
    let value = parse_json(line).expect("line should parse as JSON");
    decode_event(&value).expect("record should decode")
}

#[test]
fn test_context_options_event_deserialization() {
    let json = r#"{
        "type": "context-options",
        "version": 1,
        "browserName": "chromium",
        "platform": "linux",
        "playwrightVersion": "1.40.0",
        "wallTime": 1700000000000,
        "monotonicTime": 1000,
        "title": "Test Title"
    }"#;
    match decode_line(json) {
        TraceEvent::ContextOptions(e) => {
            assert_eq!(e.browser_name, "chromium");
            assert_eq!(e.platform.as_deref(), Some("linux"));
            assert_eq!(e.playwright_version.as_deref(), Some("1.40.0"));
            assert_eq!(e.title.as_deref(), Some("Test Title"));
            assert_eq!(e.version, 1);
        }
        _ => panic!("Expected ContextOptions event"),
    }
}

#[test]
fn test_before_action_event_deserialization() {
    let json = r#"{
        "type": "before",
        "callId": "call@1",
        "startTime": 1000,
        "title": "page.goto",
        "class": "Page",
        "method": "goto",
        "params": {"url": "https://example.com"},
        "pageId": "page@1"
    }"#;
    match decode_line(json) {
        TraceEvent::Before(e) => {
            assert_eq!(e.call_id, "call@1");
            assert_eq!(e.start_time, 1000);
            assert_eq!(e.title.as_deref(), Some("page.goto"));
            assert_eq!(e.class, "Page");
            assert_eq!(e.method, "goto");
            assert!(e.params.iter().any(|(k, _)| k == "url"));
        }
        _ => panic!("Expected Before event"),
    }
}

#[test]
fn test_after_action_event_deserialization() {
    let json = r#"{
        "type": "after",
        "callId": "call@1",
        "endTime": 2000
    }"#;
    match decode_line(json) {
        TraceEvent::After(e) => {
            assert_eq!(e.call_id, "call@1");
            assert_eq!(e.end_time, 2000);
            assert!(e.error.is_none());
        }
        _ => panic!("Expected After event"),
    }
}

#[test]
fn test_after_action_with_error() {
    let json = r#"{
        "type": "after",
        "callId": "call@1",
        "endTime": 2000,
        "error": {"message": "Element not found"}
    }"#;
    match decode_line(json) {
        TraceEvent::After(e) => {
            assert!(e.error.is_some());
            let err = e.error.unwrap();
            assert_eq!(err.message.as_deref(), Some("Element not found"));
        }
        _ => panic!("Expected After event"),
    }
}

#[test]
fn test_screencast_frame_event_deserialization() {
    let json = r#"{
        "type": "screencast-frame",
        "pageId": "page@1",
        "sha1": "abc123",
        "width": 1280,
        "height": 720,
        "timestamp": 1500
    }"#;
    match decode_line(json) {
        TraceEvent::ScreencastFrame(e) => {
            assert_eq!(e.page_id, "page@1");
            assert_eq!(e.sha1, "abc123");
            assert_eq!(e.width, 1280);
            assert_eq!(e.height, 720);
            assert_eq!(e.timestamp, 1500);
        }
        _ => panic!("Expected ScreencastFrame event"),
    }
}

#[test]
fn test_action_entry_serialization() {
    let action = ActionEntry {
        action_type: "before".to_string(),
        call_id: "call@1".to_string(),
        start_time: 1000,
        end_time: Some(2000),
        title: Some("Test Action".to_string()),
        class: Some("Page".to_string()),
        method: Some("click".to_string()),
        params: Vec::new(),
        page_id: Some("page@1".to_string()),
        parent_id: None,
        error: None,
        log: Vec::new(),
    };
    let value = action_to_json(&action);
    match get_field(&value, "type") {
        Some(JsonValue::Str(s)) => assert_eq!(s, "before"),
        _ => panic!("type field missing"),
    }
    match get_field(&value, "callId") {
        Some(JsonValue::Str(s)) => assert_eq!(s, "call@1"),
        _ => panic!("callId field missing"),
    }
    match (get_field(&value, "startTime"), get_field(&value, "endTime")) {
        (Some(JsonValue::Int(s)), Some(JsonValue::Int(e))) => {
            assert_eq!(*s, 1000);
            assert_eq!(*e, 2000);
        }
        _ => panic!("time fields missing"),
    }
}

#[test]
fn test_action_round_trip_preserves_fields() {
    let action = ActionEntry {
        action_type: "before".to_string(),
        call_id: "call@7".to_string(),
        start_time: 5,
        end_time: None,
        title: None,
        class: Some("Frame".to_string()),
        method: Some("goto".to_string()),
        params: Vec::new(),
        page_id: None,
        parent_id: Some("call@1".to_string()),
        error: Some(SerializedError {
            message: Some("boom".to_string()),
            stack: None,
        }),
        log: vec![LogEntry {
            time: 9,
            message: "hello".to_string(),
        }],
    };
    let encoded = action_to_json(&action);
    let decoded = action_from_json(&encoded).expect("round trip should decode");
    assert_eq!(decoded, action);
}

#[test]
fn test_context_entry_with_pages() {
    let frame = ScreencastFrame {
        sha1: "abc123".to_string(),
        timestamp: 1000,
        width: 1280,
        height: 720,
        frame_swap_wall_time: None,
    };
    let page = PageEntry {
        page_id: "page@1".to_string(),
        screencast_frames: vec![frame],
    };
    let context = ContextEntry {
        start_time: 0,
        end_time: 5000,
        browser_name: "chromium".to_string(),
        platform: Some("linux".to_string()),
        playwright_version: Some("1.40.0".to_string()),
        wall_time: 1700000000000,
        title: Some("Test".to_string()),
        pages: vec![page],
        actions: vec![],
        resources: vec![],
        events: vec![],
        errors: vec![],
    };
    assert_eq!(context.pages.len(), 1);
    assert_eq!(context.pages[0].screencast_frames.len(), 1);
}

#[test]
fn test_serialized_error() {
    let error = SerializedError {
        message: Some("Test error".to_string()),
        stack: Some("Error: Test error\n  at test.js:10".to_string()),
    };
    assert_eq!(error.message.as_deref(), Some("Test error"));
    assert_eq!(
        error.stack.as_deref(),
        Some("Error: Test error\n  at test.js:10")
    );
}

#[test]
fn test_log_entry() {
    let log = LogEntry {
        time: 1234,
        message: "Test log message".to_string(),
    };
    assert_eq!(log.time, 1234);
    assert_eq!(log.message, "Test log message");
}

#[test]
fn test_resource_snapshot() {
    let resource = ResourceSnapshot {
        url: "https://example.com/script.js".to_string(),
        content_type: Some("application/javascript".to_string()),
        sha1: Some("abc123".to_string()),
    };
    assert_eq!(resource.url, "https://example.com/script.js");
    assert_eq!(resource.content_type.as_deref(), Some("application/javascript"));
    assert_eq!(resource.sha1.as_deref(), Some("abc123"));
}

#[test]
fn test_unknown_event_type() {
    let json = r#"{
        "type": "unknown-event-type",
        "data": "some data"
    }"#;
    assert!(matches!(decode_line(json), TraceEvent::Other));
}

#[test]
fn test_action_with_params() {
    let json = r#"{
        "type": "before",
        "callId": "call@1",
        "startTime": 1000,
        "title": "page.goto",
        "class": "Frame",
        "method": "goto",
        "params": {
            "url": "https://example.com",
            "timeout": 30000,
            "waitUntil": "load"
        },
        "pageId": "page@1"
    }"#;
    match decode_line(json) {
        TraceEvent::Before(e) => {
            let url = e.params.iter().find(|(k, _)| k == "url");
            assert!(matches!(url, Some((_, JsonValue::Str(s))) if s == "https://example.com"));
            let timeout = e.params.iter().find(|(k, _)| k == "timeout");
            assert!(matches!(timeout, Some((_, JsonValue::Int(30000)))));
            assert!(e.params.iter().any(|(k, _)| k == "waitUntil"));
        }
        _ => panic!("Expected Before event"),
    }
}

#[test]
fn test_test_case_collection_default() {
    let collection = TestCaseCollection::default();
    assert_eq!(collection.test_cases.len(), 0);
    let collection2 = TestCaseCollection::new();
    assert_eq!(collection2.test_cases.len(), 0);
}

#[test]
fn test_test_status_to_string() {
    assert_eq!(TestStatus::Passed.to_string(), "passed");
    assert_eq!(TestStatus::Failed.to_string(), "failed");
    assert_eq!(TestStatus::Skipped.to_string(), "skipped");
    assert_eq!(TestStatus::Pending.to_string(), "pending");
}
