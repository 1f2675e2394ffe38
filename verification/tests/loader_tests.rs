use std::io::Write;
use trace_viewer::models::TestStatus;
use trace_viewer::test_case_loader::{
    determine_mime_type, extract_first_line, extract_folder_name, format_test_name,
    load_test_cases_from_zip, TestCaseLoadError,
};
use trace_viewer::trace_loader::{load_trace_from_zip, LoadError};
use zip::write::SimpleFileOptions;
use zip::ZipWriter;

/// One archive entry: a name and its content.
fn build_zip(entries: &[(&str, &[u8])]) -> Vec<u8> {
    let mut buf = Vec::new();
    {
        let mut writer = ZipWriter::new(std::io::Cursor::new(&mut buf));
        for (name, data) in entries {
            writer
                .start_file(name.to_string(), SimpleFileOptions::default())
                .unwrap();
            writer.write_all(data).unwrap();
        }
        writer.finish().unwrap();
    }
    buf
}

fn sample_trace_zip() -> Vec<u8> {
    let trace = "{\"type\":\"context-options\",\"version\":1,\"browserName\":\"chromium\",\"platform\":\"linux\",\"playwrightVersion\":\"1.40.0\",\"wallTime\":1700000000000,\"monotonicTime\":50,\"title\":\"Test\"}\n{\"type\":\"before\",\"callId\":\"c1\",\"startTime\":100,\"class\":\"Page\",\"method\":\"goto\",\"params\":{\"url\":\"https://x\"}}\n{\"type\":\"after\",\"callId\":\"c1\",\"endTime\":150}\n";
    build_zip(&[("0.trace", trace.as_bytes())])
}

#[test]
fn test_load_single_trace_example() {
    let bytes = sample_trace_zip();
    let model = load_trace_from_zip(&bytes).expect("trace should load");
    assert_eq!(model.contexts.len(), 1);
    let context = &model.contexts[0];
    assert_eq!(context.browser_name, "chromium");
    assert_eq!(context.actions.len(), 1);
    let action = &context.actions[0];
    assert_eq!(action.call_id, "c1");
    assert_eq!(action.start_time, 100);
    assert_eq!(action.end_time, Some(150));
    assert_eq!(action.method.as_deref(), Some("goto"));
    assert!(action.params.iter().any(|(k, _)| k == "url"));
}

#[test]
fn test_context_time_bounds_from_events() {
    let bytes = sample_trace_zip();
    let model = load_trace_from_zip(&bytes).expect("trace should load");
    let context = &model.contexts[0];
    assert_eq!(context.start_time, 50);
    assert_eq!(context.end_time, 150);
    assert_eq!(context.wall_time, 1700000000000);
    assert_eq!(context.title.as_deref(), Some("Test"));
    assert_eq!(context.platform.as_deref(), Some("linux"));
}

#[test]
fn test_deeply_nested_report_fails() {
    let mut inner = sample_trace_zip();
    for _ in 0..10 {
        inner = build_zip(&[("data/nested.zip", inner.as_slice())]);
    }
    let result = load_trace_from_zip(&inner);
    assert!(result.is_err(), "Should refuse over-deep nesting");
    assert!(matches!(result.unwrap_err(), LoadError::ArchiveTooDeep));
}

#[test]
fn test_encrypted_entry_fails_the_load() {
    let mut buf = Vec::new();
    {
        let mut writer = ZipWriter::new(std::io::Cursor::new(&mut buf));
        let options =
            SimpleFileOptions::default().with_aes_encryption(zip::AesMode::Aes256, "secret");
        writer.start_file("0.trace", options).unwrap();
        writer.write_all(b"{}\n").unwrap();
        writer.finish().unwrap();
    }
    let result = load_trace_from_zip(&buf);
    assert!(result.is_err(), "Should refuse an archive with an unopenable entry");
    assert!(matches!(result.unwrap_err(), LoadError::ZipError(_)));
}

#[test]
fn test_load_twice_is_identical() {
    let bytes = sample_trace_zip();
    let first = load_trace_from_zip(&bytes).expect("first load");
    let second = load_trace_from_zip(&bytes).expect("second load");
    assert_eq!(first, second);
}

#[test]
fn test_malformed_line_is_skipped() {
    let trace = "{\"type\":\"before\",\"callId\":\"c1\",\"startTime\":100,\"class\":\"Page\",\"method\":\"goto\"}\n{not json\n{\"type\":\"after\",\"callId\":\"c1\",\"endTime\":150}\n";
    let bytes = build_zip(&[("0.trace", trace.as_bytes())]);
    let model = load_trace_from_zip(&bytes).expect("trace should load");
    assert_eq!(model.contexts.len(), 1);
    let context = &model.contexts[0];
    assert_eq!(context.actions.len(), 1);
    assert_eq!(context.actions[0].end_time, Some(150));
    assert_eq!(context.events.len(), 2);
}

#[test]
fn test_after_without_before_is_dropped() {
    let trace = "{\"type\":\"after\",\"callId\":\"ghost\",\"endTime\":150}\n{\"type\":\"before\",\"callId\":\"c1\",\"startTime\":100,\"class\":\"Page\",\"method\":\"goto\"}\n";
    let bytes = build_zip(&[("0.trace", trace.as_bytes())]);
    let model = load_trace_from_zip(&bytes).expect("trace should load");
    assert_eq!(model.contexts[0].actions.len(), 1);
    assert_eq!(model.contexts[0].actions[0].call_id, "c1");
}

#[test]
fn test_actions_sorted_by_start_time() {
    let trace = "{\"type\":\"before\",\"callId\":\"b\",\"startTime\":300,\"class\":\"Page\",\"method\":\"click\"}\n{\"type\":\"before\",\"callId\":\"a\",\"startTime\":100,\"class\":\"Page\",\"method\":\"goto\"}\n{\"type\":\"before\",\"callId\":\"m\",\"startTime\":200,\"class\":\"Page\",\"method\":\"fill\"}\n";
    let bytes = build_zip(&[("0.trace", trace.as_bytes())]);
    let model = load_trace_from_zip(&bytes).expect("trace should load");
    let actions = &model.contexts[0].actions;
    assert_eq!(actions.len(), 3);
    assert_eq!(actions[0].call_id, "a");
    assert_eq!(actions[1].call_id, "m");
    assert_eq!(actions[2].call_id, "b");
}

#[test]
fn trace_loader_tests_test_load_invalid_zip() {
    let invalid_data = b"not a zip file";
    let result = load_trace_from_zip(invalid_data);
    assert!(result.is_err(), "Should fail on invalid ZIP");
    assert!(matches!(result.unwrap_err(), LoadError::ZipError(_)));
}

#[test]
fn test_load_zip_without_trace_file() {
    let buf = build_zip(&[("dummy.txt", b"dummy content")]);
    let result = load_trace_from_zip(&buf);
    assert!(result.is_err(), "Should fail without trace files");
    assert!(matches!(result.unwrap_err(), LoadError::MissingTraceFile));
}

#[test]
fn test_load_report_archive() {
    let sample_trace = sample_trace_zip();
    let report = build_zip(&[
        ("data/trace1.zip", sample_trace.as_slice()),
        ("data/trace2.zip", sample_trace.as_slice()),
    ]);
    let result = load_trace_from_zip(&report);
    assert!(result.is_ok(), "Failed to load report archive: {:?}", result.err());
    let model = result.unwrap();
    assert!(!model.contexts.is_empty(), "No contexts loaded from report archive");
    let single_trace_model = load_trace_from_zip(&sample_trace).unwrap();
    let expected_context_count = single_trace_model.contexts.len() * 2;
    assert_eq!(
        model.contexts.len(),
        expected_context_count,
        "Expected {} contexts from 2 nested traces, got {}",
        expected_context_count,
        model.contexts.len()
    );
}

#[test]
fn test_report_archive_empty_data_folder() {
    let mut buf = Vec::new();
    {
        let mut writer = ZipWriter::new(std::io::Cursor::new(&mut buf));
        writer
            .add_directory("data/", SimpleFileOptions::default())
            .unwrap();
        writer
            .start_file("data/readme.txt", SimpleFileOptions::default())
            .unwrap();
        writer.write_all(b"This is a readme").unwrap();
        writer.finish().unwrap();
    }
    let result = load_trace_from_zip(&buf);
    assert!(result.is_err(), "Should fail with empty data folder");
    assert!(matches!(result.unwrap_err(), LoadError::MissingTraceFile));
}

#[test]
fn test_report_archive_with_multiple_traces() {
    let sample_trace = sample_trace_zip();
    let report = build_zip(&[
        ("data/trace1.zip", sample_trace.as_slice()),
        ("data/trace2.zip", sample_trace.as_slice()),
        ("data/trace3.zip", sample_trace.as_slice()),
    ]);
    let result = load_trace_from_zip(&report);
    assert!(result.is_ok(), "Failed to load report archive");
    let model = result.unwrap();
    let single_trace_model = load_trace_from_zip(&sample_trace).unwrap();
    let expected_context_count = single_trace_model.contexts.len() * 3;
    assert_eq!(
        model.contexts.len(),
        expected_context_count,
        "Expected {} contexts from 3 nested traces",
        expected_context_count
    );
}

#[test]
fn test_network_events_are_retained() {
    let trace = "{\"type\":\"before\",\"callId\":\"c1\",\"startTime\":100,\"class\":\"Page\",\"method\":\"goto\"}\n";
    let network = "{\"type\":\"resource\",\"url\":\"https://x\"}\n";
    let bytes = build_zip(&[
        ("0.trace", trace.as_bytes()),
        ("0.network", network.as_bytes()),
    ]);
    let model = load_trace_from_zip(&bytes).expect("trace should load");
    let context = &model.contexts[0];
    assert_eq!(context.events.len(), 2);
    assert_eq!(context.actions.len(), 1);
}

#[test]
fn test_case_loader_tests_test_load_invalid_zip() {
    let invalid_bytes = b"This is not a valid ZIP file";
    let result = load_test_cases_from_zip(invalid_bytes);
    assert!(result.is_err(), "Should fail to load invalid ZIP");
    assert!(matches!(result.unwrap_err(), TestCaseLoadError::ZipError(_)));
}

#[test]
fn test_load_empty_zip() {
    let mut cursor = std::io::Cursor::new(Vec::new());
    {
        let zip = ZipWriter::new(&mut cursor);
        zip.finish().unwrap();
    }
    let bytes = cursor.into_inner();
    let result = load_test_cases_from_zip(&bytes);
    assert!(result.is_ok(), "Should handle empty ZIP gracefully");
    let test_cases = result.unwrap();
    assert_eq!(
        test_cases.test_cases.len(),
        0,
        "Empty ZIP should result in no test cases"
    );
}

#[test]
fn test_failed_folder_with_markdown_and_screenshot() {
    let bytes = build_zip(&[
        ("test-1-failed/error-context.md", b"Error: boom\nmore detail"),
        ("test-1-failed/shot.png", b"hello"),
    ]);
    let collection = load_test_cases_from_zip(&bytes).expect("bundle should load");
    assert_eq!(collection.test_cases.len(), 1);
    let case = &collection.test_cases[0];
    assert_eq!(case.id, "test-1-failed");
    assert_eq!(case.name, "Test 1 Failed");
    assert_eq!(case.status, TestStatus::Failed);
    assert_eq!(case.error_message.as_deref(), Some("Error: boom"));
    assert_eq!(case.screenshots.len(), 1);
    let shot = &case.screenshots[0];
    assert_eq!(shot.name, "shot.png");
    assert_eq!(shot.mime_type, "image/png");
    assert_eq!(shot.data_url, "data:image/png;base64,aGVsbG8=");
    assert_eq!(shot.size_bytes, Some(5));
}

#[test]
fn test_passed_folder_with_video_and_trace() {
    let bytes = build_zip(&[
        ("smoke_case/clip.webm", b"vid"),
        ("smoke_case/trace.zip", b"zipdata"),
        ("smoke_case/notes.txt", b"ignored"),
    ]);
    let collection = load_test_cases_from_zip(&bytes).expect("bundle should load");
    assert_eq!(collection.test_cases.len(), 1);
    let case = &collection.test_cases[0];
    assert_eq!(case.id, "smoke_case");
    assert_eq!(case.name, "Smoke Case");
    assert_eq!(case.status, TestStatus::Passed);
    assert!(case.error_message.is_none());
    let video = case.video.as_ref().expect("video expected");
    assert_eq!(video.mime_type, "video/webm");
    let trace = case.trace_file.as_ref().expect("trace expected");
    assert_eq!(trace.mime_type, "application/zip");
}

#[test]
fn test_macosx_entries_are_ignored() {
    let bytes = build_zip(&[
        ("__MACOSX/case-a/._shot.png", b"junk"),
        ("._hidden.md", b"junk"),
        ("case-a/shot.png", b"hello"),
    ]);
    let collection = load_test_cases_from_zip(&bytes).expect("bundle should load");
    assert_eq!(collection.test_cases.len(), 1);
    assert_eq!(collection.test_cases[0].id, "case-a");
}

#[test]
fn test_determine_mime_type_cases() {
    assert_eq!(determine_mime_type("a/Shot.PNG"), "image/png");
    assert_eq!(determine_mime_type("b.jpg"), "image/jpeg");
    assert_eq!(determine_mime_type("b.jpeg"), "image/jpeg");
    assert_eq!(determine_mime_type("c.webm"), "video/webm");
    assert_eq!(determine_mime_type("c.mp4"), "video/mp4");
    assert_eq!(determine_mime_type("d.zip"), "application/zip");
    assert_eq!(determine_mime_type("e.txt"), "application/octet-stream");
}

#[test]
fn test_extract_folder_name_cases() {
    assert_eq!(extract_folder_name("a/b/c.png").as_deref(), Some("a"));
    assert_eq!(extract_folder_name("/lead/slash").as_deref(), Some("lead"));
    assert_eq!(extract_folder_name("plain.md").as_deref(), Some("plain.md"));
    assert!(extract_folder_name("///").is_none());
    assert!(extract_folder_name("").is_none());
}

#[test]
fn test_extract_first_line_cases() {
    assert_eq!(
        extract_first_line("\n\n  first line  \nsecond").as_deref(),
        Some("first line")
    );
    assert!(extract_first_line("  \n \t \n").is_none());
}

#[test]
fn test_format_test_name_cases() {
    assert_eq!(format_test_name("test-case-1"), "Test Case 1");
    assert_eq!(format_test_name("a__b"), "A B");
    assert_eq!(format_test_name(""), "");
}
