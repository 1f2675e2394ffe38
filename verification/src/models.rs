//! The reconstructed trace model and the raw event records it is built
//! from.
//!
//! Times are monotonic milliseconds held as signed 64-bit integers; an
//! action's end time stays `None` until the matching completion event
//! arrives.  Each type has a ghost representation (`...Rep`) over
//! character sequences, which the loader contracts speak of.
use vstd::prelude::*;

use crate::json::{JVal, JsonValue};

verus! {

/// The root aggregate: one context per recorded session, in archive
/// discovery order.
#[derive(Debug, PartialEq)]
pub struct TraceModel {
    pub contexts: Vec<ContextEntry>,
}

/// One browser/automation session reconstructed from a trace stream.
#[derive(Debug, PartialEq)]
pub struct ContextEntry {
    pub start_time: i64,
    pub end_time: i64,
    pub browser_name: String,
    pub platform: Option<String>,
    pub playwright_version: Option<String>,
    pub wall_time: i64,
    pub title: Option<String>,
    pub pages: Vec<PageEntry>,
    pub actions: Vec<ActionEntry>,
    pub resources: Vec<ResourceSnapshot>,
    pub events: Vec<TraceEvent>,
    pub errors: Vec<ErrorEvent>,
}

/// One page within a context, created lazily on its first screencast
/// frame.
#[derive(Debug, Clone, PartialEq)]
pub struct PageEntry {
    pub page_id: String,
    pub screencast_frames: Vec<ScreencastFrame>,
}

/// One captured frame descriptor.
#[derive(Debug, Clone, PartialEq)]
pub struct ScreencastFrame {
    pub sha1: String,
    pub timestamp: i64,
    pub width: u32,
    pub height: u32,
    pub frame_swap_wall_time: Option<i64>,
}

/// One intercepted API call, correlated from a `before` event and, when
/// it arrives, the matching `after` event.
#[derive(Debug, PartialEq)]
pub struct ActionEntry {
    pub action_type: String,
    pub call_id: String,
    pub start_time: i64,
    pub end_time: Option<i64>,
    pub title: Option<String>,
    pub class: Option<String>,
    pub method: Option<String>,
    pub params: Vec<(String, JsonValue)>,
    pub page_id: Option<String>,
    pub parent_id: Option<String>,
    pub error: Option<SerializedError>,
    pub log: Vec<LogEntry>,
}

/// One timestamped log line attached to an action.
#[derive(Debug, Clone, PartialEq)]
pub struct LogEntry {
    pub time: i64,
    pub message: String,
}

/// A failure message with an optional stack trace.
#[derive(Debug, Clone, PartialEq)]
pub struct SerializedError {
    pub message: Option<String>,
    pub stack: Option<String>,
}

/// One raw trace record, discriminated by its `type` field.  Unknown
/// kinds decode to `Other` and are inert.
#[derive(Debug, PartialEq)]
pub enum TraceEvent {
    Before(BeforeActionEvent),
    After(AfterActionEvent),
    Input(InputActionEvent),
    ScreencastFrame(ScreencastFrameEvent),
    ContextOptions(ContextOptionsEvent),
    Other,
}

#[derive(Debug, PartialEq)]
pub struct BeforeActionEvent {
    pub call_id: String,
    pub start_time: i64,
    pub title: Option<String>,
    pub class: String,
    pub method: String,
    pub params: Vec<(String, JsonValue)>,
    pub page_id: Option<String>,
    pub parent_id: Option<String>,
}

#[derive(Debug, PartialEq)]
pub struct AfterActionEvent {
    pub call_id: String,
    pub end_time: i64,
    pub error: Option<SerializedError>,
    pub result: Option<JsonValue>,
}

#[derive(Debug, Clone, PartialEq)]
pub struct InputActionEvent {
    pub call_id: String,
    pub input_snapshot: Option<String>,
}

#[derive(Debug, Clone, PartialEq)]
pub struct ScreencastFrameEvent {
    pub page_id: String,
    pub sha1: String,
    pub width: u32,
    pub height: u32,
    pub timestamp: i64,
}

#[derive(Debug, Clone, PartialEq)]
pub struct ContextOptionsEvent {
    pub version: u32,
    pub browser_name: String,
    pub platform: Option<String>,
    pub playwright_version: Option<String>,
    pub wall_time: i64,
    pub monotonic_time: i64,
    pub title: Option<String>,
}

/// An uncaught failure attached to a whole context.
#[derive(Debug, Clone, PartialEq)]
pub struct ErrorEvent {
    pub message: String,
    pub stack: Option<String>,
}

/// A reference to a captured network resource.
#[derive(Debug, Clone, PartialEq)]
pub struct ResourceSnapshot {
    pub url: String,
    pub content_type: Option<String>,
    pub sha1: Option<String>,
}

// --- ghost representations ---

pub ghost struct TraceModelRep {
    pub contexts: Seq<ContextRep>,
}

pub ghost struct ContextRep {
    pub start_time: i64,
    pub end_time: i64,
    pub browser_name: Seq<char>,
    pub platform: Option<Seq<char>>,
    pub playwright_version: Option<Seq<char>>,
    pub wall_time: i64,
    pub title: Option<Seq<char>>,
    pub pages: Seq<PageRep>,
    pub actions: Seq<ActionRep>,
    pub resources: Seq<ResourceRep>,
    pub events: Seq<EventRep>,
    pub errors: Seq<ErrorEventRep>,
}

pub ghost struct PageRep {
    pub page_id: Seq<char>,
    pub screencast_frames: Seq<FrameRep>,
}

pub ghost struct FrameRep {
    pub sha1: Seq<char>,
    pub timestamp: i64,
    pub width: u32,
    pub height: u32,
    pub frame_swap_wall_time: Option<i64>,
}

pub ghost struct ActionRep {
    pub action_type: Seq<char>,
    pub call_id: Seq<char>,
    pub start_time: i64,
    pub end_time: Option<i64>,
    pub title: Option<Seq<char>>,
    pub class: Option<Seq<char>>,
    pub method: Option<Seq<char>>,
    pub params: Seq<(Seq<char>, JVal)>,
    pub page_id: Option<Seq<char>>,
    pub parent_id: Option<Seq<char>>,
    pub error: Option<SerializedErrorRep>,
    pub log: Seq<LogRep>,
}

pub ghost struct LogRep {
    pub time: i64,
    pub message: Seq<char>,
}

pub ghost struct SerializedErrorRep {
    pub message: Option<Seq<char>>,
    pub stack: Option<Seq<char>>,
}

pub ghost enum EventRep {
    Before(BeforeRep),
    After(AfterRep),
    Input(InputRep),
    ScreencastFrame(FrameEventRep),
    ContextOptions(ContextOptionsRep),
    Other,
}

pub ghost struct BeforeRep {
    pub call_id: Seq<char>,
    pub start_time: i64,
    pub title: Option<Seq<char>>,
    pub class: Seq<char>,
    pub method: Seq<char>,
    pub params: Seq<(Seq<char>, JVal)>,
    pub page_id: Option<Seq<char>>,
    pub parent_id: Option<Seq<char>>,
}

pub ghost struct AfterRep {
    pub call_id: Seq<char>,
    pub end_time: i64,
    pub error: Option<SerializedErrorRep>,
    pub result: Option<JVal>,
}

pub ghost struct InputRep {
    pub call_id: Seq<char>,
    pub input_snapshot: Option<Seq<char>>,
}

pub ghost struct FrameEventRep {
    pub page_id: Seq<char>,
    pub sha1: Seq<char>,
    pub width: u32,
    pub height: u32,
    pub timestamp: i64,
}

pub ghost struct ContextOptionsRep {
    pub version: u32,
    pub browser_name: Seq<char>,
    pub platform: Option<Seq<char>>,
    pub playwright_version: Option<Seq<char>>,
    pub wall_time: i64,
    pub monotonic_time: i64,
    pub title: Option<Seq<char>>,
}

pub ghost struct ErrorEventRep {
    pub message: Seq<char>,
    pub stack: Option<Seq<char>>,
}

pub ghost struct ResourceRep {
    pub url: Seq<char>,
    pub content_type: Option<Seq<char>>,
    pub sha1: Option<Seq<char>>,
}

// --- views ---

impl View for SerializedError {
    type V = SerializedErrorRep;

    open spec fn view(&self) -> SerializedErrorRep {
        SerializedErrorRep {
            message: self.message.deep_view(),
            stack: self.stack.deep_view(),
        }
    }
}

impl DeepView for SerializedError {
    type V = SerializedErrorRep;

    open spec fn deep_view(&self) -> SerializedErrorRep {
        self.view()
    }
}

impl View for LogEntry {
    type V = LogRep;

    open spec fn view(&self) -> LogRep {
        LogRep { time: self.time, message: self.message@ }
    }
}

impl DeepView for LogEntry {
    type V = LogRep;

    open spec fn deep_view(&self) -> LogRep {
        self.view()
    }
}

impl View for ActionEntry {
    type V = ActionRep;

    open spec fn view(&self) -> ActionRep {
        ActionRep {
            action_type: self.action_type@,
            call_id: self.call_id@,
            start_time: self.start_time,
            end_time: self.end_time,
            title: self.title.deep_view(),
            class: self.class.deep_view(),
            method: self.method.deep_view(),
            params: self.params.deep_view(),
            page_id: self.page_id.deep_view(),
            parent_id: self.parent_id.deep_view(),
            error: self.error.deep_view(),
            log: self.log.deep_view(),
        }
    }
}

impl DeepView for ActionEntry {
    type V = ActionRep;

    open spec fn deep_view(&self) -> ActionRep {
        self.view()
    }
}

impl View for ScreencastFrame {
    type V = FrameRep;

    open spec fn view(&self) -> FrameRep {
        FrameRep {
            sha1: self.sha1@,
            timestamp: self.timestamp,
            width: self.width,
            height: self.height,
            frame_swap_wall_time: self.frame_swap_wall_time,
        }
    }
}

impl DeepView for ScreencastFrame {
    type V = FrameRep;

    open spec fn deep_view(&self) -> FrameRep {
        self.view()
    }
}

impl View for PageEntry {
    type V = PageRep;

    open spec fn view(&self) -> PageRep {
        PageRep {
            page_id: self.page_id@,
            screencast_frames: self.screencast_frames.deep_view(),
        }
    }
}

impl DeepView for PageEntry {
    type V = PageRep;

    open spec fn deep_view(&self) -> PageRep {
        self.view()
    }
}

impl View for ErrorEvent {
    type V = ErrorEventRep;

    open spec fn view(&self) -> ErrorEventRep {
        ErrorEventRep { message: self.message@, stack: self.stack.deep_view() }
    }
}

impl DeepView for ErrorEvent {
    type V = ErrorEventRep;

    open spec fn deep_view(&self) -> ErrorEventRep {
        self.view()
    }
}

impl View for ResourceSnapshot {
    type V = ResourceRep;

    open spec fn view(&self) -> ResourceRep {
        ResourceRep {
            url: self.url@,
            content_type: self.content_type.deep_view(),
            sha1: self.sha1.deep_view(),
        }
    }
}

impl DeepView for ResourceSnapshot {
    type V = ResourceRep;

    open spec fn deep_view(&self) -> ResourceRep {
        self.view()
    }
}

impl View for BeforeActionEvent {
    type V = BeforeRep;

    open spec fn view(&self) -> BeforeRep {
        BeforeRep {
            call_id: self.call_id@,
            start_time: self.start_time,
            title: self.title.deep_view(),
            class: self.class@,
            method: self.method@,
            params: self.params.deep_view(),
            page_id: self.page_id.deep_view(),
            parent_id: self.parent_id.deep_view(),
        }
    }
}

impl DeepView for BeforeActionEvent {
    type V = BeforeRep;

    open spec fn deep_view(&self) -> BeforeRep {
        self.view()
    }
}

impl View for AfterActionEvent {
    type V = AfterRep;

    open spec fn view(&self) -> AfterRep {
        AfterRep {
            call_id: self.call_id@,
            end_time: self.end_time,
            error: self.error.deep_view(),
            result: self.result.deep_view(),
        }
    }
}

impl DeepView for AfterActionEvent {
    type V = AfterRep;

    open spec fn deep_view(&self) -> AfterRep {
        self.view()
    }
}

impl View for InputActionEvent {
    type V = InputRep;

    open spec fn view(&self) -> InputRep {
        InputRep {
            call_id: self.call_id@,
            input_snapshot: self.input_snapshot.deep_view(),
        }
    }
}

impl DeepView for InputActionEvent {
    type V = InputRep;

    open spec fn deep_view(&self) -> InputRep {
        self.view()
    }
}

impl View for ScreencastFrameEvent {
    type V = FrameEventRep;

    open spec fn view(&self) -> FrameEventRep {
        FrameEventRep {
            page_id: self.page_id@,
            sha1: self.sha1@,
            width: self.width,
            height: self.height,
            timestamp: self.timestamp,
        }
    }
}

impl DeepView for ScreencastFrameEvent {
    type V = FrameEventRep;

    open spec fn deep_view(&self) -> FrameEventRep {
        self.view()
    }
}

impl View for ContextOptionsEvent {
    type V = ContextOptionsRep;

    open spec fn view(&self) -> ContextOptionsRep {
        ContextOptionsRep {
            version: self.version,
            browser_name: self.browser_name@,
            platform: self.platform.deep_view(),
            playwright_version: self.playwright_version.deep_view(),
            wall_time: self.wall_time,
            monotonic_time: self.monotonic_time,
            title: self.title.deep_view(),
        }
    }
}

impl DeepView for ContextOptionsEvent {
    type V = ContextOptionsRep;

    open spec fn deep_view(&self) -> ContextOptionsRep {
        self.view()
    }
}

impl View for TraceEvent {
    type V = EventRep;

    open spec fn view(&self) -> EventRep {
        match self {
            TraceEvent::Before(e) => EventRep::Before(e@),
            TraceEvent::After(e) => EventRep::After(e@),
            TraceEvent::Input(e) => EventRep::Input(e@),
            TraceEvent::ScreencastFrame(e) => EventRep::ScreencastFrame(e@),
            TraceEvent::ContextOptions(e) => EventRep::ContextOptions(e@),
            TraceEvent::Other => EventRep::Other,
        }
    }
}

impl DeepView for TraceEvent {
    type V = EventRep;

    open spec fn deep_view(&self) -> EventRep {
        self.view()
    }
}

impl View for ContextEntry {
    type V = ContextRep;

    open spec fn view(&self) -> ContextRep {
        ContextRep {
            start_time: self.start_time,
            end_time: self.end_time,
            browser_name: self.browser_name@,
            platform: self.platform.deep_view(),
            playwright_version: self.playwright_version.deep_view(),
            wall_time: self.wall_time,
            title: self.title.deep_view(),
            pages: self.pages.deep_view(),
            actions: self.actions.deep_view(),
            resources: self.resources.deep_view(),
            events: self.events.deep_view(),
            errors: self.errors.deep_view(),
        }
    }
}

impl DeepView for ContextEntry {
    type V = ContextRep;

    open spec fn deep_view(&self) -> ContextRep {
        self.view()
    }
}

impl View for TraceModel {
    type V = TraceModelRep;

    open spec fn view(&self) -> TraceModelRep {
        TraceModelRep { contexts: self.contexts.deep_view() }
    }
}

impl DeepView for TraceModel {
    type V = TraceModelRep;

    open spec fn deep_view(&self) -> TraceModelRep {
        self.view()
    }
}

impl TraceModel {
    /// An empty model, ready to receive contexts.
    pub fn new() -> (r: Self)
        ensures
            r@.contexts == Seq::<ContextRep>::empty(),
    {
        let r = Self { contexts: Vec::new() };
        proof {
            assert(r@.contexts =~= Seq::<ContextRep>::empty());
        }
        r
    }
}

impl Default for TraceModel {
    fn default() -> (r: Self)
        ensures
            r@.contexts == Seq::<ContextRep>::empty(),
    {
        Self::new()
    }
}

// --- test-case bundle model ---

/// All test cases recovered from one folder-per-test archive.
#[derive(Debug, Clone, PartialEq)]
pub struct TestCaseCollection {
    pub test_cases: Vec<TestCase>,
}

/// One folder's worth of captured artifacts.
#[derive(Debug, Clone, PartialEq)]
pub struct TestCase {
    pub id: String,
    pub name: String,
    pub status: TestStatus,
    pub markdown_content: Option<String>,
    pub screenshots: Vec<TestAttachment>,
    pub video: Option<TestAttachment>,
    pub trace_file: Option<TestAttachment>,
    pub duration_ms: Option<i64>,
    pub error_message: Option<String>,
}

#[derive(Debug, Clone, PartialEq, Eq, Structural)]
pub enum TestStatus {
    Passed,
    Failed,
    Skipped,
    Pending,
}

/// A self-contained attachment: name, MIME type, data-URL payload, size.
#[derive(Debug, Clone, PartialEq)]
pub struct TestAttachment {
    pub name: String,
    pub mime_type: String,
    pub data_url: String,
    pub size_bytes: Option<usize>,
}

pub ghost struct TestCaseCollectionRep {
    pub test_cases: Seq<TestCaseRep>,
}

pub ghost struct TestCaseRep {
    pub id: Seq<char>,
    pub name: Seq<char>,
    pub status: TestStatus,
    pub markdown_content: Option<Seq<char>>,
    pub screenshots: Seq<AttachmentRep>,
    pub video: Option<AttachmentRep>,
    pub trace_file: Option<AttachmentRep>,
    pub duration_ms: Option<i64>,
    pub error_message: Option<Seq<char>>,
}

pub ghost struct AttachmentRep {
    pub name: Seq<char>,
    pub mime_type: Seq<char>,
    pub data_url: Seq<char>,
    pub size_bytes: Option<usize>,
}

impl View for TestAttachment {
    type V = AttachmentRep;

    open spec fn view(&self) -> AttachmentRep {
        AttachmentRep {
            name: self.name@,
            mime_type: self.mime_type@,
            data_url: self.data_url@,
            size_bytes: self.size_bytes,
        }
    }
}

impl DeepView for TestAttachment {
    type V = AttachmentRep;

    open spec fn deep_view(&self) -> AttachmentRep {
        self.view()
    }
}

impl View for TestCase {
    type V = TestCaseRep;

    open spec fn view(&self) -> TestCaseRep {
        TestCaseRep {
            id: self.id@,
            name: self.name@,
            status: self.status,
            markdown_content: self.markdown_content.deep_view(),
            screenshots: self.screenshots.deep_view(),
            video: self.video.deep_view(),
            trace_file: self.trace_file.deep_view(),
            duration_ms: self.duration_ms,
            error_message: self.error_message.deep_view(),
        }
    }
}

impl DeepView for TestCase {
    type V = TestCaseRep;

    open spec fn deep_view(&self) -> TestCaseRep {
        self.view()
    }
}

impl View for TestCaseCollection {
    type V = TestCaseCollectionRep;

    open spec fn view(&self) -> TestCaseCollectionRep {
        TestCaseCollectionRep { test_cases: self.test_cases.deep_view() }
    }
}

impl DeepView for TestCaseCollection {
    type V = TestCaseCollectionRep;

    open spec fn deep_view(&self) -> TestCaseCollectionRep {
        self.view()
    }
}

impl TestCaseCollection {
    /// An empty collection.
    pub fn new() -> (r: Self)
        ensures
            r@.test_cases == Seq::<TestCaseRep>::empty(),
    {
        let r = Self { test_cases: Vec::new() };
        proof {
            assert(r@.test_cases =~= Seq::<TestCaseRep>::empty());
        }
        r
    }
}

impl Default for TestCaseCollection {
    fn default() -> (r: Self)
        ensures
            r@.test_cases == Seq::<TestCaseRep>::empty(),
    {
        Self::new()
    }
}

/// The lower-case word for each status.
pub open spec fn status_str(s: TestStatus) -> Seq<char> {
    match s {
        TestStatus::Passed => "passed"@,
        TestStatus::Failed => "failed"@,
        TestStatus::Skipped => "skipped"@,
        TestStatus::Pending => "pending"@,
    }
}

impl TestStatus {
    pub fn to_string(&self) -> (r: &'static str)
        ensures
            r@ == status_str(*self),
    {
        match self {
            TestStatus::Passed => "passed",
            TestStatus::Failed => "failed",
            TestStatus::Skipped => "skipped",
            TestStatus::Pending => "pending",
        }
    }
}

} // verus!
