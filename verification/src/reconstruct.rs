//! The trace reconstruction engine: replays a line-delimited event
//! stream, correlating `before`/`after` pairs into actions and
//! screencast frames into pages, and emits one finished context.
//!
//! Malformed lines never abort a context: a line that does not parse,
//! or parses to a record that does not decode, is skipped and the rest
//! of the stream is still replayed.
use vstd::prelude::*;

use crate::decode::{decode_event, decode_event_spec};
use crate::json::parse_json;
use crate::models::{
    ActionEntry, ActionRep, AfterRep, ContextEntry, ContextRep, ErrorEventRep, EventRep, FrameRep,
    PageEntry, PageRep, ResourceRep, ScreencastFrame, SerializedError, SerializedErrorRep,
    TraceEvent,
};
use crate::strutil::{
    chars_of, clone_opt_string, split_char, split_seq, string_of, trim, trim_spec,
};

verus! {

broadcast use vstd::string::group_string_axioms;

/// The running reconstruction state: context metadata, the actions in
/// first-`before` order, and the pages in first-frame order.
pub ghost struct StateRep {
    pub start_time: i64,
    pub end_time: i64,
    pub browser_name: Seq<char>,
    pub platform: Option<Seq<char>>,
    pub playwright_version: Option<Seq<char>>,
    pub wall_time: i64,
    pub title: Option<Seq<char>>,
    pub actions: Seq<ActionRep>,
    pub pages: Seq<PageRep>,
}

/// Before any event arrives: the start bound sits at the greatest
/// representable time, the end bound at zero, and everything else is
/// empty.
pub open spec fn init_state() -> StateRep {
    StateRep {
        start_time: i64::MAX,
        end_time: 0,
        browser_name: Seq::empty(),
        platform: None,
        playwright_version: None,
        wall_time: 0,
        title: None,
        actions: Seq::empty(),
        pages: Seq::empty(),
    }
}

/// The in-progress action a `before` event opens.
pub open spec fn action_of_before(b: crate::models::BeforeRep) -> ActionRep {
    ActionRep {
        action_type: "before"@,
        call_id: b.call_id,
        start_time: b.start_time,
        end_time: None,
        title: b.title,
        class: Some(b.class),
        method: Some(b.method),
        params: b.params,
        page_id: b.page_id,
        parent_id: b.parent_id,
        error: None,
        log: Seq::empty(),
    }
}

/// Index of the first action correlated to `id`, if any.
pub open spec fn find_action(actions: Seq<ActionRep>, id: Seq<char>) -> Option<int>
    decreases actions.len(),
{
    if actions.len() == 0 {
        None
    } else if actions[0].call_id == id {
        Some(0)
    } else {
        match find_action(actions.drop_first(), id) {
            None => None,
            Some(i) => Some(i + 1),
        }
    }
}

/// Index of the page with this identifier, if any.
pub open spec fn find_page(pages: Seq<PageRep>, id: Seq<char>) -> Option<int>
    decreases pages.len(),
{
    if pages.len() == 0 {
        None
    } else if pages[0].page_id == id {
        Some(0)
    } else {
        match find_page(pages.drop_first(), id) {
            None => None,
            Some(i) => Some(i + 1),
        }
    }
}

/// One transition of the reconstruction state machine.
///
/// `context-options` rewrites the context metadata (last write wins)
/// and draws the start bound down to its monotonic origin.  `before`
/// opens an action and draws the start bound down to its start time.
/// `after` completes the matching in-progress action, if one exists,
/// and pushes the end bound up; with no match it changes nothing.  A
/// screencast frame appends to its page, creating the page on first
/// use.  `input` and unknown records change nothing.
pub open spec fn step(st: StateRep, e: EventRep) -> StateRep {
    match e {
        EventRep::ContextOptions(c) => StateRep {
            browser_name: c.browser_name,
            platform: c.platform,
            playwright_version: c.playwright_version,
            wall_time: c.wall_time,
            title: c.title,
            start_time: if c.monotonic_time < st.start_time {
                c.monotonic_time
            } else {
                st.start_time
            },
            ..st
        },
        EventRep::Before(b) => {
            let a = action_of_before(b);
            let actions = (match find_action(st.actions, b.call_id) {
                Some(i) => st.actions.update(i, a),
                None => st.actions.push(a),
            });
            StateRep {
                actions,
                start_time: if b.start_time < st.start_time {
                    b.start_time
                } else {
                    st.start_time
                },
                ..st
            }
        },
        EventRep::After(af) => {
            match find_action(st.actions, af.call_id) {
                None => st,
                Some(i) => StateRep {
                    actions: st.actions.update(
                        i,
                        ActionRep {
                            end_time: Some(af.end_time),
                            error: af.error,
                            ..st.actions[i]
                        },
                    ),
                    end_time: if af.end_time > st.end_time {
                        af.end_time
                    } else {
                        st.end_time
                    },
                    ..st
                },
            }
        },
        EventRep::ScreencastFrame(fr) => {
            let frame = FrameRep {
                sha1: fr.sha1,
                timestamp: fr.timestamp,
                width: fr.width,
                height: fr.height,
                frame_swap_wall_time: None,
            };
            let pages = (match find_page(st.pages, fr.page_id) {
                Some(i) => st.pages.update(
                    i,
                    PageRep {
                        page_id: st.pages[i].page_id,
                        screencast_frames: st.pages[i].screencast_frames.push(frame),
                    },
                ),
                None => st.pages.push(
                    PageRep { page_id: fr.page_id, screencast_frames: seq![frame] },
                ),
            });
            StateRep { pages, ..st }
        },
        EventRep::Input(_) => st,
        EventRep::Other => st,
    }
}

/// The state after replaying a whole event sequence from the initial
/// state.
pub open spec fn replay(evs: Seq<EventRep>) -> StateRep
    decreases evs.len(),
{
    if evs.len() == 0 {
        init_state()
    } else {
        step(replay(evs.drop_last()), evs.last())
    }
}

/// The events one line contributes: none if it is blank, fails to
/// parse, or fails to decode; otherwise its one record.
pub open spec fn line_events(l: Seq<char>) -> Seq<EventRep> {
    let t = trim_spec(l);
    if t.len() == 0 {
        Seq::empty()
    } else {
        match crate::json::json_of(t) {
            None => Seq::empty(),
            Some(jv) => match decode_event_spec(jv) {
                None => Seq::empty(),
                Some(e) => seq![e],
            },
        }
    }
}

pub open spec fn stream_of_lines(lines: Seq<Seq<char>>) -> Seq<EventRep>
    decreases lines.len(),
{
    if lines.len() == 0 {
        Seq::empty()
    } else {
        stream_of_lines(lines.drop_last()) + line_events(lines.last())
    }
}

/// Every event a text contributes, in line order.
pub open spec fn event_stream(text: Seq<char>) -> Seq<EventRep> {
    stream_of_lines(split_char(text, '\n'))
}

/// Insertion of one action into a start-time-sorted sequence: it lands
/// after every element whose start time does not exceed its own, so
/// equal start times keep their existing order.
pub open spec fn insert_sorted(t: Seq<ActionRep>, a: ActionRep) -> Seq<ActionRep>
    decreases t.len(),
{
    if t.len() > 0 && t.last().start_time > a.start_time {
        insert_sorted(t.drop_last(), a).push(t.last())
    } else {
        t.push(a)
    }
}

/// Stable sort by ascending start time: actions are inserted in their
/// arrival order, so ties stay in that order.
pub open spec fn sort_actions(s: Seq<ActionRep>) -> Seq<ActionRep>
    decreases s.len(),
{
    if s.len() == 0 {
        Seq::empty()
    } else {
        insert_sorted(sort_actions(s.drop_last()), s.last())
    }
}

/// Ascending by start time.
pub open spec fn sorted_by_start(s: Seq<ActionRep>) -> bool {
    forall|i: int, j: int|
        0 <= i <= j < s.len() ==> #[trigger] s[i].start_time <= #[trigger] s[j].start_time
}

/// The context one trace text reconstructs to, with the optional
/// network text decoded by the same rules and retained among the raw
/// events only.
pub open spec fn parse_trace_spec(text: Seq<char>, network: Option<Seq<char>>) -> ContextRep {
    let evs = event_stream(text);
    let st = replay(evs);
    let all = (match network {
        Some(n) => evs + event_stream(n),
        None => evs,
    });
    ContextRep {
        start_time: st.start_time,
        end_time: st.end_time,
        browser_name: st.browser_name,
        platform: st.platform,
        playwright_version: st.playwright_version,
        wall_time: st.wall_time,
        title: st.title,
        pages: st.pages,
        actions: sort_actions(st.actions),
        resources: Seq::empty(),
        events: all,
        errors: Seq::empty(),
    }
}


fn find_action_idx(actions: &Vec<ActionEntry>, id: &String) -> (r: Option<usize>)
    ensures
        match r {
            Some(i) => find_action(actions.deep_view(), id@) == Some(i as int)
                && i < actions@.len(),
            None => find_action(actions.deep_view(), id@) is None,
        },
{
    let ghost ga = actions.deep_view();
    proof {
        assert(ga.skip(0) =~= ga);
    }
    let mut i: usize = 0;
    while i < actions.len()
        invariant
            i <= actions@.len(),
            ga == actions.deep_view(),
            ga.len() == actions@.len(),
            find_action(ga, id@) == (match find_action(ga.skip(i as int), id@) {
                None => None::<int>,
                Some(k) => Some(k + i),
            }),
        decreases actions@.len() - i,
    {
        proof {
            assert(ga.skip(i as int)[0] == ga[i as int]);
            assert(ga[i as int] == actions@[i as int].deep_view());
        }
        if actions[i].call_id.eq(id) {
            return Some(i);
        }
        proof {
            assert(ga.skip(i as int).drop_first() =~= ga.skip(i + 1));
        }
        i += 1;
    }
    proof {
        assert(ga.skip(i as int) =~= Seq::<ActionRep>::empty());
    }
    None
}

fn find_page_idx(pages: &Vec<PageEntry>, id: &String) -> (r: Option<usize>)
    ensures
        match r {
            Some(i) => find_page(pages.deep_view(), id@) == Some(i as int)
                && i < pages@.len(),
            None => find_page(pages.deep_view(), id@) is None,
        },
{
    let ghost gp = pages.deep_view();
    proof {
        assert(gp.skip(0) =~= gp);
    }
    let mut i: usize = 0;
    while i < pages.len()
        invariant
            i <= pages@.len(),
            gp == pages.deep_view(),
            gp.len() == pages@.len(),
            find_page(gp, id@) == (match find_page(gp.skip(i as int), id@) {
                None => None::<int>,
                Some(k) => Some(k + i),
            }),
        decreases pages@.len() - i,
    {
        proof {
            assert(gp.skip(i as int)[0] == gp[i as int]);
            assert(gp[i as int] == pages@[i as int].deep_view());
        }
        if pages[i].page_id.eq(id) {
            return Some(i);
        }
        proof {
            assert(gp.skip(i as int).drop_first() =~= gp.skip(i + 1));
        }
        i += 1;
    }
    proof {
        assert(gp.skip(i as int) =~= Seq::<PageRep>::empty());
    }
    None
}

/// `insert_sorted` is insertion at the position just past the last
/// element that does not exceed the new key.
proof fn lemma_insert_sorted_pos(t: Seq<ActionRep>, a: ActionRep, p: int)
    requires
        0 <= p <= t.len(),
        forall|k: int| p <= k < t.len() ==> #[trigger] t[k].start_time > a.start_time,
        p == 0 || t[p - 1].start_time <= a.start_time,
    ensures
        insert_sorted(t, a) == t.insert(p, a),
    decreases t.len(),
{
    if p == t.len() {
        assert(insert_sorted(t, a) == t.push(a));
        assert(t.push(a) =~= t.insert(p, a));
    } else {
        assert(t.last().start_time > a.start_time);
        assert(forall|k: int|
            p <= k < t.len() - 1 ==> #[trigger] t.drop_last()[k].start_time
                > a.start_time);
        if p > 0 {
            assert(t.drop_last()[p - 1] == t[p - 1]);
        }
        lemma_insert_sorted_pos(t.drop_last(), a, p);
        assert(t.drop_last().insert(p, a).push(t.last()) =~= t.insert(p, a));
    }
}

/// Inserts one action where `insert_sorted` puts it.
fn insert_action(out: Vec<ActionEntry>, a: ActionEntry) -> (r: Vec<ActionEntry>)
    ensures
        r.deep_view() == insert_sorted(out.deep_view(), a.deep_view()),
{
    let ghost gout = out.deep_view();
    let mut p: usize = out.len();
    while p > 0 && out[p - 1].start_time > a.start_time
        invariant
            p <= out@.len(),
            gout == out.deep_view(),
            gout.len() == out@.len(),
            forall|k: int|
                p <= k < gout.len() ==> #[trigger] gout[k].start_time
                    > a.deep_view().start_time,
        decreases p,
    {
        proof {
            assert(gout[p - 1] == out@[p - 1].deep_view());
        }
        p -= 1;
    }
    proof {
        if p > 0 {
            assert(gout[p - 1] == out@[p - 1].deep_view());
        }
        lemma_insert_sorted_pos(gout, a.deep_view(), p as int);
    }
    let ghost ga = a.deep_view();
    let mut out = out;
    out.insert(p, a);
    proof {
        assert(out.deep_view() =~= gout.insert(p as int, ga));
    }
    out
}

/// Sorts the drained actions by ascending start time, stably.
fn sort_actions_exec(actions: Vec<ActionEntry>) -> (r: Vec<ActionEntry>)
    ensures
        r.deep_view() == sort_actions(actions.deep_view()),
{
    let ghost gin = actions.deep_view();
    let n = actions.len();
    let mut rest = actions;
    let mut out: Vec<ActionEntry> = Vec::new();
    proof {
        assert(out.deep_view() =~= sort_actions(gin.take(0)));
        assert(rest.deep_view() =~= gin.skip(0));
    }
    let mut k: usize = 0;
    while rest.len() > 0
        invariant
            0 <= k <= gin.len(),
            gin.len() == n,
            rest.deep_view() == gin.skip(k as int),
            rest@.len() == gin.len() - k,
            out.deep_view() == sort_actions(gin.take(k as int)),
        decreases rest@.len(),
    {
        let ghost grest = rest.deep_view();
        let a = rest.remove(0);
        proof {
            assert(a.deep_view() == grest[0]);
            assert(a.deep_view() == gin[k as int]);
            assert(rest.deep_view() =~= grest.drop_first());
            assert(grest.drop_first() =~= gin.skip(k + 1));
            assert(gin.take(k + 1).drop_last() =~= gin.take(k as int));
            assert(gin.take(k + 1).last() == gin[k as int]);
        }
        out = insert_action(out, a);
        k += 1;
    }
    proof {
        assert(gin.skip(k as int).len() == 0);
        assert(gin.take(k as int) =~= gin);
    }
    out
}


fn clone_opt_error(o: &Option<SerializedError>) -> (r: Option<SerializedError>)
    ensures
        r.deep_view() == o.deep_view(),
{
    match o {
        None => None,
        Some(e) => Some(
            SerializedError {
                message: clone_opt_string(&e.message),
                stack: clone_opt_string(&e.stack),
            },
        ),
    }
}

/// Replays one trace text, and optionally a network text, into a
/// finished context, exactly as `parse_trace_spec` describes: metadata
/// from the last `context-options` record, actions correlated by call
/// identifier and sorted stably by start time, pages in first-frame
/// order, every decoded record retained in arrival order, and
/// malformed lines skipped.
pub fn parse_trace(trace_content: &str, network_content: Option<&str>) -> (c: ContextEntry)
    ensures
        c.deep_view() == parse_trace_spec(trace_content@, network_content.deep_view()),
{
    let chars = chars_of(trace_content);
    let lines = split_seq(chars.as_slice(), '\n');
    let ghost glines = lines.deep_view();
    let mut start_time: i64 = i64::MAX;
    let mut end_time: i64 = 0;
    let mut browser_name = String::new();
    let mut platform: Option<String> = None;
    let mut playwright_version: Option<String> = None;
    let mut wall_time: i64 = 0;
    let mut title: Option<String> = None;
    let mut actions: Vec<ActionEntry> = Vec::new();
    let mut pages: Vec<PageEntry> = Vec::new();
    let mut events: Vec<TraceEvent> = Vec::new();
    proof {
        assert(glines.take(0) =~= Seq::<Seq<char>>::empty());
        assert(events.deep_view() =~= Seq::<EventRep>::empty());
        assert(actions.deep_view() =~= Seq::<ActionRep>::empty());
        assert(pages.deep_view() =~= Seq::<PageRep>::empty());
    }
    let mut j: usize = 0;
    while j < lines.len()
        invariant
            j <= lines@.len(),
            glines == lines.deep_view(),
            glines.len() == lines@.len(),
            events.deep_view() == stream_of_lines(glines.take(j as int)),
            replay(events.deep_view()) == (StateRep {
                start_time: start_time,
                end_time: end_time,
                browser_name: browser_name@,
                platform: platform.deep_view(),
                playwright_version: playwright_version.deep_view(),
                wall_time: wall_time,
                title: title.deep_view(),
                actions: actions.deep_view(),
                pages: pages.deep_view(),
            }),
        decreases lines@.len() - j,
    {
        let ghost old_events = events.deep_view();
        let ghost old_st = replay(old_events);
        proof {
            assert(glines.take(j + 1).drop_last() =~= glines.take(j as int));
            assert(glines.take(j + 1).last() == glines[j as int]);
            assert(glines[j as int] =~= lines@[j as int]@);
        }
        let t = trim(lines[j].as_slice());
        if t.len() == 0 {
            proof {
                assert(line_events(glines[j as int]) =~= Seq::<EventRep>::empty());
                assert(old_events + line_events(glines[j as int]) =~= old_events);
            }
        } else {
            let line_str = string_of(t.as_slice());
            match parse_json(line_str.as_str()) {
                None => {
                    proof {
                        assert(line_events(glines[j as int]) =~= Seq::<EventRep>::empty());
                        assert(old_events + line_events(glines[j as int]) =~= old_events);
                    }
                },
                Some(jv) => {
                    match decode_event(&jv) {
                        None => {
                            proof {
                                assert(line_events(glines[j as int])
                                    =~= Seq::<EventRep>::empty());
                                assert(old_events + line_events(glines[j as int])
                                    =~= old_events);
                            }
                        },
                        Some(evt) => {
                            let ghost e = evt.deep_view();
                            proof {
                                assert(line_events(glines[j as int]) =~= seq![e]);
                                assert(old_events + seq![e] =~= old_events.push(e));
                                assert(old_events.push(e).drop_last() =~= old_events);
                            }
                            match &evt {
                                TraceEvent::ContextOptions(c) => {
                                    browser_name = c.browser_name.clone();
                                    platform = clone_opt_string(&c.platform);
                                    playwright_version = clone_opt_string(
                                        &c.playwright_version,
                                    );
                                    wall_time = c.wall_time;
                                    title = clone_opt_string(&c.title);
                                    if c.monotonic_time < start_time {
                                        start_time = c.monotonic_time;
                                    }
                                    proof {
                                        assert(e == EventRep::ContextOptions(c@));
                                    }
                                },
                                TraceEvent::Before(b) => {
                                    let a = ActionEntry {
                                        action_type: String::from_str("before"),
                                        call_id: b.call_id.clone(),
                                        start_time: b.start_time,
                                        end_time: None,
                                        title: clone_opt_string(&b.title),
                                        class: Some(b.class.clone()),
                                        method: Some(b.method.clone()),
                                        params: crate::json::clone_params(&b.params),
                                        page_id: clone_opt_string(&b.page_id),
                                        parent_id: clone_opt_string(&b.parent_id),
                                        error: None,
                                        log: Vec::new(),
                                    };
                                    proof {
                                        assert(a.deep_view().log =~= Seq::<
                                            crate::models::LogRep,
                                        >::empty());
                                        assert(a.deep_view() == action_of_before(b@));
                                        assert(e == EventRep::Before(b@));
                                    }
                                    if b.start_time < start_time {
                                        start_time = b.start_time;
                                    }
                                    let ghost ga = actions.deep_view();
                                    match find_action_idx(&actions, &b.call_id) {
                                        Some(i) => {
                                            let _prev = actions.remove(i);
                                            let ghost gmid = actions.deep_view();
                                            actions.insert(i, a);
                                            proof {
                                                assert(gmid =~= ga.remove(i as int));
                                                assert(actions.deep_view() =~= ga.update(
                                                    i as int,
                                                    action_of_before(b@),
                                                ));
                                            }
                                        },
                                        None => {
                                            actions.push(a);
                                            proof {
                                                assert(actions.deep_view() =~= ga.push(
                                                    action_of_before(b@),
                                                ));
                                            }
                                        },
                                    }
                                },
                                TraceEvent::After(af) => {
                                    proof {
                                        assert(e == EventRep::After(af@));
                                    }
                                    let ghost ga = actions.deep_view();
                                    match find_action_idx(&actions, &af.call_id) {
                                        None => {},
                                        Some(i) => {
                                            let mut ax = actions.remove(i);
                                            let ghost gax = ax.deep_view();
                                            let ghost gmid = actions.deep_view();
                                            ax.end_time = Some(af.end_time);
                                            ax.error = clone_opt_error(&af.error);
                                            actions.insert(i, ax);
                                            proof {
                                                assert(gax == ga[i as int]);
                                                assert(gmid =~= ga.remove(i as int));
                                                assert(actions.deep_view() =~= ga.update(
                                                    i as int,
                                                    ActionRep {
                                                        end_time: Some(af@.end_time),
                                                        error: af@.error,
                                                        ..ga[i as int]
                                                    },
                                                ));
                                            }
                                            if af.end_time > end_time {
                                                end_time = af.end_time;
                                            }
                                        },
                                    }
                                },
                                TraceEvent::ScreencastFrame(fr) => {
                                    proof {
                                        assert(e == EventRep::ScreencastFrame(fr@));
                                    }
                                    let frame = ScreencastFrame {
                                        sha1: fr.sha1.clone(),
                                        timestamp: fr.timestamp,
                                        width: fr.width,
                                        height: fr.height,
                                        frame_swap_wall_time: None,
                                    };
                                    let ghost gp = pages.deep_view();
                                    match find_page_idx(&pages, &fr.page_id) {
                                        Some(i) => {
                                            let mut pg = pages.remove(i);
                                            let ghost gpg = pg.deep_view();
                                            let ghost gmid = pages.deep_view();
                                            pg.screencast_frames.push(frame);
                                            proof {
                                                assert(pg.deep_view().screencast_frames
                                                    =~= gpg.screencast_frames.push(
                                                    frame.deep_view(),
                                                ));
                                            }
                                            pages.insert(i, pg);
                                            proof {
                                                assert(gpg == gp[i as int]);
                                                assert(gmid =~= gp.remove(i as int));
                                                assert(pages.deep_view() =~~= gp.update(
                                                    i as int,
                                                    PageRep {
                                                        page_id: gp[i as int].page_id,
                                                        screencast_frames: gp[
                                                            i as int
                                                        ].screencast_frames.push(
                                                            frame.deep_view(),
                                                        ),
                                                    },
                                                ));
                                            }
                                        },
                                        None => {
                                            let mut fv: Vec<ScreencastFrame> = Vec::new();
                                            fv.push(frame);
                                            proof {
                                                assert(fv.deep_view() =~= seq![
                                                    frame.deep_view()
                                                ]);
                                            }
                                            let pe = PageEntry {
                                                page_id: fr.page_id.clone(),
                                                screencast_frames: fv,
                                            };
                                            proof {
                                                assert(pe.deep_view() == PageRep {
                                                    page_id: fr@.page_id,
                                                    screencast_frames: seq![
                                                        frame.deep_view()
                                                    ],
                                                });
                                            }
                                            pages.push(pe);
                                            proof {
                                                assert(pages.deep_view() =~= gp.push(
                                                    pe.deep_view(),
                                                ));
                                            }
                                        },
                                    }
                                },
                                TraceEvent::Input(inp) => {
                                    proof {
                                        assert(e == EventRep::Input(inp@));
                                    }
                                },
                                TraceEvent::Other => {
                                    proof {
                                        assert(e == EventRep::Other);
                                    }
                                },
                            }
                            let ghost pre_push = events.deep_view();
                            events.push(evt);
                            proof {
                                assert(events.deep_view() =~= pre_push.push(e));
                                assert(replay(old_events.push(e)) == step(old_st, e));
                            }
                        },
                    }
                },
            }
        }
        j += 1;
    }
    proof {
        assert(glines.take(glines.len() as int) =~= glines);
        assert(glines =~~= split_char(trace_content@, '\n'));
        assert(stream_of_lines(glines) == event_stream(trace_content@));
    }
    let ghost evs_trace = events.deep_view();
    let ghost final_st = replay(evs_trace);
    match network_content {
        None => {},
        Some(ntext) => {
            let nchars = chars_of(ntext);
            let nlines = split_seq(nchars.as_slice(), '\n');
            let ghost gnlines = nlines.deep_view();
            proof {
                assert(gnlines.take(0) =~= Seq::<Seq<char>>::empty());
                assert(evs_trace + stream_of_lines(gnlines.take(0)) =~= evs_trace);
            }
            let mut j: usize = 0;
            while j < nlines.len()
                invariant
                    j <= nlines@.len(),
                    gnlines == nlines.deep_view(),
                    gnlines.len() == nlines@.len(),
                    events.deep_view() == evs_trace + stream_of_lines(
                        gnlines.take(j as int),
                    ),
                decreases nlines@.len() - j,
            {
                let ghost old_events = events.deep_view();
                proof {
                    assert(gnlines.take(j + 1).drop_last() =~= gnlines.take(j as int));
                    assert(gnlines.take(j + 1).last() == gnlines[j as int]);
                    assert(gnlines[j as int] =~= nlines@[j as int]@);
                }
                let t = trim(nlines[j].as_slice());
                if t.len() == 0 {
                    proof {
                        assert(line_events(gnlines[j as int]) =~= Seq::<EventRep>::empty());
                        assert(old_events + Seq::<EventRep>::empty() =~= old_events);
                    }
                } else {
                    let line_str = string_of(t.as_slice());
                    match parse_json(line_str.as_str()) {
                        None => {
                            proof {
                                assert(line_events(gnlines[j as int])
                                    =~= Seq::<EventRep>::empty());
                                assert(old_events + Seq::<EventRep>::empty()
                                    =~= old_events);
                            }
                        },
                        Some(jv) => {
                            match decode_event(&jv) {
                                None => {
                                    proof {
                                        assert(line_events(gnlines[j as int])
                                            =~= Seq::<EventRep>::empty());
                                        assert(old_events + Seq::<EventRep>::empty()
                                            =~= old_events);
                                    }
                                },
                                Some(evt) => {
                                    let ghost e = evt.deep_view();
                                    proof {
                                        assert(line_events(gnlines[j as int]) =~= seq![e]);
                                    }
                                    events.push(evt);
                                    proof {
                                        assert(events.deep_view() =~= old_events.push(e));
                                        assert(old_events + seq![e] =~= old_events.push(e));
                                        assert(old_events + line_events(gnlines[j as int])
                                            =~= events.deep_view());
                                        assert(evs_trace + (stream_of_lines(
                                            gnlines.take(j as int),
                                        ) + line_events(gnlines[j as int])) =~= (evs_trace
                                            + stream_of_lines(gnlines.take(j as int)))
                                            + line_events(gnlines[j as int]));
                                    }
                                },
                            }
                        },
                    }
                }
                j += 1;
            }
            proof {
                assert(gnlines.take(gnlines.len() as int) =~= gnlines);
                assert(gnlines =~~= split_char(ntext@, '\n'));
                assert(stream_of_lines(gnlines) == event_stream(ntext@));
            }
        },
    }
    let sorted = sort_actions_exec(actions);
    let resources: Vec<crate::models::ResourceSnapshot> = Vec::new();
    let errors: Vec<crate::models::ErrorEvent> = Vec::new();
    let c = ContextEntry {
        start_time,
        end_time,
        browser_name,
        platform,
        playwright_version,
        wall_time,
        title,
        pages,
        actions: sorted,
        resources,
        events,
        errors,
    };
    proof {
        assert(c.deep_view().resources =~= Seq::<ResourceRep>::empty());
        assert(c.deep_view().errors =~= Seq::<ErrorEventRep>::empty());
    }
    c
}


/// Inserting into a sorted sequence keeps it sorted, adds exactly the
/// new element, and keeps the length book.
#[verifier::rlimit(100)]
proof fn lemma_insert_sorted_props(t: Seq<ActionRep>, a: ActionRep)
    requires
        sorted_by_start(t),
    ensures
        sorted_by_start(insert_sorted(t, a)),
        insert_sorted(t, a).len() == t.len() + 1,
        forall|y: ActionRep|
            #![trigger insert_sorted(t, a).contains(y)]
            #![trigger t.contains(y)]
            insert_sorted(t, a).contains(y) <==> t.contains(y) || y == a,
    decreases t.len(),
{
    let r = insert_sorted(t, a);
    if t.len() > 0 && t.last().start_time > a.start_time {
        let t2 = t.drop_last();
        assert(sorted_by_start(t2)) by {
            assert(forall|i: int, j: int|
                0 <= i <= j < t2.len() ==> t2[i] == t[i] && t2[j] == t[j]);
        }
        lemma_insert_sorted_props(t2, a);
        let inner = insert_sorted(t2, a);
        assert(r == inner.push(t.last()));
        assert forall|y: ActionRep| #[trigger] inner.contains(y) implies y.start_time
            <= t.last().start_time by {
            if t2.contains(y) {
                let w = choose|w: int| 0 <= w < t2.len() && t2[w] == y;
                assert(t[w] == y);
                assert(t[w].start_time <= t.last().start_time);
            }
        }
        assert(sorted_by_start(r)) by {
            assert forall|i: int, j: int| 0 <= i <= j < r.len() implies r[i].start_time
                <= r[j].start_time by {
                if j < r.len() - 1 {
                    assert(r[i] == inner[i] && r[j] == inner[j]);
                } else if i < r.len() - 1 {
                    assert(r[i] == inner[i]);
                    assert(inner.contains(inner[i]));
                }
            }
        }
        assert forall|y: ActionRep| #[trigger] r.contains(y) implies t.contains(y) || y
            == a by {
            let w = choose|w: int| 0 <= w < r.len() && r[w] == y;
            if w < r.len() - 1 {
                assert(inner[w] == y);
                assert(inner.contains(y));
                if t2.contains(y) {
                    let v = choose|v: int| 0 <= v < t2.len() && t2[v] == y;
                    assert(t[v] == y);
                }
            } else {
                assert(y == t.last());
                assert(t[t.len() - 1] == y);
            }
        }
        assert forall|y: ActionRep| t.contains(y) || y == a implies #[trigger] r.contains(
            y,
        ) by {
            if y == a {
                assert(inner.contains(a));
                let v = choose|v: int| 0 <= v < inner.len() && inner[v] == y;
                assert(r[v] == y);
            } else if t.contains(y) {
                let w = choose|w: int| 0 <= w < t.len() && t[w] == y;
                if w < t.len() - 1 {
                    assert(t2[w] == y);
                    assert(t2.contains(y));
                    assert(inner.contains(y));
                    let v = choose|v: int| 0 <= v < inner.len() && inner[v] == y;
                    assert(r[v] == y);
                } else {
                    assert(r[r.len() - 1] == y);
                }
            }
        }
    } else {
        assert(r == t.push(a));
        assert(sorted_by_start(r)) by {
            assert forall|i: int, j: int| 0 <= i <= j < r.len() implies r[i].start_time
                <= r[j].start_time by {
                if j < r.len() - 1 {
                    assert(r[i] == t[i] && r[j] == t[j]);
                } else if i < r.len() - 1 {
                    assert(r[i] == t[i]);
                    if t.len() > 0 {
                        assert(t[i].start_time <= t.last().start_time);
                    }
                }
            }
        }
        assert forall|y: ActionRep| #[trigger] r.contains(y) implies t.contains(y) || y
            == a by {
            let w = choose|w: int| 0 <= w < r.len() && r[w] == y;
            if w < r.len() - 1 {
                assert(t[w] == y);
            }
        }
        assert forall|y: ActionRep| t.contains(y) || y == a implies #[trigger] r.contains(
            y,
        ) by {
            if y == a {
                assert(r[r.len() - 1] == y);
            } else if t.contains(y) {
                let w = choose|w: int| 0 <= w < t.len() && t[w] == y;
                assert(r[w] == y);
            }
        }
    }
}

/// The stable sort really sorts, and neither adds nor loses actions.
#[verifier::rlimit(100)]
pub proof fn lemma_sort_actions_props(s: Seq<ActionRep>)
    ensures
        sorted_by_start(sort_actions(s)),
        sort_actions(s).len() == s.len(),
        forall|y: ActionRep|
            #![trigger sort_actions(s).contains(y)]
            #![trigger s.contains(y)]
            sort_actions(s).contains(y) <==> s.contains(y),
    decreases s.len(),
{
    if s.len() > 0 {
        let s2 = s.drop_last();
        lemma_sort_actions_props(s2);
        lemma_insert_sorted_props(sort_actions(s2), s.last());
        assert forall|y: ActionRep| #[trigger] s.contains(y) implies sort_actions(
            s,
        ).contains(y) by {
            let w = choose|w: int| 0 <= w < s.len() && s[w] == y;
            if w < s.len() - 1 {
                assert(s2[w] == y);
                assert(s2.contains(y));
            }
        }
        assert forall|y: ActionRep| #[trigger] sort_actions(s).contains(y) implies
            s.contains(y) by {
            if s2.contains(y) {
                let w = choose|w: int| 0 <= w < s2.len() && s2[w] == y;
                assert(s[w] == y);
            } else {
                assert(s[s.len() - 1] == y);
            }
        }
    }
}

/// A completion event never creates an action: with no matching
/// in-progress action the state is untouched, and with one the count
/// stays what it was.
pub proof fn lemma_after_creates_nothing(st: StateRep, af: AfterRep)
    ensures
        find_action(st.actions, af.call_id) is None ==> step(st, EventRep::After(af)) == st,
        step(st, EventRep::After(af)).actions.len() == st.actions.len(),
{
    match find_action(st.actions, af.call_id) {
        None => {
            assert(step(st, EventRep::After(af)) == st);
        },
        Some(i) => {
            lemma_find_action_props(st.actions, af.call_id);
            assert(step(st, EventRep::After(af)).actions.len() == st.actions.len());
        },
    }
}

/// A line that fails to parse as JSON contributes nothing: inserting it
/// anywhere in a trace leaves the reconstructed event stream — and so
/// the whole context — unchanged.
pub proof fn lemma_malformed_line_inert(lines: Seq<Seq<char>>, k: int, bad: Seq<char>)
    requires
        0 <= k <= lines.len(),
        crate::json::json_of(trim_spec(bad)) is None || trim_spec(bad).len() == 0,
    ensures
        stream_of_lines(lines.insert(k, bad)) == stream_of_lines(lines),
    decreases lines.len(),
{
    let w = lines.insert(k, bad);
    assert(line_events(bad) =~= Seq::<EventRep>::empty());
    if k == lines.len() {
        assert(w.drop_last() =~= lines);
        assert(w.last() == bad);
        assert(stream_of_lines(lines) + Seq::<EventRep>::empty() =~= stream_of_lines(
            lines,
        ));
    } else {
        assert(lines.len() > 0);
        assert(w.drop_last() =~= lines.drop_last().insert(k, bad));
        assert(w.last() == lines.last());
        lemma_malformed_line_inert(lines.drop_last(), k, bad);
    }
}

/// No match means no action: `find_action` misses an identifier that
/// no action carries.
proof fn lemma_find_action_none(actions: Seq<ActionRep>, id: Seq<char>)
    requires
        forall|k: int| 0 <= k < actions.len() ==> (#[trigger] actions[k]).call_id != id,
    ensures
        find_action(actions, id) is None,
    decreases actions.len(),
{
    if actions.len() > 0 {
        assert(forall|k: int|
            0 <= k < actions.len() - 1 ==> actions.drop_first()[k] == #[trigger] actions[
            k + 1]);
        lemma_find_action_none(actions.drop_first(), id);
    }
}

/// A completion event whose identifier matches no `before` event of
/// the stream is inert wherever it stands: inserting it at any
/// position leaves the replayed state — actions, pages, bounds and
/// metadata alike — unchanged.
pub proof fn lemma_orphan_after_inert(evs: Seq<EventRep>, k: int, af: AfterRep)
    requires
        0 <= k <= evs.len(),
        forall|i: int|
            0 <= i < evs.len() ==> !is_before_with_id(#[trigger] evs[i], af.call_id),
    ensures
        replay(evs.insert(k, EventRep::After(af))) == replay(evs),
    decreases evs.len(),
{
    let w = evs.insert(k, EventRep::After(af));
    if k == evs.len() {
        assert(w.drop_last() =~= evs);
        assert(w.last() == EventRep::After(af));
        let st = replay(evs);
        lemma_replay_actions_src(evs);
        assert forall|m: int| 0 <= m < st.actions.len() implies (#[trigger] st.actions[
        m]).call_id != af.call_id by {
            let i = choose|i: int|
                0 <= i < evs.len() && evs[i] is Before && st.actions[m].call_id == evs[
                i]->Before_0.call_id && st.actions[m].parent_id == evs[
                i]->Before_0.parent_id;
            assert(!is_before_with_id(evs[i], af.call_id));
        }
        lemma_find_action_none(st.actions, af.call_id);
        assert(replay(w) == step(st, EventRep::After(af)));
    } else {
        assert(evs.len() > 0);
        assert(w.drop_last() =~= evs.drop_last().insert(k, EventRep::After(af)));
        assert(w.last() == evs.last());
        assert(forall|i: int|
            0 <= i < evs.len() - 1 ==> evs.drop_last()[i] == #[trigger] evs[i]);
        lemma_orphan_after_inert(evs.drop_last(), k, af);
        assert(replay(w) == step(replay(w.drop_last()), w.last()));
    }
}

/// Every reconstructed context's actions come out sorted by ascending
/// start time.
pub proof fn lemma_parse_trace_sorted(text: Seq<char>, network: Option<Seq<char>>)
    ensures
        sorted_by_start(parse_trace_spec(text, network).actions),
{
    lemma_sort_actions_props(replay(event_stream(text)).actions);
}

/// Which call identifiers `before` events put on record.
pub open spec fn is_before_with_id(e: EventRep, id: Seq<char>) -> bool {
    e is Before && e->Before_0.call_id == id
}

/// Every action in the replayed state descends from some `before`
/// event, keeping its call and parent identifiers.
#[verifier::rlimit(100)]
#[verifier::spinoff_prover]
proof fn lemma_replay_actions_src(evs: Seq<EventRep>)
    ensures
        forall|k: int|
            0 <= k < replay(evs).actions.len() ==> exists|i: int|
                0 <= i < evs.len() && evs[i] is Before && (#[trigger] replay(
                    evs,
                ).actions[k]).call_id == evs[i]->Before_0.call_id && replay(
                    evs,
                ).actions[k].parent_id == evs[i]->Before_0.parent_id,
    decreases evs.len(),
{
    if evs.len() > 0 {
        let pre = evs.drop_last();
        lemma_replay_actions_src(pre);
        let st = replay(pre);
        let stn = replay(evs);
        assert(forall|i: int| 0 <= i < pre.len() ==> pre[i] == evs[i]);
        assert forall|k: int| 0 <= k < stn.actions.len() implies exists|i: int|
            0 <= i < evs.len() && evs[i] is Before && (#[trigger] stn.actions[k]).call_id
                == evs[i]->Before_0.call_id && stn.actions[k].parent_id == evs[
            i]->Before_0.parent_id by {
            match evs.last() {
                EventRep::Before(b) => {
                    let a = action_of_before(b);
                    match find_action(st.actions, b.call_id) {
                        Some(fi) => {
                            lemma_find_action_props(st.actions, b.call_id);
                            if k == fi {
                                assert(stn.actions[k] == a);
                                assert(evs[evs.len() - 1] is Before);
                            } else {
                                assert(stn.actions[k] == st.actions[k]);
                            }
                        },
                        None => {
                            if k == stn.actions.len() - 1 {
                                assert(stn.actions[k] == a);
                                assert(evs[evs.len() - 1] is Before);
                            } else {
                                assert(stn.actions[k] == st.actions[k]);
                            }
                        },
                    }
                },
                EventRep::After(af) => {
                    match find_action(st.actions, af.call_id) {
                        None => {
                            assert(stn.actions[k] == st.actions[k]);
                        },
                        Some(fi) => {
                            lemma_find_action_props(st.actions, af.call_id);
                            if k == fi {
                                assert(stn.actions[k].call_id == st.actions[k].call_id
                                    && stn.actions[k].parent_id == st.actions[
                                k].parent_id);
                            } else {
                                assert(stn.actions[k] == st.actions[k]);
                            }
                        },
                    }
                },
                _ => {
                    assert(stn.actions == st.actions);
                },
            }
        }
    }
}

/// Every `before` event's call identifier is represented among the
/// replayed actions.
#[verifier::rlimit(100)]
#[verifier::spinoff_prover]
proof fn lemma_replay_actions_ids(evs: Seq<EventRep>)
    ensures
        forall|i: int|
            0 <= i < evs.len() && (#[trigger] evs[i]) is Before ==> exists|k: int|
                0 <= k < replay(evs).actions.len() && replay(evs).actions[k].call_id
                    == evs[i]->Before_0.call_id,
    decreases evs.len(),
{
    if evs.len() > 0 {
        let pre = evs.drop_last();
        lemma_replay_actions_ids(pre);
        let st = replay(pre);
        let stn = replay(evs);
        assert(forall|i: int| 0 <= i < pre.len() ==> pre[i] == evs[i]);
        assert forall|i: int|
            0 <= i < evs.len() && (#[trigger] evs[i]) is Before implies exists|k: int|
            0 <= k < stn.actions.len() && stn.actions[k].call_id == evs[
        i]->Before_0.call_id by {
            match evs.last() {
                EventRep::Before(b) => {
                    match find_action(st.actions, b.call_id) {
                        Some(fi) => {
                            lemma_find_action_props(st.actions, b.call_id);
                            if i == evs.len() - 1 {
                                assert(stn.actions[fi].call_id == b.call_id);
                            } else {
                                let k = choose|k: int|
                                    0 <= k < st.actions.len() && st.actions[k].call_id
                                        == evs[i]->Before_0.call_id;
                                if k == fi {
                                    assert(stn.actions[fi].call_id == b.call_id);
                                    assert(st.actions[fi].call_id == b.call_id);
                                } else {
                                    assert(stn.actions[k] == st.actions[k]);
                                }
                            }
                        },
                        None => {
                            if i == evs.len() - 1 {
                                assert(stn.actions[stn.actions.len() - 1].call_id
                                    == b.call_id);
                            } else {
                                let k = choose|k: int|
                                    0 <= k < st.actions.len() && st.actions[k].call_id
                                        == evs[i]->Before_0.call_id;
                                assert(stn.actions[k] == st.actions[k]);
                            }
                        },
                    }
                },
                EventRep::After(af) => {
                    match find_action(st.actions, af.call_id) {
                        None => {
                            assert(stn.actions == st.actions);
                            let k = choose|k: int|
                                0 <= k < st.actions.len() && st.actions[k].call_id
                                    == evs[i]->Before_0.call_id;
                            assert(stn.actions[k].call_id == evs[i]->Before_0.call_id);
                        },
                        Some(fi) => {
                            lemma_find_action_props(st.actions, af.call_id);
                            let k = choose|k: int|
                                0 <= k < st.actions.len() && st.actions[k].call_id
                                    == evs[i]->Before_0.call_id;
                            if k == fi {
                                assert(stn.actions[k].call_id == st.actions[k].call_id);
                            } else {
                                assert(stn.actions[k] == st.actions[k]);
                            }
                        },
                    }
                },
                _ => {
                    assert(stn.actions == st.actions);
                    let k = choose|k: int|
                        0 <= k < st.actions.len() && st.actions[k].call_id == evs[
                        i]->Before_0.call_id;
                    assert(stn.actions[k].call_id == evs[i]->Before_0.call_id);
                },
            }
        }
    }
}

/// `find_action` really finds its identifier.
proof fn lemma_find_action_props(actions: Seq<ActionRep>, id: Seq<char>)
    ensures
        match find_action(actions, id) {
            Some(i) => 0 <= i < actions.len() && actions[i].call_id == id,
            None => true,
        },
    decreases actions.len(),
{
    if actions.len() > 0 && actions[0].call_id != id {
        lemma_find_action_props(actions.drop_first(), id);
    }
}

/// In a reconstructed context, every action whose parent identifier is
/// set refers to another action of the same context — provided every
/// `before` event's parent reference names some `before` event's call
/// identifier in the same stream.
#[verifier::rlimit(100)]
pub proof fn lemma_parents_resolve(text: Seq<char>, network: Option<Seq<char>>)
    requires
        forall|i: int|
            0 <= i < event_stream(text).len() && (#[trigger] event_stream(text)[i]) is Before
                && event_stream(text)[i]->Before_0.parent_id is Some ==> exists|j: int|
                0 <= j < event_stream(text).len() && is_before_with_id(
                    #[trigger] event_stream(text)[j],
                    event_stream(text)[i]->Before_0.parent_id->Some_0,
                ),
    ensures
        forall|k: int|
            0 <= k < parse_trace_spec(text, network).actions.len() && (
            #[trigger] parse_trace_spec(text, network).actions[k]).parent_id is Some
                ==> exists|m: int|
                0 <= m < parse_trace_spec(text, network).actions.len()
                    && parse_trace_spec(text, network).actions[m].call_id
                    == parse_trace_spec(text, network).actions[k].parent_id->Some_0,
{
    let evs = event_stream(text);
    let st = replay(evs);
    let ctx = parse_trace_spec(text, network);
    lemma_replay_actions_src(evs);
    lemma_replay_actions_ids(evs);
    lemma_sort_actions_props(st.actions);
    assert(ctx.actions == sort_actions(st.actions));
    assert forall|k: int|
        0 <= k < ctx.actions.len() && (#[trigger] ctx.actions[k]).parent_id is Some implies exists|
        m: int,
    |
        0 <= m < ctx.actions.len() && ctx.actions[m].call_id == ctx.actions[
    k].parent_id->Some_0 by {
        let a = ctx.actions[k];
        assert(ctx.actions.contains(a));
        assert(st.actions.contains(a));
        let w = choose|w: int| 0 <= w < st.actions.len() && st.actions[w] == a;
        let i = choose|i: int|
            0 <= i < evs.len() && evs[i] is Before && a.call_id == evs[
            i]->Before_0.call_id && a.parent_id == evs[i]->Before_0.parent_id;
        let p = a.parent_id->Some_0;
        let j = choose|j: int|
            0 <= j < evs.len() && is_before_with_id(evs[j], p);
        let kb = choose|kb: int|
            0 <= kb < st.actions.len() && st.actions[kb].call_id == evs[
            j]->Before_0.call_id;
        assert(st.actions.contains(st.actions[kb]));
        assert(ctx.actions.contains(st.actions[kb]));
        let m = choose|m: int|
            0 <= m < ctx.actions.len() && ctx.actions[m] == st.actions[kb];
        assert(ctx.actions[m].call_id == p);
    }
}

} // verus!



