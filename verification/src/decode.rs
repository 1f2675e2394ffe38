//! Decoding raw JSON records into trace events, and the JSON
//! round-trip representation of an action.
//!
//! A record is an object discriminated by its `type` field.  The five
//! known kinds decode field by field; an unknown `type` decodes to the
//! inert `Other`; a record that lacks a required field, or holds one of
//! the wrong shape, fails to decode and is skipped by the caller.
use vstd::prelude::*;

use crate::json::{obj_get, JVal, JsonValue, get_field};
use crate::strutil::{find_char, lemma_find_char, subrange_vec};

verus! {

broadcast use vstd::string::group_string_axioms;



/// The field named `key` of an object record.
pub open spec fn jfield(jv: JVal, key: Seq<char>) -> Option<JVal> {
    match jv {
        JVal::Obj(fields) => obj_get(fields, key),
        _ => None,
    }
}

/// A required string field: present and a string, or the record is
/// malformed.
pub open spec fn jstr_req(jv: JVal, key: Seq<char>) -> Option<Seq<char>> {
    match jfield(jv, key) {
        Some(JVal::Str(s)) => Some(s),
        _ => None,
    }
}

/// An optional string field: absent or null reads as `None`; any other
/// shape than a string makes the record malformed (outer `None`).
pub open spec fn jstr_opt(jv: JVal, key: Seq<char>) -> Option<Option<Seq<char>>> {
    match jfield(jv, key) {
        None => Some(None),
        Some(JVal::Null) => Some(None),
        Some(JVal::Str(s)) => Some(Some(s)),
        Some(_) => None,
    }
}

pub open spec fn is_digit(c: char) -> bool {
    '0' <= c <= '9'
}

pub open spec fn all_digits(s: Seq<char>) -> bool {
    forall|i: int| 0 <= i < s.len() ==> is_digit(#[trigger] s[i])
}

/// The value of a digit string.
pub open spec fn dec_val(s: Seq<char>) -> int
    decreases s.len(),
{
    if s.len() == 0 {
        0
    } else {
        dec_val(s.drop_last()) * 10 + (s.last() as int - '0' as int)
    }
}

pub open spec fn pow10(n: nat) -> int
    decreases n,
{
    if n == 0 {
        1
    } else {
        10 * pow10((n - 1) as nat)
    }
}

/// A digit string's value is never negative.
pub proof fn lemma_dec_val_nonneg(s: Seq<char>)
    requires
        all_digits(s),
    ensures
        0 <= dec_val(s),
    decreases s.len(),
{
    if s.len() > 0 {
        assert(all_digits(s.drop_last())) by {
            assert(forall|i: int|
                0 <= i < s.len() - 1 ==> s.drop_last()[i] == #[trigger] s[i]);
        }
        lemma_dec_val_nonneg(s.drop_last());
        assert(is_digit(s.last()));
    }
}

proof fn lemma_pow10_mono(a: nat, b: nat)
    requires
        a <= b,
    ensures
        1 <= pow10(a) <= pow10(b),
    decreases b,
{
    if a < b {
        lemma_pow10_mono(a, (b - 1) as nat);
    } else if b > 0 {
        lemma_pow10_mono((a - 1) as nat, (b - 1) as nat);
    }
}

proof fn lemma_pow10_cap(a: nat)
    requires
        a <= 18,
    ensures
        1 <= pow10(a) <= 1000000000000000000,
{
    lemma_pow10_mono(a, 18);
    reveal_with_fuel(pow10, 19);
    assert(pow10(18) == 1000000000000000000);
}

/// The integral part of a plain decimal literal, as a signed 64-bit
/// value: an optional minus sign, one to eighteen integer digits, and an
/// optional all-digit fraction, which truncation drops.  Exponent
/// notation, wider integers and anything else is rejected.
pub open spec fn num_i64_spec(s: Seq<char>) -> Option<i64> {
    let neg = s.len() > 0 && s[0] == '-';
    let body = if neg {
        s.drop_first()
    } else {
        s
    };
    let intpart = (match find_char(body, '.') {
        Some(i) => body.take(i),
        None => body,
    });
    let frac = (match find_char(body, '.') {
        Some(i) => body.skip(i + 1),
        None => Seq::<char>::empty(),
    });
    if 1 <= intpart.len() <= 18 && all_digits(intpart) && all_digits(frac) {
        if neg {
            Some((-dec_val(intpart)) as i64)
        } else {
            Some(dec_val(intpart) as i64)
        }
    } else {
        None
    }
}

/// Position of the first occurrence of `c` in `s`, as `find_char` gives
/// it.
fn find_pos(s: &[char], c: char) -> (r: Option<usize>)
    ensures
        match r {
            Some(i) => find_char(s@, c) == Some(i as int),
            None => find_char(s@, c) is None,
        },
{
    let mut i: usize = 0;
    while i < s.len()
        invariant
            i <= s@.len(),
            forall|k: int| 0 <= k < i ==> #[trigger] s@[k] != c,
        decreases s@.len() - i,
    {
        if s[i] == c {
            proof {
                lemma_find_char(s@, c);
                match find_char(s@, c) {
                    None => {
                        assert(false);
                    },
                    Some(f) => {
                        if f < i {
                            assert(s@[f] == c);
                        }
                        if f > i {
                            assert(s@[i as int] != c);
                        }
                    },
                }
            }
            return Some(i);
        }
        i += 1;
    }
    proof {
        lemma_find_char(s@, c);
        match find_char(s@, c) {
            Some(f) => {
                assert(s@[f] != c);
            },
            None => {},
        }
    }
    None
}

fn all_digits_exec(s: &[char]) -> (r: bool)
    ensures
        r == all_digits(s@),
{
    let mut i: usize = 0;
    while i < s.len()
        invariant
            i <= s@.len(),
            forall|k: int| 0 <= k < i ==> is_digit(#[trigger] s@[k]),
        decreases s@.len() - i,
    {
        let c = s[i];
        if !('0' <= c && c <= '9') {
            return false;
        }
        i += 1;
    }
    true
}

/// Parses the integral part of a decimal literal, exactly as
/// `num_i64_spec` describes.
pub fn num_text_to_i64(s: &[char]) -> (r: Option<i64>)
    ensures
        r == num_i64_spec(s@),
{
    let n = s.len();
    let neg = n > 0 && s[0] == '-';
    let start: usize = if neg {
        1
    } else {
        0
    };
    let body = subrange_vec(s, start, n);
    proof {
        if neg {
            assert(body@ =~= s@.drop_first());
        } else {
            assert(body@ =~= s@);
        }
    }
    let (intpart, frac) = (match find_pos(body.as_slice(), '.') {
        Some(i) => {
            proof {
                lemma_find_char(body@, '.');
            }
            let a = subrange_vec(body.as_slice(), 0, i);
            let b = subrange_vec(body.as_slice(), i + 1, body.len());
            proof {
                assert(a@ =~= body@.take(i as int));
                assert(b@ =~= body@.skip(i + 1));
            }
            (a, b)
        },
        None => {
            let a = subrange_vec(body.as_slice(), 0, body.len());
            proof {
                assert(a@ =~= body@);
            }
            (a, Vec::<char>::new())
        },
    });
    proof {
        assert(frac@ =~= (match find_char(body@, '.') {
            Some(i) => body@.skip(i + 1),
            None => Seq::<char>::empty(),
        }));
    }
    if intpart.len() < 1 || intpart.len() > 18 {
        return None;
    }
    if !all_digits_exec(intpart.as_slice()) {
        return None;
    }
    if !all_digits_exec(frac.as_slice()) {
        return None;
    }
    let mut acc: i64 = 0;
    let mut j: usize = 0;
    let m = intpart.len();
    while j < m
        invariant
            j <= m == intpart@.len() <= 18,
            all_digits(intpart@),
            0 <= acc,
            acc == dec_val(intpart@.take(j as int)),
            acc < pow10(j as nat),
        decreases m - j,
    {
        let c = intpart[j];
        proof {
            assert(is_digit(intpart@[j as int]));
            lemma_pow10_cap((j + 1) as nat);
            assert(intpart@.take(j + 1).drop_last() =~= intpart@.take(j as int));
            assert(intpart@.take(j + 1).last() == intpart@[j as int]);
        }
        let d = (c as u32) - ('0' as u32);
        acc = acc * 10 + (d as i64);
        j += 1;
    }
    proof {
        assert(intpart@.take(m as int) =~= intpart@);
    }
    if neg {
        Some(-acc)
    } else {
        Some(acc)
    }
}




use crate::models::{
    AfterActionEvent, AfterRep, BeforeActionEvent, BeforeRep, ContextOptionsEvent,
    ContextOptionsRep, EventRep, FrameEventRep, InputActionEvent, InputRep,
    ScreencastFrameEvent, SerializedError, SerializedErrorRep, TraceEvent,
};
use crate::json::{clone_json, clone_params, jfields_of, lemma_deep_view_is_jfields};
use crate::strutil::chars_of;

/// A required time field: any integer, or a plain decimal literal whose
/// integral part `num_i64_spec` accepts.
pub open spec fn jtime_req(jv: JVal, key: Seq<char>) -> Option<i64> {
    match jfield(jv, key) {
        Some(JVal::Int(i)) => Some(i),
        Some(JVal::Num(s)) => num_i64_spec(s),
        _ => None,
    }
}

/// A required unsigned 32-bit field.
pub open spec fn ju32_req(jv: JVal, key: Seq<char>) -> Option<u32> {
    match jfield(jv, key) {
        Some(JVal::Int(i)) => if 0 <= i <= u32::MAX {
            Some(i as u32)
        } else {
            None
        },
        _ => None,
    }
}

/// The parameter mapping: absent reads as empty; any shape other than an
/// object makes the record malformed.
pub open spec fn jparams(jv: JVal) -> Option<Seq<(Seq<char>, JVal)>> {
    match jfield(jv, "params"@) {
        None => Some(Seq::empty()),
        Some(JVal::Obj(fields)) => Some(fields),
        Some(_) => None,
    }
}

/// An embedded error object, with optional message and stack.
pub open spec fn jerror_opt(jv: JVal) -> Option<Option<SerializedErrorRep>> {
    match jfield(jv, "error"@) {
        None => Some(None),
        Some(JVal::Null) => Some(None),
        Some(e) => match e {
            JVal::Obj(_) => match (jstr_opt(e, "message"@), jstr_opt(e, "stack"@)) {
                (Some(message), Some(stack)) => Some(
                    Some(SerializedErrorRep { message, stack }),
                ),
                _ => None,
            },
            _ => None,
        },
    }
}

/// The optional result payload: absent or null reads as `None`.
pub open spec fn jresult(jv: JVal) -> Option<JVal> {
    match jfield(jv, "result"@) {
        None => None,
        Some(JVal::Null) => None,
        Some(x) => Some(x),
    }
}

fn get_str_req(v: &JsonValue, key: &str) -> (r: Option<String>)
    ensures
        match r {
            Some(s) => jstr_req(v@, key@) == Some(s@),
            None => jstr_req(v@, key@) is None,
        },
{
    match get_field(v, key) {
        Some(f) => match f {
            JsonValue::Str(s) => Some(s.clone()),
            _ => None,
        },
        None => None,
    }
}

fn get_str_opt(v: &JsonValue, key: &str) -> (r: Option<Option<String>>)
    ensures
        match r {
            Some(s) => jstr_opt(v@, key@) == Some(s.deep_view()),
            None => jstr_opt(v@, key@) is None,
        },
{
    match get_field(v, key) {
        None => Some(None),
        Some(f) => match f {
            JsonValue::Null => Some(None),
            JsonValue::Str(s) => Some(Some(s.clone())),
            _ => None,
        },
    }
}

fn get_time_req(v: &JsonValue, key: &str) -> (r: Option<i64>)
    ensures
        r == jtime_req(v@, key@),
{
    match get_field(v, key) {
        Some(f) => match f {
            JsonValue::Int(i) => Some(*i),
            JsonValue::Num(s) => {
                let cs = chars_of(s.as_str());
                num_text_to_i64(cs.as_slice())
            },
            _ => None,
        },
        None => None,
    }
}

fn get_u32_req(v: &JsonValue, key: &str) -> (r: Option<u32>)
    ensures
        r == ju32_req(v@, key@),
{
    match get_field(v, key) {
        Some(f) => match f {
            JsonValue::Int(i) => {
                if 0 <= *i && *i <= 4294967295i64 {
                    Some(*i as u32)
                } else {
                    None
                }
            },
            _ => None,
        },
        None => None,
    }
}

fn get_params(v: &JsonValue) -> (r: Option<Vec<(String, JsonValue)>>)
    ensures
        match r {
            Some(ps) => jparams(v@) == Some(ps.deep_view()),
            None => jparams(v@) is None,
        },
{
    match get_field(v, "params") {
        None => {
            let ps: Vec<(String, JsonValue)> = Vec::new();
            proof {
                lemma_deep_view_is_jfields(ps);
                assert(jfields_of(ps@) =~= Seq::<(Seq<char>, JVal)>::empty());
            }
            Some(ps)
        },
        Some(f) => match f {
            JsonValue::Obj(fields) => {
                let ps = clone_params(fields);
                proof {
                    lemma_deep_view_is_jfields(ps);
                    lemma_deep_view_is_jfields(*fields);
                }
                Some(ps)
            },
            _ => None,
        },
    }
}

fn get_error_opt(v: &JsonValue) -> (r: Option<Option<SerializedError>>)
    ensures
        match r {
            Some(e) => jerror_opt(v@) == Some(e.deep_view()),
            None => jerror_opt(v@) is None,
        },
{
    match get_field(v, "error") {
        None => Some(None),
        Some(f) => match f {
            JsonValue::Null => Some(None),
            JsonValue::Obj(_) => {
                let message = (match get_str_opt(f, "message") {
                    Some(m) => m,
                    None => {
                        return None;
                    },
                });
                let stack = (match get_str_opt(f, "stack") {
                    Some(st) => st,
                    None => {
                        return None;
                    },
                });
                Some(Some(SerializedError { message, stack }))
            },
            _ => None,
        },
    }
}

fn get_result_opt(v: &JsonValue) -> (r: Option<JsonValue>)
    ensures
        r.deep_view() == jresult(v@),
{
    match get_field(v, "result") {
        None => None,
        Some(f) => match f {
            JsonValue::Null => None,
            _ => Some(clone_json(f)),
        },
    }
}

/// What a record whose `type` is `before` decodes to.
pub open spec fn decode_before(jv: JVal) -> Option<EventRep> {
    match jstr_req(jv, "callId"@) {
        None => None,
        Some(call_id) => match jtime_req(jv, "startTime"@) {
            None => None,
            Some(start_time) => match jstr_req(jv, "class"@) {
                None => None,
                Some(class) => match jstr_req(jv, "method"@) {
                    None => None,
                    Some(method) => match jstr_opt(jv, "title"@) {
                        None => None,
                        Some(title) => match jparams(jv) {
                            None => None,
                            Some(params) => match jstr_opt(jv, "pageId"@) {
                                None => None,
                                Some(page_id) => match jstr_opt(jv, "parentId"@) {
                                    None => None,
                                    Some(parent_id) => Some(
                                        EventRep::Before(
                                            BeforeRep {
                                                call_id,
                                                start_time,
                                                title,
                                                class,
                                                method,
                                                params,
                                                page_id,
                                                parent_id,
                                            },
                                        ),
                                    ),
                                },
                            },
                        },
                    },
                },
            },
        },
    }
}

/// What a record whose `type` is `after` decodes to.
pub open spec fn decode_after(jv: JVal) -> Option<EventRep> {
    match jstr_req(jv, "callId"@) {
        None => None,
        Some(call_id) => match jtime_req(jv, "endTime"@) {
            None => None,
            Some(end_time) => match jerror_opt(jv) {
                None => None,
                Some(error) => Some(
                    EventRep::After(
                        AfterRep { call_id, end_time, error, result: jresult(jv) },
                    ),
                ),
            },
        },
    }
}

/// What a record whose `type` is `input` decodes to.
pub open spec fn decode_input(jv: JVal) -> Option<EventRep> {
    match jstr_req(jv, "callId"@) {
        None => None,
        Some(call_id) => match jstr_opt(jv, "inputSnapshot"@) {
            None => None,
            Some(input_snapshot) => Some(
                EventRep::Input(InputRep { call_id, input_snapshot }),
            ),
        },
    }
}

/// What a record whose `type` is `screencast-frame` decodes to.
pub open spec fn decode_frame(jv: JVal) -> Option<EventRep> {
    match jstr_req(jv, "pageId"@) {
        None => None,
        Some(page_id) => match jstr_req(jv, "sha1"@) {
            None => None,
            Some(sha1) => match ju32_req(jv, "width"@) {
                None => None,
                Some(width) => match ju32_req(jv, "height"@) {
                    None => None,
                    Some(height) => match jtime_req(jv, "timestamp"@) {
                        None => None,
                        Some(timestamp) => Some(
                            EventRep::ScreencastFrame(
                                FrameEventRep { page_id, sha1, width, height, timestamp },
                            ),
                        ),
                    },
                },
            },
        },
    }
}

/// What a record whose `type` is `context-options` decodes to.
pub open spec fn decode_context_options(jv: JVal) -> Option<EventRep> {
    match ju32_req(jv, "version"@) {
        None => None,
        Some(version) => match jstr_req(jv, "browserName"@) {
            None => None,
            Some(browser_name) => match jstr_opt(jv, "platform"@) {
                None => None,
                Some(platform) => match jstr_opt(jv, "playwrightVersion"@) {
                    None => None,
                    Some(playwright_version) => match jtime_req(jv, "wallTime"@) {
                        None => None,
                        Some(wall_time) => match jtime_req(jv, "monotonicTime"@) {
                            None => None,
                            Some(monotonic_time) => match jstr_opt(jv, "title"@) {
                                None => None,
                                Some(title) => Some(
                                    EventRep::ContextOptions(
                                        ContextOptionsRep {
                                            version,
                                            browser_name,
                                            platform,
                                            playwright_version,
                                            wall_time,
                                            monotonic_time,
                                            title,
                                        },
                                    ),
                                ),
                            },
                        },
                    },
                },
            },
        },
    }
}

/// What one well-formed JSON record decodes to: a known kind field by
/// field, an unknown kind as the inert `Other`, a malformed record as
/// `None`.
pub open spec fn decode_event_spec(jv: JVal) -> Option<EventRep> {
    match jstr_req(jv, "type"@) {
        None => None,
        Some(t) => if t == "before"@ {
            decode_before(jv)
        } else if t == "after"@ {
            decode_after(jv)
        } else if t == "input"@ {
            decode_input(jv)
        } else if t == "screencast-frame"@ {
            decode_frame(jv)
        } else if t == "context-options"@ {
            decode_context_options(jv)
        } else {
            Some(EventRep::Other)
        },
    }
}

/// Decodes one record, exactly as `decode_event_spec` describes.
pub fn decode_event(v: &JsonValue) -> (r: Option<TraceEvent>)
    ensures
        r.deep_view() == decode_event_spec(v@),
{
    let t = (match get_str_req(v, "type") {
        Some(t) => t,
        None => {
            return None;
        },
    });
    if t.as_str().eq("before") {
        let call_id = (match get_str_req(v, "callId") {
            Some(x) => x,
            None => {
                return None;
            },
        });
        let start_time = (match get_time_req(v, "startTime") {
            Some(x) => x,
            None => {
                return None;
            },
        });
        let class = (match get_str_req(v, "class") {
            Some(x) => x,
            None => {
                return None;
            },
        });
        let method = (match get_str_req(v, "method") {
            Some(x) => x,
            None => {
                return None;
            },
        });
        let title = (match get_str_opt(v, "title") {
            Some(x) => x,
            None => {
                return None;
            },
        });
        let params = (match get_params(v) {
            Some(x) => x,
            None => {
                return None;
            },
        });
        let page_id = (match get_str_opt(v, "pageId") {
            Some(x) => x,
            None => {
                return None;
            },
        });
        let parent_id = (match get_str_opt(v, "parentId") {
            Some(x) => x,
            None => {
                return None;
            },
        });
        Some(
            TraceEvent::Before(
                BeforeActionEvent {
                    call_id,
                    start_time,
                    title,
                    class,
                    method,
                    params,
                    page_id,
                    parent_id,
                },
            ),
        )
    } else if t.as_str().eq("after") {
        let call_id = (match get_str_req(v, "callId") {
            Some(x) => x,
            None => {
                return None;
            },
        });
        let end_time = (match get_time_req(v, "endTime") {
            Some(x) => x,
            None => {
                return None;
            },
        });
        let error = (match get_error_opt(v) {
            Some(x) => x,
            None => {
                return None;
            },
        });
        let result = get_result_opt(v);
        Some(TraceEvent::After(AfterActionEvent { call_id, end_time, error, result }))
    } else if t.as_str().eq("input") {
        let call_id = (match get_str_req(v, "callId") {
            Some(x) => x,
            None => {
                return None;
            },
        });
        let input_snapshot = (match get_str_opt(v, "inputSnapshot") {
            Some(x) => x,
            None => {
                return None;
            },
        });
        Some(TraceEvent::Input(InputActionEvent { call_id, input_snapshot }))
    } else if t.as_str().eq("screencast-frame") {
        let page_id = (match get_str_req(v, "pageId") {
            Some(x) => x,
            None => {
                return None;
            },
        });
        let sha1 = (match get_str_req(v, "sha1") {
            Some(x) => x,
            None => {
                return None;
            },
        });
        let width = (match get_u32_req(v, "width") {
            Some(x) => x,
            None => {
                return None;
            },
        });
        let height = (match get_u32_req(v, "height") {
            Some(x) => x,
            None => {
                return None;
            },
        });
        let timestamp = (match get_time_req(v, "timestamp") {
            Some(x) => x,
            None => {
                return None;
            },
        });
        Some(
            TraceEvent::ScreencastFrame(
                ScreencastFrameEvent { page_id, sha1, width, height, timestamp },
            ),
        )
    } else if t.as_str().eq("context-options") {
        let version = (match get_u32_req(v, "version") {
            Some(x) => x,
            None => {
                return None;
            },
        });
        let browser_name = (match get_str_req(v, "browserName") {
            Some(x) => x,
            None => {
                return None;
            },
        });
        let platform = (match get_str_opt(v, "platform") {
            Some(x) => x,
            None => {
                return None;
            },
        });
        let playwright_version = (match get_str_opt(v, "playwrightVersion") {
            Some(x) => x,
            None => {
                return None;
            },
        });
        let wall_time = (match get_time_req(v, "wallTime") {
            Some(x) => x,
            None => {
                return None;
            },
        });
        let monotonic_time = (match get_time_req(v, "monotonicTime") {
            Some(x) => x,
            None => {
                return None;
            },
        });
        let title = (match get_str_opt(v, "title") {
            Some(x) => x,
            None => {
                return None;
            },
        });
        Some(
            TraceEvent::ContextOptions(
                ContextOptionsEvent {
                    version,
                    browser_name,
                    platform,
                    playwright_version,
                    wall_time,
                    monotonic_time,
                    title,
                },
            ),
        )
    } else {
        Some(TraceEvent::Other)
    }
}




use crate::models::{ActionEntry, ActionRep, LogEntry, LogRep};
use crate::json::{jval_of, jvals_of, lemma_jvals_of, lemma_jfields_of};

/// The JSON value standing for an optional string.
pub open spec fn opt_str_val(o: Option<Seq<char>>) -> JVal {
    match o {
        Some(s) => JVal::Str(s),
        None => JVal::Null,
    }
}

/// The JSON object standing for an error.
pub open spec fn error_val(e: SerializedErrorRep) -> JVal {
    JVal::Obj(
        seq![
            ("message"@, opt_str_val(e.message)),
            ("stack"@, opt_str_val(e.stack)),
        ],
    )
}

/// The JSON object standing for one log line.
pub open spec fn log_val(l: LogRep) -> JVal {
    JVal::Obj(seq![("time"@, JVal::Int(l.time)), ("message"@, JVal::Str(l.message))])
}

/// The JSON object representation of an action: every field of the
/// record, with absent optional parts written as null.
pub open spec fn encode_action_spec(a: ActionRep) -> JVal {
    JVal::Obj(
        seq![
            ("type"@, JVal::Str(a.action_type)),
            ("callId"@, JVal::Str(a.call_id)),
            ("startTime"@, JVal::Int(a.start_time)),
            (
                "endTime"@,
                match a.end_time {
                    Some(e) => JVal::Int(e),
                    None => JVal::Null,
                },
            ),
            ("title"@, opt_str_val(a.title)),
            ("class"@, opt_str_val(a.class)),
            ("method"@, opt_str_val(a.method)),
            ("params"@, JVal::Obj(a.params)),
            ("pageId"@, opt_str_val(a.page_id)),
            ("parentId"@, opt_str_val(a.parent_id)),
            (
                "error"@,
                match a.error {
                    Some(e) => error_val(e),
                    None => JVal::Null,
                },
            ),
            ("log"@, JVal::Arr(a.log.map_values(|l: LogRep| log_val(l)))),
        ],
    )
}

/// An optional time field: absent or null reads as `None`.
pub open spec fn jtime_opt(jv: JVal, key: Seq<char>) -> Option<Option<i64>> {
    match jfield(jv, key) {
        None => Some(None),
        Some(JVal::Null) => Some(None),
        Some(JVal::Int(i)) => Some(Some(i)),
        Some(JVal::Num(s)) => match num_i64_spec(s) {
            Some(i) => Some(Some(i)),
            None => None,
        },
        Some(_) => None,
    }
}

/// What one entry of a log array decodes to.
pub open spec fn decode_log_entry(jv: JVal) -> Option<LogRep> {
    match jtime_req(jv, "time"@) {
        None => None,
        Some(time) => match jstr_req(jv, "message"@) {
            None => None,
            Some(message) => Some(LogRep { time, message }),
        },
    }
}

/// What a log array decodes to; one malformed entry spoils the record.
pub open spec fn decode_logs(items: Seq<JVal>) -> Option<Seq<LogRep>>
    decreases items.len(),
{
    if items.len() == 0 {
        Some(Seq::empty())
    } else {
        match decode_logs(items.drop_last()) {
            None => None,
            Some(pre) => match decode_log_entry(items.last()) {
                None => None,
                Some(l) => Some(pre.push(l)),
            },
        }
    }
}

/// The log field: absent reads as empty; anything but an array of
/// well-formed entries makes the record malformed.
pub open spec fn jlog(jv: JVal) -> Option<Seq<LogRep>> {
    match jfield(jv, "log"@) {
        None => Some(Seq::empty()),
        Some(JVal::Arr(items)) => decode_logs(items),
        Some(_) => None,
    }
}

/// What an action record decodes to, the inverse of
/// `encode_action_spec`.
pub open spec fn decode_action_spec(jv: JVal) -> Option<ActionRep> {
    match jstr_req(jv, "type"@) {
        None => None,
        Some(action_type) => match jstr_req(jv, "callId"@) {
            None => None,
            Some(call_id) => match jtime_req(jv, "startTime"@) {
                None => None,
                Some(start_time) => match jtime_opt(jv, "endTime"@) {
                    None => None,
                    Some(end_time) => match jstr_opt(jv, "title"@) {
                        None => None,
                        Some(title) => match jstr_opt(jv, "class"@) {
                            None => None,
                            Some(class) => match jstr_opt(jv, "method"@) {
                                None => None,
                                Some(method) => match jparams(jv) {
                                    None => None,
                                    Some(params) => match jstr_opt(jv, "pageId"@) {
                                        None => None,
                                        Some(page_id) => match jstr_opt(jv, "parentId"@) {
                                            None => None,
                                            Some(parent_id) => match jerror_opt(jv) {
                                                None => None,
                                                Some(error) => match jlog(jv) {
                                                    None => None,
                                                    Some(log) => Some(
                                                        ActionRep {
                                                            action_type,
                                                            call_id,
                                                            start_time,
                                                            end_time,
                                                            title,
                                                            class,
                                                            method,
                                                            params,
                                                            page_id,
                                                            parent_id,
                                                            error,
                                                            log,
                                                        },
                                                    ),
                                                },
                                            },
                                        },
                                    },
                                },
                            },
                        },
                    },
                },
            },
        },
    }
}

fn opt_str_to_json(o: &Option<String>) -> (r: JsonValue)
    ensures
        r@ == opt_str_val(o.deep_view()),
{
    match o {
        Some(s) => JsonValue::Str(s.clone()),
        None => JsonValue::Null,
    }
}

/// Encodes an action as its JSON object representation.
pub fn action_to_json(a: &ActionEntry) -> (r: JsonValue)
    ensures
        r@ == encode_action_spec(a@),
{
    let mut out: Vec<(String, JsonValue)> = Vec::new();
    out.push((String::from_str("type"), JsonValue::Str(a.action_type.clone())));
    out.push((String::from_str("callId"), JsonValue::Str(a.call_id.clone())));
    out.push((String::from_str("startTime"), JsonValue::Int(a.start_time)));
    out.push(
        (
            String::from_str("endTime"),
            match a.end_time {
                Some(e) => JsonValue::Int(e),
                None => JsonValue::Null,
            },
        ),
    );
    out.push((String::from_str("title"), opt_str_to_json(&a.title)));
    out.push((String::from_str("class"), opt_str_to_json(&a.class)));
    out.push((String::from_str("method"), opt_str_to_json(&a.method)));
    let cp = clone_params(&a.params);
    proof {
        lemma_deep_view_is_jfields(cp);
        lemma_deep_view_is_jfields(a.params);
    }
    out.push((String::from_str("params"), JsonValue::Obj(cp)));
    out.push((String::from_str("pageId"), opt_str_to_json(&a.page_id)));
    out.push((String::from_str("parentId"), opt_str_to_json(&a.parent_id)));
    out.push(
        (
            String::from_str("error"),
            match &a.error {
                Some(e) => {
                    let mut ef: Vec<(String, JsonValue)> = Vec::new();
                    ef.push((String::from_str("message"), opt_str_to_json(&e.message)));
                    ef.push((String::from_str("stack"), opt_str_to_json(&e.stack)));
                    proof {
                        lemma_jfields_of(ef@);
                        assert(a@.error == Some(e@));
                        assert(jfields_of(ef@)[0] == (ef@[0].0@, jval_of(ef@[0].1)));
                        assert(jfields_of(ef@)[1] == (ef@[1].0@, jval_of(ef@[1].1)));
                        assert(jfields_of(ef@) =~= seq![
                            ("message"@, opt_str_val(e@.message)),
                            ("stack"@, opt_str_val(e@.stack)),
                        ]);
                    }
                    JsonValue::Obj(ef)
                },
                None => JsonValue::Null,
            },
        ),
    );
    let mut logs: Vec<JsonValue> = Vec::new();
    let mut i: usize = 0;
    while i < a.log.len()
        invariant
            i <= a.log@.len(),
            logs@.len() == i,
            forall|k: int|
                0 <= k < i ==> (#[trigger] logs@[k])@ == log_val(a.log@[k]@),
        decreases a.log@.len() - i,
    {
        let l = &a.log[i];
        let mut lf: Vec<(String, JsonValue)> = Vec::new();
        lf.push((String::from_str("time"), JsonValue::Int(l.time)));
        lf.push((String::from_str("message"), JsonValue::Str(l.message.clone())));
        proof {
            lemma_jfields_of(lf@);
            assert(jfields_of(lf@)[0] == (lf@[0].0@, jval_of(lf@[0].1)));
            assert(jfields_of(lf@)[1] == (lf@[1].0@, jval_of(lf@[1].1)));
            assert(jfields_of(lf@) =~= seq![
                ("time"@, JVal::Int(a.log@[i as int]@.time)),
                ("message"@, JVal::Str(a.log@[i as int]@.message)),
            ]);
        }
        logs.push(JsonValue::Obj(lf));
        i += 1;
    }
    proof {
        lemma_jvals_of(logs@);
        assert forall|k: int| 0 <= k < logs@.len() implies jvals_of(logs@)[k]
            == a@.log.map_values(|l: LogRep| log_val(l))[k] by {
            assert(jvals_of(logs@)[k] == jval_of(logs@[k]));
            assert(a@.log[k] == a.log@[k]@);
        }
        assert(jvals_of(logs@) =~= a@.log.map_values(|l: LogRep| log_val(l)));
    }
    out.push((String::from_str("log"), JsonValue::Arr(logs)));
    proof {
        lemma_jfields_of(out@);
        let spec_fields = (match encode_action_spec(a@) {
            JVal::Obj(fs) => fs,
            _ => Seq::<(Seq<char>, JVal)>::empty(),
        });
        assert forall|k: int| 0 <= k < out@.len() implies jfields_of(out@)[k]
            == spec_fields[k] by {
            assert(jfields_of(out@)[k] == (out@[k].0@, jval_of(out@[k].1)));
        }
        assert(jfields_of(out@) =~= spec_fields);
    }
    JsonValue::Obj(out)
}




fn get_time_opt(v: &JsonValue, key: &str) -> (r: Option<Option<i64>>)
    ensures
        match r {
            Some(t) => jtime_opt(v@, key@) == Some(t),
            None => jtime_opt(v@, key@) is None,
        },
{
    match get_field(v, key) {
        None => Some(None),
        Some(f) => match f {
            JsonValue::Null => Some(None),
            JsonValue::Int(i) => Some(Some(*i)),
            JsonValue::Num(s) => {
                let cs = chars_of(s.as_str());
                match num_text_to_i64(cs.as_slice()) {
                    Some(i) => Some(Some(i)),
                    None => None,
                }
            },
            _ => None,
        },
    }
}

fn get_logs(v: &JsonValue) -> (r: Option<Vec<LogEntry>>)
    ensures
        match r {
            Some(ls) => jlog(v@) == Some(ls.deep_view()),
            None => jlog(v@) is None,
        },
{
    match get_field(v, "log") {
        None => {
            let ls: Vec<LogEntry> = Vec::new();
            proof {
                assert(ls.deep_view() =~= Seq::<LogRep>::empty());
            }
            Some(ls)
        },
        Some(f) => match f {
            JsonValue::Arr(items) => {
                let ghost gitems = f@->Arr_0;
                proof {
                    lemma_jvals_of(items@);
                }
                let mut ls: Vec<LogEntry> = Vec::new();
                let mut i: usize = 0;
                while i < items.len()
                    invariant
                        i <= items@.len(),
                        jfield(v@, "log"@) == Some(f@),
                        f@ == JVal::Arr(gitems),
                        gitems == jvals_of(items@),
                        gitems.len() == items@.len(),
                        forall|k: int|
                            0 <= k < items@.len() ==> gitems[k] == jval_of(
                            #[trigger] items@[k],
                            ),
                        decode_logs(gitems.take(i as int)) == Some(ls.deep_view()),
                    decreases items@.len() - i,
                {
                    let item = &items[i];
                    let time = (match get_time_req(item, "time") {
                        Some(t) => t,
                        None => {
                            proof {
                                lemma_decode_logs_bad(gitems, i as int);
                            }
                            return None;
                        },
                    });
                    let message = (match get_str_req(item, "message") {
                        Some(m) => m,
                        None => {
                            proof {
                                lemma_decode_logs_bad(gitems, i as int);
                            }
                            return None;
                        },
                    });
                    let ghost old_ls = ls.deep_view();
                    ls.push(LogEntry { time, message });
                    proof {
                        assert(ls.deep_view() =~= old_ls.push(
                            LogRep { time: time, message: message@ },
                        ));
                        assert(gitems.take(i + 1).drop_last() =~= gitems.take(
                            i as int,
                        ));
                        assert(gitems.take(i + 1).last() == gitems[i as int]);
                    }
                    i += 1;
                }
                proof {
                    assert(gitems.take(items@.len() as int) =~= gitems);
                }
                Some(ls)
            },
            _ => None,
        },
    }
}

/// One malformed entry makes the whole log array malformed.
proof fn lemma_decode_logs_bad(items: Seq<JVal>, i: int)
    requires
        0 <= i < items.len(),
        decode_log_entry(items[i]) is None,
    ensures
        decode_logs(items) is None,
    decreases items.len(),
{
    if items.len() > 0 {
        if i == items.len() - 1 {
        } else {
            assert(items.drop_last()[i] == items[i]);
            lemma_decode_logs_bad(items.drop_last(), i);
        }
    }
}

/// Decodes an action record, exactly as `decode_action_spec` describes.
pub fn action_from_json(v: &JsonValue) -> (r: Option<ActionEntry>)
    ensures
        r.deep_view() == decode_action_spec(v@),
{
    let action_type = (match get_str_req(v, "type") {
        Some(x) => x,
        None => {
            return None;
        },
    });
    let call_id = (match get_str_req(v, "callId") {
        Some(x) => x,
        None => {
            return None;
        },
    });
    let start_time = (match get_time_req(v, "startTime") {
        Some(x) => x,
        None => {
            return None;
        },
    });
    let end_time = (match get_time_opt(v, "endTime") {
        Some(x) => x,
        None => {
            return None;
        },
    });
    let title = (match get_str_opt(v, "title") {
        Some(x) => x,
        None => {
            return None;
        },
    });
    let class = (match get_str_opt(v, "class") {
        Some(x) => x,
        None => {
            return None;
        },
    });
    let method = (match get_str_opt(v, "method") {
        Some(x) => x,
        None => {
            return None;
        },
    });
    let params = (match get_params(v) {
        Some(x) => x,
        None => {
            return None;
        },
    });
    let page_id = (match get_str_opt(v, "pageId") {
        Some(x) => x,
        None => {
            return None;
        },
    });
    let parent_id = (match get_str_opt(v, "parentId") {
        Some(x) => x,
        None => {
            return None;
        },
    });
    let error = (match get_error_opt(v) {
        Some(x) => x,
        None => {
            return None;
        },
    });
    let log = (match get_logs(v) {
        Some(x) => x,
        None => {
            return None;
        },
    });
    Some(
        ActionEntry {
            action_type,
            call_id,
            start_time,
            end_time,
            title,
            class,
            method,
            params,
            page_id,
            parent_id,
            error,
            log,
        },
    )
}

/// Encoding an action and decoding the result gives the action back,
/// every field preserved — the empty parameter mapping included.
pub proof fn lemma_action_round_trip(a: ActionRep)
    ensures
        decode_action_spec(encode_action_spec(a)) == Some(a),
{
    reveal_strlit("type");
    reveal_strlit("callId");
    reveal_strlit("startTime");
    reveal_strlit("endTime");
    reveal_strlit("title");
    reveal_strlit("class");
    reveal_strlit("method");
    reveal_strlit("params");
    reveal_strlit("pageId");
    reveal_strlit("parentId");
    reveal_strlit("error");
    reveal_strlit("log");
    reveal_strlit("message");
    reveal_strlit("stack");
    reveal_strlit("time");
    let enc = encode_action_spec(a);
    let fields = enc->Obj_0;
    reveal_with_fuel(obj_get, 13);
    assert("type"@.len() == 4);
    assert("callId"@.len() == 6);
    assert("startTime"@.len() == 9);
    assert("endTime"@.len() == 7);
    assert("title"@.len() == 5);
    assert("class"@.len() == 5);
    assert("method"@.len() == 6);
    assert("params"@.len() == 6);
    assert("pageId"@.len() == 6);
    assert("parentId"@.len() == 8);
    assert("error"@.len() == 5);
    assert("log"@.len() == 3);
    assert("message"@.len() == 7);
    assert("stack"@.len() == 5);
    assert("time"@.len() == 4);
    assert("title"@[0] == 't');
    assert("class"@[0] == 'c');
    assert("error"@[0] == 'e');
    assert("stack"@[0] == 's');
    assert("callId"@[0] == 'c');
    assert("method"@[0] == 'm');
    assert("params"@[0] == 'p');
    assert("pageId"@[0] == 'p');
    assert("params"@[2] == 'r');
    assert("pageId"@[2] == 'g');
    assert(jstr_req(enc, "type"@) == Some(a.action_type));
    assert(jstr_req(enc, "callId"@) == Some(a.call_id));
    assert(jtime_req(enc, "startTime"@) == Some(a.start_time));
    assert(jtime_opt(enc, "endTime"@) == Some(a.end_time));
    assert(jstr_opt(enc, "title"@) == Some(a.title));
    assert(jstr_opt(enc, "class"@) == Some(a.class));
    assert(jstr_opt(enc, "method"@) == Some(a.method));
    assert(jparams(enc) == Some(a.params));
    assert(jstr_opt(enc, "pageId"@) == Some(a.page_id));
    assert(jstr_opt(enc, "parentId"@) == Some(a.parent_id));
    match a.error {
        Some(e) => {
            let ev = error_val(e);
            assert(jstr_opt(ev, "message"@) == Some(e.message));
            assert(jstr_opt(ev, "stack"@) == Some(e.stack));
            assert(jerror_opt(enc) == Some(Some(e)));
        },
        None => {
            assert(jerror_opt(enc) == Some(None::<SerializedErrorRep>));
        },
    }
    lemma_logs_round_trip(a.log);
    assert(jlog(enc) == Some(a.log));
}




/// A log sequence written out as JSON objects decodes back to itself.
proof fn lemma_logs_round_trip(log: Seq<LogRep>)
    ensures
        decode_logs(log.map_values(|l: LogRep| log_val(l))) == Some(log),
    decreases log.len(),
{
    reveal_strlit("time");
    reveal_strlit("message");
    let items = log.map_values(|l: LogRep| log_val(l));
    if log.len() == 0 {
        assert(items.len() == 0);
    } else {
        lemma_logs_round_trip(log.drop_last());
        assert(log.drop_last().map_values(|l: LogRep| log_val(l)) =~= items.drop_last());
        let l = log.last();
        let lv = log_val(l);
        assert(items.last() == lv);
        reveal_with_fuel(obj_get, 3);
        assert("time"@.len() == 4);
        assert("message"@.len() == 7);
        assert(jtime_req(lv, "time"@) == Some(l.time));
        assert(jstr_req(lv, "message"@) == Some(l.message));
        assert(decode_log_entry(lv) == Some(l));
        assert(Some(log.drop_last().push(l)) =~= Some(log));
    }
}



} // verus!
