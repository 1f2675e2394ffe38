//! The archive classifier and trace loader: raw bytes in, a trace
//! model out.
//!
//! An archive holding any `data/*.zip` entry is a report bundle and is
//! loaded by recursing into each nested archive, to a fixed nesting
//! bound; one whose entries end in `.trace` is a single-trace archive,
//! one context per ordinal; anything else fails.  Nested-archive
//! failures are fatal for the whole load, unlike the per-line tolerance
//! inside one trace.
use vstd::prelude::*;

use crate::archive::{
    all_entries_readable, archive_entries, archive_entry_bytes, archive_entry_text,
    zip_data_io_fault, zip_entry_data, zip_entry_list, zip_entry_text, zip_text_io_fault,
    ArchiveFault,
};
use crate::models::{ContextRep, TraceModel};
use crate::reconstruct::{parse_trace, parse_trace_spec};
use crate::strutil::{
    chars_of, ends_with, ends_with_spec, starts_with, starts_with_spec, string_of, subrange_vec,
};

verus! {

broadcast use vstd::string::group_string_axioms;

/// How many levels of archive-in-archive nesting a load will follow
/// before it fails.
pub const MAX_NESTING: usize = 8;

/// Why a trace load failed.
#[derive(Debug)]
pub enum LoadError {
    ZipError(String),
    IoError(String),
    ParseError(String),
    MissingTraceFile,
    ArchiveTooDeep,
}

/// An entry that marks a report bundle: a nested archive under `data/`.
pub open spec fn is_report_entry(name: Seq<char>) -> bool {
    starts_with_spec(name, "data/"@) && ends_with_spec(name, ".zip"@)
}

pub open spec fn has_report_entry(entries: Seq<Seq<char>>) -> bool {
    exists|i: int| 0 <= i < entries.len() && is_report_entry(#[trigger] entries[i])
}

/// The ordinals of the `.trace` entries, in entry order.
pub open spec fn trace_ordinals(entries: Seq<Seq<char>>) -> Seq<Seq<char>>
    decreases entries.len(),
{
    if entries.len() == 0 {
        Seq::empty()
    } else {
        trace_ordinals(entries.drop_last()) + (if ends_with_spec(
            entries.last(),
            ".trace"@,
        ) {
            seq![entries.last().take(entries.last().len() - 6)]
        } else {
            Seq::empty()
        })
    }
}

/// What a load comes to, with error messages abstracted away: the
/// contexts on success, otherwise which kind of failure stopped it.
/// The two read-failure kinds mirror the two fault kinds of the
/// archive reader, so the error variant is a function of the input.
pub ghost enum LoadOutcome {
    Loaded(Seq<ContextRep>),
    BadArchive,
    TooDeep,
    MissingTrace,
    ReadFailZip,
    ReadFailIo,
}

/// The read-failure outcome for an entry whose text would not come
/// back.
pub open spec fn text_fail(bytes: Seq<u8>, name: Seq<char>) -> LoadOutcome {
    if zip_text_io_fault(bytes, name) {
        LoadOutcome::ReadFailIo
    } else {
        LoadOutcome::ReadFailZip
    }
}

/// The read-failure outcome for an entry whose raw bytes would not
/// come back.
pub open spec fn data_fail(bytes: Seq<u8>, name: Seq<char>) -> LoadOutcome {
    if zip_data_io_fault(bytes, name) {
        LoadOutcome::ReadFailIo
    } else {
        LoadOutcome::ReadFailZip
    }
}

/// Appends the rest of a load onto contexts already gathered, passing a
/// failure through.
pub open spec fn outcome_prepend(acc: Seq<ContextRep>, rest: LoadOutcome) -> LoadOutcome {
    match rest {
        LoadOutcome::Loaded(cs) => LoadOutcome::Loaded(acc + cs),
        _ => rest,
    }
}

/// What loading `bytes` with `depth` nesting levels left returns.
/// Enumerating the entries comes first, so one unopenable entry fails
/// the whole load, as an archive fault.
pub open spec fn load_spec(bytes: Seq<u8>, depth: nat) -> LoadOutcome
    decreases depth, 0int, 0int,
{
    match zip_entry_list(bytes) {
        None => LoadOutcome::BadArchive,
        Some(entries) => {
            if !all_entries_readable(bytes, entries.len() as int) {
                LoadOutcome::ReadFailZip
            } else if has_report_entry(entries) {
                if depth == 0 {
                    LoadOutcome::TooDeep
                } else {
                    report_spec(bytes, entries, 0, (depth - 1) as nat)
                }
            } else {
                single_spec(bytes, entries)
            }
        },
    }
}

/// Loads every nested archive under `data/` from entry `i` on, in entry
/// order, concatenating their contexts; one nested failure fails the
/// whole report.
pub open spec fn report_spec(bytes: Seq<u8>, entries: Seq<Seq<char>>, i: int, depth: nat) -> LoadOutcome
    decreases depth, 1int, entries.len() - i,
{
    if i < 0 || i >= entries.len() {
        LoadOutcome::Loaded(Seq::empty())
    } else if is_report_entry(entries[i]) {
        match zip_entry_data(bytes, entries[i]) {
            None => data_fail(bytes, entries[i]),
            Some(nb) => match load_spec(nb, depth) {
                LoadOutcome::Loaded(cs) => outcome_prepend(
                    cs,
                    report_spec(bytes, entries, i + 1, depth),
                ),
                e => e,
            },
        }
    } else {
        report_spec(bytes, entries, i + 1, depth)
    }
}

/// Loads a single-trace archive: one context per `.trace` ordinal, in
/// ordinal-discovery order, each with its optional `.network` sibling.
pub open spec fn single_spec(bytes: Seq<u8>, entries: Seq<Seq<char>>) -> LoadOutcome {
    let ords = trace_ordinals(entries);
    if ords.len() == 0 {
        LoadOutcome::MissingTrace
    } else {
        traces_spec(bytes, entries, ords, 0)
    }
}

pub open spec fn traces_spec(
    bytes: Seq<u8>,
    entries: Seq<Seq<char>>,
    ords: Seq<Seq<char>>,
    i: int,
) -> LoadOutcome
    decreases ords.len() - i,
{
    if i < 0 || i >= ords.len() {
        LoadOutcome::Loaded(Seq::empty())
    } else {
        let tname = ords[i] + ".trace"@;
        let nname = ords[i] + ".network"@;
        match zip_entry_text(bytes, tname) {
            None => text_fail(bytes, tname),
            Some(text) => {
                if entries.contains(nname) && zip_entry_text(bytes, nname) is None {
                    text_fail(bytes, nname)
                } else {
                    let net = (if entries.contains(nname) {
                        zip_entry_text(bytes, nname)
                    } else {
                        None
                    });
                    outcome_prepend(
                        seq![parse_trace_spec(text, net)],
                        traces_spec(bytes, entries, ords, i + 1),
                    )
                }
            },
        }
    }
}

/// Which error variants an abstract outcome is allowed to surface as.
pub open spec fn err_matches(o: LoadOutcome, e: LoadError) -> bool {
    match o {
        LoadOutcome::BadArchive => e is ZipError,
        LoadOutcome::TooDeep => e is ArchiveTooDeep,
        LoadOutcome::MissingTrace => e is MissingTraceFile,
        LoadOutcome::ReadFailZip => e is ZipError,
        LoadOutcome::ReadFailIo => e is IoError,
        LoadOutcome::Loaded(_) => false,
    }
}

fn fault_to_load(f: ArchiveFault) -> (r: LoadError)
    ensures
        f is Zip ==> r is ZipError,
        f is Io ==> r is IoError,
{
    match f {
        ArchiveFault::Zip(m) => LoadError::ZipError(m),
        ArchiveFault::Io(m) => LoadError::IoError(m),
    }
}

/// Whether some entry name equals `name`.
fn contains_name(entries: &Vec<(String, bool)>, name: &String) -> (r: bool)
    ensures
        r == entries.deep_view().map_values(|p: (Seq<char>, bool)| p.0).contains(name@),
{
    let ghost gnames = entries.deep_view().map_values(|p: (Seq<char>, bool)| p.0);
    let mut i: usize = 0;
    while i < entries.len()
        invariant
            i <= entries@.len(),
            gnames == entries.deep_view().map_values(|p: (Seq<char>, bool)| p.0),
            gnames.len() == entries@.len(),
            forall|k: int| 0 <= k < i ==> #[trigger] gnames[k] != name@,
        decreases entries@.len() - i,
    {
        proof {
            assert(gnames[i as int] == entries@[i as int].0@);
        }
        if entries[i].0.eq(name) {
            return true;
        }
        i += 1;
    }
    false
}

/// Loads a trace model from the bytes of a ZIP archive, as `load_spec`
/// with the fixed nesting bound describes: a report bundle's nested
/// archives in entry order, or a single-trace archive's contexts in
/// ordinal order; a malformed container, a missing `.trace` entry, an
/// unreadable entry, or too-deep nesting each surface as their error.
pub fn load_trace_from_zip(bytes: &[u8]) -> (r: Result<TraceModel, LoadError>)
    ensures
        match r {
            Ok(m) => load_spec(bytes@, MAX_NESTING as nat) == LoadOutcome::Loaded(
                m@.contexts,
            ),
            Err(e) => err_matches(load_spec(bytes@, MAX_NESTING as nat), e),
        },
{
    load_with_depth(bytes, MAX_NESTING)
}

fn load_with_depth(bytes: &[u8], depth: usize) -> (r: Result<TraceModel, LoadError>)
    ensures
        match r {
            Ok(m) => load_spec(bytes@, depth as nat) == LoadOutcome::Loaded(m@.contexts),
            Err(e) => err_matches(load_spec(bytes@, depth as nat), e),
        },
    decreases depth, 1int,
{
    let entries = (match archive_entries(bytes) {
        Ok(v) => v,
        Err(f) => {
            return Err(fault_to_load(f));
        },
    });
    let ghost l = zip_entry_list(bytes@)->Some_0;
    // classify: any data/*.zip entry makes this a report bundle
    let data_prefix = chars_of("data/");
    let zip_suffix = chars_of(".zip");
    let mut is_report = false;
    let mut i: usize = 0;
    while i < entries.len() && !is_report
        invariant
            i <= entries@.len(),
            zip_entry_list(bytes@) == Some(l),
            entries@.len() == l.len(),
            forall|k: int|
                0 <= k < l.len() ==> (#[trigger] entries@[k]).0@ == l[k],
            data_prefix@ == "data/"@,
            zip_suffix@ == ".zip"@,
            is_report ==> has_report_entry(l),
            !is_report ==> forall|k: int| 0 <= k < i ==> !is_report_entry(#[trigger] l[k]),
        decreases entries@.len() - i,
    {
        let name_chars = chars_of(entries[i].0.as_str());
        if starts_with(name_chars.as_slice(), data_prefix.as_slice()) && ends_with(
            name_chars.as_slice(),
            zip_suffix.as_slice(),
        ) {
            proof {
                assert(is_report_entry(l[i as int]));
            }
            is_report = true;
        }
        i += 1;
    }
    if is_report {
        if depth == 0 {
            return Err(LoadError::ArchiveTooDeep);
        }
        load_report_archive(bytes, &entries, depth)
    } else {
        proof {
            assert(!has_report_entry(l));
        }
        load_single_trace_archive(bytes, &entries)
    }
}

fn load_report_archive(bytes: &[u8], entries: &Vec<(String, bool)>, depth: usize) -> (r: Result<
    TraceModel,
    LoadError,
>)
    requires
        depth >= 1,
        zip_entry_list(bytes@) matches Some(l) && entries@.len() == l.len() && (forall|k: int|
            0 <= k < l.len() ==> (#[trigger] entries@[k]).0@ == l[k]) && has_report_entry(l)
            && all_entries_readable(bytes@, l.len() as int),
    ensures
        match r {
            Ok(m) => load_spec(bytes@, depth as nat) == LoadOutcome::Loaded(m@.contexts),
            Err(e) => err_matches(load_spec(bytes@, depth as nat), e),
        },
    decreases depth, 0int,
{
    let ghost l = zip_entry_list(bytes@)->Some_0;
    let ghost d: nat = (depth - 1) as nat;
    let data_prefix = chars_of("data/");
    let zip_suffix = chars_of(".zip");
    let mut contexts: Vec<crate::models::ContextEntry> = Vec::new();
    proof {
        assert(contexts.deep_view() =~= Seq::<ContextRep>::empty());
    }
    let mut i: usize = 0;
    while i < entries.len()
        invariant
            i <= entries@.len(),
            depth >= 1,
            d == (depth - 1) as nat,
            zip_entry_list(bytes@) == Some(l),
            entries@.len() == l.len(),
            all_entries_readable(bytes@, l.len() as int),
            has_report_entry(l),
            forall|k: int|
                0 <= k < l.len() ==> (#[trigger] entries@[k]).0@ == l[k],
            data_prefix@ == "data/"@,
            zip_suffix@ == ".zip"@,
            report_spec(bytes@, l, 0, d) == outcome_prepend(
                contexts.deep_view(),
                report_spec(bytes@, l, i as int, d),
            ),
        decreases entries@.len() - i,
    {
        let name_chars = chars_of(entries[i].0.as_str());
        if starts_with(name_chars.as_slice(), data_prefix.as_slice()) && ends_with(
            name_chars.as_slice(),
            zip_suffix.as_slice(),
        ) {
            proof {
                assert(is_report_entry(l[i as int]));
            }
            let nb = (match archive_entry_bytes(bytes, entries[i].0.as_str()) {
                Ok(d) => d,
                Err(f) => {
                    return Err(fault_to_load(f));
                },
            });
            let sub = (match load_with_depth(nb.as_slice(), depth - 1) {
                Ok(m) => m,
                Err(e) => {
                    return Err(e);
                },
            });
            let ghost before = contexts.deep_view();
            let ghost subctx = sub.deep_view().contexts;
            let mut sub = sub;
            contexts.append(&mut sub.contexts);
            proof {
                assert(contexts.deep_view() =~= before + subctx);
                assert(forall|rest: Seq<ContextRep>|
                    (before + subctx) + rest =~= before + (subctx + rest));
            }
        }
        i += 1;
    }
    proof {
        assert(report_spec(bytes@, l, l.len() as int, d) == LoadOutcome::Loaded(
            Seq::<ContextRep>::empty(),
        ));
        assert(contexts.deep_view() + Seq::<ContextRep>::empty() =~= contexts.deep_view());
    }
    Ok(TraceModel { contexts })
}

fn load_single_trace_archive(bytes: &[u8], entries: &Vec<(String, bool)>) -> (r: Result<
    TraceModel,
    LoadError,
>)
    requires
        zip_entry_list(bytes@) matches Some(l) && entries@.len() == l.len() && (forall|k: int|
            0 <= k < l.len() ==> (#[trigger] entries@[k]).0@ == l[k]),
    ensures
        match r {
            Ok(m) => single_spec(bytes@, zip_entry_list(bytes@)->Some_0) == LoadOutcome::Loaded(
                m@.contexts,
            ),
            Err(e) => err_matches(single_spec(bytes@, zip_entry_list(bytes@)->Some_0), e),
        },
{
    let ghost l = zip_entry_list(bytes@)->Some_0;
    let trace_suffix = chars_of(".trace");
    let mut ordinals: Vec<String> = Vec::new();
    proof {
        assert(l.take(0) =~= Seq::<Seq<char>>::empty());
        assert(ordinals.deep_view() =~= trace_ordinals(l.take(0)));
    }
    let mut i: usize = 0;
    while i < entries.len()
        invariant
            i <= entries@.len(),
            zip_entry_list(bytes@) == Some(l),
            entries@.len() == l.len(),
            forall|k: int|
                0 <= k < l.len() ==> (#[trigger] entries@[k]).0@ == l[k],
            trace_suffix@ == ".trace"@,
            ordinals.deep_view() == trace_ordinals(l.take(i as int)),
        decreases entries@.len() - i,
    {
        let ghost before = ordinals.deep_view();
        proof {
            assert(l.take(i + 1).drop_last() =~= l.take(i as int));
            assert(l.take(i + 1).last() == l[i as int]);
        }
        let name_chars = chars_of(entries[i].0.as_str());
        if ends_with(name_chars.as_slice(), trace_suffix.as_slice()) {
            proof {
                reveal_strlit(".trace");
                assert(trace_suffix@.len() == 6);
            }
            let ord_chars = subrange_vec(
                name_chars.as_slice(),
                0,
                name_chars.len() - 6,
            );
            let ord = string_of(ord_chars.as_slice());
            ordinals.push(ord);
            proof {
                assert(ordinals.deep_view() =~= before.push(
                    l[i as int].take(l[i as int].len() - 6),
                ));
                assert(before + seq![l[i as int].take(l[i as int].len() - 6)]
                    =~= ordinals.deep_view());
            }
        } else {
            proof {
                assert(before + Seq::<Seq<char>>::empty() =~= before);
            }
        }
        i += 1;
    }
    proof {
        assert(l.take(l.len() as int) =~= l);
    }
    let ghost ords = trace_ordinals(l);
    if ordinals.len() == 0 {
        return Err(LoadError::MissingTraceFile);
    }
    let mut contexts: Vec<crate::models::ContextEntry> = Vec::new();
    proof {
        assert(contexts.deep_view() =~= Seq::<ContextRep>::empty());
    }
    let mut j: usize = 0;
    while j < ordinals.len()
        invariant
            j <= ordinals@.len(),
            zip_entry_list(bytes@) == Some(l),
            entries@.len() == l.len(),
            forall|k: int|
                0 <= k < l.len() ==> (#[trigger] entries@[k]).0@ == l[k],
            ords == trace_ordinals(l),
            ordinals.deep_view() == ords,
            ordinals@.len() == ords.len(),
            traces_spec(bytes@, l, ords, 0) == outcome_prepend(
                contexts.deep_view(),
                traces_spec(bytes@, l, ords, j as int),
            ),
        decreases ordinals@.len() - j,
    {
        let tname = ordinals[j].clone().concat(".trace");
        let nname = ordinals[j].clone().concat(".network");
        proof {
            assert(ordinals.deep_view()[j as int] == ordinals@[j as int]@);
            assert(tname@ == ords[j as int] + ".trace"@);
            assert(nname@ == ords[j as int] + ".network"@);
        }
        let text = (match archive_entry_text(bytes, tname.as_str()) {
            Ok(t) => t,
            Err(f) => {
                return Err(fault_to_load(f));
            },
        });
        let has_net = contains_name(entries, &nname);
        proof {
            let names = entries.deep_view().map_values(|p: (Seq<char>, bool)| p.0);
            assert(names =~= l);
        }
        let net: Option<String> = (if has_net {
            match archive_entry_text(bytes, nname.as_str()) {
                Ok(t) => Some(t),
                Err(f) => {
                    return Err(fault_to_load(f));
                },
            }
        } else {
            None
        });
        let ctx = parse_trace(
            text.as_str(),
            match &net {
                Some(s) => Some(s.as_str()),
                None => None,
            },
        );
        let ghost before = contexts.deep_view();
        contexts.push(ctx);
        proof {
            assert(contexts.deep_view() =~= before.push(ctx.deep_view()));
            assert(before.push(ctx.deep_view()) =~= before + seq![ctx.deep_view()]);
            match traces_spec(bytes@, l, ords, j + 1) {
                LoadOutcome::Loaded(cs) => {
                    assert(before + (seq![ctx.deep_view()] + cs) =~= (before + seq![
                        ctx.deep_view()
                    ]) + cs);
                },
                _ => {},
            }
        }
        j += 1;
    }
    proof {
        assert(contexts.deep_view() + Seq::<ContextRep>::empty() =~= contexts.deep_view());
    }
    Ok(TraceModel { contexts })
}


/// Every context a single-trace tail loads is a reconstructed context,
/// so its actions are sorted; and every ordinal yields one context.
proof fn lemma_traces_props(bytes: Seq<u8>, entries: Seq<Seq<char>>, ords: Seq<Seq<char>>, i: int)
    requires
        0 <= i <= ords.len(),
    ensures
        traces_spec(bytes, entries, ords, i) matches LoadOutcome::Loaded(cs) ==> cs.len()
            == ords.len() - i && (forall|j: int|
            0 <= j < cs.len() ==> crate::reconstruct::sorted_by_start(
                (#[trigger] cs[j]).actions,
            )),
    decreases ords.len() - i,
{
    if i < ords.len() {
        lemma_traces_props(bytes, entries, ords, i + 1);
        match traces_spec(bytes, entries, ords, i) {
            LoadOutcome::Loaded(cs) => {
                let tname = ords[i] + ".trace"@;
                let nname = ords[i] + ".network"@;
                let text = zip_entry_text(bytes, tname)->Some_0;
                let net = (if entries.contains(nname) {
                    zip_entry_text(bytes, nname)
                } else {
                    None
                });
                let ctx = parse_trace_spec(text, net);
                crate::reconstruct::lemma_sort_actions_props(
                    crate::reconstruct::replay(
                        crate::reconstruct::event_stream(text),
                    ).actions,
                );
                match traces_spec(bytes, entries, ords, i + 1) {
                    LoadOutcome::Loaded(rest) => {
                        assert(cs == seq![ctx] + rest);
                        assert forall|j: int| 0 <= j < cs.len() implies
                            crate::reconstruct::sorted_by_start(
                            (#[trigger] cs[j]).actions,
                        ) by {
                            if j == 0 {
                                assert(cs[0] == ctx);
                            } else {
                                assert(cs[j] == rest[j - 1]);
                            }
                        }
                    },
                    _ => {},
                }
            },
            _ => {},
        }
    }
}

/// Whatever a load returns on success is non-empty and holds only
/// contexts whose actions are sorted by ascending start time.
pub proof fn lemma_load_props(bytes: Seq<u8>, depth: nat)
    ensures
        load_spec(bytes, depth) matches LoadOutcome::Loaded(cs) ==> cs.len() > 0 && (forall|
            j: int,
        |
            0 <= j < cs.len() ==> crate::reconstruct::sorted_by_start(
                (#[trigger] cs[j]).actions,
            )),
    decreases depth, 0int, 0int,
{
    match zip_entry_list(bytes) {
        None => {},
        Some(entries) => {
            if has_report_entry(entries) {
                if depth > 0 {
                    let w = choose|w: int|
                        0 <= w < entries.len() && is_report_entry(entries[w]);
                    lemma_report_props(bytes, entries, 0, (depth - 1) as nat);
                }
            } else {
                let ords = trace_ordinals(entries);
                if ords.len() > 0 {
                    lemma_traces_props(bytes, entries, ords, 0);
                }
            }
        },
    }
}

/// A report tail loads only sorted contexts, and at least one context
/// per nested archive it still holds.
proof fn lemma_report_props(bytes: Seq<u8>, entries: Seq<Seq<char>>, i: int, depth: nat)
    requires
        0 <= i <= entries.len(),
    ensures
        report_spec(bytes, entries, i, depth) matches LoadOutcome::Loaded(cs) ==> (forall|
            j: int,
        |
            0 <= j < cs.len() ==> crate::reconstruct::sorted_by_start(
                (#[trigger] cs[j]).actions,
            )) && ((exists|w: int|
            i <= w < entries.len() && is_report_entry(#[trigger] entries[w])) ==> cs.len()
            > 0),
    decreases depth, 1int, entries.len() - i,
{
    if i < entries.len() {
        lemma_report_props(bytes, entries, i + 1, depth);
        if is_report_entry(entries[i]) {
            match zip_entry_data(bytes, entries[i]) {
                None => {},
                Some(nb) => {
                    lemma_load_props(nb, depth);
                    match load_spec(nb, depth) {
                        LoadOutcome::Loaded(cs1) => {
                            match report_spec(bytes, entries, i + 1, depth) {
                                LoadOutcome::Loaded(rest) => {
                                    let cs = cs1 + rest;
                                    assert forall|j: int| 0 <= j < cs.len() implies
                                        crate::reconstruct::sorted_by_start(
                                        (#[trigger] cs[j]).actions,
                                    ) by {
                                        if j < cs1.len() {
                                            assert(cs[j] == cs1[j]);
                                        } else {
                                            assert(cs[j] == rest[j - cs1.len()]);
                                        }
                                    }
                                },
                                _ => {},
                            }
                        },
                        _ => {},
                    }
                },
            }
        } else {
            match report_spec(bytes, entries, i + 1, depth) {
                LoadOutcome::Loaded(cs) => {
                    if exists|w: int|
                        i <= w < entries.len() && is_report_entry(#[trigger] entries[w]) {
                        let w = choose|w: int|
                            i <= w < entries.len() && is_report_entry(
                                #[trigger] entries[w],
                            );
                        assert(w >= i + 1);
                        assert(i + 1 <= w < entries.len() && is_report_entry(entries[w]));
                    }
                },
                _ => {},
            }
        }
    }
}

/// Two loads of the same bytes agree: the model is a function of the
/// input alone, so loading twice yields structurally equal contexts.
pub proof fn lemma_load_deterministic(
    bytes: Seq<u8>,
    cs1: Seq<ContextRep>,
    cs2: Seq<ContextRep>,
)
    requires
        load_spec(bytes, MAX_NESTING as nat) == LoadOutcome::Loaded(cs1),
        load_spec(bytes, MAX_NESTING as nat) == LoadOutcome::Loaded(cs2),
    ensures
        cs1 == cs2,
{
}

/// Two failing loads of the same bytes agree on the error variant:
/// each abstract outcome admits exactly one variant, so which error
/// comes back is a function of the input too.
pub proof fn lemma_error_variant_deterministic(bytes: Seq<u8>, e1: LoadError, e2: LoadError)
    requires
        err_matches(load_spec(bytes, MAX_NESTING as nat), e1),
        err_matches(load_spec(bytes, MAX_NESTING as nat), e2),
    ensures
        e1 is ZipError <==> e2 is ZipError,
        e1 is IoError <==> e2 is IoError,
        e1 is MissingTraceFile <==> e2 is MissingTraceFile,
        e1 is ArchiveTooDeep <==> e2 is ArchiveTooDeep,
{
}

/// How many nested archives a report bundle names from entry `i` on.
pub open spec fn report_count(l: Seq<Seq<char>>, i: int) -> int
    decreases l.len() - i,
{
    if i < 0 || i >= l.len() {
        0
    } else {
        (if is_report_entry(l[i]) {
            1int
        } else {
            0int
        }) + report_count(l, i + 1)
    }
}

/// A report bundle whose nested entries all hold the same archive
/// yields exactly one copy of that archive's contexts per entry, in
/// concatenation order.
pub proof fn lemma_report_repeats(
    bytes: Seq<u8>,
    l: Seq<Seq<char>>,
    i: int,
    depth: nat,
    nb: Seq<u8>,
    cs1: Seq<ContextRep>,
)
    requires
        0 <= i <= l.len(),
        cs1.len() > 0,
        load_spec(nb, depth) == LoadOutcome::Loaded(cs1),
        forall|j: int|
            i <= j < l.len() && is_report_entry(#[trigger] l[j]) ==> zip_entry_data(
                bytes,
                l[j],
            ) == Some(nb),
    ensures
        report_spec(bytes, l, i, depth) matches LoadOutcome::Loaded(cs) && cs.len()
            == report_count(l, i) * cs1.len() && (forall|t: int|
            0 <= t < cs.len() ==> #[trigger] cs[t] == cs1[t % (cs1.len() as int)]),
    decreases l.len() - i,
{
    let n = cs1.len() as int;
    if i == l.len() {
        assert(report_count(l, i) == 0);
    } else {
        lemma_report_repeats(bytes, l, i + 1, depth, nb, cs1);
        let rest = report_spec(bytes, l, i + 1, depth)->Loaded_0;
        let c2 = report_count(l, i + 1);
        if is_report_entry(l[i]) {
            assert(zip_entry_data(bytes, l[i]) == Some(nb));
            let cs = cs1 + rest;
            assert(report_spec(bytes, l, i, depth) == LoadOutcome::Loaded(cs));
            assert(report_count(l, i) == 1 + c2);
            assert((1 + c2) * n == n + c2 * n) by (nonlinear_arith);
            assert forall|t: int| 0 <= t < cs.len() implies #[trigger] cs[t] == cs1[t
                % n] by {
                if t < n {
                    assert(cs[t] == cs1[t]);
                    assert(t % n == t) by (nonlinear_arith)
                        requires
                            0 <= t < n,
                    ;
                } else {
                    assert(cs[t] == rest[t - n]);
                    assert(rest[t - n] == cs1[(t - n) % n]);
                    assert((t - n) % n == t % n) by (nonlinear_arith)
                        requires
                            n > 0 && t >= n,
                    ;
                }
            }
        } else {
            assert(report_count(l, i) == c2);
        }
    }
}

} // verus!

