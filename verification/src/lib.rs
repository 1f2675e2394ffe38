//! A loader for browser-automation trace archives: ZIP containers of
//! line-delimited JSON event logs, reconstructed into a time-ordered
//! model of contexts, actions, pages and screencast frames, or — for
//! folder-per-test archives — into a collection of test-case records.
//!
//! Raw bytes go through the archive reader, the classifier decides the
//! archive's shape, and either the trace reconstruction engine or the
//! test-case bundle loader builds the in-memory model.  Malformed
//! lines and unreadable test-case folders degrade the result instead
//! of failing it; structural faults fail the whole load.
use vstd::prelude::*;

pub mod ansi_parser;
pub mod archive;
pub mod decode;
pub mod export;
pub mod json;
pub mod models;
pub mod reconstruct;
pub mod strutil;
pub mod test_case_loader;
pub mod trace_loader;

verus! {

} // verus!
