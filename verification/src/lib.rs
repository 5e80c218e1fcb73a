//! Verified core of the PiUI session browser: session JSONL scanning and
//! projection, display redaction, catalog bookkeeping, and host validation.
use vstd::prelude::*;

pub mod api;
pub mod assoc;
pub mod catalog;
pub mod catalog_stream;
pub mod contracts;
pub mod contributions;
pub mod discovery;
pub mod discovery_walk;
pub mod display;
pub mod extensions;
pub mod host_file;
pub mod host_state;
pub mod json;
pub mod prefs;
pub mod redact;
pub mod registry;
pub mod report;
pub mod report_ops;
pub mod scan;
pub mod scanner;
pub mod semantic;
pub mod sorting;
pub mod text;
pub mod timeline;
pub mod tree;
pub mod watch;

verus! {

} // verus!
