//! The Link context of a coding agent: what survives the compaction of a
//! transcript, what background commands report, and what instructions and rules
//! a turn shows.
//!
//! - [`context`], [`capsule`], [`store`] and [`turns`]: the facts of a thread and
//!   the capsule that shows them; [`evidence`] and [`record_tool`]: facts with
//!   their provenance.
//! - [`jobs`], [`trigger_events`], [`pending`] and [`job_table`]: background
//!   commands and the events that wait to be shown; the laws of the whole stand
//!   in [`store_laws`].
//! - [`trigger_policy`], [`trigger_declared`], [`trigger_eval`] and
//!   [`trigger_evaluator`]: when a background command wakes the model;
//!   [`output_stream`], [`utf8_stream`] and [`exit_report`]: what its output and
//!   its end are told as.
//! - [`job_observe`], [`job_tools`] and [`observation`]: observing sessions.
//! - [`rule_file`], [`rules`] and [`rule_laws`]: rules; [`agents_md`],
//!   [`md_imports`], [`md_loader`], [`md_discovery`], [`md_reader`] and
//!   [`md_manager`]: AGENTS.md files.
//! - [`output_spill`], [`persistence`] and [`gc`]: sidecar files.
//! - The modules whose names end in `_laws` state what these are for, of all
//!   inputs: [`trigger_laws`], [`policy_laws`] and [`firing_laws`] of triggers,
//!   [`capsule_laws`] and [`told_laws`] of what the model is shown,
//!   [`instruction_laws`], [`scan_laws`] and [`import_laws`] of AGENTS.md files,
//!   [`rule_file_laws`] and [`rule_render_laws`] of rules, [`record_laws`],
//!   [`fact_laws`], [`event_laws`] and [`queue_laws`] of what is recorded and of
//!   what waits. [`choices`] says what it is to choose some of a list.
//!
//! The library opens no file, starts no task and takes no lock: whoever
//! uses it reads and writes, and hands plain values over.

use vstd::prelude::*;

pub mod agents_md;
pub mod capsule;
pub mod capsule_laws;
pub mod choices;
pub mod clock;
pub mod context;
pub mod decimal;
pub mod event_laws;
pub mod evidence;
pub mod exec_events;
pub mod exit_report;
pub mod fact_laws;
pub mod file_changes;
pub mod finish_laws;
pub mod firing_laws;
pub mod gc;
pub mod globs;
pub mod import_laws;
pub mod instruction_laws;
pub mod job_observe;
pub mod job_table;
pub mod job_tools;
pub mod jobs;
pub mod list_laws;
pub mod lists;
pub mod markers;
pub mod md_discovery;
pub mod md_imports;
pub mod md_loader;
pub mod md_manager;
pub mod md_reader;
pub mod numbers;
pub mod observation;
pub mod observe_laws;
pub mod order;
pub mod output_spill;
pub mod output_stream;
pub mod paths;
pub mod pending;
pub mod persistence;
pub mod policy_laws;
pub mod queue_laws;
pub mod record_laws;
pub mod record_tool;
pub mod regexes;
pub mod rule_file;
pub mod rule_file_laws;
pub mod rule_laws;
pub mod rule_render_laws;
pub mod rules;
pub mod sanitize;
pub mod scan_laws;
pub mod search;
pub mod sidecar_laws;
pub mod split;
pub mod store;
pub mod store_laws;
pub mod stream_laws;
pub mod text;
pub mod text_laws;
pub mod told_laws;
pub mod tool_finish;
pub mod tool_schema;
pub mod trigger_declared;
pub mod trigger_eval;
pub mod trigger_evaluator;
pub mod trigger_events;
pub mod trigger_laws;
pub mod trigger_policy;
pub mod truncation;
pub mod turns;
pub mod utf8_stream;

verus! {

} // verus!
