//! The core of Gource, a visualiser of source-control history: bounded
//! ingestion of logs and Git repositories, a cache of indexed histories,
//! deterministic replay, and the decisions behind what is drawn.
//!
//! Everything here computes on plain values.  Files, processes, directories,
//! positions in the plane and graphics belong to the application, which asks
//! this library what to do next and hands back what came of it.

// Texts, failures and bounds.
pub mod error;
pub mod limit_laws;
pub mod limits;
pub mod options;
pub mod text;
pub mod text_index;
pub mod text_laws;
pub mod timestamp;
pub mod timestamp_laws;

// Records of a log and their canonical order.
pub mod lines;
pub mod order;
pub mod parser;
pub mod reader;
pub mod record;
pub mod record_laws;

// The external sort.
pub mod merge;
pub mod passes;
pub mod runs;
pub mod sorting;
pub mod stored_index;
pub mod stored_merge;
pub mod stored_reader;
pub mod stored_sort;

// Histories and how they are indexed.
pub mod catalog;
pub mod charges;
pub mod digest;
pub mod history;
pub mod index;
pub mod ingest;
pub mod ingest_laws;
pub mod input;
pub mod model;

// Git repositories.
pub mod git_command_laws;
pub mod git_history;
pub mod git_laws;
pub mod git_options;
pub mod git_process;
pub mod git_protocol;

// The cache of histories.
pub mod cache_decode;
pub mod cache_encode;
pub mod cache_events;
pub mod cache_evict;
pub mod cache_format;
pub mod cache_key;
pub mod cache_laws;
pub mod cache_memory;
pub mod eviction_laws;

// Replay.
pub mod id_map;
pub mod identity_laws;
pub mod lives;
pub mod lives_laws;
pub mod palette;
pub mod palette_laws;
pub mod rational;
pub mod replay;
pub mod replay_clock;
pub mod replay_identity;
pub mod replay_laws;
pub mod replay_run;
pub mod replay_time_laws;
pub mod run_laws;
pub mod scene;
pub mod scene_laws;
pub mod snapshot_pool;
pub mod stable_sort;

// Layout and drawing.
pub mod drawing_laws;
pub mod glyphs;
pub mod label_laws;
pub mod label_selection;
pub mod labels;
pub mod layout_groups;
pub mod resources;
