//! The verified core of a multi-node time-series write path.

pub mod buffer_chunk;
pub mod checkpoint;
pub mod chunk;
pub mod collections;
pub mod compaction;
pub mod compaction_laws;
pub mod compaction_paths;
pub mod compaction_run;
pub mod composite_write_buffer;
pub mod counter_laws;
pub mod duration;
pub mod files;
pub mod fold;
pub mod fold_laws;
pub mod fold_order;
pub mod follow_laws;
pub mod hold_laws;
pub mod inventory_laws;
pub mod inventory_poller;
pub mod job_laws;
pub mod lease_laws;
pub mod lease_runs;
pub mod leases;
pub mod migrate;
pub mod not_found_tolerant;
pub mod object_path;
pub mod order;
pub mod output_laws;
pub mod persisted_files;
pub mod persisted_files_laws;
pub mod provider;
pub mod ref_validator;
pub mod remote_write_buffer;
pub mod scan_laws;
pub mod serve;
pub mod shared_inventory;
pub mod start_laws;
pub mod startup_probe;
pub mod tail_laws;
pub mod text;
pub mod text_laws;
pub mod tombstone;
pub mod tracking_laws;
pub mod wal_reaper;
pub mod wal_tail;
pub mod watermarks;
