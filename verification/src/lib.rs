//! A version-control ledger over an object store.
pub mod authority;
pub mod backup;
pub mod batches;
pub mod bytes;
pub mod caches;
pub mod closure;
pub mod closure_walk;
pub mod commits;
pub mod counters;
pub mod diffs;
pub mod error;
pub mod fsck;
pub mod fsck_run;
pub mod gc;
pub mod gc_laws;
pub mod gc_run;
pub mod history;
pub mod ids;
pub mod indexes;
pub mod inputs;
pub mod inventory_laws;
pub mod keys;
pub mod listing;
pub mod merge;
pub mod merge_base;
pub mod merge_build;
pub mod merge_pages;
pub mod merge_plan;
pub mod merge_run;
pub mod model;
pub mod node_store;
pub mod objects;
pub mod ordered;
pub mod outside;
pub mod pack_stats;
pub mod paths;
pub mod publish;
pub mod refs;
pub mod repair;
pub mod repair_run;
pub mod replay;
pub mod repository;
pub mod repository_v2;
pub mod restore;
pub mod restore_run;
pub mod runtime;
pub mod session;
pub mod setup;
pub mod snapshots;
pub mod staging;
pub mod tags;
pub mod text;
pub mod texts;
pub mod tickets;
pub mod transfer;
pub mod transfer_run;
pub mod tree;
pub mod version_key;
pub mod write_run;
pub mod waiting_nodes;
pub mod writes;
