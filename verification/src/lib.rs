//! Verified core logic of the OtamoryX backend services: plugin manifests and the
//! plugin permission gateway, login rate limiting, the processing task queue and
//! the file scanner, archive search queries, recommendation helpers, page
//! selection and metrics, semantic transfer and relation candidates, the tag
//! co-occurrence graph, tag-relation canonicalization, tag suggestion rules and
//! merging, preference rules and the cold-start learner's decisions, and the
//! trash with its restore checks and snapshot statements.
#![allow(unused_imports)]

pub mod clock;
pub mod text;
pub mod json;
pub mod plugin_manifest;
pub mod plugin_bootstrap;
pub mod sql;
pub mod paths;
pub mod plugin_security;
pub mod rate_limiter;
pub mod processing_pipeline;
pub mod ordered;
pub mod keyed;
pub mod content;
pub mod recommendations;
pub mod preference_learning;
pub mod semantic_edges;
pub mod tagging;
pub mod trash;
pub mod trash_restore;
pub mod ocr;
pub mod file_monitor;
pub mod namespace_policy;
pub mod preference_rules;
pub mod plugin_executor;
pub mod plugin_event_bus;
pub mod plugin_manager;
pub mod search_query;
pub mod tag_cooccurrence;
pub mod file_scanner;
pub mod semantic_transfer;
pub mod trash_snapshot;
pub mod cold_start;
pub mod suggestion_merge;
pub mod recommendation_metrics;
pub mod relation_candidates;
pub mod worker_loop;
pub mod neighbor_expansion;
pub mod archive_selection;
