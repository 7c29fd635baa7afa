//! Cross-repository API contract analysis: route derivation, manifest pairing,
//! environment-alias resolution, type-check set-up and report rendering.

pub mod analyzer;
pub mod answer_laws;
pub mod ast;
pub mod capture_laws;
pub mod cloud_data;
pub mod cloud_storage;
pub mod config;
pub mod delta_laws;
pub mod engine;
pub mod env_alias;
pub mod env_laws;
pub mod eval_output;
pub mod evaluation_laws;
pub mod extractor;
pub mod file_analysis;
pub mod file_based_router;
pub mod file_finder;
pub mod file_laws;
pub mod findings;
pub mod formatter;
pub mod framework_detector;
pub mod gemini_service;
pub mod handler_laws;
pub mod hashing;
pub mod incremental;
pub mod json_text;
pub mod manifest_laws;
pub mod mount_graph;
pub mod naming;
pub mod operation;
pub mod packages;
pub mod pairing_laws;
pub mod paths;
pub mod patterns;
pub mod pr_delta;
pub mod protocol;
pub mod protocol_laws;
pub mod record_laws;
pub mod report_laws;
pub mod routing_laws;
pub mod run_context;
pub mod run_laws;
pub mod setup_laws;
pub mod sorting;
pub mod text;
pub mod text_laws;
pub mod text_map;
pub mod tier;
pub mod type_check;
pub mod type_compat_v2;
pub mod type_manifest;
pub mod type_requests;
pub mod type_sidecar;
pub mod upload;
