//! Agent memory: configuration, pipelines and protocols.

pub mod cli_args;
pub mod clock;
pub mod concept_extractor;
pub mod config;
pub mod consolidation;
pub mod contradiction;
pub mod cycle;
pub mod daemon;
pub mod double;
pub mod edge_weights;
pub mod embedding;
pub mod env;
pub mod error;
pub mod facade;
pub mod http_api;
pub mod http_routes;
pub mod ids;
pub mod ingestion;
pub mod ingestion_history;
pub mod json;
pub mod llm;
pub mod mcp_protocol;
pub mod mcp_server;
pub mod mcp_tools;
pub mod mitosis;
pub mod mitosis_history;
pub mod providers;
pub mod ranking;
pub mod recall;
pub mod reranker;
pub mod retrieval;
pub mod scoring;
pub mod sequence;
pub mod stimulation;
pub mod storage;
pub mod telemetry;
pub mod telemetry_history;
pub mod telemetry_report;
pub mod text;
pub mod types;
pub mod wave_history;
