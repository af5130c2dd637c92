//! Verified core of a local agent runtime host.

pub mod agent_cancel;
pub mod agent_run;
pub mod agent_runs;
pub mod commands;
pub mod desktop_file_preview;
pub mod digest;
pub mod errors;
pub mod handlers;
pub mod host_protocol;
pub mod http_transport;
pub mod journal_recovery;
pub mod json;
pub mod live_text;
pub mod local_attachments;
pub mod local_execution_host;
pub mod local_hook_runner;
pub mod mcp;
pub mod mcp_contract;
pub mod mcp_credentials;
pub mod message_log;
pub mod model_provider;
pub mod observation_cas;
pub mod observation_log;
pub mod observation_store;
pub mod operation_receipts;
pub mod package_catalog;
pub mod plugin_activation;
pub mod process_output;
pub mod prompt_input;
pub mod run_lifecycle;
pub mod run_updates;
pub mod runtime_registry;
pub mod sandbox_policy;
pub mod session_documents;
pub mod session_log;
pub mod socket_filter;
pub mod sorting;
pub mod sse;
pub mod startup;
pub mod supervisor;
pub mod text;
pub mod text_map;
pub mod text_set;
pub mod turn_stream;
pub mod viewers;
pub mod windows_launch;
