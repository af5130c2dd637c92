# centaeris_runtime_host

The host side of an agent runtime: it answers the commands of a desktop application, drives the
runs of an agent, keeps the logs of sessions and the observations that model requests saw, and runs
local commands inside a sandbox.

The library holds the decisions of the host as executable Rust whose behaviour is stated in
contracts and proved by Verus. What reads files, opens sockets, starts processes or calls a model
hands plain values to the library and takes plain values back.

## Layout

- `src/` is the verified library.
  - `commands`, `host_protocol`, `handlers`, `errors`, `startup`, `runtime_registry`: the commands of
    the host, who answers them, and the documents that are generated from their registry.
  - `prompt_input`, `operation_receipts`, `run_lifecycle`, `agent_run`, `turn_stream`,
    `run_updates`, `live_text`, `journal_recovery`, `agent_runs`, `agent_cancel`, `viewers`: the
    course of a run from its request to its end.
  - `session_log`, `session_documents`, `message_log`, `observation_cas`, `observation_store`,
    `observation_log`: what is stored of a session and how it is read back.
  - `model_provider`, `http_transport`, `sse`: model providers and their streams.
  - `local_execution_host`, `process_output`, `sandbox_policy`, `socket_filter`, `supervisor`,
    `local_hook_runner`, `windows_launch`: local commands and their sandbox.
  - `mcp`, `mcp_contract`, `mcp_credentials`, `package_catalog`, `plugin_activation`: plugins and
    the servers they declare.
  - `desktop_file_preview`, `local_attachments`: files that are shown or attached.
  - `json`, `text`, `text_map`, `text_set`, `sorting`, `digest`: what the others are built on.
- `app/` is ordinary Rust around the library: the program, its sockets, files and processes.
- `tests/` runs the library on concrete values.

## What is trusted

JSON texts are read and written by `serde_json` (with `preserve_order`, so that the entries of an
object keep their order), digests are taken by `sha2`, images are encoded by `base64`, and access
modes are compared by `nono`. Each call stands in a small function whose contract says what is
claimed of it.

A run itself, its model queries and its tools belong to the agent core, a crate of its own. The
library says what is asked of it and what becomes of each answer.
