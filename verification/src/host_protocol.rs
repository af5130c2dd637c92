//! The runtime protocol: its name, what it offers, and the commands that it registers with the
//! part of the host that answers each of them.

use crate::text::{text_equals, trim, trimmed};
use vstd::prelude::*;

verus! {

/// The part of the host that answers a command.
#[derive(Debug, Clone, Copy, PartialEq, Eq, Structural)]
pub enum HostCommandScope {
    SharedRuntime,
    ExecutionHost,
    HostSurface,
}

pub const CENTAERIS_RUNTIME_PROTOCOL_NAME: &'static str = "centaeris.runtime";

pub const CENTAERIS_RUNTIME_PROTOCOL_VERSION: u32 = 1;

/// What the protocol can do.
pub const CENTAERIS_RUNTIME_PROTOCOL_CAPABILITIES: [&'static str; 6] = [
    "json_rpc_2_over_jsonl",
    "session_log",
    "question_resume",
    "agent_run_intervention",
    "stream_replay",
    "runtime_store_actor",
];

/// The events that the runtime sends on its own.
pub const CENTAERIS_RUNTIME_PROTOCOL_EVENTS: [&'static str; 2] = [
    "session/update",
    "runtime/config-changed",
];

/// The projections that the runtime offers.
pub const CENTAERIS_RUNTIME_PROTOCOL_PROJECTIONS: [&'static str; 5] = [
    "runtime_event",
    "session_event",
    "session_projection",
    "agent_state",
    "headless_transcript",
];

/// The commands that the shared runtime answers.
pub const SHARED_RUNTIME_COMMANDS: [&'static str; 51] = [
    "agent_context_usage_get",
    "_centaeris/session/compact_context",
    "agent_dead_letter_dismiss",
    "agent_dead_letter_get",
    "agent_dead_letter_list",
    "agent_dead_letter_replay",
    "_centaeris/session/activate",
    "_centaeris/session/answer_now",
    "_centaeris/session/answer_question",
    "_centaeris/session/delete",
    "_centaeris/session/diagnostics",
    "_centaeris/session/project",
    "_centaeris/session/reorder",
    "_centaeris/session/agent-runs",
    "_centaeris/session/agent-runs/replay",
    "_centaeris/session/agent-runs/attach",
    "_centaeris/session/agent-runs/detach",
    "_centaeris/session/agent-runs/detach-viewer",
    "_centaeris/session/agent-runs/cancel",
    "_centaeris/session/supplement",
    "_centaeris/session/update_metadata",
    "agent_runtime_config_get",
    "agent_runtime_config_reset",
    "agent_runtime_config_set",
    "agent_runtime_model_test",
    "mcp/catalog",
    "mcp/configure",
    "agent_runtime_garbage_collect",
    "agent_runtime_job_get",
    "agent_runtime_job_list",
    "agent_state_get",
    "transcript/project",
    "plugin/catalog_state",
    "skill/source/list",
    "skill/source/add",
    "skill/source/remove",
    "skill/source/set_enabled",
    "skill/source/ref",
    "skill/catalog",
    "skill/detail",
    "skill/set_enabled",
    "skill/reload",
    "plugin/detail",
    "plugin/list",
    "plugin/reload",
    "plugin/set_enabled",
    "plugin/source_ref",
    "session/list",
    "session/load",
    "session/new",
    "session/prompt",
];

/// The commands that the execution host answers.
pub const EXECUTION_HOST_COMMANDS: [&'static str; 6] = [
    "process_capture",
    "sidecar_list",
    "sidecar_start",
    "sidecar_stop",
    "workspace_file_tree",
    "workspace_read_file",
];

/// The commands that the surface of the host answers.
pub const HOST_SURFACE_COMMANDS: [&'static str; 16] = [
    "app_exit",
    "desktop_file_preview_read",
    "initialize",
    "plugin/install",
    "plugin/remove",
    "workspace_activate",
    "workspace_get",
    "workspace_git_diff_get",
    "workspace_git_file_diff_get",
    "workspace_git_github_cli_status_get",
    "workspace_git_status_get",
    "workspace_open_folder",
    "workspace_remove",
    "workspace_reset",
    "workspace_rename",
    "workspace_reveal_folder",
];

/// Whether `name` stands in a list of names.
pub open spec fn stands_in(list: Seq<&str>, name: Seq<char>) -> bool {
    exists|i: int| 0 <= i < list.len() && (#[trigger] list[i])@ == name
}

/// The part of the host that answers the command `name`, where it is registered.
pub open spec fn scope_of(name: Seq<char>) -> Option<HostCommandScope> {
    if stands_in(SHARED_RUNTIME_COMMANDS@, name) {
        Some(HostCommandScope::SharedRuntime)
    } else if stands_in(EXECUTION_HOST_COMMANDS@, name) {
        Some(HostCommandScope::ExecutionHost)
    } else if stands_in(HOST_SURFACE_COMMANDS@, name) {
        Some(HostCommandScope::HostSurface)
    } else {
        None
    }
}

fn is_in(list: &[&str], name: &str) -> (result: bool)
    ensures
        result == stands_in(list@, name@),
{
    let mut i: usize = 0;
    while i < list.len()
        invariant
            i <= list.len(),
            forall|j: int| 0 <= j < i ==> (#[trigger] list@[j])@ != name@,
        decreases list.len() - i,
    {
        if text_equals(list[i], name) {
            return true;
        }
        i = i + 1;
    }
    false
}

/// The part of the host that answers a command, where it is registered. Whitespace around the
/// command does not count.
pub fn command_scope(command: &str) -> (result: Option<HostCommandScope>)
    ensures
        result == scope_of(trimmed(command@)),
{
    let command = trim(command);
    let shared = SHARED_RUNTIME_COMMANDS;
    let execution = EXECUTION_HOST_COMMANDS;
    let surface = HOST_SURFACE_COMMANDS;
    if is_in(shared.as_slice(), command) {
        Some(HostCommandScope::SharedRuntime)
    } else if is_in(execution.as_slice(), command) {
        Some(HostCommandScope::ExecutionHost)
    } else if is_in(surface.as_slice(), command) {
        Some(HostCommandScope::HostSurface)
    } else {
        None
    }
}

/// Whether a command is registered.
pub fn is_registered_host_command(command: &str) -> (result: bool)
    ensures
        result == (scope_of(trimmed(command@)) is Some),
{
    command_scope(command).is_some()
}

} // verus!
