//! The commands of the runtime protocol.

use crate::errors::RuntimeHostError;
use crate::host_protocol::{
    is_registered_host_command, scope_of, stands_in, HostCommandScope, EXECUTION_HOST_COMMANDS,
    HOST_SURFACE_COMMANDS, SHARED_RUNTIME_COMMANDS,
};
use crate::text::{text_equals, trim, trimmed};
use vstd::prelude::*;

verus! {

/// A command of the runtime protocol.
#[derive(Debug, Clone, Copy, PartialEq, Eq, Structural)]
pub enum RuntimeHostCommand {
    AgentContextUsageGet,
    AgentContextCompact,
    AgentDeadLetterDismiss,
    AgentDeadLetterGet,
    AgentDeadLetterList,
    AgentDeadLetterReplay,
    SessionActivate,
    AgentAnswerNow,
    AgentQuestionAnswer,
    SessionDelete,
    SessionDiagnostics,
    SessionProjectionGet,
    SessionReorder,
    AgentRunList,
    AgentRunStreamReplay,
    AgentRunAttach,
    AgentRunDetach,
    AgentRunDetachViewer,
    AgentRunCancel,
    AgentSupplement,
    SessionUpdate,
    AgentRuntimeConfigGet,
    AgentRuntimeConfigReset,
    AgentRuntimeConfigSet,
    AgentRuntimeModelTest,
    McpCatalog,
    McpConfigure,
    AgentRuntimeGarbageCollect,
    AgentRuntimeJobGet,
    AgentRuntimeJobList,
    AgentStateGet,
    TranscriptProjection,
    PluginCatalogState,
    SkillSourceList,
    SkillSourceAdd,
    SkillSourceRemove,
    SkillSourceSetEnabled,
    SkillSourceRef,
    SkillCatalog,
    SkillDetail,
    SkillSetEnabled,
    SkillReload,
    PluginDetail,
    PluginList,
    PluginReload,
    PluginSetEnabled,
    PluginSourceRef,
    SessionList,
    SessionGet,
    SessionCreate,
    AgentInput,
    ProcessCapture,
    SidecarList,
    SidecarStart,
    SidecarStop,
    WorkspaceFileTree,
    WorkspaceReadFile,
    AppExit,
    DesktopFilePreviewRead,
    Initialize,
    PluginInstall,
    PluginRemove,
    WorkspaceActivate,
    WorkspaceGet,
    WorkspaceGitDiffGet,
    WorkspaceGitFileDiffGet,
    WorkspaceGitHubCliStatusGet,
    WorkspaceGitStatusGet,
    WorkspaceOpenFolder,
    WorkspaceRemove,
    WorkspaceReset,
    WorkspaceRename,
    WorkspaceRevealFolder,
}

/// The name under which a command is registered.
pub open spec fn command_name(command: RuntimeHostCommand) -> Seq<char> {
    match command {
        RuntimeHostCommand::AgentContextUsageGet => "agent_context_usage_get"@,
        RuntimeHostCommand::AgentContextCompact => "_centaeris/session/compact_context"@,
        RuntimeHostCommand::AgentDeadLetterDismiss => "agent_dead_letter_dismiss"@,
        RuntimeHostCommand::AgentDeadLetterGet => "agent_dead_letter_get"@,
        RuntimeHostCommand::AgentDeadLetterList => "agent_dead_letter_list"@,
        RuntimeHostCommand::AgentDeadLetterReplay => "agent_dead_letter_replay"@,
        RuntimeHostCommand::SessionActivate => "_centaeris/session/activate"@,
        RuntimeHostCommand::AgentAnswerNow => "_centaeris/session/answer_now"@,
        RuntimeHostCommand::AgentQuestionAnswer => "_centaeris/session/answer_question"@,
        RuntimeHostCommand::SessionDelete => "_centaeris/session/delete"@,
        RuntimeHostCommand::SessionDiagnostics => "_centaeris/session/diagnostics"@,
        RuntimeHostCommand::SessionProjectionGet => "_centaeris/session/project"@,
        RuntimeHostCommand::SessionReorder => "_centaeris/session/reorder"@,
        RuntimeHostCommand::AgentRunList => "_centaeris/session/agent-runs"@,
        RuntimeHostCommand::AgentRunStreamReplay => "_centaeris/session/agent-runs/replay"@,
        RuntimeHostCommand::AgentRunAttach => "_centaeris/session/agent-runs/attach"@,
        RuntimeHostCommand::AgentRunDetach => "_centaeris/session/agent-runs/detach"@,
        RuntimeHostCommand::AgentRunDetachViewer => "_centaeris/session/agent-runs/detach-viewer"@,
        RuntimeHostCommand::AgentRunCancel => "_centaeris/session/agent-runs/cancel"@,
        RuntimeHostCommand::AgentSupplement => "_centaeris/session/supplement"@,
        RuntimeHostCommand::SessionUpdate => "_centaeris/session/update_metadata"@,
        RuntimeHostCommand::AgentRuntimeConfigGet => "agent_runtime_config_get"@,
        RuntimeHostCommand::AgentRuntimeConfigReset => "agent_runtime_config_reset"@,
        RuntimeHostCommand::AgentRuntimeConfigSet => "agent_runtime_config_set"@,
        RuntimeHostCommand::AgentRuntimeModelTest => "agent_runtime_model_test"@,
        RuntimeHostCommand::McpCatalog => "mcp/catalog"@,
        RuntimeHostCommand::McpConfigure => "mcp/configure"@,
        RuntimeHostCommand::AgentRuntimeGarbageCollect => "agent_runtime_garbage_collect"@,
        RuntimeHostCommand::AgentRuntimeJobGet => "agent_runtime_job_get"@,
        RuntimeHostCommand::AgentRuntimeJobList => "agent_runtime_job_list"@,
        RuntimeHostCommand::AgentStateGet => "agent_state_get"@,
        RuntimeHostCommand::TranscriptProjection => "transcript/project"@,
        RuntimeHostCommand::PluginCatalogState => "plugin/catalog_state"@,
        RuntimeHostCommand::SkillSourceList => "skill/source/list"@,
        RuntimeHostCommand::SkillSourceAdd => "skill/source/add"@,
        RuntimeHostCommand::SkillSourceRemove => "skill/source/remove"@,
        RuntimeHostCommand::SkillSourceSetEnabled => "skill/source/set_enabled"@,
        RuntimeHostCommand::SkillSourceRef => "skill/source/ref"@,
        RuntimeHostCommand::SkillCatalog => "skill/catalog"@,
        RuntimeHostCommand::SkillDetail => "skill/detail"@,
        RuntimeHostCommand::SkillSetEnabled => "skill/set_enabled"@,
        RuntimeHostCommand::SkillReload => "skill/reload"@,
        RuntimeHostCommand::PluginDetail => "plugin/detail"@,
        RuntimeHostCommand::PluginList => "plugin/list"@,
        RuntimeHostCommand::PluginReload => "plugin/reload"@,
        RuntimeHostCommand::PluginSetEnabled => "plugin/set_enabled"@,
        RuntimeHostCommand::PluginSourceRef => "plugin/source_ref"@,
        RuntimeHostCommand::SessionList => "session/list"@,
        RuntimeHostCommand::SessionGet => "session/load"@,
        RuntimeHostCommand::SessionCreate => "session/new"@,
        RuntimeHostCommand::AgentInput => "session/prompt"@,
        RuntimeHostCommand::ProcessCapture => "process_capture"@,
        RuntimeHostCommand::SidecarList => "sidecar_list"@,
        RuntimeHostCommand::SidecarStart => "sidecar_start"@,
        RuntimeHostCommand::SidecarStop => "sidecar_stop"@,
        RuntimeHostCommand::WorkspaceFileTree => "workspace_file_tree"@,
        RuntimeHostCommand::WorkspaceReadFile => "workspace_read_file"@,
        RuntimeHostCommand::AppExit => "app_exit"@,
        RuntimeHostCommand::DesktopFilePreviewRead => "desktop_file_preview_read"@,
        RuntimeHostCommand::Initialize => "initialize"@,
        RuntimeHostCommand::PluginInstall => "plugin/install"@,
        RuntimeHostCommand::PluginRemove => "plugin/remove"@,
        RuntimeHostCommand::WorkspaceActivate => "workspace_activate"@,
        RuntimeHostCommand::WorkspaceGet => "workspace_get"@,
        RuntimeHostCommand::WorkspaceGitDiffGet => "workspace_git_diff_get"@,
        RuntimeHostCommand::WorkspaceGitFileDiffGet => "workspace_git_file_diff_get"@,
        RuntimeHostCommand::WorkspaceGitHubCliStatusGet => "workspace_git_github_cli_status_get"@,
        RuntimeHostCommand::WorkspaceGitStatusGet => "workspace_git_status_get"@,
        RuntimeHostCommand::WorkspaceOpenFolder => "workspace_open_folder"@,
        RuntimeHostCommand::WorkspaceRemove => "workspace_remove"@,
        RuntimeHostCommand::WorkspaceReset => "workspace_reset"@,
        RuntimeHostCommand::WorkspaceRename => "workspace_rename"@,
        RuntimeHostCommand::WorkspaceRevealFolder => "workspace_reveal_folder"@,
    }
}

/// The part of the host that answers a command.
pub open spec fn command_scope_kind(command: RuntimeHostCommand) -> HostCommandScope {
    match command {
        RuntimeHostCommand::ProcessCapture => HostCommandScope::ExecutionHost,
        RuntimeHostCommand::SidecarList => HostCommandScope::ExecutionHost,
        RuntimeHostCommand::SidecarStart => HostCommandScope::ExecutionHost,
        RuntimeHostCommand::SidecarStop => HostCommandScope::ExecutionHost,
        RuntimeHostCommand::WorkspaceFileTree => HostCommandScope::ExecutionHost,
        RuntimeHostCommand::WorkspaceReadFile => HostCommandScope::ExecutionHost,
        RuntimeHostCommand::AppExit => HostCommandScope::HostSurface,
        RuntimeHostCommand::DesktopFilePreviewRead => HostCommandScope::HostSurface,
        RuntimeHostCommand::Initialize => HostCommandScope::HostSurface,
        RuntimeHostCommand::PluginInstall => HostCommandScope::HostSurface,
        RuntimeHostCommand::PluginRemove => HostCommandScope::HostSurface,
        RuntimeHostCommand::WorkspaceActivate => HostCommandScope::HostSurface,
        RuntimeHostCommand::WorkspaceGet => HostCommandScope::HostSurface,
        RuntimeHostCommand::WorkspaceGitDiffGet => HostCommandScope::HostSurface,
        RuntimeHostCommand::WorkspaceGitFileDiffGet => HostCommandScope::HostSurface,
        RuntimeHostCommand::WorkspaceGitHubCliStatusGet => HostCommandScope::HostSurface,
        RuntimeHostCommand::WorkspaceGitStatusGet => HostCommandScope::HostSurface,
        RuntimeHostCommand::WorkspaceOpenFolder => HostCommandScope::HostSurface,
        RuntimeHostCommand::WorkspaceRemove => HostCommandScope::HostSurface,
        RuntimeHostCommand::WorkspaceReset => HostCommandScope::HostSurface,
        RuntimeHostCommand::WorkspaceRename => HostCommandScope::HostSurface,
        RuntimeHostCommand::WorkspaceRevealFolder => HostCommandScope::HostSurface,
        _ => HostCommandScope::SharedRuntime,
    }
}

/// A number that the length of a name and three of its characters determine.
spec fn name_print(name: Seq<char>) -> int {
    let n = name.len() as int;
    ((n * 256 + name[n - 1] as int) * 256 + name[n - 3] as int) * 256 + name[n - 6] as int
}

/// The command whose name has the given number.
spec fn command_of_print(print: int) -> RuntimeHostCommand {
    if print == 393504615 {
        RuntimeHostCommand::AgentContextUsageGet
    } else if print == 578053487 {
        RuntimeHostCommand::AgentContextCompact
    } else if print == 426994025 {
        RuntimeHostCommand::AgentDeadLetterDismiss
    } else if print == 359950181 {
        RuntimeHostCommand::AgentDeadLetterGet
    } else if print == 376727922 {
        RuntimeHostCommand::AgentDeadLetterList
    } else if print == 410610802 {
        RuntimeHostCommand::AgentDeadLetterReplay
    } else if print == 459628916 {
        RuntimeHostCommand::SessionActivate
    } else if print == 494366309 {
        RuntimeHostCommand::AgentAnswerNow
    } else if print == 577661285 {
        RuntimeHostCommand::AgentQuestionAnswer
    } else if print == 426075492 {
        RuntimeHostCommand::SessionDelete
    } else if print == 510880111 {
        RuntimeHostCommand::SessionDiagnostics
    } else if print == 443835762 {
        RuntimeHostCommand::SessionProjectionGet
    } else if print == 443704421 {
        RuntimeHostCommand::SessionReorder
    } else if print == 494105972 {
        RuntimeHostCommand::AgentRunList
    } else if print == 611937394 {
        RuntimeHostCommand::AgentRunStreamReplay
    } else if print == 610820449 {
        RuntimeHostCommand::AgentRunAttach
    } else if print == 610820452 {
        RuntimeHostCommand::AgentRunDetach
    } else if print == 728921974 {
        RuntimeHostCommand::AgentRunDetachViewer
    } else if print == 611083107 {
        RuntimeHostCommand::AgentRunCancel
    } else if print == 494167404 {
        RuntimeHostCommand::AgentSupplement
    } else if print == 576807284 {
        RuntimeHostCommand::SessionUpdate
    } else if print == 410281833 {
        RuntimeHostCommand::AgentRuntimeConfigGet
    } else if print == 443839327 {
        RuntimeHostCommand::AgentRuntimeConfigReset
    } else if print == 410284905 {
        RuntimeHostCommand::AgentRuntimeConfigSet
    } else if print == 410281324 {
        RuntimeHostCommand::AgentRuntimeModelTest
    } else if print == 191327329 {
        RuntimeHostCommand::McpCatalog
    } else if print == 224752998 {
        RuntimeHostCommand::McpConfigure
    } else if print == 494167407 {
        RuntimeHostCommand::AgentRuntimeGarbageCollect
    } else if print == 359950191 {
        RuntimeHostCommand::AgentRuntimeJobGet
    } else if print == 376727906 {
        RuntimeHostCommand::AgentRuntimeJobList
    } else if print == 259286900 {
        RuntimeHostCommand::AgentStateGet
    } else if print == 309618034 {
        RuntimeHostCommand::TranscriptProjection
    } else if print == 342188383 {
        RuntimeHostCommand::PluginCatalogState
    } else if print == 292841829 {
        RuntimeHostCommand::SkillSourceList
    } else if print == 275013987 {
        RuntimeHostCommand::SkillSourceAdd
    } else if print == 325414770 {
        RuntimeHostCommand::SkillSourceRemove
    } else if print == 409234542 {
        RuntimeHostCommand::SkillSourceSetEnabled
    } else if print == 275149411 {
        RuntimeHostCommand::SkillSourceRef
    } else if print == 224881761 {
        RuntimeHostCommand::SkillCatalog
    } else if print == 208429412 {
        RuntimeHostCommand::SkillDetail
    } else if print == 291794030 {
        RuntimeHostCommand::SkillSetEnabled
    } else if print == 207908722 {
        RuntimeHostCommand::SkillReload
    } else if print == 225206628 {
        RuntimeHostCommand::PluginDetail
    } else if print == 192178542 {
        RuntimeHostCommand::PluginList
    } else if print == 224685938 {
        RuntimeHostCommand::PluginReload
    } else if print == 308571246 {
        RuntimeHostCommand::PluginSetEnabled
    } else if print == 291926627 {
        RuntimeHostCommand::PluginSourceRef
    } else if print == 208955758 {
        RuntimeHostCommand::SessionList
    } else if print == 207908718 {
        RuntimeHostCommand::SessionGet
    } else if print == 192376431 {
        RuntimeHostCommand::SessionCreate
    } else if print == 242511216 {
        RuntimeHostCommand::AgentInput
    } else if print == 258307425 {
        RuntimeHostCommand::ProcessCapture
    } else if print == 208955762 {
        RuntimeHostCommand::SidecarList
    } else if print == 225730911 {
        RuntimeHostCommand::SidecarStart
    } else if print == 208696434 {
        RuntimeHostCommand::SidecarStop
    } else if print == 325415525 {
        RuntimeHostCommand::WorkspaceFileTree
    } else if print == 325413220 {
        RuntimeHostCommand::WorkspaceReadFile
    } else if print == 141850736 {
        RuntimeHostCommand::AppExit
    } else if print == 426009975 {
        RuntimeHostCommand::DesktopFilePreviewRead
    } else if print == 174418281 {
        RuntimeHostCommand::Initialize
    } else if print == 241983854 {
        RuntimeHostCommand::PluginInstall
    } else if print == 224751474 {
        RuntimeHostCommand::PluginRemove
    } else if print == 308633972 {
        RuntimeHostCommand::WorkspaceActivate
    } else if print == 225732451 {
        RuntimeHostCommand::WorkspaceGet
    } else if print == 376727398 {
        RuntimeHostCommand::WorkspaceGitDiffGet
    } else if print == 460613478 {
        RuntimeHostCommand::WorkspaceGitFileDiffGet
    } else if print == 594831221 {
        RuntimeHostCommand::WorkspaceGitHubCliStatusGet
    } else if print == 410281845 {
        RuntimeHostCommand::WorkspaceGitStatusGet
    } else if print == 359818342 {
        RuntimeHostCommand::WorkspaceOpenFolder
    } else if print == 275083122 {
        RuntimeHostCommand::WorkspaceRemove
    } else if print == 259289951 {
        RuntimeHostCommand::WorkspaceReset
    } else if print == 275079538 {
        RuntimeHostCommand::WorkspaceRename
    } else {
        RuntimeHostCommand::WorkspaceRevealFolder
    }
}

#[verifier::rlimit(60)]
proof fn lemma_name_print(command: RuntimeHostCommand)
    ensures
        command_of_print(name_print(command_name(command))) == command,
{
    match command {
        RuntimeHostCommand::AgentContextUsageGet => {
            reveal_strlit("agent_context_usage_get");
            assert(name_print("agent_context_usage_get"@) == 393504615);
        },
        RuntimeHostCommand::AgentContextCompact => {
            reveal_strlit("_centaeris/session/compact_context");
            assert(name_print("_centaeris/session/compact_context"@) == 578053487);
        },
        RuntimeHostCommand::AgentDeadLetterDismiss => {
            reveal_strlit("agent_dead_letter_dismiss");
            assert(name_print("agent_dead_letter_dismiss"@) == 426994025);
        },
        RuntimeHostCommand::AgentDeadLetterGet => {
            reveal_strlit("agent_dead_letter_get");
            assert(name_print("agent_dead_letter_get"@) == 359950181);
        },
        RuntimeHostCommand::AgentDeadLetterList => {
            reveal_strlit("agent_dead_letter_list");
            assert(name_print("agent_dead_letter_list"@) == 376727922);
        },
        RuntimeHostCommand::AgentDeadLetterReplay => {
            reveal_strlit("agent_dead_letter_replay");
            assert(name_print("agent_dead_letter_replay"@) == 410610802);
        },
        RuntimeHostCommand::SessionActivate => {
            reveal_strlit("_centaeris/session/activate");
            assert(name_print("_centaeris/session/activate"@) == 459628916);
        },
        RuntimeHostCommand::AgentAnswerNow => {
            reveal_strlit("_centaeris/session/answer_now");
            assert(name_print("_centaeris/session/answer_now"@) == 494366309);
        },
        RuntimeHostCommand::AgentQuestionAnswer => {
            reveal_strlit("_centaeris/session/answer_question");
            assert(name_print("_centaeris/session/answer_question"@) == 577661285);
        },
        RuntimeHostCommand::SessionDelete => {
            reveal_strlit("_centaeris/session/delete");
            assert(name_print("_centaeris/session/delete"@) == 426075492);
        },
        RuntimeHostCommand::SessionDiagnostics => {
            reveal_strlit("_centaeris/session/diagnostics");
            assert(name_print("_centaeris/session/diagnostics"@) == 510880111);
        },
        RuntimeHostCommand::SessionProjectionGet => {
            reveal_strlit("_centaeris/session/project");
            assert(name_print("_centaeris/session/project"@) == 443835762);
        },
        RuntimeHostCommand::SessionReorder => {
            reveal_strlit("_centaeris/session/reorder");
            assert(name_print("_centaeris/session/reorder"@) == 443704421);
        },
        RuntimeHostCommand::AgentRunList => {
            reveal_strlit("_centaeris/session/agent-runs");
            assert(name_print("_centaeris/session/agent-runs"@) == 494105972);
        },
        RuntimeHostCommand::AgentRunStreamReplay => {
            reveal_strlit("_centaeris/session/agent-runs/replay");
            assert(name_print("_centaeris/session/agent-runs/replay"@) == 611937394);
        },
        RuntimeHostCommand::AgentRunAttach => {
            reveal_strlit("_centaeris/session/agent-runs/attach");
            assert(name_print("_centaeris/session/agent-runs/attach"@) == 610820449);
        },
        RuntimeHostCommand::AgentRunDetach => {
            reveal_strlit("_centaeris/session/agent-runs/detach");
            assert(name_print("_centaeris/session/agent-runs/detach"@) == 610820452);
        },
        RuntimeHostCommand::AgentRunDetachViewer => {
            reveal_strlit("_centaeris/session/agent-runs/detach-viewer");
            assert(name_print("_centaeris/session/agent-runs/detach-viewer"@) == 728921974);
        },
        RuntimeHostCommand::AgentRunCancel => {
            reveal_strlit("_centaeris/session/agent-runs/cancel");
            assert(name_print("_centaeris/session/agent-runs/cancel"@) == 611083107);
        },
        RuntimeHostCommand::AgentSupplement => {
            reveal_strlit("_centaeris/session/supplement");
            assert(name_print("_centaeris/session/supplement"@) == 494167404);
        },
        RuntimeHostCommand::SessionUpdate => {
            reveal_strlit("_centaeris/session/update_metadata");
            assert(name_print("_centaeris/session/update_metadata"@) == 576807284);
        },
        RuntimeHostCommand::AgentRuntimeConfigGet => {
            reveal_strlit("agent_runtime_config_get");
            assert(name_print("agent_runtime_config_get"@) == 410281833);
        },
        RuntimeHostCommand::AgentRuntimeConfigReset => {
            reveal_strlit("agent_runtime_config_reset");
            assert(name_print("agent_runtime_config_reset"@) == 443839327);
        },
        RuntimeHostCommand::AgentRuntimeConfigSet => {
            reveal_strlit("agent_runtime_config_set");
            assert(name_print("agent_runtime_config_set"@) == 410284905);
        },
        RuntimeHostCommand::AgentRuntimeModelTest => {
            reveal_strlit("agent_runtime_model_test");
            assert(name_print("agent_runtime_model_test"@) == 410281324);
        },
        RuntimeHostCommand::McpCatalog => {
            reveal_strlit("mcp/catalog");
            assert(name_print("mcp/catalog"@) == 191327329);
        },
        RuntimeHostCommand::McpConfigure => {
            reveal_strlit("mcp/configure");
            assert(name_print("mcp/configure"@) == 224752998);
        },
        RuntimeHostCommand::AgentRuntimeGarbageCollect => {
            reveal_strlit("agent_runtime_garbage_collect");
            assert(name_print("agent_runtime_garbage_collect"@) == 494167407);
        },
        RuntimeHostCommand::AgentRuntimeJobGet => {
            reveal_strlit("agent_runtime_job_get");
            assert(name_print("agent_runtime_job_get"@) == 359950191);
        },
        RuntimeHostCommand::AgentRuntimeJobList => {
            reveal_strlit("agent_runtime_job_list");
            assert(name_print("agent_runtime_job_list"@) == 376727906);
        },
        RuntimeHostCommand::AgentStateGet => {
            reveal_strlit("agent_state_get");
            assert(name_print("agent_state_get"@) == 259286900);
        },
        RuntimeHostCommand::TranscriptProjection => {
            reveal_strlit("transcript/project");
            assert(name_print("transcript/project"@) == 309618034);
        },
        RuntimeHostCommand::PluginCatalogState => {
            reveal_strlit("plugin/catalog_state");
            assert(name_print("plugin/catalog_state"@) == 342188383);
        },
        RuntimeHostCommand::SkillSourceList => {
            reveal_strlit("skill/source/list");
            assert(name_print("skill/source/list"@) == 292841829);
        },
        RuntimeHostCommand::SkillSourceAdd => {
            reveal_strlit("skill/source/add");
            assert(name_print("skill/source/add"@) == 275013987);
        },
        RuntimeHostCommand::SkillSourceRemove => {
            reveal_strlit("skill/source/remove");
            assert(name_print("skill/source/remove"@) == 325414770);
        },
        RuntimeHostCommand::SkillSourceSetEnabled => {
            reveal_strlit("skill/source/set_enabled");
            assert(name_print("skill/source/set_enabled"@) == 409234542);
        },
        RuntimeHostCommand::SkillSourceRef => {
            reveal_strlit("skill/source/ref");
            assert(name_print("skill/source/ref"@) == 275149411);
        },
        RuntimeHostCommand::SkillCatalog => {
            reveal_strlit("skill/catalog");
            assert(name_print("skill/catalog"@) == 224881761);
        },
        RuntimeHostCommand::SkillDetail => {
            reveal_strlit("skill/detail");
            assert(name_print("skill/detail"@) == 208429412);
        },
        RuntimeHostCommand::SkillSetEnabled => {
            reveal_strlit("skill/set_enabled");
            assert(name_print("skill/set_enabled"@) == 291794030);
        },
        RuntimeHostCommand::SkillReload => {
            reveal_strlit("skill/reload");
            assert(name_print("skill/reload"@) == 207908722);
        },
        RuntimeHostCommand::PluginDetail => {
            reveal_strlit("plugin/detail");
            assert(name_print("plugin/detail"@) == 225206628);
        },
        RuntimeHostCommand::PluginList => {
            reveal_strlit("plugin/list");
            assert(name_print("plugin/list"@) == 192178542);
        },
        RuntimeHostCommand::PluginReload => {
            reveal_strlit("plugin/reload");
            assert(name_print("plugin/reload"@) == 224685938);
        },
        RuntimeHostCommand::PluginSetEnabled => {
            reveal_strlit("plugin/set_enabled");
            assert(name_print("plugin/set_enabled"@) == 308571246);
        },
        RuntimeHostCommand::PluginSourceRef => {
            reveal_strlit("plugin/source_ref");
            assert(name_print("plugin/source_ref"@) == 291926627);
        },
        RuntimeHostCommand::SessionList => {
            reveal_strlit("session/list");
            assert(name_print("session/list"@) == 208955758);
        },
        RuntimeHostCommand::SessionGet => {
            reveal_strlit("session/load");
            assert(name_print("session/load"@) == 207908718);
        },
        RuntimeHostCommand::SessionCreate => {
            reveal_strlit("session/new");
            assert(name_print("session/new"@) == 192376431);
        },
        RuntimeHostCommand::AgentInput => {
            reveal_strlit("session/prompt");
            assert(name_print("session/prompt"@) == 242511216);
        },
        RuntimeHostCommand::ProcessCapture => {
            reveal_strlit("process_capture");
            assert(name_print("process_capture"@) == 258307425);
        },
        RuntimeHostCommand::SidecarList => {
            reveal_strlit("sidecar_list");
            assert(name_print("sidecar_list"@) == 208955762);
        },
        RuntimeHostCommand::SidecarStart => {
            reveal_strlit("sidecar_start");
            assert(name_print("sidecar_start"@) == 225730911);
        },
        RuntimeHostCommand::SidecarStop => {
            reveal_strlit("sidecar_stop");
            assert(name_print("sidecar_stop"@) == 208696434);
        },
        RuntimeHostCommand::WorkspaceFileTree => {
            reveal_strlit("workspace_file_tree");
            assert(name_print("workspace_file_tree"@) == 325415525);
        },
        RuntimeHostCommand::WorkspaceReadFile => {
            reveal_strlit("workspace_read_file");
            assert(name_print("workspace_read_file"@) == 325413220);
        },
        RuntimeHostCommand::AppExit => {
            reveal_strlit("app_exit");
            assert(name_print("app_exit"@) == 141850736);
        },
        RuntimeHostCommand::DesktopFilePreviewRead => {
            reveal_strlit("desktop_file_preview_read");
            assert(name_print("desktop_file_preview_read"@) == 426009975);
        },
        RuntimeHostCommand::Initialize => {
            reveal_strlit("initialize");
            assert(name_print("initialize"@) == 174418281);
        },
        RuntimeHostCommand::PluginInstall => {
            reveal_strlit("plugin/install");
            assert(name_print("plugin/install"@) == 241983854);
        },
        RuntimeHostCommand::PluginRemove => {
            reveal_strlit("plugin/remove");
            assert(name_print("plugin/remove"@) == 224751474);
        },
        RuntimeHostCommand::WorkspaceActivate => {
            reveal_strlit("workspace_activate");
            assert(name_print("workspace_activate"@) == 308633972);
        },
        RuntimeHostCommand::WorkspaceGet => {
            reveal_strlit("workspace_get");
            assert(name_print("workspace_get"@) == 225732451);
        },
        RuntimeHostCommand::WorkspaceGitDiffGet => {
            reveal_strlit("workspace_git_diff_get");
            assert(name_print("workspace_git_diff_get"@) == 376727398);
        },
        RuntimeHostCommand::WorkspaceGitFileDiffGet => {
            reveal_strlit("workspace_git_file_diff_get");
            assert(name_print("workspace_git_file_diff_get"@) == 460613478);
        },
        RuntimeHostCommand::WorkspaceGitHubCliStatusGet => {
            reveal_strlit("workspace_git_github_cli_status_get");
            assert(name_print("workspace_git_github_cli_status_get"@) == 594831221);
        },
        RuntimeHostCommand::WorkspaceGitStatusGet => {
            reveal_strlit("workspace_git_status_get");
            assert(name_print("workspace_git_status_get"@) == 410281845);
        },
        RuntimeHostCommand::WorkspaceOpenFolder => {
            reveal_strlit("workspace_open_folder");
            assert(name_print("workspace_open_folder"@) == 359818342);
        },
        RuntimeHostCommand::WorkspaceRemove => {
            reveal_strlit("workspace_remove");
            assert(name_print("workspace_remove"@) == 275083122);
        },
        RuntimeHostCommand::WorkspaceReset => {
            reveal_strlit("workspace_reset");
            assert(name_print("workspace_reset"@) == 259289951);
        },
        RuntimeHostCommand::WorkspaceRename => {
            reveal_strlit("workspace_rename");
            assert(name_print("workspace_rename"@) == 275079538);
        },
        RuntimeHostCommand::WorkspaceRevealFolder => {
            reveal_strlit("workspace_reveal_folder");
            assert(name_print("workspace_reveal_folder"@) == 393372774);
        },
    }
}

/// No two commands have the same name.
pub proof fn law_names_are_distinct(a: RuntimeHostCommand, b: RuntimeHostCommand)
    ensures
        command_name(a) == command_name(b) ==> a == b,
{
    lemma_name_print(a);
    lemma_name_print(b);
}

/// The command at a place in the list of the shared runtime's commands.
spec fn shared_command(i: int) -> RuntimeHostCommand {
    if i == 0 {
        RuntimeHostCommand::AgentContextUsageGet
    } else if i == 1 {
        RuntimeHostCommand::AgentContextCompact
    } else if i == 2 {
        RuntimeHostCommand::AgentDeadLetterDismiss
    } else if i == 3 {
        RuntimeHostCommand::AgentDeadLetterGet
    } else if i == 4 {
        RuntimeHostCommand::AgentDeadLetterList
    } else if i == 5 {
        RuntimeHostCommand::AgentDeadLetterReplay
    } else if i == 6 {
        RuntimeHostCommand::SessionActivate
    } else if i == 7 {
        RuntimeHostCommand::AgentAnswerNow
    } else if i == 8 {
        RuntimeHostCommand::AgentQuestionAnswer
    } else if i == 9 {
        RuntimeHostCommand::SessionDelete
    } else if i == 10 {
        RuntimeHostCommand::SessionDiagnostics
    } else if i == 11 {
        RuntimeHostCommand::SessionProjectionGet
    } else if i == 12 {
        RuntimeHostCommand::SessionReorder
    } else if i == 13 {
        RuntimeHostCommand::AgentRunList
    } else if i == 14 {
        RuntimeHostCommand::AgentRunStreamReplay
    } else if i == 15 {
        RuntimeHostCommand::AgentRunAttach
    } else if i == 16 {
        RuntimeHostCommand::AgentRunDetach
    } else if i == 17 {
        RuntimeHostCommand::AgentRunDetachViewer
    } else if i == 18 {
        RuntimeHostCommand::AgentRunCancel
    } else if i == 19 {
        RuntimeHostCommand::AgentSupplement
    } else if i == 20 {
        RuntimeHostCommand::SessionUpdate
    } else if i == 21 {
        RuntimeHostCommand::AgentRuntimeConfigGet
    } else if i == 22 {
        RuntimeHostCommand::AgentRuntimeConfigReset
    } else if i == 23 {
        RuntimeHostCommand::AgentRuntimeConfigSet
    } else if i == 24 {
        RuntimeHostCommand::AgentRuntimeModelTest
    } else if i == 25 {
        RuntimeHostCommand::McpCatalog
    } else if i == 26 {
        RuntimeHostCommand::McpConfigure
    } else if i == 27 {
        RuntimeHostCommand::AgentRuntimeGarbageCollect
    } else if i == 28 {
        RuntimeHostCommand::AgentRuntimeJobGet
    } else if i == 29 {
        RuntimeHostCommand::AgentRuntimeJobList
    } else if i == 30 {
        RuntimeHostCommand::AgentStateGet
    } else if i == 31 {
        RuntimeHostCommand::TranscriptProjection
    } else if i == 32 {
        RuntimeHostCommand::PluginCatalogState
    } else if i == 33 {
        RuntimeHostCommand::SkillSourceList
    } else if i == 34 {
        RuntimeHostCommand::SkillSourceAdd
    } else if i == 35 {
        RuntimeHostCommand::SkillSourceRemove
    } else if i == 36 {
        RuntimeHostCommand::SkillSourceSetEnabled
    } else if i == 37 {
        RuntimeHostCommand::SkillSourceRef
    } else if i == 38 {
        RuntimeHostCommand::SkillCatalog
    } else if i == 39 {
        RuntimeHostCommand::SkillDetail
    } else if i == 40 {
        RuntimeHostCommand::SkillSetEnabled
    } else if i == 41 {
        RuntimeHostCommand::SkillReload
    } else if i == 42 {
        RuntimeHostCommand::PluginDetail
    } else if i == 43 {
        RuntimeHostCommand::PluginList
    } else if i == 44 {
        RuntimeHostCommand::PluginReload
    } else if i == 45 {
        RuntimeHostCommand::PluginSetEnabled
    } else if i == 46 {
        RuntimeHostCommand::PluginSourceRef
    } else if i == 47 {
        RuntimeHostCommand::SessionList
    } else if i == 48 {
        RuntimeHostCommand::SessionGet
    } else if i == 49 {
        RuntimeHostCommand::SessionCreate
    } else {
        RuntimeHostCommand::AgentInput
    }
}

/// The command at a place in the list of the execution host's commands.
spec fn execution_command(i: int) -> RuntimeHostCommand {
    if i == 0 {
        RuntimeHostCommand::ProcessCapture
    } else if i == 1 {
        RuntimeHostCommand::SidecarList
    } else if i == 2 {
        RuntimeHostCommand::SidecarStart
    } else if i == 3 {
        RuntimeHostCommand::SidecarStop
    } else if i == 4 {
        RuntimeHostCommand::WorkspaceFileTree
    } else {
        RuntimeHostCommand::WorkspaceReadFile
    }
}

/// The command at a place in the list of the host surface's commands.
spec fn surface_command(i: int) -> RuntimeHostCommand {
    if i == 0 {
        RuntimeHostCommand::AppExit
    } else if i == 1 {
        RuntimeHostCommand::DesktopFilePreviewRead
    } else if i == 2 {
        RuntimeHostCommand::Initialize
    } else if i == 3 {
        RuntimeHostCommand::PluginInstall
    } else if i == 4 {
        RuntimeHostCommand::PluginRemove
    } else if i == 5 {
        RuntimeHostCommand::WorkspaceActivate
    } else if i == 6 {
        RuntimeHostCommand::WorkspaceGet
    } else if i == 7 {
        RuntimeHostCommand::WorkspaceGitDiffGet
    } else if i == 8 {
        RuntimeHostCommand::WorkspaceGitFileDiffGet
    } else if i == 9 {
        RuntimeHostCommand::WorkspaceGitHubCliStatusGet
    } else if i == 10 {
        RuntimeHostCommand::WorkspaceGitStatusGet
    } else if i == 11 {
        RuntimeHostCommand::WorkspaceOpenFolder
    } else if i == 12 {
        RuntimeHostCommand::WorkspaceRemove
    } else if i == 13 {
        RuntimeHostCommand::WorkspaceReset
    } else if i == 14 {
        RuntimeHostCommand::WorkspaceRename
    } else {
        RuntimeHostCommand::WorkspaceRevealFolder
    }
}

/// The place of a command in the list that it stands in.
spec fn place_in_list(command: RuntimeHostCommand) -> int {
    match command {
        RuntimeHostCommand::AgentContextUsageGet => 0,
        RuntimeHostCommand::AgentContextCompact => 1,
        RuntimeHostCommand::AgentDeadLetterDismiss => 2,
        RuntimeHostCommand::AgentDeadLetterGet => 3,
        RuntimeHostCommand::AgentDeadLetterList => 4,
        RuntimeHostCommand::AgentDeadLetterReplay => 5,
        RuntimeHostCommand::SessionActivate => 6,
        RuntimeHostCommand::AgentAnswerNow => 7,
        RuntimeHostCommand::AgentQuestionAnswer => 8,
        RuntimeHostCommand::SessionDelete => 9,
        RuntimeHostCommand::SessionDiagnostics => 10,
        RuntimeHostCommand::SessionProjectionGet => 11,
        RuntimeHostCommand::SessionReorder => 12,
        RuntimeHostCommand::AgentRunList => 13,
        RuntimeHostCommand::AgentRunStreamReplay => 14,
        RuntimeHostCommand::AgentRunAttach => 15,
        RuntimeHostCommand::AgentRunDetach => 16,
        RuntimeHostCommand::AgentRunDetachViewer => 17,
        RuntimeHostCommand::AgentRunCancel => 18,
        RuntimeHostCommand::AgentSupplement => 19,
        RuntimeHostCommand::SessionUpdate => 20,
        RuntimeHostCommand::AgentRuntimeConfigGet => 21,
        RuntimeHostCommand::AgentRuntimeConfigReset => 22,
        RuntimeHostCommand::AgentRuntimeConfigSet => 23,
        RuntimeHostCommand::AgentRuntimeModelTest => 24,
        RuntimeHostCommand::McpCatalog => 25,
        RuntimeHostCommand::McpConfigure => 26,
        RuntimeHostCommand::AgentRuntimeGarbageCollect => 27,
        RuntimeHostCommand::AgentRuntimeJobGet => 28,
        RuntimeHostCommand::AgentRuntimeJobList => 29,
        RuntimeHostCommand::AgentStateGet => 30,
        RuntimeHostCommand::TranscriptProjection => 31,
        RuntimeHostCommand::PluginCatalogState => 32,
        RuntimeHostCommand::SkillSourceList => 33,
        RuntimeHostCommand::SkillSourceAdd => 34,
        RuntimeHostCommand::SkillSourceRemove => 35,
        RuntimeHostCommand::SkillSourceSetEnabled => 36,
        RuntimeHostCommand::SkillSourceRef => 37,
        RuntimeHostCommand::SkillCatalog => 38,
        RuntimeHostCommand::SkillDetail => 39,
        RuntimeHostCommand::SkillSetEnabled => 40,
        RuntimeHostCommand::SkillReload => 41,
        RuntimeHostCommand::PluginDetail => 42,
        RuntimeHostCommand::PluginList => 43,
        RuntimeHostCommand::PluginReload => 44,
        RuntimeHostCommand::PluginSetEnabled => 45,
        RuntimeHostCommand::PluginSourceRef => 46,
        RuntimeHostCommand::SessionList => 47,
        RuntimeHostCommand::SessionGet => 48,
        RuntimeHostCommand::SessionCreate => 49,
        RuntimeHostCommand::AgentInput => 50,
        RuntimeHostCommand::ProcessCapture => 0,
        RuntimeHostCommand::SidecarList => 1,
        RuntimeHostCommand::SidecarStart => 2,
        RuntimeHostCommand::SidecarStop => 3,
        RuntimeHostCommand::WorkspaceFileTree => 4,
        RuntimeHostCommand::WorkspaceReadFile => 5,
        RuntimeHostCommand::AppExit => 0,
        RuntimeHostCommand::DesktopFilePreviewRead => 1,
        RuntimeHostCommand::Initialize => 2,
        RuntimeHostCommand::PluginInstall => 3,
        RuntimeHostCommand::PluginRemove => 4,
        RuntimeHostCommand::WorkspaceActivate => 5,
        RuntimeHostCommand::WorkspaceGet => 6,
        RuntimeHostCommand::WorkspaceGitDiffGet => 7,
        RuntimeHostCommand::WorkspaceGitFileDiffGet => 8,
        RuntimeHostCommand::WorkspaceGitHubCliStatusGet => 9,
        RuntimeHostCommand::WorkspaceGitStatusGet => 10,
        RuntimeHostCommand::WorkspaceOpenFolder => 11,
        RuntimeHostCommand::WorkspaceRemove => 12,
        RuntimeHostCommand::WorkspaceReset => 13,
        RuntimeHostCommand::WorkspaceRename => 14,
        RuntimeHostCommand::WorkspaceRevealFolder => 15,
    }
}

proof fn lemma_shared_list()
    ensures
        SHARED_RUNTIME_COMMANDS@.len() == 51,
        forall|i: int|
            0 <= i < 51 ==> (#[trigger] SHARED_RUNTIME_COMMANDS@[i])@ == command_name(shared_command(i)),
{
    assert(SHARED_RUNTIME_COMMANDS@[0]@ == "agent_context_usage_get"@);
    assert(SHARED_RUNTIME_COMMANDS@[1]@ == "_centaeris/session/compact_context"@);
    assert(SHARED_RUNTIME_COMMANDS@[2]@ == "agent_dead_letter_dismiss"@);
    assert(SHARED_RUNTIME_COMMANDS@[3]@ == "agent_dead_letter_get"@);
    assert(SHARED_RUNTIME_COMMANDS@[4]@ == "agent_dead_letter_list"@);
    assert(SHARED_RUNTIME_COMMANDS@[5]@ == "agent_dead_letter_replay"@);
    assert(SHARED_RUNTIME_COMMANDS@[6]@ == "_centaeris/session/activate"@);
    assert(SHARED_RUNTIME_COMMANDS@[7]@ == "_centaeris/session/answer_now"@);
    assert(SHARED_RUNTIME_COMMANDS@[8]@ == "_centaeris/session/answer_question"@);
    assert(SHARED_RUNTIME_COMMANDS@[9]@ == "_centaeris/session/delete"@);
    assert(SHARED_RUNTIME_COMMANDS@[10]@ == "_centaeris/session/diagnostics"@);
    assert(SHARED_RUNTIME_COMMANDS@[11]@ == "_centaeris/session/project"@);
    assert(SHARED_RUNTIME_COMMANDS@[12]@ == "_centaeris/session/reorder"@);
    assert(SHARED_RUNTIME_COMMANDS@[13]@ == "_centaeris/session/agent-runs"@);
    assert(SHARED_RUNTIME_COMMANDS@[14]@ == "_centaeris/session/agent-runs/replay"@);
    assert(SHARED_RUNTIME_COMMANDS@[15]@ == "_centaeris/session/agent-runs/attach"@);
    assert(SHARED_RUNTIME_COMMANDS@[16]@ == "_centaeris/session/agent-runs/detach"@);
    assert(SHARED_RUNTIME_COMMANDS@[17]@ == "_centaeris/session/agent-runs/detach-viewer"@);
    assert(SHARED_RUNTIME_COMMANDS@[18]@ == "_centaeris/session/agent-runs/cancel"@);
    assert(SHARED_RUNTIME_COMMANDS@[19]@ == "_centaeris/session/supplement"@);
    assert(SHARED_RUNTIME_COMMANDS@[20]@ == "_centaeris/session/update_metadata"@);
    assert(SHARED_RUNTIME_COMMANDS@[21]@ == "agent_runtime_config_get"@);
    assert(SHARED_RUNTIME_COMMANDS@[22]@ == "agent_runtime_config_reset"@);
    assert(SHARED_RUNTIME_COMMANDS@[23]@ == "agent_runtime_config_set"@);
    assert(SHARED_RUNTIME_COMMANDS@[24]@ == "agent_runtime_model_test"@);
    assert(SHARED_RUNTIME_COMMANDS@[25]@ == "mcp/catalog"@);
    assert(SHARED_RUNTIME_COMMANDS@[26]@ == "mcp/configure"@);
    assert(SHARED_RUNTIME_COMMANDS@[27]@ == "agent_runtime_garbage_collect"@);
    assert(SHARED_RUNTIME_COMMANDS@[28]@ == "agent_runtime_job_get"@);
    assert(SHARED_RUNTIME_COMMANDS@[29]@ == "agent_runtime_job_list"@);
    assert(SHARED_RUNTIME_COMMANDS@[30]@ == "agent_state_get"@);
    assert(SHARED_RUNTIME_COMMANDS@[31]@ == "transcript/project"@);
    assert(SHARED_RUNTIME_COMMANDS@[32]@ == "plugin/catalog_state"@);
    assert(SHARED_RUNTIME_COMMANDS@[33]@ == "skill/source/list"@);
    assert(SHARED_RUNTIME_COMMANDS@[34]@ == "skill/source/add"@);
    assert(SHARED_RUNTIME_COMMANDS@[35]@ == "skill/source/remove"@);
    assert(SHARED_RUNTIME_COMMANDS@[36]@ == "skill/source/set_enabled"@);
    assert(SHARED_RUNTIME_COMMANDS@[37]@ == "skill/source/ref"@);
    assert(SHARED_RUNTIME_COMMANDS@[38]@ == "skill/catalog"@);
    assert(SHARED_RUNTIME_COMMANDS@[39]@ == "skill/detail"@);
    assert(SHARED_RUNTIME_COMMANDS@[40]@ == "skill/set_enabled"@);
    assert(SHARED_RUNTIME_COMMANDS@[41]@ == "skill/reload"@);
    assert(SHARED_RUNTIME_COMMANDS@[42]@ == "plugin/detail"@);
    assert(SHARED_RUNTIME_COMMANDS@[43]@ == "plugin/list"@);
    assert(SHARED_RUNTIME_COMMANDS@[44]@ == "plugin/reload"@);
    assert(SHARED_RUNTIME_COMMANDS@[45]@ == "plugin/set_enabled"@);
    assert(SHARED_RUNTIME_COMMANDS@[46]@ == "plugin/source_ref"@);
    assert(SHARED_RUNTIME_COMMANDS@[47]@ == "session/list"@);
    assert(SHARED_RUNTIME_COMMANDS@[48]@ == "session/load"@);
    assert(SHARED_RUNTIME_COMMANDS@[49]@ == "session/new"@);
    assert(SHARED_RUNTIME_COMMANDS@[50]@ == "session/prompt"@);
    assert forall|i: int| 0 <= i < 51 implies (#[trigger] SHARED_RUNTIME_COMMANDS@[i])@ == command_name(
        shared_command(i),
    ) by {
    }
}

proof fn lemma_execution_list()
    ensures
        EXECUTION_HOST_COMMANDS@.len() == 6,
        forall|i: int|
            0 <= i < 6 ==> (#[trigger] EXECUTION_HOST_COMMANDS@[i])@ == command_name(execution_command(i)),
{
    assert(EXECUTION_HOST_COMMANDS@[0]@ == "process_capture"@);
    assert(EXECUTION_HOST_COMMANDS@[1]@ == "sidecar_list"@);
    assert(EXECUTION_HOST_COMMANDS@[2]@ == "sidecar_start"@);
    assert(EXECUTION_HOST_COMMANDS@[3]@ == "sidecar_stop"@);
    assert(EXECUTION_HOST_COMMANDS@[4]@ == "workspace_file_tree"@);
    assert(EXECUTION_HOST_COMMANDS@[5]@ == "workspace_read_file"@);
    assert forall|i: int| 0 <= i < 6 implies (#[trigger] EXECUTION_HOST_COMMANDS@[i])@ == command_name(
        execution_command(i),
    ) by {
    }
}

proof fn lemma_surface_list()
    ensures
        HOST_SURFACE_COMMANDS@.len() == 16,
        forall|i: int|
            0 <= i < 16 ==> (#[trigger] HOST_SURFACE_COMMANDS@[i])@ == command_name(surface_command(i)),
{
    assert(HOST_SURFACE_COMMANDS@[0]@ == "app_exit"@);
    assert(HOST_SURFACE_COMMANDS@[1]@ == "desktop_file_preview_read"@);
    assert(HOST_SURFACE_COMMANDS@[2]@ == "initialize"@);
    assert(HOST_SURFACE_COMMANDS@[3]@ == "plugin/install"@);
    assert(HOST_SURFACE_COMMANDS@[4]@ == "plugin/remove"@);
    assert(HOST_SURFACE_COMMANDS@[5]@ == "workspace_activate"@);
    assert(HOST_SURFACE_COMMANDS@[6]@ == "workspace_get"@);
    assert(HOST_SURFACE_COMMANDS@[7]@ == "workspace_git_diff_get"@);
    assert(HOST_SURFACE_COMMANDS@[8]@ == "workspace_git_file_diff_get"@);
    assert(HOST_SURFACE_COMMANDS@[9]@ == "workspace_git_github_cli_status_get"@);
    assert(HOST_SURFACE_COMMANDS@[10]@ == "workspace_git_status_get"@);
    assert(HOST_SURFACE_COMMANDS@[11]@ == "workspace_open_folder"@);
    assert(HOST_SURFACE_COMMANDS@[12]@ == "workspace_remove"@);
    assert(HOST_SURFACE_COMMANDS@[13]@ == "workspace_reset"@);
    assert(HOST_SURFACE_COMMANDS@[14]@ == "workspace_rename"@);
    assert(HOST_SURFACE_COMMANDS@[15]@ == "workspace_reveal_folder"@);
    assert forall|i: int| 0 <= i < 16 implies (#[trigger] HOST_SURFACE_COMMANDS@[i])@ == command_name(
        surface_command(i),
    ) by {
    }
}

/// Every command is registered, under the part of the host that answers it and no other.
pub proof fn law_every_command_is_registered(command: RuntimeHostCommand)
    ensures
        scope_of(command_name(command)) == Some(command_scope_kind(command)),
{
    lemma_shared_list();
    lemma_execution_list();
    lemma_surface_list();
    let name = command_name(command);
    let place = place_in_list(command);
    match command_scope_kind(command) {
        HostCommandScope::SharedRuntime => {
            assert(SHARED_RUNTIME_COMMANDS@[place]@ == name);
        },
        HostCommandScope::ExecutionHost => {
            assert(EXECUTION_HOST_COMMANDS@[place]@ == name);
            lemma_not_shared(command);
        },
        HostCommandScope::HostSurface => {
            assert(HOST_SURFACE_COMMANDS@[place]@ == name);
            lemma_not_shared(command);
            if stands_in(EXECUTION_HOST_COMMANDS@, name) {
                let i = choose|i: int|
                    0 <= i < EXECUTION_HOST_COMMANDS@.len() && (
                    #[trigger] EXECUTION_HOST_COMMANDS@[i])@ == name;
                law_names_are_distinct(execution_command(i), command);
            }
        },
    }
}

proof fn lemma_not_shared(command: RuntimeHostCommand)
    requires
        command_scope_kind(command) != HostCommandScope::SharedRuntime,
    ensures
        !stands_in(SHARED_RUNTIME_COMMANDS@, command_name(command)),
{
    lemma_shared_list();
    let name = command_name(command);
    if stands_in(SHARED_RUNTIME_COMMANDS@, name) {
        let i = choose|i: int|
            0 <= i < SHARED_RUNTIME_COMMANDS@.len() && (#[trigger] SHARED_RUNTIME_COMMANDS@[i])@
                == name;
        law_names_are_distinct(shared_command(i), command);
    }
}

/// A command's name has no whitespace around it, so that the name reads as the command.
pub proof fn law_names_are_trimmed(command: RuntimeHostCommand)
    ensures
        trimmed(command_name(command)) == command_name(command),
{
    match command {
        RuntimeHostCommand::AgentContextUsageGet => {
            reveal_strlit("agent_context_usage_get");
        },
        RuntimeHostCommand::AgentContextCompact => {
            reveal_strlit("_centaeris/session/compact_context");
        },
        RuntimeHostCommand::AgentDeadLetterDismiss => {
            reveal_strlit("agent_dead_letter_dismiss");
        },
        RuntimeHostCommand::AgentDeadLetterGet => {
            reveal_strlit("agent_dead_letter_get");
        },
        RuntimeHostCommand::AgentDeadLetterList => {
            reveal_strlit("agent_dead_letter_list");
        },
        RuntimeHostCommand::AgentDeadLetterReplay => {
            reveal_strlit("agent_dead_letter_replay");
        },
        RuntimeHostCommand::SessionActivate => {
            reveal_strlit("_centaeris/session/activate");
        },
        RuntimeHostCommand::AgentAnswerNow => {
            reveal_strlit("_centaeris/session/answer_now");
        },
        RuntimeHostCommand::AgentQuestionAnswer => {
            reveal_strlit("_centaeris/session/answer_question");
        },
        RuntimeHostCommand::SessionDelete => {
            reveal_strlit("_centaeris/session/delete");
        },
        RuntimeHostCommand::SessionDiagnostics => {
            reveal_strlit("_centaeris/session/diagnostics");
        },
        RuntimeHostCommand::SessionProjectionGet => {
            reveal_strlit("_centaeris/session/project");
        },
        RuntimeHostCommand::SessionReorder => {
            reveal_strlit("_centaeris/session/reorder");
        },
        RuntimeHostCommand::AgentRunList => {
            reveal_strlit("_centaeris/session/agent-runs");
        },
        RuntimeHostCommand::AgentRunStreamReplay => {
            reveal_strlit("_centaeris/session/agent-runs/replay");
        },
        RuntimeHostCommand::AgentRunAttach => {
            reveal_strlit("_centaeris/session/agent-runs/attach");
        },
        RuntimeHostCommand::AgentRunDetach => {
            reveal_strlit("_centaeris/session/agent-runs/detach");
        },
        RuntimeHostCommand::AgentRunDetachViewer => {
            reveal_strlit("_centaeris/session/agent-runs/detach-viewer");
        },
        RuntimeHostCommand::AgentRunCancel => {
            reveal_strlit("_centaeris/session/agent-runs/cancel");
        },
        RuntimeHostCommand::AgentSupplement => {
            reveal_strlit("_centaeris/session/supplement");
        },
        RuntimeHostCommand::SessionUpdate => {
            reveal_strlit("_centaeris/session/update_metadata");
        },
        RuntimeHostCommand::AgentRuntimeConfigGet => {
            reveal_strlit("agent_runtime_config_get");
        },
        RuntimeHostCommand::AgentRuntimeConfigReset => {
            reveal_strlit("agent_runtime_config_reset");
        },
        RuntimeHostCommand::AgentRuntimeConfigSet => {
            reveal_strlit("agent_runtime_config_set");
        },
        RuntimeHostCommand::AgentRuntimeModelTest => {
            reveal_strlit("agent_runtime_model_test");
        },
        RuntimeHostCommand::McpCatalog => {
            reveal_strlit("mcp/catalog");
        },
        RuntimeHostCommand::McpConfigure => {
            reveal_strlit("mcp/configure");
        },
        RuntimeHostCommand::AgentRuntimeGarbageCollect => {
            reveal_strlit("agent_runtime_garbage_collect");
        },
        RuntimeHostCommand::AgentRuntimeJobGet => {
            reveal_strlit("agent_runtime_job_get");
        },
        RuntimeHostCommand::AgentRuntimeJobList => {
            reveal_strlit("agent_runtime_job_list");
        },
        RuntimeHostCommand::AgentStateGet => {
            reveal_strlit("agent_state_get");
        },
        RuntimeHostCommand::TranscriptProjection => {
            reveal_strlit("transcript/project");
        },
        RuntimeHostCommand::PluginCatalogState => {
            reveal_strlit("plugin/catalog_state");
        },
        RuntimeHostCommand::SkillSourceList => {
            reveal_strlit("skill/source/list");
        },
        RuntimeHostCommand::SkillSourceAdd => {
            reveal_strlit("skill/source/add");
        },
        RuntimeHostCommand::SkillSourceRemove => {
            reveal_strlit("skill/source/remove");
        },
        RuntimeHostCommand::SkillSourceSetEnabled => {
            reveal_strlit("skill/source/set_enabled");
        },
        RuntimeHostCommand::SkillSourceRef => {
            reveal_strlit("skill/source/ref");
        },
        RuntimeHostCommand::SkillCatalog => {
            reveal_strlit("skill/catalog");
        },
        RuntimeHostCommand::SkillDetail => {
            reveal_strlit("skill/detail");
        },
        RuntimeHostCommand::SkillSetEnabled => {
            reveal_strlit("skill/set_enabled");
        },
        RuntimeHostCommand::SkillReload => {
            reveal_strlit("skill/reload");
        },
        RuntimeHostCommand::PluginDetail => {
            reveal_strlit("plugin/detail");
        },
        RuntimeHostCommand::PluginList => {
            reveal_strlit("plugin/list");
        },
        RuntimeHostCommand::PluginReload => {
            reveal_strlit("plugin/reload");
        },
        RuntimeHostCommand::PluginSetEnabled => {
            reveal_strlit("plugin/set_enabled");
        },
        RuntimeHostCommand::PluginSourceRef => {
            reveal_strlit("plugin/source_ref");
        },
        RuntimeHostCommand::SessionList => {
            reveal_strlit("session/list");
        },
        RuntimeHostCommand::SessionGet => {
            reveal_strlit("session/load");
        },
        RuntimeHostCommand::SessionCreate => {
            reveal_strlit("session/new");
        },
        RuntimeHostCommand::AgentInput => {
            reveal_strlit("session/prompt");
        },
        RuntimeHostCommand::ProcessCapture => {
            reveal_strlit("process_capture");
        },
        RuntimeHostCommand::SidecarList => {
            reveal_strlit("sidecar_list");
        },
        RuntimeHostCommand::SidecarStart => {
            reveal_strlit("sidecar_start");
        },
        RuntimeHostCommand::SidecarStop => {
            reveal_strlit("sidecar_stop");
        },
        RuntimeHostCommand::WorkspaceFileTree => {
            reveal_strlit("workspace_file_tree");
        },
        RuntimeHostCommand::WorkspaceReadFile => {
            reveal_strlit("workspace_read_file");
        },
        RuntimeHostCommand::AppExit => {
            reveal_strlit("app_exit");
        },
        RuntimeHostCommand::DesktopFilePreviewRead => {
            reveal_strlit("desktop_file_preview_read");
        },
        RuntimeHostCommand::Initialize => {
            reveal_strlit("initialize");
        },
        RuntimeHostCommand::PluginInstall => {
            reveal_strlit("plugin/install");
        },
        RuntimeHostCommand::PluginRemove => {
            reveal_strlit("plugin/remove");
        },
        RuntimeHostCommand::WorkspaceActivate => {
            reveal_strlit("workspace_activate");
        },
        RuntimeHostCommand::WorkspaceGet => {
            reveal_strlit("workspace_get");
        },
        RuntimeHostCommand::WorkspaceGitDiffGet => {
            reveal_strlit("workspace_git_diff_get");
        },
        RuntimeHostCommand::WorkspaceGitFileDiffGet => {
            reveal_strlit("workspace_git_file_diff_get");
        },
        RuntimeHostCommand::WorkspaceGitHubCliStatusGet => {
            reveal_strlit("workspace_git_github_cli_status_get");
        },
        RuntimeHostCommand::WorkspaceGitStatusGet => {
            reveal_strlit("workspace_git_status_get");
        },
        RuntimeHostCommand::WorkspaceOpenFolder => {
            reveal_strlit("workspace_open_folder");
        },
        RuntimeHostCommand::WorkspaceRemove => {
            reveal_strlit("workspace_remove");
        },
        RuntimeHostCommand::WorkspaceReset => {
            reveal_strlit("workspace_reset");
        },
        RuntimeHostCommand::WorkspaceRename => {
            reveal_strlit("workspace_rename");
        },
        RuntimeHostCommand::WorkspaceRevealFolder => {
            reveal_strlit("workspace_reveal_folder");
        },
    }
}

/// Whether a text is the name of a command.
pub open spec fn names_command(text: Seq<char>) -> bool {
    exists|command: RuntimeHostCommand| #[trigger] command_name(command) == text
}

impl RuntimeHostCommand {
    /// Reads a command by its name. Whitespace around the name does not count.
    pub fn parse(raw: &str) -> (result: Result<RuntimeHostCommand, RuntimeHostError>)
        ensures
            ({
                let text = trimmed(raw@);
                match result {
                    Ok(command) => command_name(command) == text && forall|other: RuntimeHostCommand|
                        #[trigger] command_name(other) == text ==> other == command,
                    Err(error) => !names_command(text) && if text.len() == 0 {
                        error.says("invalid_request"@, "command is required"@)
                    } else if scope_of(trimmed(text)) is Some {
                        error.says("sidecar_command_not_implemented"@, text)
                    } else {
                        error.says("unknown_command"@, "unknown command: "@ + text)
                    },
                }
            }),
    {
        let text = trim(raw);
        match RuntimeHostCommand::find(text) {
            Some(command) => {
                proof {
                    assert forall|other: RuntimeHostCommand| #[trigger]
                        command_name(other) == text@ implies other == command by {
                        law_names_are_distinct(other, command);
                    }
                }
                Ok(command)
            },
            None => if text.is_empty() {
                Err(RuntimeHostError::invalid_request("command is required"))
            } else if is_registered_host_command(text) {
                Err(RuntimeHostError::new("sidecar_command_not_implemented", text))
            } else {
                Err(RuntimeHostError::unknown_command(text))
            },
        }
    }

    /// The command with the given name.
    #[verifier::rlimit(60)]
    fn find(name: &str) -> (result: Option<RuntimeHostCommand>)
        ensures
            match result {
                Some(command) => command_name(command) == name@,
                None => !names_command(name@),
            },
    {
        if text_equals(name, "agent_context_usage_get") {
            Some(RuntimeHostCommand::AgentContextUsageGet)
        } else if text_equals(name, "_centaeris/session/compact_context") {
            Some(RuntimeHostCommand::AgentContextCompact)
        } else if text_equals(name, "agent_dead_letter_dismiss") {
            Some(RuntimeHostCommand::AgentDeadLetterDismiss)
        } else if text_equals(name, "agent_dead_letter_get") {
            Some(RuntimeHostCommand::AgentDeadLetterGet)
        } else if text_equals(name, "agent_dead_letter_list") {
            Some(RuntimeHostCommand::AgentDeadLetterList)
        } else if text_equals(name, "agent_dead_letter_replay") {
            Some(RuntimeHostCommand::AgentDeadLetterReplay)
        } else if text_equals(name, "_centaeris/session/activate") {
            Some(RuntimeHostCommand::SessionActivate)
        } else if text_equals(name, "_centaeris/session/answer_now") {
            Some(RuntimeHostCommand::AgentAnswerNow)
        } else if text_equals(name, "_centaeris/session/answer_question") {
            Some(RuntimeHostCommand::AgentQuestionAnswer)
        } else if text_equals(name, "_centaeris/session/delete") {
            Some(RuntimeHostCommand::SessionDelete)
        } else if text_equals(name, "_centaeris/session/diagnostics") {
            Some(RuntimeHostCommand::SessionDiagnostics)
        } else if text_equals(name, "_centaeris/session/project") {
            Some(RuntimeHostCommand::SessionProjectionGet)
        } else if text_equals(name, "_centaeris/session/reorder") {
            Some(RuntimeHostCommand::SessionReorder)
        } else if text_equals(name, "_centaeris/session/agent-runs") {
            Some(RuntimeHostCommand::AgentRunList)
        } else if text_equals(name, "_centaeris/session/agent-runs/replay") {
            Some(RuntimeHostCommand::AgentRunStreamReplay)
        } else if text_equals(name, "_centaeris/session/agent-runs/attach") {
            Some(RuntimeHostCommand::AgentRunAttach)
        } else if text_equals(name, "_centaeris/session/agent-runs/detach") {
            Some(RuntimeHostCommand::AgentRunDetach)
        } else if text_equals(name, "_centaeris/session/agent-runs/detach-viewer") {
            Some(RuntimeHostCommand::AgentRunDetachViewer)
        } else if text_equals(name, "_centaeris/session/agent-runs/cancel") {
            Some(RuntimeHostCommand::AgentRunCancel)
        } else if text_equals(name, "_centaeris/session/supplement") {
            Some(RuntimeHostCommand::AgentSupplement)
        } else if text_equals(name, "_centaeris/session/update_metadata") {
            Some(RuntimeHostCommand::SessionUpdate)
        } else if text_equals(name, "agent_runtime_config_get") {
            Some(RuntimeHostCommand::AgentRuntimeConfigGet)
        } else if text_equals(name, "agent_runtime_config_reset") {
            Some(RuntimeHostCommand::AgentRuntimeConfigReset)
        } else if text_equals(name, "agent_runtime_config_set") {
            Some(RuntimeHostCommand::AgentRuntimeConfigSet)
        } else if text_equals(name, "agent_runtime_model_test") {
            Some(RuntimeHostCommand::AgentRuntimeModelTest)
        } else if text_equals(name, "mcp/catalog") {
            Some(RuntimeHostCommand::McpCatalog)
        } else if text_equals(name, "mcp/configure") {
            Some(RuntimeHostCommand::McpConfigure)
        } else if text_equals(name, "agent_runtime_garbage_collect") {
            Some(RuntimeHostCommand::AgentRuntimeGarbageCollect)
        } else if text_equals(name, "agent_runtime_job_get") {
            Some(RuntimeHostCommand::AgentRuntimeJobGet)
        } else if text_equals(name, "agent_runtime_job_list") {
            Some(RuntimeHostCommand::AgentRuntimeJobList)
        } else if text_equals(name, "agent_state_get") {
            Some(RuntimeHostCommand::AgentStateGet)
        } else if text_equals(name, "transcript/project") {
            Some(RuntimeHostCommand::TranscriptProjection)
        } else if text_equals(name, "plugin/catalog_state") {
            Some(RuntimeHostCommand::PluginCatalogState)
        } else if text_equals(name, "skill/source/list") {
            Some(RuntimeHostCommand::SkillSourceList)
        } else if text_equals(name, "skill/source/add") {
            Some(RuntimeHostCommand::SkillSourceAdd)
        } else if text_equals(name, "skill/source/remove") {
            Some(RuntimeHostCommand::SkillSourceRemove)
        } else if text_equals(name, "skill/source/set_enabled") {
            Some(RuntimeHostCommand::SkillSourceSetEnabled)
        } else if text_equals(name, "skill/source/ref") {
            Some(RuntimeHostCommand::SkillSourceRef)
        } else if text_equals(name, "skill/catalog") {
            Some(RuntimeHostCommand::SkillCatalog)
        } else if text_equals(name, "skill/detail") {
            Some(RuntimeHostCommand::SkillDetail)
        } else if text_equals(name, "skill/set_enabled") {
            Some(RuntimeHostCommand::SkillSetEnabled)
        } else if text_equals(name, "skill/reload") {
            Some(RuntimeHostCommand::SkillReload)
        } else if text_equals(name, "plugin/detail") {
            Some(RuntimeHostCommand::PluginDetail)
        } else if text_equals(name, "plugin/list") {
            Some(RuntimeHostCommand::PluginList)
        } else if text_equals(name, "plugin/reload") {
            Some(RuntimeHostCommand::PluginReload)
        } else if text_equals(name, "plugin/set_enabled") {
            Some(RuntimeHostCommand::PluginSetEnabled)
        } else if text_equals(name, "plugin/source_ref") {
            Some(RuntimeHostCommand::PluginSourceRef)
        } else if text_equals(name, "session/list") {
            Some(RuntimeHostCommand::SessionList)
        } else if text_equals(name, "session/load") {
            Some(RuntimeHostCommand::SessionGet)
        } else if text_equals(name, "session/new") {
            Some(RuntimeHostCommand::SessionCreate)
        } else if text_equals(name, "session/prompt") {
            Some(RuntimeHostCommand::AgentInput)
        } else if text_equals(name, "process_capture") {
            Some(RuntimeHostCommand::ProcessCapture)
        } else if text_equals(name, "sidecar_list") {
            Some(RuntimeHostCommand::SidecarList)
        } else if text_equals(name, "sidecar_start") {
            Some(RuntimeHostCommand::SidecarStart)
        } else if text_equals(name, "sidecar_stop") {
            Some(RuntimeHostCommand::SidecarStop)
        } else if text_equals(name, "workspace_file_tree") {
            Some(RuntimeHostCommand::WorkspaceFileTree)
        } else if text_equals(name, "workspace_read_file") {
            Some(RuntimeHostCommand::WorkspaceReadFile)
        } else if text_equals(name, "app_exit") {
            Some(RuntimeHostCommand::AppExit)
        } else if text_equals(name, "desktop_file_preview_read") {
            Some(RuntimeHostCommand::DesktopFilePreviewRead)
        } else if text_equals(name, "initialize") {
            Some(RuntimeHostCommand::Initialize)
        } else if text_equals(name, "plugin/install") {
            Some(RuntimeHostCommand::PluginInstall)
        } else if text_equals(name, "plugin/remove") {
            Some(RuntimeHostCommand::PluginRemove)
        } else if text_equals(name, "workspace_activate") {
            Some(RuntimeHostCommand::WorkspaceActivate)
        } else if text_equals(name, "workspace_get") {
            Some(RuntimeHostCommand::WorkspaceGet)
        } else if text_equals(name, "workspace_git_diff_get") {
            Some(RuntimeHostCommand::WorkspaceGitDiffGet)
        } else if text_equals(name, "workspace_git_file_diff_get") {
            Some(RuntimeHostCommand::WorkspaceGitFileDiffGet)
        } else if text_equals(name, "workspace_git_github_cli_status_get") {
            Some(RuntimeHostCommand::WorkspaceGitHubCliStatusGet)
        } else if text_equals(name, "workspace_git_status_get") {
            Some(RuntimeHostCommand::WorkspaceGitStatusGet)
        } else if text_equals(name, "workspace_open_folder") {
            Some(RuntimeHostCommand::WorkspaceOpenFolder)
        } else if text_equals(name, "workspace_remove") {
            Some(RuntimeHostCommand::WorkspaceRemove)
        } else if text_equals(name, "workspace_reset") {
            Some(RuntimeHostCommand::WorkspaceReset)
        } else if text_equals(name, "workspace_rename") {
            Some(RuntimeHostCommand::WorkspaceRename)
        } else if text_equals(name, "workspace_reveal_folder") {
            Some(RuntimeHostCommand::WorkspaceRevealFolder)
        } else {
            None
        }
    }

    /// The name under which the command is registered.
    pub fn command(self) -> (result: &'static str)
        ensures
            result@ == command_name(self),
    {
        match self {
            RuntimeHostCommand::AgentContextUsageGet => "agent_context_usage_get",
            RuntimeHostCommand::AgentContextCompact => "_centaeris/session/compact_context",
            RuntimeHostCommand::AgentDeadLetterDismiss => "agent_dead_letter_dismiss",
            RuntimeHostCommand::AgentDeadLetterGet => "agent_dead_letter_get",
            RuntimeHostCommand::AgentDeadLetterList => "agent_dead_letter_list",
            RuntimeHostCommand::AgentDeadLetterReplay => "agent_dead_letter_replay",
            RuntimeHostCommand::SessionActivate => "_centaeris/session/activate",
            RuntimeHostCommand::AgentAnswerNow => "_centaeris/session/answer_now",
            RuntimeHostCommand::AgentQuestionAnswer => "_centaeris/session/answer_question",
            RuntimeHostCommand::SessionDelete => "_centaeris/session/delete",
            RuntimeHostCommand::SessionDiagnostics => "_centaeris/session/diagnostics",
            RuntimeHostCommand::SessionProjectionGet => "_centaeris/session/project",
            RuntimeHostCommand::SessionReorder => "_centaeris/session/reorder",
            RuntimeHostCommand::AgentRunList => "_centaeris/session/agent-runs",
            RuntimeHostCommand::AgentRunStreamReplay => "_centaeris/session/agent-runs/replay",
            RuntimeHostCommand::AgentRunAttach => "_centaeris/session/agent-runs/attach",
            RuntimeHostCommand::AgentRunDetach => "_centaeris/session/agent-runs/detach",
            RuntimeHostCommand::AgentRunDetachViewer => "_centaeris/session/agent-runs/detach-viewer",
            RuntimeHostCommand::AgentRunCancel => "_centaeris/session/agent-runs/cancel",
            RuntimeHostCommand::AgentSupplement => "_centaeris/session/supplement",
            RuntimeHostCommand::SessionUpdate => "_centaeris/session/update_metadata",
            RuntimeHostCommand::AgentRuntimeConfigGet => "agent_runtime_config_get",
            RuntimeHostCommand::AgentRuntimeConfigReset => "agent_runtime_config_reset",
            RuntimeHostCommand::AgentRuntimeConfigSet => "agent_runtime_config_set",
            RuntimeHostCommand::AgentRuntimeModelTest => "agent_runtime_model_test",
            RuntimeHostCommand::McpCatalog => "mcp/catalog",
            RuntimeHostCommand::McpConfigure => "mcp/configure",
            RuntimeHostCommand::AgentRuntimeGarbageCollect => "agent_runtime_garbage_collect",
            RuntimeHostCommand::AgentRuntimeJobGet => "agent_runtime_job_get",
            RuntimeHostCommand::AgentRuntimeJobList => "agent_runtime_job_list",
            RuntimeHostCommand::AgentStateGet => "agent_state_get",
            RuntimeHostCommand::TranscriptProjection => "transcript/project",
            RuntimeHostCommand::PluginCatalogState => "plugin/catalog_state",
            RuntimeHostCommand::SkillSourceList => "skill/source/list",
            RuntimeHostCommand::SkillSourceAdd => "skill/source/add",
            RuntimeHostCommand::SkillSourceRemove => "skill/source/remove",
            RuntimeHostCommand::SkillSourceSetEnabled => "skill/source/set_enabled",
            RuntimeHostCommand::SkillSourceRef => "skill/source/ref",
            RuntimeHostCommand::SkillCatalog => "skill/catalog",
            RuntimeHostCommand::SkillDetail => "skill/detail",
            RuntimeHostCommand::SkillSetEnabled => "skill/set_enabled",
            RuntimeHostCommand::SkillReload => "skill/reload",
            RuntimeHostCommand::PluginDetail => "plugin/detail",
            RuntimeHostCommand::PluginList => "plugin/list",
            RuntimeHostCommand::PluginReload => "plugin/reload",
            RuntimeHostCommand::PluginSetEnabled => "plugin/set_enabled",
            RuntimeHostCommand::PluginSourceRef => "plugin/source_ref",
            RuntimeHostCommand::SessionList => "session/list",
            RuntimeHostCommand::SessionGet => "session/load",
            RuntimeHostCommand::SessionCreate => "session/new",
            RuntimeHostCommand::AgentInput => "session/prompt",
            RuntimeHostCommand::ProcessCapture => "process_capture",
            RuntimeHostCommand::SidecarList => "sidecar_list",
            RuntimeHostCommand::SidecarStart => "sidecar_start",
            RuntimeHostCommand::SidecarStop => "sidecar_stop",
            RuntimeHostCommand::WorkspaceFileTree => "workspace_file_tree",
            RuntimeHostCommand::WorkspaceReadFile => "workspace_read_file",
            RuntimeHostCommand::AppExit => "app_exit",
            RuntimeHostCommand::DesktopFilePreviewRead => "desktop_file_preview_read",
            RuntimeHostCommand::Initialize => "initialize",
            RuntimeHostCommand::PluginInstall => "plugin/install",
            RuntimeHostCommand::PluginRemove => "plugin/remove",
            RuntimeHostCommand::WorkspaceActivate => "workspace_activate",
            RuntimeHostCommand::WorkspaceGet => "workspace_get",
            RuntimeHostCommand::WorkspaceGitDiffGet => "workspace_git_diff_get",
            RuntimeHostCommand::WorkspaceGitFileDiffGet => "workspace_git_file_diff_get",
            RuntimeHostCommand::WorkspaceGitHubCliStatusGet => "workspace_git_github_cli_status_get",
            RuntimeHostCommand::WorkspaceGitStatusGet => "workspace_git_status_get",
            RuntimeHostCommand::WorkspaceOpenFolder => "workspace_open_folder",
            RuntimeHostCommand::WorkspaceRemove => "workspace_remove",
            RuntimeHostCommand::WorkspaceReset => "workspace_reset",
            RuntimeHostCommand::WorkspaceRename => "workspace_rename",
            RuntimeHostCommand::WorkspaceRevealFolder => "workspace_reveal_folder",
        }
    }

    /// The part of the host that answers the command.
    pub fn scope(self) -> (result: HostCommandScope)
        ensures
            result == command_scope_kind(self),
    {
        match self {
            RuntimeHostCommand::ProcessCapture => HostCommandScope::ExecutionHost,
            RuntimeHostCommand::SidecarList => HostCommandScope::ExecutionHost,
            RuntimeHostCommand::SidecarStart => HostCommandScope::ExecutionHost,
            RuntimeHostCommand::SidecarStop => HostCommandScope::ExecutionHost,
            RuntimeHostCommand::WorkspaceFileTree => HostCommandScope::ExecutionHost,
            RuntimeHostCommand::WorkspaceReadFile => HostCommandScope::ExecutionHost,
            RuntimeHostCommand::AppExit => HostCommandScope::HostSurface,
            RuntimeHostCommand::DesktopFilePreviewRead => HostCommandScope::HostSurface,
            RuntimeHostCommand::Initialize => HostCommandScope::HostSurface,
            RuntimeHostCommand::PluginInstall => HostCommandScope::HostSurface,
            RuntimeHostCommand::PluginRemove => HostCommandScope::HostSurface,
            RuntimeHostCommand::WorkspaceActivate => HostCommandScope::HostSurface,
            RuntimeHostCommand::WorkspaceGet => HostCommandScope::HostSurface,
            RuntimeHostCommand::WorkspaceGitDiffGet => HostCommandScope::HostSurface,
            RuntimeHostCommand::WorkspaceGitFileDiffGet => HostCommandScope::HostSurface,
            RuntimeHostCommand::WorkspaceGitHubCliStatusGet => HostCommandScope::HostSurface,
            RuntimeHostCommand::WorkspaceGitStatusGet => HostCommandScope::HostSurface,
            RuntimeHostCommand::WorkspaceOpenFolder => HostCommandScope::HostSurface,
            RuntimeHostCommand::WorkspaceRemove => HostCommandScope::HostSurface,
            RuntimeHostCommand::WorkspaceReset => HostCommandScope::HostSurface,
            RuntimeHostCommand::WorkspaceRename => HostCommandScope::HostSurface,
            RuntimeHostCommand::WorkspaceRevealFolder => HostCommandScope::HostSurface,
            _ => HostCommandScope::SharedRuntime,
        }
    }
}

} // verus!
