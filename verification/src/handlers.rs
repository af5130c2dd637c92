//! How the host answers a command: where the command runs, what it takes, and the code of the
//! error that its failure is answered with.

use crate::commands::{command_name, law_names_are_distinct, RuntimeHostCommand};
use crate::errors::RuntimeHostError;
use crate::host_protocol::scope_of;
use crate::text::{begins_with, concat2, trimmed};
use vstd::prelude::*;

verus! {

/// Whether a command keeps its own store, so that it does not wait for the shared host state.
pub open spec fn owns_store_lock(command: RuntimeHostCommand) -> bool {
    match command {
        RuntimeHostCommand::AgentRuntimeConfigGet
        | RuntimeHostCommand::AgentRuntimeConfigReset
        | RuntimeHostCommand::AgentRuntimeConfigSet
        | RuntimeHostCommand::McpCatalog
        | RuntimeHostCommand::PluginList
        | RuntimeHostCommand::PluginDetail
        | RuntimeHostCommand::PluginInstall
        | RuntimeHostCommand::PluginRemove
        | RuntimeHostCommand::PluginSetEnabled
        | RuntimeHostCommand::PluginReload
        | RuntimeHostCommand::PluginSourceRef
        | RuntimeHostCommand::PluginCatalogState
        | RuntimeHostCommand::SkillSourceList
        | RuntimeHostCommand::SkillSourceAdd
        | RuntimeHostCommand::SkillSourceRemove
        | RuntimeHostCommand::SkillSourceSetEnabled
        | RuntimeHostCommand::SkillSourceRef
        | RuntimeHostCommand::SkillCatalog
        | RuntimeHostCommand::SkillReload
        | RuntimeHostCommand::SkillDetail
        | RuntimeHostCommand::SkillSetEnabled => true,
        _ => false,
    }
}

/// Whether a command keeps its own store, so that it does not wait for the shared host state.
pub fn command_owns_store_lock(command: RuntimeHostCommand) -> (result: bool)
    ensures
        result == owns_store_lock(command),
{
    match command {
        RuntimeHostCommand::AgentRuntimeConfigGet
        | RuntimeHostCommand::AgentRuntimeConfigReset
        | RuntimeHostCommand::AgentRuntimeConfigSet
        | RuntimeHostCommand::McpCatalog
        | RuntimeHostCommand::PluginList
        | RuntimeHostCommand::PluginDetail
        | RuntimeHostCommand::PluginInstall
        | RuntimeHostCommand::PluginRemove
        | RuntimeHostCommand::PluginSetEnabled
        | RuntimeHostCommand::PluginReload
        | RuntimeHostCommand::PluginSourceRef
        | RuntimeHostCommand::PluginCatalogState
        | RuntimeHostCommand::SkillSourceList
        | RuntimeHostCommand::SkillSourceAdd
        | RuntimeHostCommand::SkillSourceRemove
        | RuntimeHostCommand::SkillSourceSetEnabled
        | RuntimeHostCommand::SkillSourceRef
        | RuntimeHostCommand::SkillCatalog
        | RuntimeHostCommand::SkillReload
        | RuntimeHostCommand::SkillDetail
        | RuntimeHostCommand::SkillSetEnabled => true,
        _ => false,
    }
}

/// Whether a command has to wait for something, so that only the asynchronous handler answers it.
pub open spec fn answered_asynchronously(command: RuntimeHostCommand) -> bool {
    match command {
        RuntimeHostCommand::McpConfigure
        | RuntimeHostCommand::AgentRuntimeModelTest
        | RuntimeHostCommand::AgentRuntimeJobList
        | RuntimeHostCommand::AgentRuntimeJobGet
        | RuntimeHostCommand::AgentDeadLetterList
        | RuntimeHostCommand::AgentDeadLetterGet
        | RuntimeHostCommand::AgentDeadLetterDismiss
        | RuntimeHostCommand::AgentDeadLetterReplay
        | RuntimeHostCommand::AgentQuestionAnswer
        | RuntimeHostCommand::AgentContextCompact => true,
        _ => false,
    }
}

/// Where a command runs.
#[derive(Clone, Copy, Debug, PartialEq, Eq, Structural)]
pub enum CommandPlace {
    /// On the asynchronous handler itself.
    Asynchronous,
    /// On a blocking thread with a state of its own.
    Isolated,
    /// On a blocking thread with the shared host state.
    Shared,
}

/// Where a command runs.
pub open spec fn place_of(command: RuntimeHostCommand) -> CommandPlace {
    if answered_asynchronously(command) {
        CommandPlace::Asynchronous
    } else if owns_store_lock(command) {
        CommandPlace::Isolated
    } else {
        CommandPlace::Shared
    }
}

/// Where the asynchronous handler runs a command.
pub fn command_place(command: RuntimeHostCommand) -> (result: CommandPlace)
    ensures
        result == place_of(command),
{
    match command {
        RuntimeHostCommand::McpConfigure
        | RuntimeHostCommand::AgentRuntimeModelTest
        | RuntimeHostCommand::AgentRuntimeJobList
        | RuntimeHostCommand::AgentRuntimeJobGet
        | RuntimeHostCommand::AgentDeadLetterList
        | RuntimeHostCommand::AgentDeadLetterGet
        | RuntimeHostCommand::AgentDeadLetterDismiss
        | RuntimeHostCommand::AgentDeadLetterReplay
        | RuntimeHostCommand::AgentQuestionAnswer
        | RuntimeHostCommand::AgentContextCompact => CommandPlace::Asynchronous,
        _ => if command_owns_store_lock(command) {
            CommandPlace::Isolated
        } else {
            CommandPlace::Shared
        },
    }
}

/// The error with which the synchronous handler refuses a command, by its code and its message.
pub open spec fn sync_refusal(command: RuntimeHostCommand) -> Option<(Seq<char>, Seq<char>)> {
    if !answered_asynchronously(command) {
        None
    } else if command == RuntimeHostCommand::AgentRuntimeModelTest {
        Some(("model_test_requires_async_handler"@, command_name(command)))
    } else if command == RuntimeHostCommand::McpConfigure {
        Some(("mcp_configure_requires_async_handler"@, command_name(command)))
    } else {
        Some(
            (
                "async_handler_required"@,
                command_name(command) + " must be handled by handle_request_async"@,
            ),
        )
    }
}

/// Accepts a command that the synchronous handler answers.
pub fn check_sync_command(command: RuntimeHostCommand) -> (result: Result<(), RuntimeHostError>)
    ensures
        match sync_refusal(command) {
            None => result is Ok,
            Some((code, message)) => result matches Err(error) && error.says(code, message),
        },
{
    match command {
        RuntimeHostCommand::AgentRuntimeModelTest => Err(
            RuntimeHostError::new("model_test_requires_async_handler", command.command()),
        ),
        RuntimeHostCommand::McpConfigure => Err(
            RuntimeHostError::new("mcp_configure_requires_async_handler", command.command()),
        ),
        RuntimeHostCommand::AgentRuntimeJobList
        | RuntimeHostCommand::AgentRuntimeJobGet
        | RuntimeHostCommand::AgentDeadLetterList
        | RuntimeHostCommand::AgentDeadLetterGet
        | RuntimeHostCommand::AgentDeadLetterDismiss
        | RuntimeHostCommand::AgentDeadLetterReplay
        | RuntimeHostCommand::AgentQuestionAnswer
        | RuntimeHostCommand::AgentContextCompact => Err(
            RuntimeHostError::new(
                "async_handler_required",
                concat2(command.command(), " must be handled by handle_request_async").as_str(),
            ),
        ),
        _ => Ok(()),
    }
}

/// A command is refused by the synchronous handler exactly where the asynchronous handler answers
/// it itself: handing every other command on to the synchronous handler never ends in a refusal.
pub proof fn law_every_command_is_answered(command: RuntimeHostCommand)
    ensures
        sync_refusal(command) is Some <==> place_of(command) == CommandPlace::Asynchronous,
{
}

/// What a command takes as its payload.
#[derive(Clone, Copy, Debug, PartialEq, Eq, Structural)]
pub enum PayloadMode {
    /// A request that has to be there.
    Required,
    /// A request that may be left out.
    Optional,
    /// Nothing.
    Ignored,
}

/// What a command takes as its payload.
pub open spec fn payload_of(command: RuntimeHostCommand) -> PayloadMode {
    match command {
        RuntimeHostCommand::PluginReload
        | RuntimeHostCommand::PluginCatalogState
        | RuntimeHostCommand::SidecarList
        | RuntimeHostCommand::WorkspaceGet
        | RuntimeHostCommand::WorkspaceOpenFolder
        | RuntimeHostCommand::WorkspaceGitHubCliStatusGet
        | RuntimeHostCommand::AppExit => PayloadMode::Ignored,
        RuntimeHostCommand::WorkspaceFileTree => PayloadMode::Optional,
        _ => PayloadMode::Required,
    }
}

/// What a command takes as its payload.
pub fn command_payload(command: RuntimeHostCommand) -> (result: PayloadMode)
    ensures
        result == payload_of(command),
{
    match command {
        RuntimeHostCommand::PluginReload
        | RuntimeHostCommand::PluginCatalogState
        | RuntimeHostCommand::SidecarList
        | RuntimeHostCommand::WorkspaceGet
        | RuntimeHostCommand::WorkspaceOpenFolder
        | RuntimeHostCommand::WorkspaceGitHubCliStatusGet
        | RuntimeHostCommand::AppExit => PayloadMode::Ignored,
        RuntimeHostCommand::WorkspaceFileTree => PayloadMode::Optional,
        _ => PayloadMode::Required,
    }
}

/// Whether the viewer that a command names must be the one that the connection registered.
pub fn requires_registered_viewer(command: RuntimeHostCommand) -> (result: bool)
    ensures
        result == (command == RuntimeHostCommand::AgentRunAttach || command
            == RuntimeHostCommand::AgentRunDetach || command
            == RuntimeHostCommand::AgentRunDetachViewer),
{
    match command {
        RuntimeHostCommand::AgentRunAttach
        | RuntimeHostCommand::AgentRunDetach
        | RuntimeHostCommand::AgentRunDetachViewer => true,
        _ => false,
    }
}

/// The event that is sent after a command has succeeded.
pub fn event_after(command: RuntimeHostCommand) -> (result: Option<&'static str>)
    ensures
        match result {
            Some(event) => (command == RuntimeHostCommand::AgentRuntimeConfigReset || command
                == RuntimeHostCommand::AgentRuntimeConfigSet) && event@
                == "runtime/config-changed"@,
            None => command != RuntimeHostCommand::AgentRuntimeConfigReset && command
                != RuntimeHostCommand::AgentRuntimeConfigSet,
        },
{
    match command {
        RuntimeHostCommand::AgentRuntimeConfigReset
        | RuntimeHostCommand::AgentRuntimeConfigSet => Some("runtime/config-changed"),
        _ => None,
    }
}

/// How the code of the error is found that a failure is answered with.
#[derive(Clone, Copy, Debug)]
pub enum FailureCode {
    /// The failure is answered with this code.
    Fixed(&'static str),
    /// The text of the failure determines the code, by the rules for workspaces.
    ByWorkspaceError,
    /// The text of the failure determines the code, by the rules for the configuration.
    ByConfigError,
    /// The command fails with an error that has a code already, or not at all.
    OfError,
}

pub enum FailureCodeView {
    Fixed(Seq<char>),
    ByWorkspaceError,
    ByConfigError,
    OfError,
}

impl View for FailureCode {
    type V = FailureCodeView;

    open spec fn view(&self) -> FailureCodeView {
        match self {
            FailureCode::Fixed(code) => FailureCodeView::Fixed(code@),
            FailureCode::ByWorkspaceError => FailureCodeView::ByWorkspaceError,
            FailureCode::ByConfigError => FailureCodeView::ByConfigError,
            FailureCode::OfError => FailureCodeView::OfError,
        }
    }
}

/// How the code of the error is found that a failure of a command is answered with.
pub open spec fn failure_code_of(command: RuntimeHostCommand) -> FailureCodeView {
    match command {
        RuntimeHostCommand::SessionList
        | RuntimeHostCommand::SessionDiagnostics
        | RuntimeHostCommand::SessionGet
        | RuntimeHostCommand::SessionCreate
        | RuntimeHostCommand::SessionActivate
        | RuntimeHostCommand::SessionDelete
        | RuntimeHostCommand::SessionUpdate
        | RuntimeHostCommand::SessionReorder => FailureCodeView::Fixed(
            "session_failed"@,
        ),
        RuntimeHostCommand::SessionProjectionGet => FailureCodeView::Fixed(
            "session_projection_failed"@,
        ),
        RuntimeHostCommand::McpCatalog
        | RuntimeHostCommand::McpConfigure => FailureCodeView::Fixed(
            "mcp_failed"@,
        ),
        RuntimeHostCommand::PluginList
        | RuntimeHostCommand::PluginDetail
        | RuntimeHostCommand::PluginInstall
        | RuntimeHostCommand::PluginRemove
        | RuntimeHostCommand::PluginSetEnabled
        | RuntimeHostCommand::PluginReload
        | RuntimeHostCommand::PluginSourceRef
        | RuntimeHostCommand::PluginCatalogState => FailureCodeView::Fixed(
            "plugin_failed"@,
        ),
        RuntimeHostCommand::SkillSourceList
        | RuntimeHostCommand::SkillSourceAdd
        | RuntimeHostCommand::SkillSourceRemove
        | RuntimeHostCommand::SkillSourceSetEnabled
        | RuntimeHostCommand::SkillSourceRef
        | RuntimeHostCommand::SkillCatalog
        | RuntimeHostCommand::SkillReload
        | RuntimeHostCommand::SkillDetail
        | RuntimeHostCommand::SkillSetEnabled => FailureCodeView::Fixed(
            "skill_failed"@,
        ),
        RuntimeHostCommand::AgentStateGet => FailureCodeView::Fixed(
            "agent_state_failed"@,
        ),
        RuntimeHostCommand::AgentContextUsageGet => FailureCodeView::Fixed(
            "agent_context_usage_failed"@,
        ),
        RuntimeHostCommand::AgentContextCompact => FailureCodeView::Fixed(
            "context_compaction_failed"@,
        ),
        RuntimeHostCommand::AgentRuntimeGarbageCollect => FailureCodeView::Fixed(
            "runtime_garbage_failed"@,
        ),
        RuntimeHostCommand::AgentInput => FailureCodeView::Fixed(
            "session_prompt_failed"@,
        ),
        RuntimeHostCommand::AgentSupplement => FailureCodeView::Fixed(
            "session_supplement_failed"@,
        ),
        RuntimeHostCommand::AgentAnswerNow => FailureCodeView::Fixed(
            "session_answer_now_failed"@,
        ),
        RuntimeHostCommand::AgentQuestionAnswer => FailureCodeView::Fixed(
            "session_answer_question_failed"@,
        ),
        RuntimeHostCommand::AgentRunList
        | RuntimeHostCommand::AgentRunStreamReplay
        | RuntimeHostCommand::AgentRunAttach
        | RuntimeHostCommand::AgentRunDetach
        | RuntimeHostCommand::AgentRunDetachViewer
        | RuntimeHostCommand::AgentRunCancel => FailureCodeView::Fixed(
            "agent_task_failed"@,
        ),
        RuntimeHostCommand::AgentRuntimeJobList
        | RuntimeHostCommand::AgentRuntimeJobGet => FailureCodeView::Fixed(
            "runtime_job_failed"@,
        ),
        RuntimeHostCommand::AgentDeadLetterList
        | RuntimeHostCommand::AgentDeadLetterGet
        | RuntimeHostCommand::AgentDeadLetterDismiss
        | RuntimeHostCommand::AgentDeadLetterReplay => FailureCodeView::Fixed(
            "dead_letter_failed"@,
        ),
        RuntimeHostCommand::AgentRuntimeModelTest => FailureCodeView::Fixed(
            "model_test_failed"@,
        ),
        RuntimeHostCommand::SidecarStart
        | RuntimeHostCommand::SidecarStop => FailureCodeView::Fixed(
            "sidecar_failed"@,
        ),
        RuntimeHostCommand::WorkspaceGitStatusGet
        | RuntimeHostCommand::WorkspaceGitDiffGet
        | RuntimeHostCommand::WorkspaceGitFileDiffGet => FailureCodeView::Fixed(
            "workspace_git_failed"@,
        ),
        RuntimeHostCommand::DesktopFilePreviewRead => FailureCodeView::Fixed(
            "desktop_file_preview_failed"@,
        ),
        RuntimeHostCommand::AppExit => FailureCodeView::Fixed(
            "owner_exit_interrupt_failed"@,
        ),
        RuntimeHostCommand::WorkspaceGet
        | RuntimeHostCommand::WorkspaceActivate
        | RuntimeHostCommand::WorkspaceOpenFolder
        | RuntimeHostCommand::WorkspaceRevealFolder
        | RuntimeHostCommand::WorkspaceRename
        | RuntimeHostCommand::WorkspaceRemove
        | RuntimeHostCommand::WorkspaceReset
        | RuntimeHostCommand::WorkspaceFileTree
        | RuntimeHostCommand::WorkspaceReadFile => FailureCodeView::ByWorkspaceError,
        RuntimeHostCommand::AgentRuntimeConfigGet
        | RuntimeHostCommand::AgentRuntimeConfigReset
        | RuntimeHostCommand::AgentRuntimeConfigSet => FailureCodeView::ByConfigError,
        _ => FailureCodeView::OfError,
    }
}

/// How the code of the error is found that a failure of a command is answered with.
pub fn failure_code(command: RuntimeHostCommand) -> (result: FailureCode)
    ensures
        result@ == failure_code_of(command),
{
    match command {
        RuntimeHostCommand::SessionList
        | RuntimeHostCommand::SessionDiagnostics
        | RuntimeHostCommand::SessionGet
        | RuntimeHostCommand::SessionCreate
        | RuntimeHostCommand::SessionActivate
        | RuntimeHostCommand::SessionDelete
        | RuntimeHostCommand::SessionUpdate
        | RuntimeHostCommand::SessionReorder => FailureCode::Fixed(
            "session_failed",
        ),
        RuntimeHostCommand::SessionProjectionGet => FailureCode::Fixed(
            "session_projection_failed",
        ),
        RuntimeHostCommand::McpCatalog
        | RuntimeHostCommand::McpConfigure => FailureCode::Fixed(
            "mcp_failed",
        ),
        RuntimeHostCommand::PluginList
        | RuntimeHostCommand::PluginDetail
        | RuntimeHostCommand::PluginInstall
        | RuntimeHostCommand::PluginRemove
        | RuntimeHostCommand::PluginSetEnabled
        | RuntimeHostCommand::PluginReload
        | RuntimeHostCommand::PluginSourceRef
        | RuntimeHostCommand::PluginCatalogState => FailureCode::Fixed(
            "plugin_failed",
        ),
        RuntimeHostCommand::SkillSourceList
        | RuntimeHostCommand::SkillSourceAdd
        | RuntimeHostCommand::SkillSourceRemove
        | RuntimeHostCommand::SkillSourceSetEnabled
        | RuntimeHostCommand::SkillSourceRef
        | RuntimeHostCommand::SkillCatalog
        | RuntimeHostCommand::SkillReload
        | RuntimeHostCommand::SkillDetail
        | RuntimeHostCommand::SkillSetEnabled => FailureCode::Fixed(
            "skill_failed",
        ),
        RuntimeHostCommand::AgentStateGet => FailureCode::Fixed(
            "agent_state_failed",
        ),
        RuntimeHostCommand::AgentContextUsageGet => FailureCode::Fixed(
            "agent_context_usage_failed",
        ),
        RuntimeHostCommand::AgentContextCompact => FailureCode::Fixed(
            "context_compaction_failed",
        ),
        RuntimeHostCommand::AgentRuntimeGarbageCollect => FailureCode::Fixed(
            "runtime_garbage_failed",
        ),
        RuntimeHostCommand::AgentInput => FailureCode::Fixed(
            "session_prompt_failed",
        ),
        RuntimeHostCommand::AgentSupplement => FailureCode::Fixed(
            "session_supplement_failed",
        ),
        RuntimeHostCommand::AgentAnswerNow => FailureCode::Fixed(
            "session_answer_now_failed",
        ),
        RuntimeHostCommand::AgentQuestionAnswer => FailureCode::Fixed(
            "session_answer_question_failed",
        ),
        RuntimeHostCommand::AgentRunList
        | RuntimeHostCommand::AgentRunStreamReplay
        | RuntimeHostCommand::AgentRunAttach
        | RuntimeHostCommand::AgentRunDetach
        | RuntimeHostCommand::AgentRunDetachViewer
        | RuntimeHostCommand::AgentRunCancel => FailureCode::Fixed(
            "agent_task_failed",
        ),
        RuntimeHostCommand::AgentRuntimeJobList
        | RuntimeHostCommand::AgentRuntimeJobGet => FailureCode::Fixed(
            "runtime_job_failed",
        ),
        RuntimeHostCommand::AgentDeadLetterList
        | RuntimeHostCommand::AgentDeadLetterGet
        | RuntimeHostCommand::AgentDeadLetterDismiss
        | RuntimeHostCommand::AgentDeadLetterReplay => FailureCode::Fixed(
            "dead_letter_failed",
        ),
        RuntimeHostCommand::AgentRuntimeModelTest => FailureCode::Fixed(
            "model_test_failed",
        ),
        RuntimeHostCommand::SidecarStart
        | RuntimeHostCommand::SidecarStop => FailureCode::Fixed(
            "sidecar_failed",
        ),
        RuntimeHostCommand::WorkspaceGitStatusGet
        | RuntimeHostCommand::WorkspaceGitDiffGet
        | RuntimeHostCommand::WorkspaceGitFileDiffGet => FailureCode::Fixed(
            "workspace_git_failed",
        ),
        RuntimeHostCommand::DesktopFilePreviewRead => FailureCode::Fixed(
            "desktop_file_preview_failed",
        ),
        RuntimeHostCommand::AppExit => FailureCode::Fixed(
            "owner_exit_interrupt_failed",
        ),
        RuntimeHostCommand::WorkspaceGet
        | RuntimeHostCommand::WorkspaceActivate
        | RuntimeHostCommand::WorkspaceOpenFolder
        | RuntimeHostCommand::WorkspaceRevealFolder
        | RuntimeHostCommand::WorkspaceRename
        | RuntimeHostCommand::WorkspaceRemove
        | RuntimeHostCommand::WorkspaceReset
        | RuntimeHostCommand::WorkspaceFileTree
        | RuntimeHostCommand::WorkspaceReadFile => FailureCode::ByWorkspaceError,
        RuntimeHostCommand::AgentRuntimeConfigGet
        | RuntimeHostCommand::AgentRuntimeConfigReset
        | RuntimeHostCommand::AgentRuntimeConfigSet => FailureCode::ByConfigError,
        _ => FailureCode::OfError,
    }
}

/// The error that a failure of a command is answered with. `derived_code` is the code that the
/// text of the failure determines, for the commands whose codes are found so.
pub fn handler_error(command: RuntimeHostCommand, failure: &str, derived_code: &str) -> (result:
    RuntimeHostError)
    ensures
        result.says(
            match failure_code_of(command) {
                FailureCodeView::Fixed(code) => code,
                _ => derived_code@,
            },
            failure@,
        ),
{
    match failure_code(command) {
        FailureCode::Fixed(code) => RuntimeHostError::new(code, failure),
        _ => RuntimeHostError::new(derived_code, failure),
    }
}

/// The error that is answered where the thread that ran a command ended without a result.
pub fn join_failure(place: CommandPlace, error: &str) -> (result: RuntimeHostError)
    ensures
        result.says(
            "transport_error"@,
            match place {
                CommandPlace::Isolated => "independent store handler blocking owner join failed: "@
                    + error@,
                _ => "Runtime Host sync handler blocking owner join failed: "@ + error@,
            },
        ),
{
    match place {
        CommandPlace::Isolated => RuntimeHostError::transport(
            concat2("independent store handler blocking owner join failed: ", error).as_str(),
        ),
        _ => RuntimeHostError::transport(
            concat2("Runtime Host sync handler blocking owner join failed: ", error).as_str(),
        ),
    }
}

/// The error that is answered where the shared host state can no longer be had.
pub fn state_lock_failure() -> (result: RuntimeHostError)
    ensures
        result.says("transport_error"@, "Runtime Host state lock poisoned"@),
{
    RuntimeHostError::transport("Runtime Host state lock poisoned")
}

/// The error that is answered where the thread that ran a stateless command ended without a result.
pub fn stateless_join_failure(error: &str) -> (result: RuntimeHostError)
    ensures
        result.says(
            "transport_error"@,
            "Runtime Host stateless blocking owner join failed: "@ + error@,
        ),
{
    RuntimeHostError::transport(
        concat2("Runtime Host stateless blocking owner join failed: ", error).as_str(),
    )
}

/// The command that the synchronous handler runs for a request, or the error that it answers.
pub fn handle_request(raw: &str) -> (result: Result<RuntimeHostCommand, RuntimeHostError>)
    ensures
        match result {
            Ok(command) => command_name(command) == trimmed(raw@) && sync_refusal(command) is None,
            Err(error) => match parsed_command(raw@) {
                Some(command) => sync_refusal(command) == Some((error.code@, error.message@)),
                None => (error.code@, error.message@) == unknown_refusal(trimmed(raw@)),
            },
        },
        result is Ok <==> parsed_command(raw@) is Some && sync_refusal(parsed_command(raw@)->0)
            is None,
{
    let parsed = RuntimeHostCommand::parse(raw);
    match parsed {
        Ok(command) => {
            proof {
                lemma_parsed(raw@, command);
            }
            match check_sync_command(command) {
                Ok(_) => Ok(command),
                Err(error) => Err(error),
            }
        },
        Err(error) => Err(error),
    }
}

/// The command that the asynchronous handler runs for a request and where it runs it, or the error
/// that it answers.
pub fn handle_request_async(raw: &str) -> (result: Result<
    (RuntimeHostCommand, CommandPlace),
    RuntimeHostError,
>)
    ensures
        match result {
            Ok((command, place)) => parsed_command(raw@) == Some(command) && place == place_of(
                command,
            ),
            Err(error) => parsed_command(raw@) is None && (error.code@, error.message@)
                == unknown_refusal(trimmed(raw@)),
        },
{
    let parsed = RuntimeHostCommand::parse(raw);
    match parsed {
        Ok(command) => {
            proof {
                lemma_parsed(raw@, command);
            }
            Ok((command, command_place(command)))
        },
        Err(error) => Err(error),
    }
}

/// The error with which a text that names no command is refused, by its code and its message.
pub open spec fn unknown_refusal(text: Seq<char>) -> (Seq<char>, Seq<char>) {
    if text.len() == 0 {
        ("invalid_request"@, "command is required"@)
    } else if scope_of(trimmed(text)) is Some {
        ("sidecar_command_not_implemented"@, text)
    } else {
        ("unknown_command"@, "unknown command: "@ + text)
    }
}

/// The command that a text names.
pub open spec fn parsed_command(raw: Seq<char>) -> Option<RuntimeHostCommand> {
    if exists|command: RuntimeHostCommand| #[trigger] command_name(command) == trimmed(raw) {
        Some(choose|command: RuntimeHostCommand| #[trigger] command_name(command) == trimmed(raw))
    } else {
        None
    }
}

proof fn lemma_parsed(raw: Seq<char>, command: RuntimeHostCommand)
    requires
        command_name(command) == trimmed(raw),
    ensures
        parsed_command(raw) == Some(command),
{
    let chosen = choose|c: RuntimeHostCommand| #[trigger] command_name(c) == trimmed(raw);
    law_names_are_distinct(chosen, command);
}

/// How the work that a command asks for ended.
pub enum Handled {
    /// With a response, as JSON text.
    Done(String),
    /// With a response that could not be written as JSON, for the given reason.
    NotSerialized(String),
    /// With a failure that has no code yet.
    Failed(String),
    /// With an error.
    Refused(RuntimeHostError),
}

/// What a request is answered. `derived_code` is the code that the text of a failure determines,
/// for the commands whose codes are found so.
pub fn respond(command: RuntimeHostCommand, handled: Handled, derived_code: &str) -> (result:
    Result<String, RuntimeHostError>)
    ensures
        match handled {
            Handled::Done(text) => result matches Ok(response) && response@ == text@,
            Handled::NotSerialized(reason) => result matches Err(error) && error.says(
                "serialize_response_failed"@,
                reason@,
            ),
            Handled::Failed(failure) => result matches Err(error) && error.says(
                match failure_code_of(command) {
                    FailureCodeView::Fixed(code) => code,
                    _ => derived_code@,
                },
                failure@,
            ),
            Handled::Refused(refusal) => result matches Err(error) && error.says(
                refusal.code@,
                refusal.message@,
            ),
        },
{
    match handled {
        Handled::Done(text) => Ok(text),
        Handled::NotSerialized(reason) => Err(
            RuntimeHostError::new("serialize_response_failed", reason.as_str()),
        ),
        Handled::Failed(failure) => Err(handler_error(command, failure.as_str(), derived_code)),
        Handled::Refused(refusal) => Err(refusal),
    }
}

/// What the exit of an owner is answered: its viewer is detached, the exit is recorded, and the runs
/// that end with it are interrupted, as far as each of these succeeds.
pub fn app_exit(
    detached: Result<(), RuntimeHostError>,
    exited: Result<(), String>,
    interrupted: Result<(), String>,
) -> (result: Result<String, RuntimeHostError>)
    ensures
        match (detached, exited, interrupted) {
            (Err(refusal), _, _) => result matches Err(error) && error.says(
                refusal.code@,
                refusal.message@,
            ),
            (Ok(_), Err(failure), _) => result matches Err(error) && error.says(
                "transport_error"@,
                failure@,
            ),
            (Ok(_), Ok(_), Err(failure)) => result matches Err(error) && error.says(
                "owner_exit_interrupt_failed"@,
                failure@,
            ),
            (Ok(_), Ok(_), Ok(_)) => result matches Ok(response) && response@
                == "{\"ok\":true}"@,
        },
{
    match detached {
        Ok(_) => {},
        Err(refusal) => {
            return Err(refusal);
        },
    }
    match exited {
        Ok(_) => {},
        Err(failure) => {
            return Err(RuntimeHostError::transport(failure.as_str()));
        },
    }
    match interrupted {
        Ok(_) => Ok("{\"ok\":true}".to_owned()),
        Err(failure) => Err(
            RuntimeHostError::new("owner_exit_interrupt_failed", failure.as_str()),
        ),
    }
}

/// Whether a command is answered without any host state.
pub fn is_stateless(command: RuntimeHostCommand) -> (result: bool)
    ensures
        result == (command == RuntimeHostCommand::ProcessCapture),
{
    match command {
        RuntimeHostCommand::ProcessCapture => true,
        _ => false,
    }
}

proof fn lemma_no_prefix(name: Seq<char>, prefix: Seq<char>, at: int)
    requires
        0 <= at < prefix.len(),
        at < name.len() ==> name[at] != prefix[at],
    ensures
        !begins_with(name, prefix),
{
    if begins_with(name, prefix) {
        assert(name.subrange(0, prefix.len() as int)[at] == prefix[at]);
    }
}

/// Commands are handled by what they are about, as their names say: those about plugins and skills
/// and those about the configuration of the runtime hold the lock of its store, as does the catalog
/// of servers, and no other command does; and the failure of a command about plugins, skills or
/// servers says so.
pub proof fn law_commands_are_handled_by_what_they_are_about(command: RuntimeHostCommand)
    ensures
        ({
            let name = command_name(command);
            &&& owns_store_lock(command) <==> begins_with(name, "plugin/"@) || begins_with(
                name,
                "skill/"@,
            ) || begins_with(name, "agent_runtime_config_"@) || command
                == RuntimeHostCommand::McpCatalog
            &&& begins_with(name, "plugin/"@) ==> failure_code_of(command)
                == FailureCodeView::Fixed("plugin_failed"@)
            &&& begins_with(name, "skill/"@) ==> failure_code_of(command) == FailureCodeView::Fixed(
                "skill_failed"@,
            )
            &&& begins_with(name, "mcp/"@) ==> failure_code_of(command) == FailureCodeView::Fixed(
                "mcp_failed"@,
            )
        }),
{
    reveal_strlit("plugin/");
    reveal_strlit("skill/");
    reveal_strlit("mcp/");
    reveal_strlit("agent_runtime_config_");
    match command {
        RuntimeHostCommand::AgentContextUsageGet => {
            reveal_strlit("agent_context_usage_get");
            lemma_no_prefix("agent_context_usage_get"@, "plugin/"@, 0);
            lemma_no_prefix("agent_context_usage_get"@, "skill/"@, 0);
            lemma_no_prefix("agent_context_usage_get"@, "mcp/"@, 0);
            lemma_no_prefix("agent_context_usage_get"@, "agent_runtime_config_"@, 6);
        },
        RuntimeHostCommand::AgentContextCompact => {
            reveal_strlit("_centaeris/session/compact_context");
            lemma_no_prefix("_centaeris/session/compact_context"@, "plugin/"@, 0);
            lemma_no_prefix("_centaeris/session/compact_context"@, "skill/"@, 0);
            lemma_no_prefix("_centaeris/session/compact_context"@, "mcp/"@, 0);
            lemma_no_prefix("_centaeris/session/compact_context"@, "agent_runtime_config_"@, 0);
        },
        RuntimeHostCommand::AgentDeadLetterDismiss => {
            reveal_strlit("agent_dead_letter_dismiss");
            lemma_no_prefix("agent_dead_letter_dismiss"@, "plugin/"@, 0);
            lemma_no_prefix("agent_dead_letter_dismiss"@, "skill/"@, 0);
            lemma_no_prefix("agent_dead_letter_dismiss"@, "mcp/"@, 0);
            lemma_no_prefix("agent_dead_letter_dismiss"@, "agent_runtime_config_"@, 6);
        },
        RuntimeHostCommand::AgentDeadLetterGet => {
            reveal_strlit("agent_dead_letter_get");
            lemma_no_prefix("agent_dead_letter_get"@, "plugin/"@, 0);
            lemma_no_prefix("agent_dead_letter_get"@, "skill/"@, 0);
            lemma_no_prefix("agent_dead_letter_get"@, "mcp/"@, 0);
            lemma_no_prefix("agent_dead_letter_get"@, "agent_runtime_config_"@, 6);
        },
        RuntimeHostCommand::AgentDeadLetterList => {
            reveal_strlit("agent_dead_letter_list");
            lemma_no_prefix("agent_dead_letter_list"@, "plugin/"@, 0);
            lemma_no_prefix("agent_dead_letter_list"@, "skill/"@, 0);
            lemma_no_prefix("agent_dead_letter_list"@, "mcp/"@, 0);
            lemma_no_prefix("agent_dead_letter_list"@, "agent_runtime_config_"@, 6);
        },
        RuntimeHostCommand::AgentDeadLetterReplay => {
            reveal_strlit("agent_dead_letter_replay");
            lemma_no_prefix("agent_dead_letter_replay"@, "plugin/"@, 0);
            lemma_no_prefix("agent_dead_letter_replay"@, "skill/"@, 0);
            lemma_no_prefix("agent_dead_letter_replay"@, "mcp/"@, 0);
            lemma_no_prefix("agent_dead_letter_replay"@, "agent_runtime_config_"@, 6);
        },
        RuntimeHostCommand::SessionActivate => {
            reveal_strlit("_centaeris/session/activate");
            lemma_no_prefix("_centaeris/session/activate"@, "plugin/"@, 0);
            lemma_no_prefix("_centaeris/session/activate"@, "skill/"@, 0);
            lemma_no_prefix("_centaeris/session/activate"@, "mcp/"@, 0);
            lemma_no_prefix("_centaeris/session/activate"@, "agent_runtime_config_"@, 0);
        },
        RuntimeHostCommand::AgentAnswerNow => {
            reveal_strlit("_centaeris/session/answer_now");
            lemma_no_prefix("_centaeris/session/answer_now"@, "plugin/"@, 0);
            lemma_no_prefix("_centaeris/session/answer_now"@, "skill/"@, 0);
            lemma_no_prefix("_centaeris/session/answer_now"@, "mcp/"@, 0);
            lemma_no_prefix("_centaeris/session/answer_now"@, "agent_runtime_config_"@, 0);
        },
        RuntimeHostCommand::AgentQuestionAnswer => {
            reveal_strlit("_centaeris/session/answer_question");
            lemma_no_prefix("_centaeris/session/answer_question"@, "plugin/"@, 0);
            lemma_no_prefix("_centaeris/session/answer_question"@, "skill/"@, 0);
            lemma_no_prefix("_centaeris/session/answer_question"@, "mcp/"@, 0);
            lemma_no_prefix("_centaeris/session/answer_question"@, "agent_runtime_config_"@, 0);
        },
        RuntimeHostCommand::SessionDelete => {
            reveal_strlit("_centaeris/session/delete");
            lemma_no_prefix("_centaeris/session/delete"@, "plugin/"@, 0);
            lemma_no_prefix("_centaeris/session/delete"@, "skill/"@, 0);
            lemma_no_prefix("_centaeris/session/delete"@, "mcp/"@, 0);
            lemma_no_prefix("_centaeris/session/delete"@, "agent_runtime_config_"@, 0);
        },
        RuntimeHostCommand::SessionDiagnostics => {
            reveal_strlit("_centaeris/session/diagnostics");
            lemma_no_prefix("_centaeris/session/diagnostics"@, "plugin/"@, 0);
            lemma_no_prefix("_centaeris/session/diagnostics"@, "skill/"@, 0);
            lemma_no_prefix("_centaeris/session/diagnostics"@, "mcp/"@, 0);
            lemma_no_prefix("_centaeris/session/diagnostics"@, "agent_runtime_config_"@, 0);
        },
        RuntimeHostCommand::SessionProjectionGet => {
            reveal_strlit("_centaeris/session/project");
            lemma_no_prefix("_centaeris/session/project"@, "plugin/"@, 0);
            lemma_no_prefix("_centaeris/session/project"@, "skill/"@, 0);
            lemma_no_prefix("_centaeris/session/project"@, "mcp/"@, 0);
            lemma_no_prefix("_centaeris/session/project"@, "agent_runtime_config_"@, 0);
        },
        RuntimeHostCommand::SessionReorder => {
            reveal_strlit("_centaeris/session/reorder");
            lemma_no_prefix("_centaeris/session/reorder"@, "plugin/"@, 0);
            lemma_no_prefix("_centaeris/session/reorder"@, "skill/"@, 0);
            lemma_no_prefix("_centaeris/session/reorder"@, "mcp/"@, 0);
            lemma_no_prefix("_centaeris/session/reorder"@, "agent_runtime_config_"@, 0);
        },
        RuntimeHostCommand::AgentRunList => {
            reveal_strlit("_centaeris/session/agent-runs");
            lemma_no_prefix("_centaeris/session/agent-runs"@, "plugin/"@, 0);
            lemma_no_prefix("_centaeris/session/agent-runs"@, "skill/"@, 0);
            lemma_no_prefix("_centaeris/session/agent-runs"@, "mcp/"@, 0);
            lemma_no_prefix("_centaeris/session/agent-runs"@, "agent_runtime_config_"@, 0);
        },
        RuntimeHostCommand::AgentRunStreamReplay => {
            reveal_strlit("_centaeris/session/agent-runs/replay");
            lemma_no_prefix("_centaeris/session/agent-runs/replay"@, "plugin/"@, 0);
            lemma_no_prefix("_centaeris/session/agent-runs/replay"@, "skill/"@, 0);
            lemma_no_prefix("_centaeris/session/agent-runs/replay"@, "mcp/"@, 0);
            lemma_no_prefix("_centaeris/session/agent-runs/replay"@, "agent_runtime_config_"@, 0);
        },
        RuntimeHostCommand::AgentRunAttach => {
            reveal_strlit("_centaeris/session/agent-runs/attach");
            lemma_no_prefix("_centaeris/session/agent-runs/attach"@, "plugin/"@, 0);
            lemma_no_prefix("_centaeris/session/agent-runs/attach"@, "skill/"@, 0);
            lemma_no_prefix("_centaeris/session/agent-runs/attach"@, "mcp/"@, 0);
            lemma_no_prefix("_centaeris/session/agent-runs/attach"@, "agent_runtime_config_"@, 0);
        },
        RuntimeHostCommand::AgentRunDetach => {
            reveal_strlit("_centaeris/session/agent-runs/detach");
            lemma_no_prefix("_centaeris/session/agent-runs/detach"@, "plugin/"@, 0);
            lemma_no_prefix("_centaeris/session/agent-runs/detach"@, "skill/"@, 0);
            lemma_no_prefix("_centaeris/session/agent-runs/detach"@, "mcp/"@, 0);
            lemma_no_prefix("_centaeris/session/agent-runs/detach"@, "agent_runtime_config_"@, 0);
        },
        RuntimeHostCommand::AgentRunDetachViewer => {
            reveal_strlit("_centaeris/session/agent-runs/detach-viewer");
            lemma_no_prefix("_centaeris/session/agent-runs/detach-viewer"@, "plugin/"@, 0);
            lemma_no_prefix("_centaeris/session/agent-runs/detach-viewer"@, "skill/"@, 0);
            lemma_no_prefix("_centaeris/session/agent-runs/detach-viewer"@, "mcp/"@, 0);
            lemma_no_prefix("_centaeris/session/agent-runs/detach-viewer"@, "agent_runtime_config_"@, 0);
        },
        RuntimeHostCommand::AgentRunCancel => {
            reveal_strlit("_centaeris/session/agent-runs/cancel");
            lemma_no_prefix("_centaeris/session/agent-runs/cancel"@, "plugin/"@, 0);
            lemma_no_prefix("_centaeris/session/agent-runs/cancel"@, "skill/"@, 0);
            lemma_no_prefix("_centaeris/session/agent-runs/cancel"@, "mcp/"@, 0);
            lemma_no_prefix("_centaeris/session/agent-runs/cancel"@, "agent_runtime_config_"@, 0);
        },
        RuntimeHostCommand::AgentSupplement => {
            reveal_strlit("_centaeris/session/supplement");
            lemma_no_prefix("_centaeris/session/supplement"@, "plugin/"@, 0);
            lemma_no_prefix("_centaeris/session/supplement"@, "skill/"@, 0);
            lemma_no_prefix("_centaeris/session/supplement"@, "mcp/"@, 0);
            lemma_no_prefix("_centaeris/session/supplement"@, "agent_runtime_config_"@, 0);
        },
        RuntimeHostCommand::SessionUpdate => {
            reveal_strlit("_centaeris/session/update_metadata");
            lemma_no_prefix("_centaeris/session/update_metadata"@, "plugin/"@, 0);
            lemma_no_prefix("_centaeris/session/update_metadata"@, "skill/"@, 0);
            lemma_no_prefix("_centaeris/session/update_metadata"@, "mcp/"@, 0);
            lemma_no_prefix("_centaeris/session/update_metadata"@, "agent_runtime_config_"@, 0);
        },
        RuntimeHostCommand::AgentRuntimeConfigGet => {
            reveal_strlit("agent_runtime_config_get");
            lemma_no_prefix("agent_runtime_config_get"@, "plugin/"@, 0);
            lemma_no_prefix("agent_runtime_config_get"@, "skill/"@, 0);
            lemma_no_prefix("agent_runtime_config_get"@, "mcp/"@, 0);
            assert("agent_runtime_config_get"@.subrange(0, 21) =~= "agent_runtime_config_"@);
        },
        RuntimeHostCommand::AgentRuntimeConfigReset => {
            reveal_strlit("agent_runtime_config_reset");
            lemma_no_prefix("agent_runtime_config_reset"@, "plugin/"@, 0);
            lemma_no_prefix("agent_runtime_config_reset"@, "skill/"@, 0);
            lemma_no_prefix("agent_runtime_config_reset"@, "mcp/"@, 0);
            assert("agent_runtime_config_reset"@.subrange(0, 21) =~= "agent_runtime_config_"@);
        },
        RuntimeHostCommand::AgentRuntimeConfigSet => {
            reveal_strlit("agent_runtime_config_set");
            lemma_no_prefix("agent_runtime_config_set"@, "plugin/"@, 0);
            lemma_no_prefix("agent_runtime_config_set"@, "skill/"@, 0);
            lemma_no_prefix("agent_runtime_config_set"@, "mcp/"@, 0);
            assert("agent_runtime_config_set"@.subrange(0, 21) =~= "agent_runtime_config_"@);
        },
        RuntimeHostCommand::AgentRuntimeModelTest => {
            reveal_strlit("agent_runtime_model_test");
            lemma_no_prefix("agent_runtime_model_test"@, "plugin/"@, 0);
            lemma_no_prefix("agent_runtime_model_test"@, "skill/"@, 0);
            lemma_no_prefix("agent_runtime_model_test"@, "mcp/"@, 0);
            lemma_no_prefix("agent_runtime_model_test"@, "agent_runtime_config_"@, 14);
        },
        RuntimeHostCommand::McpCatalog => {
            reveal_strlit("mcp/catalog");
            lemma_no_prefix("mcp/catalog"@, "plugin/"@, 0);
            lemma_no_prefix("mcp/catalog"@, "skill/"@, 0);
            assert("mcp/catalog"@.subrange(0, 4) =~= "mcp/"@);
            lemma_no_prefix("mcp/catalog"@, "agent_runtime_config_"@, 0);
        },
        RuntimeHostCommand::McpConfigure => {
            reveal_strlit("mcp/configure");
            lemma_no_prefix("mcp/configure"@, "plugin/"@, 0);
            lemma_no_prefix("mcp/configure"@, "skill/"@, 0);
            assert("mcp/configure"@.subrange(0, 4) =~= "mcp/"@);
            lemma_no_prefix("mcp/configure"@, "agent_runtime_config_"@, 0);
        },
        RuntimeHostCommand::AgentRuntimeGarbageCollect => {
            reveal_strlit("agent_runtime_garbage_collect");
            lemma_no_prefix("agent_runtime_garbage_collect"@, "plugin/"@, 0);
            lemma_no_prefix("agent_runtime_garbage_collect"@, "skill/"@, 0);
            lemma_no_prefix("agent_runtime_garbage_collect"@, "mcp/"@, 0);
            lemma_no_prefix("agent_runtime_garbage_collect"@, "agent_runtime_config_"@, 14);
        },
        RuntimeHostCommand::AgentRuntimeJobGet => {
            reveal_strlit("agent_runtime_job_get");
            lemma_no_prefix("agent_runtime_job_get"@, "plugin/"@, 0);
            lemma_no_prefix("agent_runtime_job_get"@, "skill/"@, 0);
            lemma_no_prefix("agent_runtime_job_get"@, "mcp/"@, 0);
            lemma_no_prefix("agent_runtime_job_get"@, "agent_runtime_config_"@, 14);
        },
        RuntimeHostCommand::AgentRuntimeJobList => {
            reveal_strlit("agent_runtime_job_list");
            lemma_no_prefix("agent_runtime_job_list"@, "plugin/"@, 0);
            lemma_no_prefix("agent_runtime_job_list"@, "skill/"@, 0);
            lemma_no_prefix("agent_runtime_job_list"@, "mcp/"@, 0);
            lemma_no_prefix("agent_runtime_job_list"@, "agent_runtime_config_"@, 14);
        },
        RuntimeHostCommand::AgentStateGet => {
            reveal_strlit("agent_state_get");
            lemma_no_prefix("agent_state_get"@, "plugin/"@, 0);
            lemma_no_prefix("agent_state_get"@, "skill/"@, 0);
            lemma_no_prefix("agent_state_get"@, "mcp/"@, 0);
            lemma_no_prefix("agent_state_get"@, "agent_runtime_config_"@, 6);
        },
        RuntimeHostCommand::TranscriptProjection => {
            reveal_strlit("transcript/project");
            lemma_no_prefix("transcript/project"@, "plugin/"@, 0);
            lemma_no_prefix("transcript/project"@, "skill/"@, 0);
            lemma_no_prefix("transcript/project"@, "mcp/"@, 0);
            lemma_no_prefix("transcript/project"@, "agent_runtime_config_"@, 0);
        },
        RuntimeHostCommand::PluginCatalogState => {
            reveal_strlit("plugin/catalog_state");
            assert("plugin/catalog_state"@.subrange(0, 7) =~= "plugin/"@);
            lemma_no_prefix("plugin/catalog_state"@, "skill/"@, 0);
            lemma_no_prefix("plugin/catalog_state"@, "mcp/"@, 0);
            lemma_no_prefix("plugin/catalog_state"@, "agent_runtime_config_"@, 0);
        },
        RuntimeHostCommand::SkillSourceList => {
            reveal_strlit("skill/source/list");
            lemma_no_prefix("skill/source/list"@, "plugin/"@, 0);
            assert("skill/source/list"@.subrange(0, 6) =~= "skill/"@);
            lemma_no_prefix("skill/source/list"@, "mcp/"@, 0);
            lemma_no_prefix("skill/source/list"@, "agent_runtime_config_"@, 0);
        },
        RuntimeHostCommand::SkillSourceAdd => {
            reveal_strlit("skill/source/add");
            lemma_no_prefix("skill/source/add"@, "plugin/"@, 0);
            assert("skill/source/add"@.subrange(0, 6) =~= "skill/"@);
            lemma_no_prefix("skill/source/add"@, "mcp/"@, 0);
            lemma_no_prefix("skill/source/add"@, "agent_runtime_config_"@, 0);
        },
        RuntimeHostCommand::SkillSourceRemove => {
            reveal_strlit("skill/source/remove");
            lemma_no_prefix("skill/source/remove"@, "plugin/"@, 0);
            assert("skill/source/remove"@.subrange(0, 6) =~= "skill/"@);
            lemma_no_prefix("skill/source/remove"@, "mcp/"@, 0);
            lemma_no_prefix("skill/source/remove"@, "agent_runtime_config_"@, 0);
        },
        RuntimeHostCommand::SkillSourceSetEnabled => {
            reveal_strlit("skill/source/set_enabled");
            lemma_no_prefix("skill/source/set_enabled"@, "plugin/"@, 0);
            assert("skill/source/set_enabled"@.subrange(0, 6) =~= "skill/"@);
            lemma_no_prefix("skill/source/set_enabled"@, "mcp/"@, 0);
            lemma_no_prefix("skill/source/set_enabled"@, "agent_runtime_config_"@, 0);
        },
        RuntimeHostCommand::SkillSourceRef => {
            reveal_strlit("skill/source/ref");
            lemma_no_prefix("skill/source/ref"@, "plugin/"@, 0);
            assert("skill/source/ref"@.subrange(0, 6) =~= "skill/"@);
            lemma_no_prefix("skill/source/ref"@, "mcp/"@, 0);
            lemma_no_prefix("skill/source/ref"@, "agent_runtime_config_"@, 0);
        },
        RuntimeHostCommand::SkillCatalog => {
            reveal_strlit("skill/catalog");
            lemma_no_prefix("skill/catalog"@, "plugin/"@, 0);
            assert("skill/catalog"@.subrange(0, 6) =~= "skill/"@);
            lemma_no_prefix("skill/catalog"@, "mcp/"@, 0);
            lemma_no_prefix("skill/catalog"@, "agent_runtime_config_"@, 0);
        },
        RuntimeHostCommand::SkillDetail => {
            reveal_strlit("skill/detail");
            lemma_no_prefix("skill/detail"@, "plugin/"@, 0);
            assert("skill/detail"@.subrange(0, 6) =~= "skill/"@);
            lemma_no_prefix("skill/detail"@, "mcp/"@, 0);
            lemma_no_prefix("skill/detail"@, "agent_runtime_config_"@, 0);
        },
        RuntimeHostCommand::SkillSetEnabled => {
            reveal_strlit("skill/set_enabled");
            lemma_no_prefix("skill/set_enabled"@, "plugin/"@, 0);
            assert("skill/set_enabled"@.subrange(0, 6) =~= "skill/"@);
            lemma_no_prefix("skill/set_enabled"@, "mcp/"@, 0);
            lemma_no_prefix("skill/set_enabled"@, "agent_runtime_config_"@, 0);
        },
        RuntimeHostCommand::SkillReload => {
            reveal_strlit("skill/reload");
            lemma_no_prefix("skill/reload"@, "plugin/"@, 0);
            assert("skill/reload"@.subrange(0, 6) =~= "skill/"@);
            lemma_no_prefix("skill/reload"@, "mcp/"@, 0);
            lemma_no_prefix("skill/reload"@, "agent_runtime_config_"@, 0);
        },
        RuntimeHostCommand::PluginDetail => {
            reveal_strlit("plugin/detail");
            assert("plugin/detail"@.subrange(0, 7) =~= "plugin/"@);
            lemma_no_prefix("plugin/detail"@, "skill/"@, 0);
            lemma_no_prefix("plugin/detail"@, "mcp/"@, 0);
            lemma_no_prefix("plugin/detail"@, "agent_runtime_config_"@, 0);
        },
        RuntimeHostCommand::PluginList => {
            reveal_strlit("plugin/list");
            assert("plugin/list"@.subrange(0, 7) =~= "plugin/"@);
            lemma_no_prefix("plugin/list"@, "skill/"@, 0);
            lemma_no_prefix("plugin/list"@, "mcp/"@, 0);
            lemma_no_prefix("plugin/list"@, "agent_runtime_config_"@, 0);
        },
        RuntimeHostCommand::PluginReload => {
            reveal_strlit("plugin/reload");
            assert("plugin/reload"@.subrange(0, 7) =~= "plugin/"@);
            lemma_no_prefix("plugin/reload"@, "skill/"@, 0);
            lemma_no_prefix("plugin/reload"@, "mcp/"@, 0);
            lemma_no_prefix("plugin/reload"@, "agent_runtime_config_"@, 0);
        },
        RuntimeHostCommand::PluginSetEnabled => {
            reveal_strlit("plugin/set_enabled");
            assert("plugin/set_enabled"@.subrange(0, 7) =~= "plugin/"@);
            lemma_no_prefix("plugin/set_enabled"@, "skill/"@, 0);
            lemma_no_prefix("plugin/set_enabled"@, "mcp/"@, 0);
            lemma_no_prefix("plugin/set_enabled"@, "agent_runtime_config_"@, 0);
        },
        RuntimeHostCommand::PluginSourceRef => {
            reveal_strlit("plugin/source_ref");
            assert("plugin/source_ref"@.subrange(0, 7) =~= "plugin/"@);
            lemma_no_prefix("plugin/source_ref"@, "skill/"@, 0);
            lemma_no_prefix("plugin/source_ref"@, "mcp/"@, 0);
            lemma_no_prefix("plugin/source_ref"@, "agent_runtime_config_"@, 0);
        },
        RuntimeHostCommand::SessionList => {
            reveal_strlit("session/list");
            lemma_no_prefix("session/list"@, "plugin/"@, 0);
            lemma_no_prefix("session/list"@, "skill/"@, 1);
            lemma_no_prefix("session/list"@, "mcp/"@, 0);
            lemma_no_prefix("session/list"@, "agent_runtime_config_"@, 0);
        },
        RuntimeHostCommand::SessionGet => {
            reveal_strlit("session/load");
            lemma_no_prefix("session/load"@, "plugin/"@, 0);
            lemma_no_prefix("session/load"@, "skill/"@, 1);
            lemma_no_prefix("session/load"@, "mcp/"@, 0);
            lemma_no_prefix("session/load"@, "agent_runtime_config_"@, 0);
        },
        RuntimeHostCommand::SessionCreate => {
            reveal_strlit("session/new");
            lemma_no_prefix("session/new"@, "plugin/"@, 0);
            lemma_no_prefix("session/new"@, "skill/"@, 1);
            lemma_no_prefix("session/new"@, "mcp/"@, 0);
            lemma_no_prefix("session/new"@, "agent_runtime_config_"@, 0);
        },
        RuntimeHostCommand::AgentInput => {
            reveal_strlit("session/prompt");
            lemma_no_prefix("session/prompt"@, "plugin/"@, 0);
            lemma_no_prefix("session/prompt"@, "skill/"@, 1);
            lemma_no_prefix("session/prompt"@, "mcp/"@, 0);
            lemma_no_prefix("session/prompt"@, "agent_runtime_config_"@, 0);
        },
        RuntimeHostCommand::ProcessCapture => {
            reveal_strlit("process_capture");
            lemma_no_prefix("process_capture"@, "plugin/"@, 1);
            lemma_no_prefix("process_capture"@, "skill/"@, 0);
            lemma_no_prefix("process_capture"@, "mcp/"@, 0);
            lemma_no_prefix("process_capture"@, "agent_runtime_config_"@, 0);
        },
        RuntimeHostCommand::SidecarList => {
            reveal_strlit("sidecar_list");
            lemma_no_prefix("sidecar_list"@, "plugin/"@, 0);
            lemma_no_prefix("sidecar_list"@, "skill/"@, 1);
            lemma_no_prefix("sidecar_list"@, "mcp/"@, 0);
            lemma_no_prefix("sidecar_list"@, "agent_runtime_config_"@, 0);
        },
        RuntimeHostCommand::SidecarStart => {
            reveal_strlit("sidecar_start");
            lemma_no_prefix("sidecar_start"@, "plugin/"@, 0);
            lemma_no_prefix("sidecar_start"@, "skill/"@, 1);
            lemma_no_prefix("sidecar_start"@, "mcp/"@, 0);
            lemma_no_prefix("sidecar_start"@, "agent_runtime_config_"@, 0);
        },
        RuntimeHostCommand::SidecarStop => {
            reveal_strlit("sidecar_stop");
            lemma_no_prefix("sidecar_stop"@, "plugin/"@, 0);
            lemma_no_prefix("sidecar_stop"@, "skill/"@, 1);
            lemma_no_prefix("sidecar_stop"@, "mcp/"@, 0);
            lemma_no_prefix("sidecar_stop"@, "agent_runtime_config_"@, 0);
        },
        RuntimeHostCommand::WorkspaceFileTree => {
            reveal_strlit("workspace_file_tree");
            lemma_no_prefix("workspace_file_tree"@, "plugin/"@, 0);
            lemma_no_prefix("workspace_file_tree"@, "skill/"@, 0);
            lemma_no_prefix("workspace_file_tree"@, "mcp/"@, 0);
            lemma_no_prefix("workspace_file_tree"@, "agent_runtime_config_"@, 0);
        },
        RuntimeHostCommand::WorkspaceReadFile => {
            reveal_strlit("workspace_read_file");
            lemma_no_prefix("workspace_read_file"@, "plugin/"@, 0);
            lemma_no_prefix("workspace_read_file"@, "skill/"@, 0);
            lemma_no_prefix("workspace_read_file"@, "mcp/"@, 0);
            lemma_no_prefix("workspace_read_file"@, "agent_runtime_config_"@, 0);
        },
        RuntimeHostCommand::AppExit => {
            reveal_strlit("app_exit");
            lemma_no_prefix("app_exit"@, "plugin/"@, 0);
            lemma_no_prefix("app_exit"@, "skill/"@, 0);
            lemma_no_prefix("app_exit"@, "mcp/"@, 0);
            lemma_no_prefix("app_exit"@, "agent_runtime_config_"@, 1);
        },
        RuntimeHostCommand::DesktopFilePreviewRead => {
            reveal_strlit("desktop_file_preview_read");
            lemma_no_prefix("desktop_file_preview_read"@, "plugin/"@, 0);
            lemma_no_prefix("desktop_file_preview_read"@, "skill/"@, 0);
            lemma_no_prefix("desktop_file_preview_read"@, "mcp/"@, 0);
            lemma_no_prefix("desktop_file_preview_read"@, "agent_runtime_config_"@, 0);
        },
        RuntimeHostCommand::Initialize => {
            reveal_strlit("initialize");
            lemma_no_prefix("initialize"@, "plugin/"@, 0);
            lemma_no_prefix("initialize"@, "skill/"@, 0);
            lemma_no_prefix("initialize"@, "mcp/"@, 0);
            lemma_no_prefix("initialize"@, "agent_runtime_config_"@, 0);
        },
        RuntimeHostCommand::PluginInstall => {
            reveal_strlit("plugin/install");
            assert("plugin/install"@.subrange(0, 7) =~= "plugin/"@);
            lemma_no_prefix("plugin/install"@, "skill/"@, 0);
            lemma_no_prefix("plugin/install"@, "mcp/"@, 0);
            lemma_no_prefix("plugin/install"@, "agent_runtime_config_"@, 0);
        },
        RuntimeHostCommand::PluginRemove => {
            reveal_strlit("plugin/remove");
            assert("plugin/remove"@.subrange(0, 7) =~= "plugin/"@);
            lemma_no_prefix("plugin/remove"@, "skill/"@, 0);
            lemma_no_prefix("plugin/remove"@, "mcp/"@, 0);
            lemma_no_prefix("plugin/remove"@, "agent_runtime_config_"@, 0);
        },
        RuntimeHostCommand::WorkspaceActivate => {
            reveal_strlit("workspace_activate");
            lemma_no_prefix("workspace_activate"@, "plugin/"@, 0);
            lemma_no_prefix("workspace_activate"@, "skill/"@, 0);
            lemma_no_prefix("workspace_activate"@, "mcp/"@, 0);
            lemma_no_prefix("workspace_activate"@, "agent_runtime_config_"@, 0);
        },
        RuntimeHostCommand::WorkspaceGet => {
            reveal_strlit("workspace_get");
            lemma_no_prefix("workspace_get"@, "plugin/"@, 0);
            lemma_no_prefix("workspace_get"@, "skill/"@, 0);
            lemma_no_prefix("workspace_get"@, "mcp/"@, 0);
            lemma_no_prefix("workspace_get"@, "agent_runtime_config_"@, 0);
        },
        RuntimeHostCommand::WorkspaceGitDiffGet => {
            reveal_strlit("workspace_git_diff_get");
            lemma_no_prefix("workspace_git_diff_get"@, "plugin/"@, 0);
            lemma_no_prefix("workspace_git_diff_get"@, "skill/"@, 0);
            lemma_no_prefix("workspace_git_diff_get"@, "mcp/"@, 0);
            lemma_no_prefix("workspace_git_diff_get"@, "agent_runtime_config_"@, 0);
        },
        RuntimeHostCommand::WorkspaceGitFileDiffGet => {
            reveal_strlit("workspace_git_file_diff_get");
            lemma_no_prefix("workspace_git_file_diff_get"@, "plugin/"@, 0);
            lemma_no_prefix("workspace_git_file_diff_get"@, "skill/"@, 0);
            lemma_no_prefix("workspace_git_file_diff_get"@, "mcp/"@, 0);
            lemma_no_prefix("workspace_git_file_diff_get"@, "agent_runtime_config_"@, 0);
        },
        RuntimeHostCommand::WorkspaceGitHubCliStatusGet => {
            reveal_strlit("workspace_git_github_cli_status_get");
            lemma_no_prefix("workspace_git_github_cli_status_get"@, "plugin/"@, 0);
            lemma_no_prefix("workspace_git_github_cli_status_get"@, "skill/"@, 0);
            lemma_no_prefix("workspace_git_github_cli_status_get"@, "mcp/"@, 0);
            lemma_no_prefix("workspace_git_github_cli_status_get"@, "agent_runtime_config_"@, 0);
        },
        RuntimeHostCommand::WorkspaceGitStatusGet => {
            reveal_strlit("workspace_git_status_get");
            lemma_no_prefix("workspace_git_status_get"@, "plugin/"@, 0);
            lemma_no_prefix("workspace_git_status_get"@, "skill/"@, 0);
            lemma_no_prefix("workspace_git_status_get"@, "mcp/"@, 0);
            lemma_no_prefix("workspace_git_status_get"@, "agent_runtime_config_"@, 0);
        },
        RuntimeHostCommand::WorkspaceOpenFolder => {
            reveal_strlit("workspace_open_folder");
            lemma_no_prefix("workspace_open_folder"@, "plugin/"@, 0);
            lemma_no_prefix("workspace_open_folder"@, "skill/"@, 0);
            lemma_no_prefix("workspace_open_folder"@, "mcp/"@, 0);
            lemma_no_prefix("workspace_open_folder"@, "agent_runtime_config_"@, 0);
        },
        RuntimeHostCommand::WorkspaceRemove => {
            reveal_strlit("workspace_remove");
            lemma_no_prefix("workspace_remove"@, "plugin/"@, 0);
            lemma_no_prefix("workspace_remove"@, "skill/"@, 0);
            lemma_no_prefix("workspace_remove"@, "mcp/"@, 0);
            lemma_no_prefix("workspace_remove"@, "agent_runtime_config_"@, 0);
        },
        RuntimeHostCommand::WorkspaceReset => {
            reveal_strlit("workspace_reset");
            lemma_no_prefix("workspace_reset"@, "plugin/"@, 0);
            lemma_no_prefix("workspace_reset"@, "skill/"@, 0);
            lemma_no_prefix("workspace_reset"@, "mcp/"@, 0);
            lemma_no_prefix("workspace_reset"@, "agent_runtime_config_"@, 0);
        },
        RuntimeHostCommand::WorkspaceRename => {
            reveal_strlit("workspace_rename");
            lemma_no_prefix("workspace_rename"@, "plugin/"@, 0);
            lemma_no_prefix("workspace_rename"@, "skill/"@, 0);
            lemma_no_prefix("workspace_rename"@, "mcp/"@, 0);
            lemma_no_prefix("workspace_rename"@, "agent_runtime_config_"@, 0);
        },
        RuntimeHostCommand::WorkspaceRevealFolder => {
            reveal_strlit("workspace_reveal_folder");
            lemma_no_prefix("workspace_reveal_folder"@, "plugin/"@, 0);
            lemma_no_prefix("workspace_reveal_folder"@, "skill/"@, 0);
            lemma_no_prefix("workspace_reveal_folder"@, "mcp/"@, 0);
            lemma_no_prefix("workspace_reveal_folder"@, "agent_runtime_config_"@, 0);
        },
    }
}

/// Only the commands that take nothing ignore what is sent with them, and only the tree of files may
/// be asked for without anything sent.
pub proof fn law_payloads_are_ignored_by_commands_that_take_nothing(command: RuntimeHostCommand)
    ensures
        payload_of(command) == PayloadMode::Ignored <==> {
            ||| command == RuntimeHostCommand::PluginReload
            ||| command == RuntimeHostCommand::PluginCatalogState
            ||| command == RuntimeHostCommand::SidecarList
            ||| command == RuntimeHostCommand::WorkspaceGet
            ||| command == RuntimeHostCommand::WorkspaceOpenFolder
            ||| command == RuntimeHostCommand::WorkspaceGitHubCliStatusGet
            ||| command == RuntimeHostCommand::AppExit
        },
        payload_of(command) == PayloadMode::Optional <==> command
            == RuntimeHostCommand::WorkspaceFileTree,
{
}

/// A command is refused by the handler that does not wait exactly where it is answered by the one
/// that does: where it asks a model, configures a server, answers a question, compacts a context, or
/// is about jobs or dead letters. Every other command has a state of its own exactly where it holds
/// the lock of the store.
pub proof fn law_commands_that_wait_are_answered_asynchronously(command: RuntimeHostCommand)
    ensures
        place_of(command) == CommandPlace::Asynchronous <==> {
            ||| command == RuntimeHostCommand::AgentRuntimeModelTest
            ||| command == RuntimeHostCommand::McpConfigure
            ||| command == RuntimeHostCommand::AgentQuestionAnswer
            ||| command == RuntimeHostCommand::AgentContextCompact
            ||| command == RuntimeHostCommand::AgentRuntimeJobList
            ||| command == RuntimeHostCommand::AgentRuntimeJobGet
            ||| command == RuntimeHostCommand::AgentDeadLetterList
            ||| command == RuntimeHostCommand::AgentDeadLetterGet
            ||| command == RuntimeHostCommand::AgentDeadLetterDismiss
            ||| command == RuntimeHostCommand::AgentDeadLetterReplay
        },
        sync_refusal(command) is Some <==> place_of(command) == CommandPlace::Asynchronous,
        place_of(command) != CommandPlace::Asynchronous ==> (place_of(command)
            == CommandPlace::Isolated <==> owns_store_lock(command)),
        sync_refusal(command) matches Some(refusal) ==> begins_with(
            refusal.1,
            command_name(command),
        ) && (refusal.0 == "model_test_requires_async_handler"@ || refusal.0
            == "mcp_configure_requires_async_handler"@ || refusal.0 == "async_handler_required"@),
        command == RuntimeHostCommand::AgentRuntimeModelTest ==> (sync_refusal(command) matches Some(
            refusal,
        ) && refusal.0 == "model_test_requires_async_handler"@),
        command == RuntimeHostCommand::McpConfigure ==> (sync_refusal(command) matches Some(refusal)
            && refusal.0 == "mcp_configure_requires_async_handler"@),
{
    if let Some(refusal) = sync_refusal(command) {
        let name = command_name(command);
        assert(refusal.1.subrange(0, name.len() as int) =~= name);
    }
}

} // verus!
