//! The reference of the runtime's methods: what each command does to what can be observed, whether
//! it may be tried again, and the generated part of the documents that say so.

use crate::commands::{command_name, command_scope_kind, RuntimeHostCommand};
use crate::host_protocol::HostCommandScope;
use crate::json::{
    field, json_pretty, keys_distinct, lemma_entry_at, text_json, write_json_pretty, Json, JsonView,
};
use crate::observation_cas::agrees;
use crate::text::{
    chars_of, concat2, concat3, doubled_return, ends_with_text, find_chars, first_at, first_occurrence,
    lemma_first_unique, lemma_line_feeds_kept, lemma_line_feeds_only, line_feeds_only,
    normalize_line_feeds, occurs_at, text_equals, texts, without_returns,
};
use vstd::prelude::*;

verus! {

/// What a command does to what can be observed.
#[derive(Clone, Copy, Debug, PartialEq, Eq, Structural)]
pub enum RuntimeOperationKind {
    Read,
    DesiredStateWrite,
    IdentityMutation,
    Creation,
    OneShotAction,
}

/// Whether a command may be tried again after its outcome was lost.
#[derive(Clone, Copy, Debug, PartialEq, Eq, Structural)]
pub enum RuntimeRetryPolicy {
    SafeRetry,
    SameOperationId,
    NoAutomaticRetry,
}

/// The name of an operation kind.
pub open spec fn operation_kind_name(kind: RuntimeOperationKind) -> Seq<char> {
    match kind {
        RuntimeOperationKind::Read => "read"@,
        RuntimeOperationKind::DesiredStateWrite => "desiredStateWrite"@,
        RuntimeOperationKind::IdentityMutation => "identityMutation"@,
        RuntimeOperationKind::Creation => "creation"@,
        RuntimeOperationKind::OneShotAction => "oneShotAction"@,
    }
}

/// The name of a retry policy.
pub open spec fn retry_policy_name(policy: RuntimeRetryPolicy) -> Seq<char> {
    match policy {
        RuntimeRetryPolicy::SafeRetry => "safeRetry"@,
        RuntimeRetryPolicy::SameOperationId => "sameOperationId"@,
        RuntimeRetryPolicy::NoAutomaticRetry => "noAutomaticRetry"@,
    }
}

/// The name of the part of the host that answers a command.
pub open spec fn scope_name(scope: HostCommandScope) -> Seq<char> {
    match scope {
        HostCommandScope::SharedRuntime => "sharedRuntime"@,
        HostCommandScope::ExecutionHost => "executionHost"@,
        HostCommandScope::HostSurface => "hostSurface"@,
    }
}

impl RuntimeOperationKind {
    pub fn as_str(self) -> (result: &'static str)
        ensures
            result@ == operation_kind_name(self),
    {
        match self {
            RuntimeOperationKind::Read => "read",
            RuntimeOperationKind::DesiredStateWrite => "desiredStateWrite",
            RuntimeOperationKind::IdentityMutation => "identityMutation",
            RuntimeOperationKind::Creation => "creation",
            RuntimeOperationKind::OneShotAction => "oneShotAction",
        }
    }
}

impl RuntimeRetryPolicy {
    pub fn as_str(self) -> (result: &'static str)
        ensures
            result@ == retry_policy_name(self),
    {
        match self {
            RuntimeRetryPolicy::SafeRetry => "safeRetry",
            RuntimeRetryPolicy::SameOperationId => "sameOperationId",
            RuntimeRetryPolicy::NoAutomaticRetry => "noAutomaticRetry",
        }
    }
}

/// The name of the part of the host that answers a command.
pub fn scope_text(scope: HostCommandScope) -> (result: &'static str)
    ensures
        result@ == scope_name(scope),
{
    match scope {
        HostCommandScope::SharedRuntime => "sharedRuntime",
        HostCommandScope::ExecutionHost => "executionHost",
        HostCommandScope::HostSurface => "hostSurface",
    }
}

/// What the reference says of a command.
#[derive(Clone, Copy, Debug)]
pub struct CommandDescriptor {
    pub command: &'static str,
    pub scope: HostCommandScope,
    pub operation_kind: RuntimeOperationKind,
    pub retry_policy: RuntimeRetryPolicy,
    pub reconcile_method: Option<&'static str>,
}

pub struct DescriptorView {
    pub command: Seq<char>,
    pub scope: HostCommandScope,
    pub operation_kind: RuntimeOperationKind,
    pub retry_policy: RuntimeRetryPolicy,
    pub reconcile_method: Option<Seq<char>>,
}

impl View for CommandDescriptor {
    type V = DescriptorView;

    open spec fn view(&self) -> DescriptorView {
        DescriptorView {
            command: self.command@,
            scope: self.scope,
            operation_kind: self.operation_kind,
            retry_policy: self.retry_policy,
            reconcile_method: match self.reconcile_method {
                Some(method) => Some(method@),
                None => None,
            },
        }
    }
}

/// What a list of descriptors says.
pub open spec fn descriptor_views(list: Seq<CommandDescriptor>) -> Seq<DescriptorView> {
    Seq::new(list.len(), |i: int| list[i]@)
}

/// What a command does to what can be observed.
pub open spec fn operation_kind_of(command: RuntimeHostCommand) -> RuntimeOperationKind {
    match command {
        RuntimeHostCommand::SessionActivate
        | RuntimeHostCommand::SessionReorder
        | RuntimeHostCommand::SessionUpdate
        | RuntimeHostCommand::AgentRuntimeConfigReset
        | RuntimeHostCommand::AgentRuntimeConfigSet
        | RuntimeHostCommand::McpConfigure
        | RuntimeHostCommand::SkillSourceSetEnabled
        | RuntimeHostCommand::SkillSetEnabled
        | RuntimeHostCommand::SkillReload
        | RuntimeHostCommand::PluginReload
        | RuntimeHostCommand::PluginSetEnabled
        | RuntimeHostCommand::WorkspaceActivate
        | RuntimeHostCommand::WorkspaceReset
        | RuntimeHostCommand::WorkspaceRename => RuntimeOperationKind::DesiredStateWrite,
        RuntimeHostCommand::AgentDeadLetterDismiss
        | RuntimeHostCommand::SessionDelete
        | RuntimeHostCommand::AgentRunAttach
        | RuntimeHostCommand::AgentRunDetach
        | RuntimeHostCommand::AgentRunDetachViewer
        | RuntimeHostCommand::SkillSourceRemove
        | RuntimeHostCommand::PluginRemove
        | RuntimeHostCommand::WorkspaceRemove => RuntimeOperationKind::IdentityMutation,
        RuntimeHostCommand::SkillSourceAdd
        | RuntimeHostCommand::SessionCreate
        | RuntimeHostCommand::AgentInput
        | RuntimeHostCommand::PluginInstall => RuntimeOperationKind::Creation,
        RuntimeHostCommand::AgentContextCompact
        | RuntimeHostCommand::AgentDeadLetterReplay
        | RuntimeHostCommand::AgentAnswerNow
        | RuntimeHostCommand::AgentQuestionAnswer
        | RuntimeHostCommand::AgentRunCancel
        | RuntimeHostCommand::AgentSupplement
        | RuntimeHostCommand::AgentRuntimeModelTest
        | RuntimeHostCommand::AgentRuntimeGarbageCollect
        | RuntimeHostCommand::ProcessCapture
        | RuntimeHostCommand::SidecarStart
        | RuntimeHostCommand::SidecarStop
        | RuntimeHostCommand::AppExit
        | RuntimeHostCommand::Initialize
        | RuntimeHostCommand::WorkspaceOpenFolder
        | RuntimeHostCommand::WorkspaceRevealFolder => RuntimeOperationKind::OneShotAction,
        _ => RuntimeOperationKind::Read,
    }
}

/// Whether a command may be tried again: reading is safe, and the two commands that keep a receipt
/// of an operation are answered from it.
pub open spec fn retry_policy_of(command: RuntimeHostCommand) -> RuntimeRetryPolicy {
    if command == RuntimeHostCommand::SessionCreate || command == RuntimeHostCommand::AgentInput {
        RuntimeRetryPolicy::SameOperationId
    } else if operation_kind_of(command) == RuntimeOperationKind::Read {
        RuntimeRetryPolicy::SafeRetry
    } else {
        RuntimeRetryPolicy::NoAutomaticRetry
    }
}

/// What the reference says of a command.
pub open spec fn descriptor_of(command: RuntimeHostCommand) -> DescriptorView {
    DescriptorView {
        command: command_name(command),
        scope: command_scope_kind(command),
        operation_kind: operation_kind_of(command),
        retry_policy: retry_policy_of(command),
        reconcile_method: None,
    }
}

/// The command that the reference lists at a place.
pub open spec fn command_at(i: int) -> RuntimeHostCommand {
    if i == 0 {
        RuntimeHostCommand::AgentContextUsageGet
    } else if i == 1 {
        RuntimeHostCommand::AgentContextCompact
    } else if i == 2 {
        RuntimeHostCommand::AgentDeadLetterDismiss
    } else if i == 3 {
        RuntimeHostCommand::AgentDeadLetterGet
    } else if i == 4 {
        RuntimeHostCommand::AgentDeadLetterList
    } else if i == 5 {
        RuntimeHostCommand::AgentDeadLetterReplay
    } else if i == 6 {
        RuntimeHostCommand::SessionActivate
    } else if i == 7 {
        RuntimeHostCommand::AgentAnswerNow
    } else if i == 8 {
        RuntimeHostCommand::AgentQuestionAnswer
    } else if i == 9 {
        RuntimeHostCommand::SessionDelete
    } else if i == 10 {
        RuntimeHostCommand::SessionDiagnostics
    } else if i == 11 {
        RuntimeHostCommand::SessionProjectionGet
    } else if i == 12 {
        RuntimeHostCommand::SessionReorder
    } else if i == 13 {
        RuntimeHostCommand::AgentRunList
    } else if i == 14 {
        RuntimeHostCommand::AgentRunStreamReplay
    } else if i == 15 {
        RuntimeHostCommand::AgentRunAttach
    } else if i == 16 {
        RuntimeHostCommand::AgentRunDetach
    } else if i == 17 {
        RuntimeHostCommand::AgentRunDetachViewer
    } else if i == 18 {
        RuntimeHostCommand::AgentRunCancel
    } else if i == 19 {
        RuntimeHostCommand::AgentSupplement
    } else if i == 20 {
        RuntimeHostCommand::SessionUpdate
    } else if i == 21 {
        RuntimeHostCommand::AgentRuntimeConfigGet
    } else if i == 22 {
        RuntimeHostCommand::AgentRuntimeConfigReset
    } else if i == 23 {
        RuntimeHostCommand::AgentRuntimeConfigSet
    } else if i == 24 {
        RuntimeHostCommand::AgentRuntimeModelTest
    } else if i == 25 {
        RuntimeHostCommand::McpCatalog
    } else if i == 26 {
        RuntimeHostCommand::McpConfigure
    } else if i == 27 {
        RuntimeHostCommand::AgentRuntimeGarbageCollect
    } else if i == 28 {
        RuntimeHostCommand::AgentRuntimeJobGet
    } else if i == 29 {
        RuntimeHostCommand::AgentRuntimeJobList
    } else if i == 30 {
        RuntimeHostCommand::AgentStateGet
    } else if i == 31 {
        RuntimeHostCommand::TranscriptProjection
    } else if i == 32 {
        RuntimeHostCommand::PluginCatalogState
    } else if i == 33 {
        RuntimeHostCommand::SkillSourceList
    } else if i == 34 {
        RuntimeHostCommand::SkillSourceAdd
    } else if i == 35 {
        RuntimeHostCommand::SkillSourceRemove
    } else if i == 36 {
        RuntimeHostCommand::SkillSourceSetEnabled
    } else if i == 37 {
        RuntimeHostCommand::SkillSourceRef
    } else if i == 38 {
        RuntimeHostCommand::SkillCatalog
    } else if i == 39 {
        RuntimeHostCommand::SkillDetail
    } else if i == 40 {
        RuntimeHostCommand::SkillSetEnabled
    } else if i == 41 {
        RuntimeHostCommand::SkillReload
    } else if i == 42 {
        RuntimeHostCommand::PluginDetail
    } else if i == 43 {
        RuntimeHostCommand::PluginList
    } else if i == 44 {
        RuntimeHostCommand::PluginReload
    } else if i == 45 {
        RuntimeHostCommand::PluginSetEnabled
    } else if i == 46 {
        RuntimeHostCommand::PluginSourceRef
    } else if i == 47 {
        RuntimeHostCommand::SessionList
    } else if i == 48 {
        RuntimeHostCommand::SessionGet
    } else if i == 49 {
        RuntimeHostCommand::SessionCreate
    } else if i == 50 {
        RuntimeHostCommand::AgentInput
    } else if i == 51 {
        RuntimeHostCommand::ProcessCapture
    } else if i == 52 {
        RuntimeHostCommand::SidecarList
    } else if i == 53 {
        RuntimeHostCommand::SidecarStart
    } else if i == 54 {
        RuntimeHostCommand::SidecarStop
    } else if i == 55 {
        RuntimeHostCommand::WorkspaceFileTree
    } else if i == 56 {
        RuntimeHostCommand::WorkspaceReadFile
    } else if i == 57 {
        RuntimeHostCommand::AppExit
    } else if i == 58 {
        RuntimeHostCommand::DesktopFilePreviewRead
    } else if i == 59 {
        RuntimeHostCommand::Initialize
    } else if i == 60 {
        RuntimeHostCommand::PluginInstall
    } else if i == 61 {
        RuntimeHostCommand::PluginRemove
    } else if i == 62 {
        RuntimeHostCommand::WorkspaceActivate
    } else if i == 63 {
        RuntimeHostCommand::WorkspaceGet
    } else if i == 64 {
        RuntimeHostCommand::WorkspaceGitDiffGet
    } else if i == 65 {
        RuntimeHostCommand::WorkspaceGitFileDiffGet
    } else if i == 66 {
        RuntimeHostCommand::WorkspaceGitHubCliStatusGet
    } else if i == 67 {
        RuntimeHostCommand::WorkspaceGitStatusGet
    } else if i == 68 {
        RuntimeHostCommand::WorkspaceOpenFolder
    } else if i == 69 {
        RuntimeHostCommand::WorkspaceRemove
    } else if i == 70 {
        RuntimeHostCommand::WorkspaceReset
    } else if i == 71 {
        RuntimeHostCommand::WorkspaceRename
    } else {
        RuntimeHostCommand::WorkspaceRevealFolder
    }
}

/// The commands in the order in which the reference lists them.
pub open spec fn command_order() -> Seq<RuntimeHostCommand> {
    Seq::new(73, |i: int| command_at(i))
}

/// Where the reference lists a command.
spec fn position(command: RuntimeHostCommand) -> int {
    match command {
        RuntimeHostCommand::AgentContextUsageGet => 0,
        RuntimeHostCommand::AgentContextCompact => 1,
        RuntimeHostCommand::AgentDeadLetterDismiss => 2,
        RuntimeHostCommand::AgentDeadLetterGet => 3,
        RuntimeHostCommand::AgentDeadLetterList => 4,
        RuntimeHostCommand::AgentDeadLetterReplay => 5,
        RuntimeHostCommand::SessionActivate => 6,
        RuntimeHostCommand::AgentAnswerNow => 7,
        RuntimeHostCommand::AgentQuestionAnswer => 8,
        RuntimeHostCommand::SessionDelete => 9,
        RuntimeHostCommand::SessionDiagnostics => 10,
        RuntimeHostCommand::SessionProjectionGet => 11,
        RuntimeHostCommand::SessionReorder => 12,
        RuntimeHostCommand::AgentRunList => 13,
        RuntimeHostCommand::AgentRunStreamReplay => 14,
        RuntimeHostCommand::AgentRunAttach => 15,
        RuntimeHostCommand::AgentRunDetach => 16,
        RuntimeHostCommand::AgentRunDetachViewer => 17,
        RuntimeHostCommand::AgentRunCancel => 18,
        RuntimeHostCommand::AgentSupplement => 19,
        RuntimeHostCommand::SessionUpdate => 20,
        RuntimeHostCommand::AgentRuntimeConfigGet => 21,
        RuntimeHostCommand::AgentRuntimeConfigReset => 22,
        RuntimeHostCommand::AgentRuntimeConfigSet => 23,
        RuntimeHostCommand::AgentRuntimeModelTest => 24,
        RuntimeHostCommand::McpCatalog => 25,
        RuntimeHostCommand::McpConfigure => 26,
        RuntimeHostCommand::AgentRuntimeGarbageCollect => 27,
        RuntimeHostCommand::AgentRuntimeJobGet => 28,
        RuntimeHostCommand::AgentRuntimeJobList => 29,
        RuntimeHostCommand::AgentStateGet => 30,
        RuntimeHostCommand::TranscriptProjection => 31,
        RuntimeHostCommand::PluginCatalogState => 32,
        RuntimeHostCommand::SkillSourceList => 33,
        RuntimeHostCommand::SkillSourceAdd => 34,
        RuntimeHostCommand::SkillSourceRemove => 35,
        RuntimeHostCommand::SkillSourceSetEnabled => 36,
        RuntimeHostCommand::SkillSourceRef => 37,
        RuntimeHostCommand::SkillCatalog => 38,
        RuntimeHostCommand::SkillDetail => 39,
        RuntimeHostCommand::SkillSetEnabled => 40,
        RuntimeHostCommand::SkillReload => 41,
        RuntimeHostCommand::PluginDetail => 42,
        RuntimeHostCommand::PluginList => 43,
        RuntimeHostCommand::PluginReload => 44,
        RuntimeHostCommand::PluginSetEnabled => 45,
        RuntimeHostCommand::PluginSourceRef => 46,
        RuntimeHostCommand::SessionList => 47,
        RuntimeHostCommand::SessionGet => 48,
        RuntimeHostCommand::SessionCreate => 49,
        RuntimeHostCommand::AgentInput => 50,
        RuntimeHostCommand::ProcessCapture => 51,
        RuntimeHostCommand::SidecarList => 52,
        RuntimeHostCommand::SidecarStart => 53,
        RuntimeHostCommand::SidecarStop => 54,
        RuntimeHostCommand::WorkspaceFileTree => 55,
        RuntimeHostCommand::WorkspaceReadFile => 56,
        RuntimeHostCommand::AppExit => 57,
        RuntimeHostCommand::DesktopFilePreviewRead => 58,
        RuntimeHostCommand::Initialize => 59,
        RuntimeHostCommand::PluginInstall => 60,
        RuntimeHostCommand::PluginRemove => 61,
        RuntimeHostCommand::WorkspaceActivate => 62,
        RuntimeHostCommand::WorkspaceGet => 63,
        RuntimeHostCommand::WorkspaceGitDiffGet => 64,
        RuntimeHostCommand::WorkspaceGitFileDiffGet => 65,
        RuntimeHostCommand::WorkspaceGitHubCliStatusGet => 66,
        RuntimeHostCommand::WorkspaceGitStatusGet => 67,
        RuntimeHostCommand::WorkspaceOpenFolder => 68,
        RuntimeHostCommand::WorkspaceRemove => 69,
        RuntimeHostCommand::WorkspaceReset => 70,
        RuntimeHostCommand::WorkspaceRename => 71,
        RuntimeHostCommand::WorkspaceRevealFolder => 72,
    }
}

/// What a command does to what can be observed.
pub fn operation_kind(command: RuntimeHostCommand) -> (result: RuntimeOperationKind)
    ensures
        result == operation_kind_of(command),
{
    match command {
        RuntimeHostCommand::SessionActivate
        | RuntimeHostCommand::SessionReorder
        | RuntimeHostCommand::SessionUpdate
        | RuntimeHostCommand::AgentRuntimeConfigReset
        | RuntimeHostCommand::AgentRuntimeConfigSet
        | RuntimeHostCommand::McpConfigure
        | RuntimeHostCommand::SkillSourceSetEnabled
        | RuntimeHostCommand::SkillSetEnabled
        | RuntimeHostCommand::SkillReload
        | RuntimeHostCommand::PluginReload
        | RuntimeHostCommand::PluginSetEnabled
        | RuntimeHostCommand::WorkspaceActivate
        | RuntimeHostCommand::WorkspaceReset
        | RuntimeHostCommand::WorkspaceRename => RuntimeOperationKind::DesiredStateWrite,
        RuntimeHostCommand::AgentDeadLetterDismiss
        | RuntimeHostCommand::SessionDelete
        | RuntimeHostCommand::AgentRunAttach
        | RuntimeHostCommand::AgentRunDetach
        | RuntimeHostCommand::AgentRunDetachViewer
        | RuntimeHostCommand::SkillSourceRemove
        | RuntimeHostCommand::PluginRemove
        | RuntimeHostCommand::WorkspaceRemove => RuntimeOperationKind::IdentityMutation,
        RuntimeHostCommand::SkillSourceAdd
        | RuntimeHostCommand::SessionCreate
        | RuntimeHostCommand::AgentInput
        | RuntimeHostCommand::PluginInstall => RuntimeOperationKind::Creation,
        RuntimeHostCommand::AgentContextCompact
        | RuntimeHostCommand::AgentDeadLetterReplay
        | RuntimeHostCommand::AgentAnswerNow
        | RuntimeHostCommand::AgentQuestionAnswer
        | RuntimeHostCommand::AgentRunCancel
        | RuntimeHostCommand::AgentSupplement
        | RuntimeHostCommand::AgentRuntimeModelTest
        | RuntimeHostCommand::AgentRuntimeGarbageCollect
        | RuntimeHostCommand::ProcessCapture
        | RuntimeHostCommand::SidecarStart
        | RuntimeHostCommand::SidecarStop
        | RuntimeHostCommand::AppExit
        | RuntimeHostCommand::Initialize
        | RuntimeHostCommand::WorkspaceOpenFolder
        | RuntimeHostCommand::WorkspaceRevealFolder => RuntimeOperationKind::OneShotAction,
        _ => RuntimeOperationKind::Read,
    }
}

/// Whether a command may be tried again.
pub fn retry_policy(command: RuntimeHostCommand) -> (result: RuntimeRetryPolicy)
    ensures
        result == retry_policy_of(command),
{
    match command {
        RuntimeHostCommand::SessionCreate
        | RuntimeHostCommand::AgentInput => RuntimeRetryPolicy::SameOperationId,
        _ => match operation_kind(command) {
            RuntimeOperationKind::Read => RuntimeRetryPolicy::SafeRetry,
            _ => RuntimeRetryPolicy::NoAutomaticRetry,
        },
    }
}

/// The command that the reference lists at a place.
fn listed_command(i: usize) -> (result: RuntimeHostCommand)
    requires
        i < 73,
    ensures
        result == command_at(i as int),
{
    match i {
        0 => RuntimeHostCommand::AgentContextUsageGet,
        1 => RuntimeHostCommand::AgentContextCompact,
        2 => RuntimeHostCommand::AgentDeadLetterDismiss,
        3 => RuntimeHostCommand::AgentDeadLetterGet,
        4 => RuntimeHostCommand::AgentDeadLetterList,
        5 => RuntimeHostCommand::AgentDeadLetterReplay,
        6 => RuntimeHostCommand::SessionActivate,
        7 => RuntimeHostCommand::AgentAnswerNow,
        8 => RuntimeHostCommand::AgentQuestionAnswer,
        9 => RuntimeHostCommand::SessionDelete,
        10 => RuntimeHostCommand::SessionDiagnostics,
        11 => RuntimeHostCommand::SessionProjectionGet,
        12 => RuntimeHostCommand::SessionReorder,
        13 => RuntimeHostCommand::AgentRunList,
        14 => RuntimeHostCommand::AgentRunStreamReplay,
        15 => RuntimeHostCommand::AgentRunAttach,
        16 => RuntimeHostCommand::AgentRunDetach,
        17 => RuntimeHostCommand::AgentRunDetachViewer,
        18 => RuntimeHostCommand::AgentRunCancel,
        19 => RuntimeHostCommand::AgentSupplement,
        20 => RuntimeHostCommand::SessionUpdate,
        21 => RuntimeHostCommand::AgentRuntimeConfigGet,
        22 => RuntimeHostCommand::AgentRuntimeConfigReset,
        23 => RuntimeHostCommand::AgentRuntimeConfigSet,
        24 => RuntimeHostCommand::AgentRuntimeModelTest,
        25 => RuntimeHostCommand::McpCatalog,
        26 => RuntimeHostCommand::McpConfigure,
        27 => RuntimeHostCommand::AgentRuntimeGarbageCollect,
        28 => RuntimeHostCommand::AgentRuntimeJobGet,
        29 => RuntimeHostCommand::AgentRuntimeJobList,
        30 => RuntimeHostCommand::AgentStateGet,
        31 => RuntimeHostCommand::TranscriptProjection,
        32 => RuntimeHostCommand::PluginCatalogState,
        33 => RuntimeHostCommand::SkillSourceList,
        34 => RuntimeHostCommand::SkillSourceAdd,
        35 => RuntimeHostCommand::SkillSourceRemove,
        36 => RuntimeHostCommand::SkillSourceSetEnabled,
        37 => RuntimeHostCommand::SkillSourceRef,
        38 => RuntimeHostCommand::SkillCatalog,
        39 => RuntimeHostCommand::SkillDetail,
        40 => RuntimeHostCommand::SkillSetEnabled,
        41 => RuntimeHostCommand::SkillReload,
        42 => RuntimeHostCommand::PluginDetail,
        43 => RuntimeHostCommand::PluginList,
        44 => RuntimeHostCommand::PluginReload,
        45 => RuntimeHostCommand::PluginSetEnabled,
        46 => RuntimeHostCommand::PluginSourceRef,
        47 => RuntimeHostCommand::SessionList,
        48 => RuntimeHostCommand::SessionGet,
        49 => RuntimeHostCommand::SessionCreate,
        50 => RuntimeHostCommand::AgentInput,
        51 => RuntimeHostCommand::ProcessCapture,
        52 => RuntimeHostCommand::SidecarList,
        53 => RuntimeHostCommand::SidecarStart,
        54 => RuntimeHostCommand::SidecarStop,
        55 => RuntimeHostCommand::WorkspaceFileTree,
        56 => RuntimeHostCommand::WorkspaceReadFile,
        57 => RuntimeHostCommand::AppExit,
        58 => RuntimeHostCommand::DesktopFilePreviewRead,
        59 => RuntimeHostCommand::Initialize,
        60 => RuntimeHostCommand::PluginInstall,
        61 => RuntimeHostCommand::PluginRemove,
        62 => RuntimeHostCommand::WorkspaceActivate,
        63 => RuntimeHostCommand::WorkspaceGet,
        64 => RuntimeHostCommand::WorkspaceGitDiffGet,
        65 => RuntimeHostCommand::WorkspaceGitFileDiffGet,
        66 => RuntimeHostCommand::WorkspaceGitHubCliStatusGet,
        67 => RuntimeHostCommand::WorkspaceGitStatusGet,
        68 => RuntimeHostCommand::WorkspaceOpenFolder,
        69 => RuntimeHostCommand::WorkspaceRemove,
        70 => RuntimeHostCommand::WorkspaceReset,
        71 => RuntimeHostCommand::WorkspaceRename,
        _ => RuntimeHostCommand::WorkspaceRevealFolder,
    }
}

/// The commands in the order in which the reference lists them.
pub fn listed_commands() -> (result: Vec<RuntimeHostCommand>)
    ensures
        result@ == command_order(),
{
    let mut list: Vec<RuntimeHostCommand> = Vec::new();
    let mut i: usize = 0;
    while i < 73
        invariant
            i <= 73,
            list.len() == i,
            forall|j: int| 0 <= j < i ==> #[trigger] list@[j] == command_at(j),
        decreases 73 - i,
    {
        list.push(listed_command(i));
        i = i + 1;
    }
    assert(list@ =~= command_order());
    list
}

/// What the reference says of each command, in its order.
pub open spec fn reference() -> Seq<DescriptorView> {
    Seq::new(command_order().len(), |i: int| descriptor_of(command_order()[i]))
}

/// What the reference says of each command, in its order.
pub fn command_descriptors() -> (result: Vec<CommandDescriptor>)
    ensures
        descriptor_views(result@) == reference(),
{
    let commands = listed_commands();
    let mut result: Vec<CommandDescriptor> = Vec::new();
    let mut i: usize = 0;
    while i < commands.len()
        invariant
            i <= commands.len(),
            commands@ == command_order(),
            result.len() == i,
            forall|j: int| 0 <= j < i ==> (#[trigger] result@[j])@ == descriptor_of(commands@[j]),
        decreases commands.len() - i,
    {
        let command = commands[i];
        result.push(
            CommandDescriptor {
                command: command.command(),
                scope: command.scope(),
                operation_kind: operation_kind(command),
                retry_policy: retry_policy(command),
                reconcile_method: None,
            },
        );
        i = i + 1;
    }
    assert(descriptor_views(result@) =~= reference());
    result
}

/// The reference lists every command, and lists it once.
pub proof fn law_every_command_is_listed_once(command: RuntimeHostCommand)
    ensures
        exists|i: int|
            0 <= i < command_order().len() && #[trigger] command_order()[i] == command && forall|
                j: int,
            |
                0 <= j < command_order().len() && #[trigger] command_order()[j] == command ==> j
                    == i,
{
    let i = position(command);
    assert(command_order()[i] == command);
    assert forall|j: int|
        0 <= j < command_order().len() && #[trigger] command_order()[j] == command implies j
        == i by {
        assert(position(command_order()[j]) == j);
    }
}

/// No command that is not known to be harmless is tried again by itself: reading may always be
/// tried again, the commands that keep receipts only under the same operation, and any other
/// command not at all.
pub proof fn law_retries_are_conservative(command: RuntimeHostCommand)
    ensures
        operation_kind_of(command) == RuntimeOperationKind::Read ==> retry_policy_of(command)
            == RuntimeRetryPolicy::SafeRetry,
        retry_policy_of(command) == RuntimeRetryPolicy::SameOperationId <==> command_name(command)
            == "session/new"@ || command_name(command) == "session/prompt"@,
        operation_kind_of(command) != RuntimeOperationKind::Read && command_name(command)
            != "session/new"@ && command_name(command) != "session/prompt"@ ==> retry_policy_of(
            command,
        ) == RuntimeRetryPolicy::NoAutomaticRetry,
{
    crate::commands::law_names_are_distinct(command, RuntimeHostCommand::SessionCreate);
    crate::commands::law_names_are_distinct(command, RuntimeHostCommand::AgentInput);
}

pub const START_MARKER: &'static str = "<!-- BEGIN GENERATED:RUNTIME_METHOD_REGISTRY -->";

pub const END_MARKER: &'static str = "<!-- END GENERATED:RUNTIME_METHOD_REGISTRY -->";

pub const INTRODUCTION: &'static str = "\n\n`operationKind` classifies the observable effect: `read`, `desiredStateWrite`, `identityMutation`, `creation`, or `oneShotAction`. `retryPolicy` is one of `safeRetry`, `sameOperationId`, or `noAutomaticRetry`. A non-empty `reconcileMethod` names the registered method that observes or resumes an uncertain outcome.\n\n";

pub const TABLE_HEAD: &'static str = "\n\n| Method | Operation kind | Retry policy | Reconcile method |\n| --- | --- | --- | --- |\n";

/// The row of the reference on one command.
pub open spec fn row(descriptor: DescriptorView) -> Seq<char> {
    "| `"@ + descriptor.command + "` | `"@ + operation_kind_name(descriptor.operation_kind)
        + "` | `"@ + retry_policy_name(descriptor.retry_policy) + "` | "@ + (
    match descriptor.reconcile_method {
        Some(method) => "`"@ + method + "`"@,
        None => "—"@,
    }) + " |\n"@
}

/// The rows of the reference on the commands that one part of the host answers.
pub open spec fn rows(descriptors: Seq<DescriptorView>, scope: HostCommandScope) -> Seq<char>
    decreases descriptors.len(),
{
    if descriptors.len() == 0 {
        Seq::empty()
    } else {
        let last = descriptors[descriptors.len() - 1];
        let before = rows(descriptors.subrange(0, descriptors.len() - 1), scope);
        if last.scope == scope {
            before + row(last)
        } else {
            before
        }
    }
}

/// The part of the reference on the commands that one part of the host answers.
pub open spec fn section(
    descriptors: Seq<DescriptorView>,
    scope: HostCommandScope,
    heading: Seq<char>,
) -> Seq<char> {
    "### "@ + heading + TABLE_HEAD@ + rows(descriptors, scope) + "\n"@
}

/// The generated part of the reference.
pub open spec fn registry(descriptors: Seq<DescriptorView>) -> Seq<char> {
    START_MARKER@ + INTRODUCTION@ + section(
        descriptors,
        HostCommandScope::SharedRuntime,
        "Shared Runtime"@,
    ) + section(descriptors, HostCommandScope::ExecutionHost, "Execution Host"@) + section(
        descriptors,
        HostCommandScope::HostSurface,
        "Native Host surface"@,
    ) + END_MARKER@
}

fn row_text(descriptor: &CommandDescriptor) -> (result: String)
    ensures
        result@ == row(descriptor@),
{
    let mut out = concat3("| `", descriptor.command, "` | `");
    out.append(descriptor.operation_kind.as_str());
    out.append("` | `");
    out.append(descriptor.retry_policy.as_str());
    out.append("` | ");
    match descriptor.reconcile_method {
        Some(method) => {
            let quoted = concat3("`", method, "`");
            out.append(quoted.as_str());
        },
        None => {
            out.append("—");
        },
    }
    out.append(" |\n");
    out
}

fn section_text(
    descriptors: &Vec<CommandDescriptor>,
    scope: HostCommandScope,
    heading: &str,
) -> (result: String)
    ensures
        result@ == section(descriptor_views(descriptors@), scope, heading@),
{
    let ghost all = descriptor_views(descriptors@);
    let mut lines = String::new();
    let mut i: usize = 0;
    assert(all.subrange(0, 0) =~= Seq::empty());
    while i < descriptors.len()
        invariant
            i <= descriptors.len(),
            all == descriptor_views(descriptors@),
            lines@ == rows(all.subrange(0, i as int), scope),
        decreases descriptors.len() - i,
    {
        proof {
            let next = all.subrange(0, i + 1);
            assert(next.subrange(0, next.len() - 1) =~= all.subrange(0, i as int));
            assert(next[next.len() - 1] == descriptors@[i as int]@);
        }
        if descriptors[i].scope == scope {
            let line = row_text(&descriptors[i]);
            lines.append(line.as_str());
        }
        i = i + 1;
    }
    assert(all.subrange(0, all.len() as int) =~= all);
    let mut out = concat3("### ", heading, TABLE_HEAD);
    out.append(lines.as_str());
    out.append("\n");
    out
}

/// The generated part of the reference on the given commands.
pub fn render_registry(descriptors: &Vec<CommandDescriptor>) -> (result: String)
    ensures
        result@ == registry(descriptor_views(descriptors@)),
{
    let mut out = concat2(START_MARKER, INTRODUCTION);
    let shared = section_text(descriptors, HostCommandScope::SharedRuntime, "Shared Runtime");
    out.append(shared.as_str());
    let execution = section_text(descriptors, HostCommandScope::ExecutionHost, "Execution Host");
    out.append(execution.as_str());
    let surface = section_text(descriptors, HostCommandScope::HostSurface, "Native Host surface");
    out.append(surface.as_str());
    out.append(END_MARKER);
    out
}

/// The generated part of the reference.
pub fn generated_registry() -> (result: String)
    ensures
        result@ == registry(reference()),
{
    let descriptors = command_descriptors();
    render_registry(&descriptors)
}

/// What the manifest of the methods holds of one command.
pub open spec fn manifest_entry(descriptor: DescriptorView) -> JsonView {
    JsonView::Object(
        seq![
            ("name"@, JsonView::Text(descriptor.command)),
            ("operationKind"@, JsonView::Text(operation_kind_name(descriptor.operation_kind))),
            (
                "reconcileMethod"@,
                match descriptor.reconcile_method {
                    Some(method) => JsonView::Text(method),
                    None => JsonView::Null,
                },
            ),
            ("retryPolicy"@, JsonView::Text(retry_policy_name(descriptor.retry_policy))),
            ("scope"@, JsonView::Text(scope_name(descriptor.scope))),
        ],
    )
}

/// The manifest of the methods.
pub open spec fn manifest_value(descriptors: Seq<DescriptorView>) -> JsonView {
    JsonView::Object(
        seq![
            ("schema"@, JsonView::Text("centaeris.runtime-method-registry.v1"@)),
            (
                "methods"@,
                JsonView::List(
                    Seq::new(descriptors.len(), |i: int| manifest_entry(descriptors[i])),
                ),
            ),
        ],
    )
}

fn manifest_entry_json(descriptor: &CommandDescriptor) -> (result: Json)
    ensures
        result@ == manifest_entry(descriptor@),
{
    let mut entries: Vec<(String, Json)> = Vec::new();
    entries.push(("name".to_owned(), text_json(descriptor.command)));
    entries.push(("operationKind".to_owned(), text_json(descriptor.operation_kind.as_str())));
    let reconcile = match descriptor.reconcile_method {
        Some(method) => text_json(method),
        None => Json::Null,
    };
    assert(reconcile@ == manifest_entry(descriptor@)->Object_0[2].1);
    entries.push(("reconcileMethod".to_owned(), reconcile));
    entries.push(("retryPolicy".to_owned(), text_json(descriptor.retry_policy.as_str())));
    entries.push(("scope".to_owned(), text_json(scope_text(descriptor.scope))));
    let result = Json::Object(entries);
    assert(result@->Object_0 =~= manifest_entry(descriptor@)->Object_0);
    result
}

/// The manifest of the given commands.
pub fn manifest_json(descriptors: &Vec<CommandDescriptor>) -> (result: Json)
    ensures
        result@ == manifest_value(descriptor_views(descriptors@)),
{
    let mut methods: Vec<Json> = Vec::new();
    let mut i: usize = 0;
    while i < descriptors.len()
        invariant
            i <= descriptors.len(),
            methods.len() == i,
            forall|j: int|
                0 <= j < i ==> (#[trigger] methods@[j])@ == manifest_entry(descriptors@[j]@),
        decreases descriptors.len() - i,
    {
        methods.push(manifest_entry_json(&descriptors[i]));
        i = i + 1;
    }
    proof {
        let wanted = manifest_value(descriptor_views(descriptors@))->Object_0[1].1->List_0;
        assert(crate::json::json_views(methods@) =~= wanted);
    }
    crate::json::object2(
        "schema",
        Json::Text("centaeris.runtime-method-registry.v1".to_owned()),
        "methods",
        crate::json::list(methods),
    )
}

/// What the manifest's file holds, for the outcome of writing the manifest as text.
pub open spec fn manifest_text(written: Result<Seq<char>, Seq<char>>) -> Result<
    Seq<char>,
    Seq<char>,
> {
    match written {
        Ok(text) => Ok(text + "\n"@),
        Err(error) => Err("serialize Runtime method registry failed: "@ + error),
    }
}

/// What the manifest's file holds, for the outcome of writing the manifest as text.
pub fn finish_manifest(written: Result<String, String>) -> (result: Result<String, String>)
    ensures
        agrees(
            result,
            |text: String| text@,
            manifest_text(
                match written {
                    Ok(text) => Ok(text@),
                    Err(error) => Err(error@),
                },
            ),
        ),
{
    match written {
        Ok(text) => Ok(concat2(text.as_str(), "\n")),
        Err(error) => Err(
            concat2("serialize Runtime method registry failed: ", error.as_str()),
        ),
    }
}

/// What the file of the manifest of the methods holds.
pub fn generated_registry_manifest() -> (result: Result<String, String>)
    ensures
        agrees(result, |text: String| text@, manifest_text(json_pretty(manifest_value(reference())))),
{
    let descriptors = command_descriptors();
    let manifest = manifest_json(&descriptors);
    finish_manifest(write_json_pretty(&manifest))
}

/// `document` with the generated part replaced.
pub open spec fn replaced(document: Seq<char>, generated: Seq<char>) -> Result<
    Seq<char>,
    Seq<char>,
> {
    let text = line_feeds_only(document);
    match first_occurrence(text, START_MARKER@) {
        None => Err("missing generated registry marker: "@ + START_MARKER@),
        Some(start) => match first_occurrence(text, END_MARKER@) {
            None => Err("missing generated registry marker: "@ + END_MARKER@),
            Some(end) => if end <= start {
                Err("runtime protocol registry markers are out of order"@)
            } else {
                Ok(
                    text.subrange(0, start) + generated + text.subrange(
                        end + END_MARKER@.len(),
                        text.len() as int,
                    ),
                )
            },
        },
    }
}

/// `document` with the generated part replaced by what is generated now, and nothing else changed
/// but line ends.
pub fn replace_generated_registry(document: &str) -> (result: Result<String, String>)
    ensures
        agrees(result, |text: String| text@, replaced(document@, registry(reference()))),
{
    let text = normalize_line_feeds(document);
    let chars = chars_of(text.as_str());
    let start_marker = chars_of(START_MARKER);
    let end_marker = chars_of(END_MARKER);
    let start: usize = match find_chars(&chars, &start_marker) {
        Some(start) => start,
        None => {
            return Err(concat2("missing generated registry marker: ", START_MARKER));
        },
    };
    let end: usize = match find_chars(&chars, &end_marker) {
        Some(end) => end,
        None => {
            return Err(concat2("missing generated registry marker: ", END_MARKER));
        },
    };
    if end <= start {
        return Err("runtime protocol registry markers are out of order".to_owned());
    }
    let generated = generated_registry();
    let total: usize = chars.len();
    assert(end + end_marker@.len() <= total);
    let before = text.as_str().substring_char(0, start);
    let after = text.as_str().substring_char(end + end_marker.len(), total);
    Ok(concat3(before, generated.as_str(), after))
}

/// Whether neither a marker can begin in `s` nor a carriage return stands in it.
pub open spec fn unmarked(s: Seq<char>) -> bool {
    forall|i: int| 0 <= i < s.len() ==> #[trigger] s[i] != '<' && s[i] != '\r'
}

proof fn lemma_name_unmarked(command: RuntimeHostCommand)
    ensures
        unmarked(command_name(command)),
{
    match command {
        RuntimeHostCommand::AgentContextUsageGet => {
            reveal_strlit("agent_context_usage_get");
        },
        RuntimeHostCommand::AgentContextCompact => {
            reveal_strlit("_centaeris/session/compact_context");
        },
        RuntimeHostCommand::AgentDeadLetterDismiss => {
            reveal_strlit("agent_dead_letter_dismiss");
        },
        RuntimeHostCommand::AgentDeadLetterGet => {
            reveal_strlit("agent_dead_letter_get");
        },
        RuntimeHostCommand::AgentDeadLetterList => {
            reveal_strlit("agent_dead_letter_list");
        },
        RuntimeHostCommand::AgentDeadLetterReplay => {
            reveal_strlit("agent_dead_letter_replay");
        },
        RuntimeHostCommand::SessionActivate => {
            reveal_strlit("_centaeris/session/activate");
        },
        RuntimeHostCommand::AgentAnswerNow => {
            reveal_strlit("_centaeris/session/answer_now");
        },
        RuntimeHostCommand::AgentQuestionAnswer => {
            reveal_strlit("_centaeris/session/answer_question");
        },
        RuntimeHostCommand::SessionDelete => {
            reveal_strlit("_centaeris/session/delete");
        },
        RuntimeHostCommand::SessionDiagnostics => {
            reveal_strlit("_centaeris/session/diagnostics");
        },
        RuntimeHostCommand::SessionProjectionGet => {
            reveal_strlit("_centaeris/session/project");
        },
        RuntimeHostCommand::SessionReorder => {
            reveal_strlit("_centaeris/session/reorder");
        },
        RuntimeHostCommand::AgentRunList => {
            reveal_strlit("_centaeris/session/agent-runs");
        },
        RuntimeHostCommand::AgentRunStreamReplay => {
            reveal_strlit("_centaeris/session/agent-runs/replay");
        },
        RuntimeHostCommand::AgentRunAttach => {
            reveal_strlit("_centaeris/session/agent-runs/attach");
        },
        RuntimeHostCommand::AgentRunDetach => {
            reveal_strlit("_centaeris/session/agent-runs/detach");
        },
        RuntimeHostCommand::AgentRunDetachViewer => {
            reveal_strlit("_centaeris/session/agent-runs/detach-viewer");
        },
        RuntimeHostCommand::AgentRunCancel => {
            reveal_strlit("_centaeris/session/agent-runs/cancel");
        },
        RuntimeHostCommand::AgentSupplement => {
            reveal_strlit("_centaeris/session/supplement");
        },
        RuntimeHostCommand::SessionUpdate => {
            reveal_strlit("_centaeris/session/update_metadata");
        },
        RuntimeHostCommand::AgentRuntimeConfigGet => {
            reveal_strlit("agent_runtime_config_get");
        },
        RuntimeHostCommand::AgentRuntimeConfigReset => {
            reveal_strlit("agent_runtime_config_reset");
        },
        RuntimeHostCommand::AgentRuntimeConfigSet => {
            reveal_strlit("agent_runtime_config_set");
        },
        RuntimeHostCommand::AgentRuntimeModelTest => {
            reveal_strlit("agent_runtime_model_test");
        },
        RuntimeHostCommand::McpCatalog => {
            reveal_strlit("mcp/catalog");
        },
        RuntimeHostCommand::McpConfigure => {
            reveal_strlit("mcp/configure");
        },
        RuntimeHostCommand::AgentRuntimeGarbageCollect => {
            reveal_strlit("agent_runtime_garbage_collect");
        },
        RuntimeHostCommand::AgentRuntimeJobGet => {
            reveal_strlit("agent_runtime_job_get");
        },
        RuntimeHostCommand::AgentRuntimeJobList => {
            reveal_strlit("agent_runtime_job_list");
        },
        RuntimeHostCommand::AgentStateGet => {
            reveal_strlit("agent_state_get");
        },
        RuntimeHostCommand::TranscriptProjection => {
            reveal_strlit("transcript/project");
        },
        RuntimeHostCommand::PluginCatalogState => {
            reveal_strlit("plugin/catalog_state");
        },
        RuntimeHostCommand::SkillSourceList => {
            reveal_strlit("skill/source/list");
        },
        RuntimeHostCommand::SkillSourceAdd => {
            reveal_strlit("skill/source/add");
        },
        RuntimeHostCommand::SkillSourceRemove => {
            reveal_strlit("skill/source/remove");
        },
        RuntimeHostCommand::SkillSourceSetEnabled => {
            reveal_strlit("skill/source/set_enabled");
        },
        RuntimeHostCommand::SkillSourceRef => {
            reveal_strlit("skill/source/ref");
        },
        RuntimeHostCommand::SkillCatalog => {
            reveal_strlit("skill/catalog");
        },
        RuntimeHostCommand::SkillDetail => {
            reveal_strlit("skill/detail");
        },
        RuntimeHostCommand::SkillSetEnabled => {
            reveal_strlit("skill/set_enabled");
        },
        RuntimeHostCommand::SkillReload => {
            reveal_strlit("skill/reload");
        },
        RuntimeHostCommand::PluginDetail => {
            reveal_strlit("plugin/detail");
        },
        RuntimeHostCommand::PluginList => {
            reveal_strlit("plugin/list");
        },
        RuntimeHostCommand::PluginReload => {
            reveal_strlit("plugin/reload");
        },
        RuntimeHostCommand::PluginSetEnabled => {
            reveal_strlit("plugin/set_enabled");
        },
        RuntimeHostCommand::PluginSourceRef => {
            reveal_strlit("plugin/source_ref");
        },
        RuntimeHostCommand::SessionList => {
            reveal_strlit("session/list");
        },
        RuntimeHostCommand::SessionGet => {
            reveal_strlit("session/load");
        },
        RuntimeHostCommand::SessionCreate => {
            reveal_strlit("session/new");
        },
        RuntimeHostCommand::AgentInput => {
            reveal_strlit("session/prompt");
        },
        RuntimeHostCommand::ProcessCapture => {
            reveal_strlit("process_capture");
        },
        RuntimeHostCommand::SidecarList => {
            reveal_strlit("sidecar_list");
        },
        RuntimeHostCommand::SidecarStart => {
            reveal_strlit("sidecar_start");
        },
        RuntimeHostCommand::SidecarStop => {
            reveal_strlit("sidecar_stop");
        },
        RuntimeHostCommand::WorkspaceFileTree => {
            reveal_strlit("workspace_file_tree");
        },
        RuntimeHostCommand::WorkspaceReadFile => {
            reveal_strlit("workspace_read_file");
        },
        RuntimeHostCommand::AppExit => {
            reveal_strlit("app_exit");
        },
        RuntimeHostCommand::DesktopFilePreviewRead => {
            reveal_strlit("desktop_file_preview_read");
        },
        RuntimeHostCommand::Initialize => {
            reveal_strlit("initialize");
        },
        RuntimeHostCommand::PluginInstall => {
            reveal_strlit("plugin/install");
        },
        RuntimeHostCommand::PluginRemove => {
            reveal_strlit("plugin/remove");
        },
        RuntimeHostCommand::WorkspaceActivate => {
            reveal_strlit("workspace_activate");
        },
        RuntimeHostCommand::WorkspaceGet => {
            reveal_strlit("workspace_get");
        },
        RuntimeHostCommand::WorkspaceGitDiffGet => {
            reveal_strlit("workspace_git_diff_get");
        },
        RuntimeHostCommand::WorkspaceGitFileDiffGet => {
            reveal_strlit("workspace_git_file_diff_get");
        },
        RuntimeHostCommand::WorkspaceGitHubCliStatusGet => {
            reveal_strlit("workspace_git_github_cli_status_get");
        },
        RuntimeHostCommand::WorkspaceGitStatusGet => {
            reveal_strlit("workspace_git_status_get");
        },
        RuntimeHostCommand::WorkspaceOpenFolder => {
            reveal_strlit("workspace_open_folder");
        },
        RuntimeHostCommand::WorkspaceRemove => {
            reveal_strlit("workspace_remove");
        },
        RuntimeHostCommand::WorkspaceReset => {
            reveal_strlit("workspace_reset");
        },
        RuntimeHostCommand::WorkspaceRename => {
            reveal_strlit("workspace_rename");
        },
        RuntimeHostCommand::WorkspaceRevealFolder => {
            reveal_strlit("workspace_reveal_folder");
        },
    }
}

proof fn lemma_row_unmarked(command: RuntimeHostCommand)
    ensures
        unmarked(row(descriptor_of(command))),
{
    lemma_name_unmarked(command);
    reveal_strlit("| `");
    reveal_strlit("` | `");
    reveal_strlit("` | ");
    reveal_strlit("—");
    reveal_strlit(" |\n");
    let kind = operation_kind_name(operation_kind_of(command));
    let policy = retry_policy_name(retry_policy_of(command));
    assert(unmarked(kind)) by {
        reveal_strlit("read");
        reveal_strlit("desiredStateWrite");
        reveal_strlit("identityMutation");
        reveal_strlit("creation");
        reveal_strlit("oneShotAction");
    }
    assert(unmarked(policy)) by {
        reveal_strlit("safeRetry");
        reveal_strlit("sameOperationId");
        reveal_strlit("noAutomaticRetry");
    }
    assert(unmarked("| `"@) && unmarked("` | `"@) && unmarked("` | "@) && unmarked("—"@)
        && unmarked(" |\n"@));
    let name = command_name(command);
    assert(unmarked("| `"@ + name));
    assert(unmarked("| `"@ + name + "` | `"@));
    assert(unmarked("| `"@ + name + "` | `"@ + kind));
    assert(unmarked("| `"@ + name + "` | `"@ + kind + "` | `"@));
    assert(unmarked("| `"@ + name + "` | `"@ + kind + "` | `"@ + policy));
    assert(unmarked("| `"@ + name + "` | `"@ + kind + "` | `"@ + policy + "` | "@));
    assert(unmarked("| `"@ + name + "` | `"@ + kind + "` | `"@ + policy + "` | "@ + "—"@));
}

proof fn lemma_rows_unmarked(n: int, scope: HostCommandScope)
    requires
        0 <= n <= reference().len(),
    ensures
        unmarked(rows(reference().subrange(0, n), scope)),
    decreases n,
{
    if n > 0 {
        let part = reference().subrange(0, n);
        assert(part.subrange(0, n - 1) =~= reference().subrange(0, n - 1));
        lemma_rows_unmarked(n - 1, scope);
        lemma_row_unmarked(command_order()[n - 1]);
        assert(part[n - 1] == descriptor_of(command_order()[n - 1]));
    }
}

proof fn lemma_section_unmarked(scope: HostCommandScope, heading: Seq<char>)
    requires
        unmarked(heading),
    ensures
        unmarked(section(reference(), scope, heading)),
{
    let all = reference();
    lemma_rows_unmarked(all.len() as int, scope);
    assert(all.subrange(0, all.len() as int) =~= all);
    reveal_strlit("### ");
    reveal_strlit("\n");
    assert(unmarked(TABLE_HEAD@)) by {
        reveal_strlit(
            "\n\n| Method | Operation kind | Retry policy | Reconcile method |\n| --- | --- | --- | --- |\n",
        );
    }
    assert(unmarked("### "@) && unmarked("\n"@));
    assert(unmarked("### "@ + heading));
    assert(unmarked("### "@ + heading + TABLE_HEAD@));
    assert(unmarked("### "@ + heading + TABLE_HEAD@ + rows(all, scope)));
}

/// What stands between the markers of the generated part.
pub open spec fn registry_body(descriptors: Seq<DescriptorView>) -> Seq<char> {
    INTRODUCTION@ + section(descriptors, HostCommandScope::SharedRuntime, "Shared Runtime"@)
        + section(descriptors, HostCommandScope::ExecutionHost, "Execution Host"@) + section(
        descriptors,
        HostCommandScope::HostSurface,
        "Native Host surface"@,
    )
}

proof fn lemma_body_unmarked()
    ensures
        unmarked(registry_body(reference())),
        registry(reference()) == START_MARKER@ + registry_body(reference()) + END_MARKER@,
{
    let all = reference();
    assert(unmarked("Shared Runtime"@)) by {
        reveal_strlit("Shared Runtime");
    }
    assert(unmarked("Execution Host"@)) by {
        reveal_strlit("Execution Host");
    }
    assert(unmarked("Native Host surface"@)) by {
        reveal_strlit("Native Host surface");
    }
    lemma_introduction_unmarked();
    lemma_section_unmarked(HostCommandScope::SharedRuntime, "Shared Runtime"@);
    lemma_section_unmarked(HostCommandScope::ExecutionHost, "Execution Host"@);
    lemma_section_unmarked(HostCommandScope::HostSurface, "Native Host surface"@);
    let shared = section(all, HostCommandScope::SharedRuntime, "Shared Runtime"@);
    let execution = section(all, HostCommandScope::ExecutionHost, "Execution Host"@);
    let surface = section(all, HostCommandScope::HostSurface, "Native Host surface"@);
    assert(unmarked(INTRODUCTION@ + shared));
    assert(unmarked(INTRODUCTION@ + shared + execution));
    assert(registry(all) =~= START_MARKER@ + registry_body(all) + END_MARKER@);
}

proof fn lemma_introduction_unmarked()
    ensures
        unmarked(INTRODUCTION@),
{
    reveal_strlit(
        "\n\n`operationKind` classifies the observable effect: `read`, `desiredStateWrite`, `identityMutation`, `creation`, or `oneShotAction`. `retryPolicy` is one of `safeRetry`, `sameOperationId`, or `noAutomaticRetry`. A non-empty `reconcileMethod` names the registered method that observes or resumes an uncertain outcome.\n\n",
    );
}

/// Whether `marker` begins with `<`, which it has nowhere else, and has no carriage return.
pub open spec fn is_marker(marker: Seq<char>) -> bool {
    marker.len() > 0 && marker[0] == '<' && forall|i: int|
        0 < i < marker.len() ==> #[trigger] marker[i] != '<' && marker[i] != '\r'
}

proof fn lemma_markers()
    ensures
        is_marker(START_MARKER@),
        is_marker(END_MARKER@),
        START_MARKER@.len() > 5,
        END_MARKER@.len() > 5,
        START_MARKER@[5] != END_MARKER@[5],
{
    reveal_strlit("<!-- BEGIN GENERATED:RUNTIME_METHOD_REGISTRY -->");
    reveal_strlit("<!-- END GENERATED:RUNTIME_METHOD_REGISTRY -->");
}

/// Where a marker stands, the text has a `<` there and nowhere else in it.
proof fn lemma_marker_at(text: Seq<char>, marker: Seq<char>, at: int)
    requires
        occurs_at(text, marker, at),
    ensures
        forall|i: int| 0 <= i < marker.len() ==> #[trigger] text[at + i] == marker[i],
{
    assert forall|i: int| 0 <= i < marker.len() implies #[trigger] text[at + i] == marker[i] by {
        assert(text.subrange(at, at + marker.len())[i] == marker[i]);
    }
}

/// Between the markers of a text that holds them in order, a generated part with the markers round
/// a text in which none begins replaces what stands there, once and for all.
proof fn lemma_replace_settles(text: Seq<char>, body: Seq<char>, start: int, end: int)
    requires
        first_at(text, START_MARKER@, start),
        first_at(text, END_MARKER@, end),
        start < end,
        unmarked(body),
        without_returns(text),
    ensures
        ({
            let generated = START_MARKER@ + body + END_MARKER@;
            let out = text.subrange(0, start) + generated + text.subrange(
                end + END_MARKER@.len(),
                text.len() as int,
            );
            replaced(out, generated) == Ok::<Seq<char>, Seq<char>>(out)
        }),
{
    lemma_markers();
    let s = START_MARKER@;
    let e = END_MARKER@;
    let generated = s + body + e;
    let tail = text.subrange(end + e.len(), text.len() as int);
    let out = text.subrange(0, start) + generated + tail;
    let close = start + s.len() + body.len();
    lemma_marker_at(text, s, start);
    lemma_marker_at(text, e, end);
    assert(out.len() == start + generated.len() + tail.len());
    assert forall|i: int| 0 <= i < start implies #[trigger] out[i] == text[i] by {
    }
    assert forall|i: int| 0 <= i < generated.len() implies #[trigger] out[start + i]
        == generated[i] by {
    }
    assert forall|i: int| 0 <= i < s.len() implies #[trigger] out[start + i] == s[i] by {
        assert(generated[i] == s[i]);
    }
    assert forall|i: int| 0 <= i < e.len() implies #[trigger] out[close + i] == e[i] by {
        assert(out[start + (s.len() + body.len() + i)] == generated[s.len() + body.len() + i]);
    }
    assert forall|i: int| start < i < close implies #[trigger] out[i] != '<' by {
        assert(out[start + (i - start)] == generated[i - start]);
        if i < start + s.len() {
            assert(generated[i - start] == s[i - start]);
        } else {
            assert(generated[i - start] == body[i - start - s.len()]);
        }
    }
    // The first marker stands where it stood.
    assert(first_at(out, s, start)) by {
        assert(out.subrange(start, start + s.len()) =~= s) by {
            assert forall|i: int| 0 <= i < s.len() implies out.subrange(start, start + s.len())[i]
                == s[i] by {
                assert(out[start + i] == s[i]);
            }
        }
        assert forall|j: int| 0 <= j < start implies !#[trigger] occurs_at(out, s, j) by {
            if occurs_at(out, s, j) {
                lemma_marker_at(out, s, j);
                if j + s.len() > start {
                    assert(out[start + 0] == s[0]);
                    assert(out[j + (start - j)] == s[start - j]);
                } else {
                    assert forall|i: int| 0 <= i < s.len() implies text.subrange(
                        j,
                        j + s.len(),
                    )[i] == s[i] by {
                        assert(out[j + i] == s[i]);
                        assert(out[j + i] == text[j + i]);
                    }
                    assert(text.subrange(j, j + s.len()) =~= s);
                    assert(occurs_at(text, s, j));
                }
            }
        }
    }
    // The last marker stands at the end of the generated part.
    assert(first_at(out, e, close)) by {
        assert forall|i: int| 0 <= i < e.len() implies out.subrange(close, close + e.len())[i]
            == e[i] by {
            assert(out[close + i] == e[i]);
        }
        assert(out.subrange(close, close + e.len()) =~= e);
        assert forall|j: int| 0 <= j < close implies !#[trigger] occurs_at(out, e, j) by {
            if occurs_at(out, e, j) {
                lemma_marker_at(out, e, j);
                assert(out[j + 0] == e[0]);
                if j > start {
                    assert(out[j] != '<');
                } else if j == start {
                    assert(out[start + 5] == s[5]);
                    assert(out[j + 5] == e[5]);
                } else if j + e.len() > start {
                    assert(out[start + 0] == s[0]);
                    assert(out[j + (start - j)] == e[start - j]);
                } else {
                    assert forall|i: int| 0 <= i < e.len() implies text.subrange(
                        j,
                        j + e.len(),
                    )[i] == e[i] by {
                        assert(out[j + i] == e[i]);
                        assert(out[j + i] == text[j + i]);
                    }
                    assert(text.subrange(j, j + e.len()) =~= e);
                    assert(occurs_at(text, e, j));
                }
            }
        }
    }
    lemma_first_unique(out, s, start);
    lemma_first_unique(out, e, close);
    // No carriage return stands before a line feed.
    assert(without_returns(out)) by {
        assert forall|i: int, j: int|
            #![trigger out[i], out[j]]
            0 <= i && j == i + 1 && j < out.len() implies !(out[i] == '\r' && out[j] == '\n') by {
            let stop = start + generated.len();
            let shift = end + e.len() - stop;
            if j < start {
                assert(out[i] == text[i] && out[j] == text[j]);
            } else if i < start {
                assert(out[start + 0] == s[0]);
            } else if i < stop {
                let k = i - start;
                assert(out[start + k] == generated[k]);
                if k < s.len() {
                    assert(generated[k] == s[k]);
                } else if k < s.len() + body.len() {
                    assert(generated[k] == body[k - s.len()]);
                } else {
                    assert(generated[k] == e[k - s.len() - body.len()]);
                }
            } else {
                assert(out[i] == tail[i - stop] && out[j] == tail[j - stop]);
                assert(text[i + shift] == out[i] && text[j + shift] == out[j]);
            }
        }
    }
    lemma_line_feeds_kept(out);
    assert(out.subrange(0, start) =~= text.subrange(0, start));
    assert(out.subrange(close + e.len(), out.len() as int) =~= tail);
}

/// Replacing the generated part in a document where it was replaced changes nothing, unless the
/// document had a line feed after two carriage returns.
pub proof fn law_replacing_settles(document: Seq<char>)
    requires
        !doubled_return(document),
        replaced(document, registry(reference())) is Ok,
    ensures
        ({
            let out = replaced(document, registry(reference()))->Ok_0;
            replaced(out, registry(reference())) == Ok::<Seq<char>, Seq<char>>(out)
        }),
{
    let text = line_feeds_only(document);
    lemma_line_feeds_only(document);
    lemma_body_unmarked();
    let start = first_occurrence(text, START_MARKER@)->0;
    let end = first_occurrence(text, END_MARKER@)->0;
    assert(first_at(text, START_MARKER@, start));
    assert(first_at(text, END_MARKER@, end));
    lemma_replace_settles(text, registry_body(reference()), start, end);
}

/// What the generator of the documents is asked to do.
#[derive(Clone, Copy, Debug, PartialEq, Eq, Structural)]
pub enum GeneratorMode {
    Check,
    Write,
}

/// What the arguments ask of the generator; an unknown mode is only found once the documents have
/// been read.
pub open spec fn generator_argument(arguments: Seq<Seq<char>>) -> Result<Seq<char>, Seq<char>> {
    if arguments.len() == 0 {
        Err("usage: centaeris-runtime-protocol-docs (--check|--write)"@)
    } else if arguments.len() != 1 {
        Err("runtime protocol documentation generator accepts one argument"@)
    } else {
        Ok(arguments[0])
    }
}

/// The one argument of the generator.
pub fn require_generator_argument(arguments: &Vec<String>) -> (result: Result<String, String>)
    ensures
        agrees(result, |text: String| text@, generator_argument(texts(arguments@))),
{
    if arguments.len() == 0 {
        return Err("usage: centaeris-runtime-protocol-docs (--check|--write)".to_owned());
    }
    if arguments.len() != 1 {
        return Err("runtime protocol documentation generator accepts one argument".to_owned());
    }
    Ok(arguments[0].clone())
}

/// What the generator is asked to do by its one argument.
pub fn generator_mode(argument: &str) -> (result: Result<GeneratorMode, String>)
    ensures
        agrees(
            result,
            |mode: GeneratorMode| mode,
            if argument@ == "--check"@ {
                Ok(GeneratorMode::Check)
            } else if argument@ == "--write"@ {
                Ok(GeneratorMode::Write)
            } else {
                Err("unsupported generator mode: "@ + argument@)
            },
        ),
{
    proof {
        reveal_strlit("--check");
        reveal_strlit("--write");
        assert("--check"@[2] != "--write"@[2]);
    }
    if text_equals(argument, "--check") {
        Ok(GeneratorMode::Check)
    } else if text_equals(argument, "--write") {
        Ok(GeneratorMode::Write)
    } else {
        Err(concat2("unsupported generator mode: ", argument))
    }
}

/// Accepts documents that hold what is generated now, apart from their line ends.
pub fn check_documents(
    current_reference: &str,
    updated_reference: &str,
    current_manifest: &str,
    updated_manifest: &str,
) -> (result: Result<(), String>)
    ensures
        match result {
            Ok(_) => line_feeds_only(current_reference@) == updated_reference@ && line_feeds_only(
                current_manifest@,
            ) == updated_manifest@,
            Err(message) => !(line_feeds_only(current_reference@) == updated_reference@
                && line_feeds_only(current_manifest@) == updated_manifest@) && message@
                == "generated Runtime protocol artifacts are stale; run centaeris-runtime-protocol-docs --write"@,
        },
{
    let reference_current = text_equals(
        normalize_line_feeds(current_reference).as_str(),
        updated_reference,
    );
    let manifest_current = text_equals(
        normalize_line_feeds(current_manifest).as_str(),
        updated_manifest,
    );
    if reference_current && manifest_current {
        Ok(())
    } else {
        Err(
            "generated Runtime protocol artifacts are stale; run centaeris-runtime-protocol-docs --write".to_owned(),
        )
    }
}

proof fn lemma_no_suffix(name: Seq<char>, suffix: Seq<char>, at: int)
    requires
        0 <= at < suffix.len(),
        name.len() >= suffix.len() ==> name[name.len() - suffix.len() + at] != suffix[at],
    ensures
        !ends_with_text(name, suffix),
{
    if ends_with_text(name, suffix) {
        assert(name.subrange(name.len() - suffix.len(), name.len() as int)[at] == suffix[at]);
    }
}

/// A command that gets or lists something by its name only reads, and is safe to be tried again; one
/// that deletes, removes or sets something by its name does not only read.
pub proof fn law_commands_read_as_their_names_say(command: RuntimeHostCommand)
    ensures
        ({
            let name = command_name(command);
            &&& ends_with_text(name, "_get"@) || ends_with_text(name, "list"@) ==> operation_kind_of(
                command,
            ) == RuntimeOperationKind::Read && retry_policy_of(command)
                == RuntimeRetryPolicy::SafeRetry
            &&& ends_with_text(name, "delete"@) || ends_with_text(name, "remove"@)
                ==> operation_kind_of(command) == RuntimeOperationKind::IdentityMutation
            &&& ends_with_text(name, "set_enabled"@) || ends_with_text(name, "activate"@)
                ==> operation_kind_of(command) == RuntimeOperationKind::DesiredStateWrite
        }),
{
    reveal_strlit("_get");
    reveal_strlit("list");
    reveal_strlit("delete");
    reveal_strlit("remove");
    reveal_strlit("set_enabled");
    reveal_strlit("activate");
    match command {
        RuntimeHostCommand::AgentContextUsageGet => {
            reveal_strlit("agent_context_usage_get");
            assert("agent_context_usage_get"@.subrange(19, 23) =~= "_get"@);
            lemma_no_suffix("agent_context_usage_get"@, "list"@, 0);
            lemma_no_suffix("agent_context_usage_get"@, "delete"@, 0);
            lemma_no_suffix("agent_context_usage_get"@, "remove"@, 0);
            lemma_no_suffix("agent_context_usage_get"@, "set_enabled"@, 0);
            lemma_no_suffix("agent_context_usage_get"@, "activate"@, 0);
        },
        RuntimeHostCommand::AgentContextCompact => {
            reveal_strlit("_centaeris/session/compact_context");
            lemma_no_suffix("_centaeris/session/compact_context"@, "_get"@, 0);
            lemma_no_suffix("_centaeris/session/compact_context"@, "list"@, 0);
            lemma_no_suffix("_centaeris/session/compact_context"@, "delete"@, 0);
            lemma_no_suffix("_centaeris/session/compact_context"@, "remove"@, 0);
            lemma_no_suffix("_centaeris/session/compact_context"@, "set_enabled"@, 0);
            lemma_no_suffix("_centaeris/session/compact_context"@, "activate"@, 0);
        },
        RuntimeHostCommand::AgentDeadLetterDismiss => {
            reveal_strlit("agent_dead_letter_dismiss");
            lemma_no_suffix("agent_dead_letter_dismiss"@, "_get"@, 0);
            lemma_no_suffix("agent_dead_letter_dismiss"@, "list"@, 0);
            lemma_no_suffix("agent_dead_letter_dismiss"@, "delete"@, 0);
            lemma_no_suffix("agent_dead_letter_dismiss"@, "remove"@, 0);
            lemma_no_suffix("agent_dead_letter_dismiss"@, "set_enabled"@, 0);
            lemma_no_suffix("agent_dead_letter_dismiss"@, "activate"@, 0);
        },
        RuntimeHostCommand::AgentDeadLetterGet => {
            reveal_strlit("agent_dead_letter_get");
            assert("agent_dead_letter_get"@.subrange(17, 21) =~= "_get"@);
            lemma_no_suffix("agent_dead_letter_get"@, "list"@, 0);
            lemma_no_suffix("agent_dead_letter_get"@, "delete"@, 0);
            lemma_no_suffix("agent_dead_letter_get"@, "remove"@, 0);
            lemma_no_suffix("agent_dead_letter_get"@, "set_enabled"@, 0);
            lemma_no_suffix("agent_dead_letter_get"@, "activate"@, 0);
        },
        RuntimeHostCommand::AgentDeadLetterList => {
            reveal_strlit("agent_dead_letter_list");
            lemma_no_suffix("agent_dead_letter_list"@, "_get"@, 0);
            assert("agent_dead_letter_list"@.subrange(18, 22) =~= "list"@);
            lemma_no_suffix("agent_dead_letter_list"@, "delete"@, 0);
            lemma_no_suffix("agent_dead_letter_list"@, "remove"@, 1);
            lemma_no_suffix("agent_dead_letter_list"@, "set_enabled"@, 0);
            lemma_no_suffix("agent_dead_letter_list"@, "activate"@, 0);
        },
        RuntimeHostCommand::AgentDeadLetterReplay => {
            reveal_strlit("agent_dead_letter_replay");
            lemma_no_suffix("agent_dead_letter_replay"@, "_get"@, 0);
            lemma_no_suffix("agent_dead_letter_replay"@, "list"@, 0);
            lemma_no_suffix("agent_dead_letter_replay"@, "delete"@, 0);
            lemma_no_suffix("agent_dead_letter_replay"@, "remove"@, 2);
            lemma_no_suffix("agent_dead_letter_replay"@, "set_enabled"@, 0);
            lemma_no_suffix("agent_dead_letter_replay"@, "activate"@, 0);
        },
        RuntimeHostCommand::SessionActivate => {
            reveal_strlit("_centaeris/session/activate");
            lemma_no_suffix("_centaeris/session/activate"@, "_get"@, 0);
            lemma_no_suffix("_centaeris/session/activate"@, "list"@, 0);
            lemma_no_suffix("_centaeris/session/activate"@, "delete"@, 0);
            lemma_no_suffix("_centaeris/session/activate"@, "remove"@, 0);
            lemma_no_suffix("_centaeris/session/activate"@, "set_enabled"@, 0);
            assert("_centaeris/session/activate"@.subrange(19, 27) =~= "activate"@);
        },
        RuntimeHostCommand::AgentAnswerNow => {
            reveal_strlit("_centaeris/session/answer_now");
            lemma_no_suffix("_centaeris/session/answer_now"@, "_get"@, 1);
            lemma_no_suffix("_centaeris/session/answer_now"@, "list"@, 0);
            lemma_no_suffix("_centaeris/session/answer_now"@, "delete"@, 0);
            lemma_no_suffix("_centaeris/session/answer_now"@, "remove"@, 0);
            lemma_no_suffix("_centaeris/session/answer_now"@, "set_enabled"@, 0);
            lemma_no_suffix("_centaeris/session/answer_now"@, "activate"@, 0);
        },
        RuntimeHostCommand::AgentQuestionAnswer => {
            reveal_strlit("_centaeris/session/answer_question");
            lemma_no_suffix("_centaeris/session/answer_question"@, "_get"@, 0);
            lemma_no_suffix("_centaeris/session/answer_question"@, "list"@, 0);
            lemma_no_suffix("_centaeris/session/answer_question"@, "delete"@, 0);
            lemma_no_suffix("_centaeris/session/answer_question"@, "remove"@, 0);
            lemma_no_suffix("_centaeris/session/answer_question"@, "set_enabled"@, 0);
            lemma_no_suffix("_centaeris/session/answer_question"@, "activate"@, 0);
        },
        RuntimeHostCommand::SessionDelete => {
            reveal_strlit("_centaeris/session/delete");
            lemma_no_suffix("_centaeris/session/delete"@, "_get"@, 0);
            lemma_no_suffix("_centaeris/session/delete"@, "list"@, 1);
            assert("_centaeris/session/delete"@.subrange(19, 25) =~= "delete"@);
            lemma_no_suffix("_centaeris/session/delete"@, "remove"@, 0);
            lemma_no_suffix("_centaeris/session/delete"@, "set_enabled"@, 1);
            lemma_no_suffix("_centaeris/session/delete"@, "activate"@, 0);
        },
        RuntimeHostCommand::SessionDiagnostics => {
            reveal_strlit("_centaeris/session/diagnostics");
            lemma_no_suffix("_centaeris/session/diagnostics"@, "_get"@, 0);
            lemma_no_suffix("_centaeris/session/diagnostics"@, "list"@, 0);
            lemma_no_suffix("_centaeris/session/diagnostics"@, "delete"@, 0);
            lemma_no_suffix("_centaeris/session/diagnostics"@, "remove"@, 0);
            lemma_no_suffix("_centaeris/session/diagnostics"@, "set_enabled"@, 0);
            lemma_no_suffix("_centaeris/session/diagnostics"@, "activate"@, 0);
        },
        RuntimeHostCommand::SessionProjectionGet => {
            reveal_strlit("_centaeris/session/project");
            lemma_no_suffix("_centaeris/session/project"@, "_get"@, 0);
            lemma_no_suffix("_centaeris/session/project"@, "list"@, 0);
            lemma_no_suffix("_centaeris/session/project"@, "delete"@, 0);
            lemma_no_suffix("_centaeris/session/project"@, "remove"@, 1);
            lemma_no_suffix("_centaeris/session/project"@, "set_enabled"@, 0);
            lemma_no_suffix("_centaeris/session/project"@, "activate"@, 0);
        },
        RuntimeHostCommand::SessionReorder => {
            reveal_strlit("_centaeris/session/reorder");
            lemma_no_suffix("_centaeris/session/reorder"@, "_get"@, 0);
            lemma_no_suffix("_centaeris/session/reorder"@, "list"@, 0);
            lemma_no_suffix("_centaeris/session/reorder"@, "delete"@, 0);
            lemma_no_suffix("_centaeris/session/reorder"@, "remove"@, 0);
            lemma_no_suffix("_centaeris/session/reorder"@, "set_enabled"@, 0);
            lemma_no_suffix("_centaeris/session/reorder"@, "activate"@, 0);
        },
        RuntimeHostCommand::AgentRunList => {
            reveal_strlit("_centaeris/session/agent-runs");
            lemma_no_suffix("_centaeris/session/agent-runs"@, "_get"@, 0);
            lemma_no_suffix("_centaeris/session/agent-runs"@, "list"@, 0);
            lemma_no_suffix("_centaeris/session/agent-runs"@, "delete"@, 0);
            lemma_no_suffix("_centaeris/session/agent-runs"@, "remove"@, 0);
            lemma_no_suffix("_centaeris/session/agent-runs"@, "set_enabled"@, 0);
            lemma_no_suffix("_centaeris/session/agent-runs"@, "activate"@, 0);
        },
        RuntimeHostCommand::AgentRunStreamReplay => {
            reveal_strlit("_centaeris/session/agent-runs/replay");
            lemma_no_suffix("_centaeris/session/agent-runs/replay"@, "_get"@, 0);
            lemma_no_suffix("_centaeris/session/agent-runs/replay"@, "list"@, 0);
            lemma_no_suffix("_centaeris/session/agent-runs/replay"@, "delete"@, 0);
            lemma_no_suffix("_centaeris/session/agent-runs/replay"@, "remove"@, 2);
            lemma_no_suffix("_centaeris/session/agent-runs/replay"@, "set_enabled"@, 0);
            lemma_no_suffix("_centaeris/session/agent-runs/replay"@, "activate"@, 0);
        },
        RuntimeHostCommand::AgentRunAttach => {
            reveal_strlit("_centaeris/session/agent-runs/attach");
            lemma_no_suffix("_centaeris/session/agent-runs/attach"@, "_get"@, 0);
            lemma_no_suffix("_centaeris/session/agent-runs/attach"@, "list"@, 0);
            lemma_no_suffix("_centaeris/session/agent-runs/attach"@, "delete"@, 0);
            lemma_no_suffix("_centaeris/session/agent-runs/attach"@, "remove"@, 0);
            lemma_no_suffix("_centaeris/session/agent-runs/attach"@, "set_enabled"@, 0);
            lemma_no_suffix("_centaeris/session/agent-runs/attach"@, "activate"@, 0);
        },
        RuntimeHostCommand::AgentRunDetach => {
            reveal_strlit("_centaeris/session/agent-runs/detach");
            lemma_no_suffix("_centaeris/session/agent-runs/detach"@, "_get"@, 0);
            lemma_no_suffix("_centaeris/session/agent-runs/detach"@, "list"@, 0);
            lemma_no_suffix("_centaeris/session/agent-runs/detach"@, "delete"@, 2);
            lemma_no_suffix("_centaeris/session/agent-runs/detach"@, "remove"@, 0);
            lemma_no_suffix("_centaeris/session/agent-runs/detach"@, "set_enabled"@, 0);
            lemma_no_suffix("_centaeris/session/agent-runs/detach"@, "activate"@, 0);
        },
        RuntimeHostCommand::AgentRunDetachViewer => {
            reveal_strlit("_centaeris/session/agent-runs/detach-viewer");
            lemma_no_suffix("_centaeris/session/agent-runs/detach-viewer"@, "_get"@, 0);
            lemma_no_suffix("_centaeris/session/agent-runs/detach-viewer"@, "list"@, 0);
            lemma_no_suffix("_centaeris/session/agent-runs/detach-viewer"@, "delete"@, 0);
            lemma_no_suffix("_centaeris/session/agent-runs/detach-viewer"@, "remove"@, 0);
            lemma_no_suffix("_centaeris/session/agent-runs/detach-viewer"@, "set_enabled"@, 0);
            lemma_no_suffix("_centaeris/session/agent-runs/detach-viewer"@, "activate"@, 0);
        },
        RuntimeHostCommand::AgentRunCancel => {
            reveal_strlit("_centaeris/session/agent-runs/cancel");
            lemma_no_suffix("_centaeris/session/agent-runs/cancel"@, "_get"@, 0);
            lemma_no_suffix("_centaeris/session/agent-runs/cancel"@, "list"@, 0);
            lemma_no_suffix("_centaeris/session/agent-runs/cancel"@, "delete"@, 0);
            lemma_no_suffix("_centaeris/session/agent-runs/cancel"@, "remove"@, 0);
            lemma_no_suffix("_centaeris/session/agent-runs/cancel"@, "set_enabled"@, 0);
            lemma_no_suffix("_centaeris/session/agent-runs/cancel"@, "activate"@, 0);
        },
        RuntimeHostCommand::AgentSupplement => {
            reveal_strlit("_centaeris/session/supplement");
            lemma_no_suffix("_centaeris/session/supplement"@, "_get"@, 0);
            lemma_no_suffix("_centaeris/session/supplement"@, "list"@, 0);
            lemma_no_suffix("_centaeris/session/supplement"@, "delete"@, 0);
            lemma_no_suffix("_centaeris/session/supplement"@, "remove"@, 0);
            lemma_no_suffix("_centaeris/session/supplement"@, "set_enabled"@, 0);
            lemma_no_suffix("_centaeris/session/supplement"@, "activate"@, 0);
        },
        RuntimeHostCommand::SessionUpdate => {
            reveal_strlit("_centaeris/session/update_metadata");
            lemma_no_suffix("_centaeris/session/update_metadata"@, "_get"@, 0);
            lemma_no_suffix("_centaeris/session/update_metadata"@, "list"@, 0);
            lemma_no_suffix("_centaeris/session/update_metadata"@, "delete"@, 0);
            lemma_no_suffix("_centaeris/session/update_metadata"@, "remove"@, 0);
            lemma_no_suffix("_centaeris/session/update_metadata"@, "set_enabled"@, 0);
            lemma_no_suffix("_centaeris/session/update_metadata"@, "activate"@, 0);
        },
        RuntimeHostCommand::AgentRuntimeConfigGet => {
            reveal_strlit("agent_runtime_config_get");
            assert("agent_runtime_config_get"@.subrange(20, 24) =~= "_get"@);
            lemma_no_suffix("agent_runtime_config_get"@, "list"@, 0);
            lemma_no_suffix("agent_runtime_config_get"@, "delete"@, 0);
            lemma_no_suffix("agent_runtime_config_get"@, "remove"@, 0);
            lemma_no_suffix("agent_runtime_config_get"@, "set_enabled"@, 0);
            lemma_no_suffix("agent_runtime_config_get"@, "activate"@, 0);
        },
        RuntimeHostCommand::AgentRuntimeConfigReset => {
            reveal_strlit("agent_runtime_config_reset");
            lemma_no_suffix("agent_runtime_config_reset"@, "_get"@, 0);
            lemma_no_suffix("agent_runtime_config_reset"@, "list"@, 0);
            lemma_no_suffix("agent_runtime_config_reset"@, "delete"@, 0);
            lemma_no_suffix("agent_runtime_config_reset"@, "remove"@, 0);
            lemma_no_suffix("agent_runtime_config_reset"@, "set_enabled"@, 0);
            lemma_no_suffix("agent_runtime_config_reset"@, "activate"@, 0);
        },
        RuntimeHostCommand::AgentRuntimeConfigSet => {
            reveal_strlit("agent_runtime_config_set");
            lemma_no_suffix("agent_runtime_config_set"@, "_get"@, 1);
            lemma_no_suffix("agent_runtime_config_set"@, "list"@, 0);
            lemma_no_suffix("agent_runtime_config_set"@, "delete"@, 0);
            lemma_no_suffix("agent_runtime_config_set"@, "remove"@, 0);
            lemma_no_suffix("agent_runtime_config_set"@, "set_enabled"@, 0);
            lemma_no_suffix("agent_runtime_config_set"@, "activate"@, 0);
        },
        RuntimeHostCommand::AgentRuntimeModelTest => {
            reveal_strlit("agent_runtime_model_test");
            lemma_no_suffix("agent_runtime_model_test"@, "_get"@, 0);
            lemma_no_suffix("agent_runtime_model_test"@, "list"@, 0);
            lemma_no_suffix("agent_runtime_model_test"@, "delete"@, 0);
            lemma_no_suffix("agent_runtime_model_test"@, "remove"@, 0);
            lemma_no_suffix("agent_runtime_model_test"@, "set_enabled"@, 0);
            lemma_no_suffix("agent_runtime_model_test"@, "activate"@, 0);
        },
        RuntimeHostCommand::McpCatalog => {
            reveal_strlit("mcp/catalog");
            lemma_no_suffix("mcp/catalog"@, "_get"@, 0);
            lemma_no_suffix("mcp/catalog"@, "list"@, 0);
            lemma_no_suffix("mcp/catalog"@, "delete"@, 0);
            lemma_no_suffix("mcp/catalog"@, "remove"@, 0);
            lemma_no_suffix("mcp/catalog"@, "set_enabled"@, 0);
            lemma_no_suffix("mcp/catalog"@, "activate"@, 0);
        },
        RuntimeHostCommand::McpConfigure => {
            reveal_strlit("mcp/configure");
            lemma_no_suffix("mcp/configure"@, "_get"@, 0);
            lemma_no_suffix("mcp/configure"@, "list"@, 0);
            lemma_no_suffix("mcp/configure"@, "delete"@, 0);
            lemma_no_suffix("mcp/configure"@, "remove"@, 0);
            lemma_no_suffix("mcp/configure"@, "set_enabled"@, 0);
            lemma_no_suffix("mcp/configure"@, "activate"@, 0);
        },
        RuntimeHostCommand::AgentRuntimeGarbageCollect => {
            reveal_strlit("agent_runtime_garbage_collect");
            lemma_no_suffix("agent_runtime_garbage_collect"@, "_get"@, 0);
            lemma_no_suffix("agent_runtime_garbage_collect"@, "list"@, 1);
            lemma_no_suffix("agent_runtime_garbage_collect"@, "delete"@, 0);
            lemma_no_suffix("agent_runtime_garbage_collect"@, "remove"@, 0);
            lemma_no_suffix("agent_runtime_garbage_collect"@, "set_enabled"@, 0);
            lemma_no_suffix("agent_runtime_garbage_collect"@, "activate"@, 0);
        },
        RuntimeHostCommand::AgentRuntimeJobGet => {
            reveal_strlit("agent_runtime_job_get");
            assert("agent_runtime_job_get"@.subrange(17, 21) =~= "_get"@);
            lemma_no_suffix("agent_runtime_job_get"@, "list"@, 0);
            lemma_no_suffix("agent_runtime_job_get"@, "delete"@, 0);
            lemma_no_suffix("agent_runtime_job_get"@, "remove"@, 0);
            lemma_no_suffix("agent_runtime_job_get"@, "set_enabled"@, 0);
            lemma_no_suffix("agent_runtime_job_get"@, "activate"@, 0);
        },
        RuntimeHostCommand::AgentRuntimeJobList => {
            reveal_strlit("agent_runtime_job_list");
            lemma_no_suffix("agent_runtime_job_list"@, "_get"@, 0);
            assert("agent_runtime_job_list"@.subrange(18, 22) =~= "list"@);
            lemma_no_suffix("agent_runtime_job_list"@, "delete"@, 0);
            lemma_no_suffix("agent_runtime_job_list"@, "remove"@, 0);
            lemma_no_suffix("agent_runtime_job_list"@, "set_enabled"@, 0);
            lemma_no_suffix("agent_runtime_job_list"@, "activate"@, 0);
        },
        RuntimeHostCommand::AgentStateGet => {
            reveal_strlit("agent_state_get");
            assert("agent_state_get"@.subrange(11, 15) =~= "_get"@);
            lemma_no_suffix("agent_state_get"@, "list"@, 0);
            lemma_no_suffix("agent_state_get"@, "delete"@, 0);
            lemma_no_suffix("agent_state_get"@, "remove"@, 0);
            lemma_no_suffix("agent_state_get"@, "set_enabled"@, 0);
            lemma_no_suffix("agent_state_get"@, "activate"@, 0);
        },
        RuntimeHostCommand::TranscriptProjection => {
            reveal_strlit("transcript/project");
            lemma_no_suffix("transcript/project"@, "_get"@, 0);
            lemma_no_suffix("transcript/project"@, "list"@, 0);
            lemma_no_suffix("transcript/project"@, "delete"@, 0);
            lemma_no_suffix("transcript/project"@, "remove"@, 1);
            lemma_no_suffix("transcript/project"@, "set_enabled"@, 0);
            lemma_no_suffix("transcript/project"@, "activate"@, 0);
        },
        RuntimeHostCommand::PluginCatalogState => {
            reveal_strlit("plugin/catalog_state");
            lemma_no_suffix("plugin/catalog_state"@, "_get"@, 0);
            lemma_no_suffix("plugin/catalog_state"@, "list"@, 0);
            lemma_no_suffix("plugin/catalog_state"@, "delete"@, 0);
            lemma_no_suffix("plugin/catalog_state"@, "remove"@, 0);
            lemma_no_suffix("plugin/catalog_state"@, "set_enabled"@, 0);
            lemma_no_suffix("plugin/catalog_state"@, "activate"@, 0);
        },
        RuntimeHostCommand::SkillSourceList => {
            reveal_strlit("skill/source/list");
            lemma_no_suffix("skill/source/list"@, "_get"@, 0);
            assert("skill/source/list"@.subrange(13, 17) =~= "list"@);
            lemma_no_suffix("skill/source/list"@, "delete"@, 0);
            lemma_no_suffix("skill/source/list"@, "remove"@, 0);
            lemma_no_suffix("skill/source/list"@, "set_enabled"@, 1);
            lemma_no_suffix("skill/source/list"@, "activate"@, 0);
        },
        RuntimeHostCommand::SkillSourceAdd => {
            reveal_strlit("skill/source/add");
            lemma_no_suffix("skill/source/add"@, "_get"@, 0);
            lemma_no_suffix("skill/source/add"@, "list"@, 0);
            lemma_no_suffix("skill/source/add"@, "delete"@, 0);
            lemma_no_suffix("skill/source/add"@, "remove"@, 0);
            lemma_no_suffix("skill/source/add"@, "set_enabled"@, 0);
            lemma_no_suffix("skill/source/add"@, "activate"@, 0);
        },
        RuntimeHostCommand::SkillSourceRemove => {
            reveal_strlit("skill/source/remove");
            lemma_no_suffix("skill/source/remove"@, "_get"@, 0);
            lemma_no_suffix("skill/source/remove"@, "list"@, 0);
            lemma_no_suffix("skill/source/remove"@, "delete"@, 0);
            assert("skill/source/remove"@.subrange(13, 19) =~= "remove"@);
            lemma_no_suffix("skill/source/remove"@, "set_enabled"@, 0);
            lemma_no_suffix("skill/source/remove"@, "activate"@, 0);
        },
        RuntimeHostCommand::SkillSourceSetEnabled => {
            reveal_strlit("skill/source/set_enabled");
            lemma_no_suffix("skill/source/set_enabled"@, "_get"@, 0);
            lemma_no_suffix("skill/source/set_enabled"@, "list"@, 0);
            lemma_no_suffix("skill/source/set_enabled"@, "delete"@, 0);
            lemma_no_suffix("skill/source/set_enabled"@, "remove"@, 0);
            assert("skill/source/set_enabled"@.subrange(13, 24) =~= "set_enabled"@);
            lemma_no_suffix("skill/source/set_enabled"@, "activate"@, 0);
        },
        RuntimeHostCommand::SkillSourceRef => {
            reveal_strlit("skill/source/ref");
            lemma_no_suffix("skill/source/ref"@, "_get"@, 0);
            lemma_no_suffix("skill/source/ref"@, "list"@, 0);
            lemma_no_suffix("skill/source/ref"@, "delete"@, 0);
            lemma_no_suffix("skill/source/ref"@, "remove"@, 0);
            lemma_no_suffix("skill/source/ref"@, "set_enabled"@, 0);
            lemma_no_suffix("skill/source/ref"@, "activate"@, 0);
        },
        RuntimeHostCommand::SkillCatalog => {
            reveal_strlit("skill/catalog");
            lemma_no_suffix("skill/catalog"@, "_get"@, 0);
            lemma_no_suffix("skill/catalog"@, "list"@, 0);
            lemma_no_suffix("skill/catalog"@, "delete"@, 0);
            lemma_no_suffix("skill/catalog"@, "remove"@, 0);
            lemma_no_suffix("skill/catalog"@, "set_enabled"@, 0);
            lemma_no_suffix("skill/catalog"@, "activate"@, 0);
        },
        RuntimeHostCommand::SkillDetail => {
            reveal_strlit("skill/detail");
            lemma_no_suffix("skill/detail"@, "_get"@, 0);
            lemma_no_suffix("skill/detail"@, "list"@, 0);
            lemma_no_suffix("skill/detail"@, "delete"@, 2);
            lemma_no_suffix("skill/detail"@, "remove"@, 0);
            lemma_no_suffix("skill/detail"@, "set_enabled"@, 0);
            lemma_no_suffix("skill/detail"@, "activate"@, 0);
        },
        RuntimeHostCommand::SkillSetEnabled => {
            reveal_strlit("skill/set_enabled");
            lemma_no_suffix("skill/set_enabled"@, "_get"@, 0);
            lemma_no_suffix("skill/set_enabled"@, "list"@, 0);
            lemma_no_suffix("skill/set_enabled"@, "delete"@, 0);
            lemma_no_suffix("skill/set_enabled"@, "remove"@, 0);
            assert("skill/set_enabled"@.subrange(6, 17) =~= "set_enabled"@);
            lemma_no_suffix("skill/set_enabled"@, "activate"@, 0);
        },
        RuntimeHostCommand::SkillReload => {
            reveal_strlit("skill/reload");
            lemma_no_suffix("skill/reload"@, "_get"@, 0);
            lemma_no_suffix("skill/reload"@, "list"@, 1);
            lemma_no_suffix("skill/reload"@, "delete"@, 0);
            lemma_no_suffix("skill/reload"@, "remove"@, 2);
            lemma_no_suffix("skill/reload"@, "set_enabled"@, 0);
            lemma_no_suffix("skill/reload"@, "activate"@, 0);
        },
        RuntimeHostCommand::PluginDetail => {
            reveal_strlit("plugin/detail");
            lemma_no_suffix("plugin/detail"@, "_get"@, 0);
            lemma_no_suffix("plugin/detail"@, "list"@, 0);
            lemma_no_suffix("plugin/detail"@, "delete"@, 2);
            lemma_no_suffix("plugin/detail"@, "remove"@, 0);
            lemma_no_suffix("plugin/detail"@, "set_enabled"@, 0);
            lemma_no_suffix("plugin/detail"@, "activate"@, 0);
        },
        RuntimeHostCommand::PluginList => {
            reveal_strlit("plugin/list");
            lemma_no_suffix("plugin/list"@, "_get"@, 0);
            assert("plugin/list"@.subrange(7, 11) =~= "list"@);
            lemma_no_suffix("plugin/list"@, "delete"@, 0);
            lemma_no_suffix("plugin/list"@, "remove"@, 0);
            lemma_no_suffix("plugin/list"@, "set_enabled"@, 0);
            lemma_no_suffix("plugin/list"@, "activate"@, 0);
        },
        RuntimeHostCommand::PluginReload => {
            reveal_strlit("plugin/reload");
            lemma_no_suffix("plugin/reload"@, "_get"@, 0);
            lemma_no_suffix("plugin/reload"@, "list"@, 1);
            lemma_no_suffix("plugin/reload"@, "delete"@, 0);
            lemma_no_suffix("plugin/reload"@, "remove"@, 2);
            lemma_no_suffix("plugin/reload"@, "set_enabled"@, 0);
            lemma_no_suffix("plugin/reload"@, "activate"@, 0);
        },
        RuntimeHostCommand::PluginSetEnabled => {
            reveal_strlit("plugin/set_enabled");
            lemma_no_suffix("plugin/set_enabled"@, "_get"@, 0);
            lemma_no_suffix("plugin/set_enabled"@, "list"@, 0);
            lemma_no_suffix("plugin/set_enabled"@, "delete"@, 0);
            lemma_no_suffix("plugin/set_enabled"@, "remove"@, 0);
            assert("plugin/set_enabled"@.subrange(7, 18) =~= "set_enabled"@);
            lemma_no_suffix("plugin/set_enabled"@, "activate"@, 0);
        },
        RuntimeHostCommand::PluginSourceRef => {
            reveal_strlit("plugin/source_ref");
            lemma_no_suffix("plugin/source_ref"@, "_get"@, 1);
            lemma_no_suffix("plugin/source_ref"@, "list"@, 0);
            lemma_no_suffix("plugin/source_ref"@, "delete"@, 0);
            lemma_no_suffix("plugin/source_ref"@, "remove"@, 0);
            lemma_no_suffix("plugin/source_ref"@, "set_enabled"@, 0);
            lemma_no_suffix("plugin/source_ref"@, "activate"@, 0);
        },
        RuntimeHostCommand::SessionList => {
            reveal_strlit("session/list");
            lemma_no_suffix("session/list"@, "_get"@, 0);
            assert("session/list"@.subrange(8, 12) =~= "list"@);
            lemma_no_suffix("session/list"@, "delete"@, 0);
            lemma_no_suffix("session/list"@, "remove"@, 0);
            lemma_no_suffix("session/list"@, "set_enabled"@, 0);
            lemma_no_suffix("session/list"@, "activate"@, 0);
        },
        RuntimeHostCommand::SessionGet => {
            reveal_strlit("session/load");
            lemma_no_suffix("session/load"@, "_get"@, 0);
            lemma_no_suffix("session/load"@, "list"@, 1);
            lemma_no_suffix("session/load"@, "delete"@, 0);
            lemma_no_suffix("session/load"@, "remove"@, 0);
            lemma_no_suffix("session/load"@, "set_enabled"@, 0);
            lemma_no_suffix("session/load"@, "activate"@, 0);
        },
        RuntimeHostCommand::SessionCreate => {
            reveal_strlit("session/new");
            lemma_no_suffix("session/new"@, "_get"@, 0);
            lemma_no_suffix("session/new"@, "list"@, 0);
            lemma_no_suffix("session/new"@, "delete"@, 0);
            lemma_no_suffix("session/new"@, "remove"@, 0);
            lemma_no_suffix("session/new"@, "set_enabled"@, 2);
            lemma_no_suffix("session/new"@, "activate"@, 0);
        },
        RuntimeHostCommand::AgentInput => {
            reveal_strlit("session/prompt");
            lemma_no_suffix("session/prompt"@, "_get"@, 0);
            lemma_no_suffix("session/prompt"@, "list"@, 0);
            lemma_no_suffix("session/prompt"@, "delete"@, 0);
            lemma_no_suffix("session/prompt"@, "remove"@, 0);
            lemma_no_suffix("session/prompt"@, "set_enabled"@, 1);
            lemma_no_suffix("session/prompt"@, "activate"@, 0);
        },
        RuntimeHostCommand::ProcessCapture => {
            reveal_strlit("process_capture");
            lemma_no_suffix("process_capture"@, "_get"@, 0);
            lemma_no_suffix("process_capture"@, "list"@, 0);
            lemma_no_suffix("process_capture"@, "delete"@, 0);
            lemma_no_suffix("process_capture"@, "remove"@, 0);
            lemma_no_suffix("process_capture"@, "set_enabled"@, 0);
            lemma_no_suffix("process_capture"@, "activate"@, 0);
        },
        RuntimeHostCommand::SidecarList => {
            reveal_strlit("sidecar_list");
            lemma_no_suffix("sidecar_list"@, "_get"@, 0);
            assert("sidecar_list"@.subrange(8, 12) =~= "list"@);
            lemma_no_suffix("sidecar_list"@, "delete"@, 0);
            lemma_no_suffix("sidecar_list"@, "remove"@, 1);
            lemma_no_suffix("sidecar_list"@, "set_enabled"@, 0);
            lemma_no_suffix("sidecar_list"@, "activate"@, 0);
        },
        RuntimeHostCommand::SidecarStart => {
            reveal_strlit("sidecar_start");
            lemma_no_suffix("sidecar_start"@, "_get"@, 0);
            lemma_no_suffix("sidecar_start"@, "list"@, 0);
            lemma_no_suffix("sidecar_start"@, "delete"@, 0);
            lemma_no_suffix("sidecar_start"@, "remove"@, 0);
            lemma_no_suffix("sidecar_start"@, "set_enabled"@, 0);
            lemma_no_suffix("sidecar_start"@, "activate"@, 1);
        },
        RuntimeHostCommand::SidecarStop => {
            reveal_strlit("sidecar_stop");
            lemma_no_suffix("sidecar_stop"@, "_get"@, 0);
            lemma_no_suffix("sidecar_stop"@, "list"@, 0);
            lemma_no_suffix("sidecar_stop"@, "delete"@, 0);
            lemma_no_suffix("sidecar_stop"@, "remove"@, 1);
            lemma_no_suffix("sidecar_stop"@, "set_enabled"@, 0);
            lemma_no_suffix("sidecar_stop"@, "activate"@, 0);
        },
        RuntimeHostCommand::WorkspaceFileTree => {
            reveal_strlit("workspace_file_tree");
            lemma_no_suffix("workspace_file_tree"@, "_get"@, 0);
            lemma_no_suffix("workspace_file_tree"@, "list"@, 0);
            lemma_no_suffix("workspace_file_tree"@, "delete"@, 0);
            lemma_no_suffix("workspace_file_tree"@, "remove"@, 0);
            lemma_no_suffix("workspace_file_tree"@, "set_enabled"@, 0);
            lemma_no_suffix("workspace_file_tree"@, "activate"@, 0);
        },
        RuntimeHostCommand::WorkspaceReadFile => {
            reveal_strlit("workspace_read_file");
            lemma_no_suffix("workspace_read_file"@, "_get"@, 0);
            lemma_no_suffix("workspace_read_file"@, "list"@, 0);
            lemma_no_suffix("workspace_read_file"@, "delete"@, 1);
            lemma_no_suffix("workspace_read_file"@, "remove"@, 0);
            lemma_no_suffix("workspace_read_file"@, "set_enabled"@, 0);
            lemma_no_suffix("workspace_read_file"@, "activate"@, 0);
        },
        RuntimeHostCommand::AppExit => {
            reveal_strlit("app_exit");
            lemma_no_suffix("app_exit"@, "_get"@, 0);
            lemma_no_suffix("app_exit"@, "list"@, 0);
            lemma_no_suffix("app_exit"@, "delete"@, 0);
            lemma_no_suffix("app_exit"@, "remove"@, 0);
            lemma_no_suffix("app_exit"@, "set_enabled"@, 0);
            lemma_no_suffix("app_exit"@, "activate"@, 1);
        },
        RuntimeHostCommand::DesktopFilePreviewRead => {
            reveal_strlit("desktop_file_preview_read");
            lemma_no_suffix("desktop_file_preview_read"@, "_get"@, 0);
            lemma_no_suffix("desktop_file_preview_read"@, "list"@, 0);
            lemma_no_suffix("desktop_file_preview_read"@, "delete"@, 0);
            lemma_no_suffix("desktop_file_preview_read"@, "remove"@, 0);
            lemma_no_suffix("desktop_file_preview_read"@, "set_enabled"@, 0);
            lemma_no_suffix("desktop_file_preview_read"@, "activate"@, 0);
        },
        RuntimeHostCommand::Initialize => {
            reveal_strlit("initialize");
            lemma_no_suffix("initialize"@, "_get"@, 0);
            lemma_no_suffix("initialize"@, "list"@, 2);
            lemma_no_suffix("initialize"@, "delete"@, 0);
            lemma_no_suffix("initialize"@, "remove"@, 0);
            lemma_no_suffix("initialize"@, "set_enabled"@, 0);
            lemma_no_suffix("initialize"@, "activate"@, 0);
        },
        RuntimeHostCommand::PluginInstall => {
            reveal_strlit("plugin/install");
            lemma_no_suffix("plugin/install"@, "_get"@, 0);
            lemma_no_suffix("plugin/install"@, "list"@, 0);
            lemma_no_suffix("plugin/install"@, "delete"@, 0);
            lemma_no_suffix("plugin/install"@, "remove"@, 0);
            lemma_no_suffix("plugin/install"@, "set_enabled"@, 0);
            lemma_no_suffix("plugin/install"@, "activate"@, 0);
        },
        RuntimeHostCommand::PluginRemove => {
            reveal_strlit("plugin/remove");
            lemma_no_suffix("plugin/remove"@, "_get"@, 0);
            lemma_no_suffix("plugin/remove"@, "list"@, 0);
            lemma_no_suffix("plugin/remove"@, "delete"@, 0);
            assert("plugin/remove"@.subrange(7, 13) =~= "remove"@);
            lemma_no_suffix("plugin/remove"@, "set_enabled"@, 0);
            lemma_no_suffix("plugin/remove"@, "activate"@, 0);
        },
        RuntimeHostCommand::WorkspaceActivate => {
            reveal_strlit("workspace_activate");
            lemma_no_suffix("workspace_activate"@, "_get"@, 0);
            lemma_no_suffix("workspace_activate"@, "list"@, 0);
            lemma_no_suffix("workspace_activate"@, "delete"@, 0);
            lemma_no_suffix("workspace_activate"@, "remove"@, 0);
            lemma_no_suffix("workspace_activate"@, "set_enabled"@, 0);
            assert("workspace_activate"@.subrange(10, 18) =~= "activate"@);
        },
        RuntimeHostCommand::WorkspaceGet => {
            reveal_strlit("workspace_get");
            assert("workspace_get"@.subrange(9, 13) =~= "_get"@);
            lemma_no_suffix("workspace_get"@, "list"@, 0);
            lemma_no_suffix("workspace_get"@, "delete"@, 0);
            lemma_no_suffix("workspace_get"@, "remove"@, 0);
            lemma_no_suffix("workspace_get"@, "set_enabled"@, 0);
            lemma_no_suffix("workspace_get"@, "activate"@, 0);
        },
        RuntimeHostCommand::WorkspaceGitDiffGet => {
            reveal_strlit("workspace_git_diff_get");
            assert("workspace_git_diff_get"@.subrange(18, 22) =~= "_get"@);
            lemma_no_suffix("workspace_git_diff_get"@, "list"@, 0);
            lemma_no_suffix("workspace_git_diff_get"@, "delete"@, 0);
            lemma_no_suffix("workspace_git_diff_get"@, "remove"@, 0);
            lemma_no_suffix("workspace_git_diff_get"@, "set_enabled"@, 0);
            lemma_no_suffix("workspace_git_diff_get"@, "activate"@, 0);
        },
        RuntimeHostCommand::WorkspaceGitFileDiffGet => {
            reveal_strlit("workspace_git_file_diff_get");
            assert("workspace_git_file_diff_get"@.subrange(23, 27) =~= "_get"@);
            lemma_no_suffix("workspace_git_file_diff_get"@, "list"@, 0);
            lemma_no_suffix("workspace_git_file_diff_get"@, "delete"@, 0);
            lemma_no_suffix("workspace_git_file_diff_get"@, "remove"@, 0);
            lemma_no_suffix("workspace_git_file_diff_get"@, "set_enabled"@, 0);
            lemma_no_suffix("workspace_git_file_diff_get"@, "activate"@, 0);
        },
        RuntimeHostCommand::WorkspaceGitHubCliStatusGet => {
            reveal_strlit("workspace_git_github_cli_status_get");
            assert("workspace_git_github_cli_status_get"@.subrange(31, 35) =~= "_get"@);
            lemma_no_suffix("workspace_git_github_cli_status_get"@, "list"@, 0);
            lemma_no_suffix("workspace_git_github_cli_status_get"@, "delete"@, 0);
            lemma_no_suffix("workspace_git_github_cli_status_get"@, "remove"@, 0);
            lemma_no_suffix("workspace_git_github_cli_status_get"@, "set_enabled"@, 0);
            lemma_no_suffix("workspace_git_github_cli_status_get"@, "activate"@, 1);
        },
        RuntimeHostCommand::WorkspaceGitStatusGet => {
            reveal_strlit("workspace_git_status_get");
            assert("workspace_git_status_get"@.subrange(20, 24) =~= "_get"@);
            lemma_no_suffix("workspace_git_status_get"@, "list"@, 0);
            lemma_no_suffix("workspace_git_status_get"@, "delete"@, 0);
            lemma_no_suffix("workspace_git_status_get"@, "remove"@, 0);
            lemma_no_suffix("workspace_git_status_get"@, "set_enabled"@, 0);
            lemma_no_suffix("workspace_git_status_get"@, "activate"@, 1);
        },
        RuntimeHostCommand::WorkspaceOpenFolder => {
            reveal_strlit("workspace_open_folder");
            lemma_no_suffix("workspace_open_folder"@, "_get"@, 0);
            lemma_no_suffix("workspace_open_folder"@, "list"@, 1);
            lemma_no_suffix("workspace_open_folder"@, "delete"@, 0);
            lemma_no_suffix("workspace_open_folder"@, "remove"@, 0);
            lemma_no_suffix("workspace_open_folder"@, "set_enabled"@, 0);
            lemma_no_suffix("workspace_open_folder"@, "activate"@, 0);
        },
        RuntimeHostCommand::WorkspaceRemove => {
            reveal_strlit("workspace_remove");
            lemma_no_suffix("workspace_remove"@, "_get"@, 0);
            lemma_no_suffix("workspace_remove"@, "list"@, 0);
            lemma_no_suffix("workspace_remove"@, "delete"@, 0);
            assert("workspace_remove"@.subrange(10, 16) =~= "remove"@);
            lemma_no_suffix("workspace_remove"@, "set_enabled"@, 0);
            lemma_no_suffix("workspace_remove"@, "activate"@, 0);
        },
        RuntimeHostCommand::WorkspaceReset => {
            reveal_strlit("workspace_reset");
            lemma_no_suffix("workspace_reset"@, "_get"@, 0);
            lemma_no_suffix("workspace_reset"@, "list"@, 0);
            lemma_no_suffix("workspace_reset"@, "delete"@, 0);
            lemma_no_suffix("workspace_reset"@, "remove"@, 0);
            lemma_no_suffix("workspace_reset"@, "set_enabled"@, 1);
            lemma_no_suffix("workspace_reset"@, "activate"@, 0);
        },
        RuntimeHostCommand::WorkspaceRename => {
            reveal_strlit("workspace_rename");
            lemma_no_suffix("workspace_rename"@, "_get"@, 0);
            lemma_no_suffix("workspace_rename"@, "list"@, 0);
            lemma_no_suffix("workspace_rename"@, "delete"@, 0);
            lemma_no_suffix("workspace_rename"@, "remove"@, 2);
            lemma_no_suffix("workspace_rename"@, "set_enabled"@, 0);
            lemma_no_suffix("workspace_rename"@, "activate"@, 0);
        },
        RuntimeHostCommand::WorkspaceRevealFolder => {
            reveal_strlit("workspace_reveal_folder");
            lemma_no_suffix("workspace_reveal_folder"@, "_get"@, 0);
            lemma_no_suffix("workspace_reveal_folder"@, "list"@, 1);
            lemma_no_suffix("workspace_reveal_folder"@, "delete"@, 0);
            lemma_no_suffix("workspace_reveal_folder"@, "remove"@, 0);
            lemma_no_suffix("workspace_reveal_folder"@, "set_enabled"@, 0);
            lemma_no_suffix("workspace_reveal_folder"@, "activate"@, 0);
        },
    }
}

/// The rows of a scope are those of its commands, one for each, in the order of the commands.
pub proof fn law_rows_follow_the_commands(
    descriptors: Seq<DescriptorView>,
    descriptor: DescriptorView,
    scope: HostCommandScope,
)
    ensures
        rows(Seq::empty(), scope) == Seq::<char>::empty(),
        descriptor.scope == scope ==> rows(descriptors.push(descriptor), scope) == rows(
            descriptors,
            scope,
        ) + row(descriptor),
        descriptor.scope != scope ==> rows(descriptors.push(descriptor), scope) == rows(
            descriptors,
            scope,
        ),
{
    let more = descriptors.push(descriptor);
    assert(more.subrange(0, more.len() - 1) =~= descriptors);
}

/// A document is written anew only between its markers: what stands before the first and behind the
/// last stays as it is.
pub proof fn law_documents_are_written_between_their_markers(
    before: Seq<char>,
    old_text: Seq<char>,
    after: Seq<char>,
    generated: Seq<char>,
)
    requires
        unmarked(before),
        unmarked(old_text),
        unmarked(after),
    ensures
        replaced(before + START_MARKER@ + old_text + END_MARKER@ + after, generated) == Ok::<
            Seq<char>,
            Seq<char>,
        >(before + generated + after),
{
    lemma_markers();
    let start = START_MARKER@;
    let end = END_MARKER@;
    let document = before + start + old_text + end + after;
    assert forall|i: int| 0 <= i < document.len() implies (#[trigger] document[i]) != '\r' by {
        let a = before.len() as int;
        let b = a + start.len();
        let c = b + old_text.len();
        let d = c + end.len();
        if i < a {
            assert(document[i] == before[i]);
        } else if i < b {
            assert(document[i] == start[i - a]);
        } else if i < c {
            assert(document[i] == old_text[i - b]);
        } else if i < d {
            assert(document[i] == end[i - c]);
        } else {
            assert(document[i] == after[i - d]);
        }
    }
    lemma_line_feeds_kept(document);
    assert(document.subrange(before.len() as int, (before.len() + start.len()) as int) =~= start);
    assert forall|j: int| 0 <= j < before.len() implies !#[trigger] occurs_at(document, start, j) by {
        if occurs_at(document, start, j) {
            assert(document.subrange(j, j + start.len())[0] == document[j]);
            assert(document[j] == before[j]);
        }
    }
    lemma_first_unique(document, start, before.len() as int);
    let at: int = before.len() + start.len() + old_text.len() as int;
    assert(document.subrange(at, at + end.len()) =~= end);
    assert forall|j: int| 0 <= j < at implies !#[trigger] occurs_at(document, end, j) by {
        if occurs_at(document, end, j) {
            let part = document.subrange(j, j + end.len());
            assert(part[0] == document[j]);
            if j < before.len() {
                assert(document[j] == before[j]);
            } else if j == before.len() {
                assert(part[5] == document[j + 5]);
                assert(document[j + 5] == start[5]);
            } else if j < before.len() + start.len() {
                assert(document[j] == start[j - before.len()]);
            } else {
                assert(document[j] == old_text[j - before.len() - start.len()]);
            }
        }
    }
    lemma_first_unique(document, end, at);
    assert(document.subrange(0, before.len() as int) =~= before);
    assert(document.subrange(at + end.len(), document.len() as int) =~= after);
}

/// The entry of a command in the manifest tells its name, its kind, its retry policy and its scope,
/// and the method that settles it where it has one.
pub proof fn law_manifest_entries_tell_their_command(descriptor: DescriptorView)
    ensures
        field(manifest_entry(descriptor), "name"@) == Some(JsonView::Text(descriptor.command)),
        field(manifest_entry(descriptor), "operationKind"@) == Some(
            JsonView::Text(operation_kind_name(descriptor.operation_kind)),
        ),
        field(manifest_entry(descriptor), "retryPolicy"@) == Some(
            JsonView::Text(retry_policy_name(descriptor.retry_policy)),
        ),
        field(manifest_entry(descriptor), "scope"@) == Some(
            JsonView::Text(
                match descriptor.scope {
                    HostCommandScope::SharedRuntime => "sharedRuntime"@,
                    HostCommandScope::ExecutionHost => "executionHost"@,
                    HostCommandScope::HostSurface => "hostSurface"@,
                },
            ),
        ),
        descriptor.reconcile_method matches Some(method) ==> field(
            manifest_entry(descriptor),
            "reconcileMethod"@,
        ) == Some(JsonView::Text(method)),
        descriptor.reconcile_method is None ==> field(
            manifest_entry(descriptor),
            "reconcileMethod"@,
        ) == Some(JsonView::Null),
{
    let entries = manifest_entry(descriptor)->Object_0;
    reveal_strlit("name");
    reveal_strlit("operationKind");
    reveal_strlit("reconcileMethod");
    reveal_strlit("retryPolicy");
    reveal_strlit("scope");
    assert("name"@.len() == 4 && "operationKind"@.len() == 13 && "reconcileMethod"@.len() == 15);
    assert("retryPolicy"@.len() == 11 && "scope"@.len() == 5);
    assert(entries[0].0 == "name"@ && entries[1].0 == "operationKind"@ && entries[2].0
        == "reconcileMethod"@ && entries[3].0 == "retryPolicy"@ && entries[4].0 == "scope"@);
    assert(keys_distinct(entries));
    lemma_entry_at(entries, 0);
    lemma_entry_at(entries, 1);
    lemma_entry_at(entries, 2);
    lemma_entry_at(entries, 3);
    lemma_entry_at(entries, 4);
}

/// The manifest lists the commands one for one, in their order.
pub proof fn law_manifests_list_every_command(descriptors: Seq<DescriptorView>, i: int)
    requires
        0 <= i < descriptors.len(),
    ensures
        field(manifest_value(descriptors), "methods"@) matches Some(JsonView::List(methods))
            && methods.len() == descriptors.len() && field(methods[i], "name"@) == Some(
            JsonView::Text(descriptors[i].command),
        ),
{
    let entries = manifest_value(descriptors)->Object_0;
    reveal_strlit("schema");
    reveal_strlit("methods");
    assert("schema"@.len() == 6 && "methods"@.len() == 7);
    assert(entries[0].0 == "schema"@ && entries[1].0 == "methods"@);
    assert(keys_distinct(entries));
    lemma_entry_at(entries, 1);
    law_manifest_entries_tell_their_command(descriptors[i]);
}

proof fn lemma_within(before: Seq<char>, middle: Seq<char>, after: Seq<char>, part: Seq<char>, at: int)
    requires
        occurs_at(middle, part, at),
    ensures
        occurs_at(before + middle + after, part, before.len() + at),
{
    let all = before + middle + after;
    let from = before.len() + at;
    assert(all.subrange(from, from + part.len()) =~= middle.subrange(at, at + part.len()));
}

proof fn lemma_row_in_rows(descriptors: Seq<DescriptorView>, i: int)
    requires
        0 <= i < descriptors.len(),
    ensures
        exists|at: int|
            #[trigger] occurs_at(rows(descriptors, descriptors[i].scope), row(descriptors[i]), at),
    decreases descriptors.len(),
{
    let n = descriptors.len() - 1;
    let scope = descriptors[i].scope;
    let init = descriptors.subrange(0, n);
    let all = rows(descriptors, scope);
    let before = rows(init, scope);
    let wanted = row(descriptors[i]);
    let none = Seq::<char>::empty();
    if i == n {
        assert(all.subrange(before.len() as int, before.len() + wanted.len() as int) =~= wanted);
        assert(occurs_at(all, wanted, before.len() as int));
    } else {
        assert(init[i] == descriptors[i]);
        lemma_row_in_rows(init, i);
        let at = choose|at: int| #[trigger] occurs_at(before, wanted, at);
        if descriptors[n].scope == scope {
            lemma_within(none, before, row(descriptors[n]), wanted, at);
            assert(none + before + row(descriptors[n]) =~= all);
        }
        assert(occurs_at(all, wanted, 0 + at));
    }
}

/// Every command has its row in the registry, between the two markers with which the registry begins
/// and ends; a row begins with the name of its command.
pub proof fn law_every_command_has_its_row(descriptors: Seq<DescriptorView>, i: int)
    requires
        0 <= i < descriptors.len(),
    ensures
        exists|at: int|
            #[trigger] occurs_at(registry(descriptors), row(descriptors[i]), at)
                && START_MARKER@.len() <= at,
        occurs_at(registry(descriptors), START_MARKER@, 0),
        ends_with_text(registry(descriptors), END_MARKER@),
        occurs_at(row(descriptors[i]), descriptors[i].command, 3),
{
    let all = registry(descriptors);
    let scope = descriptors[i].scope;
    let wanted = row(descriptors[i]);
    lemma_row_in_rows(descriptors, i);
    let list = rows(descriptors, scope);
    let at = choose|at: int| #[trigger] occurs_at(list, wanted, at);
    let heading = match scope {
        HostCommandScope::SharedRuntime => "Shared Runtime"@,
        HostCommandScope::ExecutionHost => "Execution Host"@,
        HostCommandScope::HostSurface => "Native Host surface"@,
    };
    let lead = "### "@ + heading + TABLE_HEAD@;
    let part = section(descriptors, scope, heading);
    lemma_within(lead, list, "\n"@, wanted, at);
    assert(lead + list + "\n"@ =~= part);
    let first = section(descriptors, HostCommandScope::SharedRuntime, "Shared Runtime"@);
    let second = section(descriptors, HostCommandScope::ExecutionHost, "Execution Host"@);
    let third = section(descriptors, HostCommandScope::HostSurface, "Native Host surface"@);
    let open = START_MARKER@ + INTRODUCTION@;
    let inner: int = lead.len() + at;
    let from: int = match scope {
        HostCommandScope::SharedRuntime => {
            lemma_within(open, part, second + third + END_MARKER@, wanted, inner);
            assert(open + part + (second + third + END_MARKER@) =~= all);
            open.len() + inner
        },
        HostCommandScope::ExecutionHost => {
            lemma_within(open + first, part, third + END_MARKER@, wanted, inner);
            assert((open + first) + part + (third + END_MARKER@) =~= all);
            (open + first).len() + inner
        },
        HostCommandScope::HostSurface => {
            lemma_within(open + first + second, part, END_MARKER@, wanted, inner);
            assert((open + first + second) + part + END_MARKER@ =~= all);
            (open + first + second).len() + inner
        },
    };
    assert(occurs_at(all, wanted, from));
    assert(all.subrange(0, START_MARKER@.len() as int) =~= START_MARKER@);
    assert(all.subrange(all.len() - END_MARKER@.len(), all.len() as int) =~= END_MARKER@);
    reveal_strlit("| `");
    let name = descriptors[i].command;
    assert(wanted.subrange(3, 3 + name.len() as int) =~= name);
}

} // verus!
