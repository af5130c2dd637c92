//! The host that runs local commands: which programs it runs, with what environment and input, and
//! how its failures are told.

use crate::process_output::{executes, CapturedOutput, ExecutionError, ExecutionErrorView};
use crate::sandbox_policy::NetworkAccess;
use crate::text::{
    chars_of, clone_texts, concat2, ends_with_text, lines, lines_of, optional_text, strip_prefix, after_prefix,
    text_equals, texts,
};
use crate::text_map::TextMap;
use vstd::prelude::*;

verus! {

/// The host that runs local commands.
#[derive(Debug)]
pub struct LocalExecutionHostRunner {
    pub bash_path: String,
    pub runtime_executable: String,
    /// What is set in the environment of every command.
    pub environment_overrides: Vec<(String, String)>,
    /// Whether operations run within this process and commands in the foreground.
    pub embedded_test: bool,
}

/// Where Bash is, for the path that was asked for and whether it is a file, whether the usual path
/// is one, and what the search path holds.
pub open spec fn bash_found(
    explicit: Option<(String, bool)>,
    usual_is_file: bool,
    on_path: Option<String>,
) -> Result<Seq<char>, ExecutionErrorView> {
    match explicit {
        Some((path, is_file)) => if is_file {
            Ok(path@)
        } else {
            Err(
                ExecutionErrorView::HostUnavailable(
                    "configured Bash executable is unavailable: "@ + path@,
                ),
            )
        },
        None => if usual_is_file {
            Ok("/bin/bash"@)
        } else {
            match on_path {
                Some(path) => Ok(path@),
                None => Err(
                    ExecutionErrorView::HostUnavailable(
                        "Bash is required but no Bash executable was found"@,
                    ),
                ),
            }
        },
    }
}

/// Where Bash is. A path that was asked for is not replaced by another.
pub fn resolve_bash_path(
    explicit: &Option<(String, bool)>,
    usual_is_file: bool,
    on_path: &Option<String>,
) -> (result: Result<String, ExecutionError>)
    ensures
        executes(
            result,
            |path: String| path@,
            bash_found(*explicit, usual_is_file, *on_path),
        ),
{
    match explicit {
        Some(asked) => if asked.1 {
            Ok(asked.0.clone())
        } else {
            Err(
                ExecutionError::host_unavailable(
                    concat2(
                        "configured Bash executable is unavailable: ",
                        asked.0.as_str(),
                    ).as_str(),
                ),
            )
        },
        None => if usual_is_file {
            Ok("/bin/bash".to_owned())
        } else {
            match on_path {
                Some(path) => Ok(path.clone()),
                None => Err(
                    ExecutionError::host_unavailable(
                        "Bash is required but no Bash executable was found",
                    ),
                ),
            }
        },
    }
}

/// Whether a text holds a character.
fn holds_char(text: &str, c: char) -> (result: bool)
    ensures
        result == text@.contains(c),
{
    let chars = chars_of(text);
    let mut i: usize = 0;
    while i < chars.len()
        invariant
            i <= chars.len(),
            chars@ == text@,
            forall|j: int| 0 <= j < i ==> text@[j] != c,
        decreases chars.len() - i,
    {
        if chars[i] == c {
            return true;
        }
        i = i + 1;
    }
    false
}

/// Whether a variable may be set in the environment of a command.
pub open spec fn valid_variable(key: Seq<char>, value: Seq<char>) -> bool {
    key.len() > 0 && !key.contains('\0') && !key.contains('=') && !value.contains('\0')
}

/// Whether a variable may be set in the environment of a command.
pub fn is_valid_variable(key: &str, value: &str) -> (result: bool)
    ensures
        result == valid_variable(key@, value@),
{
    !key.is_empty() && !holds_char(key, '\0') && !holds_char(key, '=') && !holds_char(value, '\0')
}

/// The contents of a list of pairs of texts.
pub open spec fn pair_views(pairs: Seq<(String, String)>) -> Seq<(Seq<char>, Seq<char>)> {
    Seq::new(pairs.len(), |i: int| (pairs[i].0@, pairs[i].1@))
}

/// What a program that was asked for by name is.
#[derive(Debug)]
pub enum ProgramLookup {
    /// It is an absolute path.
    Absolute,
    /// It is a path of several parts, which `joined` is below the working directory.
    Relative { joined: String },
    /// It is a name, which was searched for.
    Searched(Option<String>),
}

impl LocalExecutionHostRunner {
    /// A host whose runtime is at `runtime_executable`. `bash` is where Bash is.
    pub fn new_with_runtime_executable(
        bash: Result<String, ExecutionError>,
        runtime_executable: String,
        runtime_is_file: bool,
    ) -> (result: Result<LocalExecutionHostRunner, ExecutionError>)
        ensures
            match result {
                Ok(runner) => runtime_is_file && bash is Ok && runner.bash_path@ == bash->Ok_0@
                    && runner.runtime_executable@ == runtime_executable@
                    && runner.environment_overrides@.len() == 0 && !runner.embedded_test,
                Err(error) => if !runtime_is_file {
                    error@ == ExecutionErrorView::PolicyUnavailable(
                        "local Runtime executable is unavailable: "@ + runtime_executable@,
                    )
                } else {
                    bash matches Err(cause) && error@ == cause@
                },
            },
    {
        if !runtime_is_file {
            return Err(
                ExecutionError::policy_unavailable(
                    concat2(
                        "local Runtime executable is unavailable: ",
                        runtime_executable.as_str(),
                    ).as_str(),
                ),
            );
        }
        match bash {
            Ok(bash_path) => Ok(
                LocalExecutionHostRunner {
                    bash_path,
                    runtime_executable,
                    environment_overrides: Vec::new(),
                    embedded_test: false,
                },
            ),
            Err(error) => Err(error),
        }
    }

    /// A host whose runtime is the running program, which is at `current_executable`.
    pub fn new(
        bash: Result<String, ExecutionError>,
        current_executable: Result<String, String>,
        runtime_is_file: bool,
    ) -> (result: Result<LocalExecutionHostRunner, ExecutionError>)
        ensures
            match result {
                Ok(runner) => current_executable is Ok && runtime_is_file && bash is Ok
                    && runner.bash_path@ == bash->Ok_0@ && runner.runtime_executable@
                    == current_executable->Ok_0@ && runner.environment_overrides@.len() == 0
                    && !runner.embedded_test,
                Err(error) => match current_executable {
                    Err(cause) => error@ == ExecutionErrorView::PolicyUnavailable(
                        "resolve local Runtime executable failed: "@ + cause@,
                    ),
                    Ok(path) => if !runtime_is_file {
                        error@ == ExecutionErrorView::PolicyUnavailable(
                            "local Runtime executable is unavailable: "@ + path@,
                        )
                    } else {
                        bash matches Err(cause) && error@ == cause@
                    },
                },
            },
    {
        match current_executable {
            Err(error) => Err(
                ExecutionError::policy_unavailable(
                    concat2(
                        "resolve local Runtime executable failed: ",
                        error.as_str(),
                    ).as_str(),
                ),
            ),
            Ok(path) => LocalExecutionHostRunner::new_with_runtime_executable(
                bash,
                path,
                runtime_is_file,
            ),
        }
    }

    /// A host that runs operations within this process and commands in the foreground.
    pub fn new_embedded_test(
        bash: Result<String, ExecutionError>,
        current_executable: Result<String, String>,
        runtime_is_file: bool,
    ) -> (result: Result<LocalExecutionHostRunner, ExecutionError>)
        ensures
            match result {
                Ok(runner) => current_executable is Ok && runtime_is_file && bash is Ok
                    && runner.bash_path@ == bash->Ok_0@ && runner.runtime_executable@
                    == current_executable->Ok_0@ && runner.environment_overrides@.len() == 0
                    && runner.embedded_test,
                Err(error) => match current_executable {
                    Err(cause) => error@ == ExecutionErrorView::PolicyUnavailable(
                        "resolve local Runtime executable failed: "@ + cause@,
                    ),
                    Ok(path) => if !runtime_is_file {
                        error@ == ExecutionErrorView::PolicyUnavailable(
                            "local Runtime executable is unavailable: "@ + path@,
                        )
                    } else {
                        bash matches Err(cause) && error@ == cause@
                    },
                },
            },
    {
        match LocalExecutionHostRunner::new(bash, current_executable, runtime_is_file) {
            Ok(runner) => {
                let mut runner = runner;
                runner.embedded_test = true;
                Ok(runner)
            },
            Err(error) => Err(error),
        }
    }

    pub fn bash_description(&self) -> (result: &'static str)
        ensures
            result@ == "bash"@,
    {
        "bash"
    }

    /// The same host with the given variables set in the environment of every command, each of
    /// which must be one that can be set.
    pub fn with_environment_overrides(self, overrides: Vec<(String, String)>) -> (result: Result<
        LocalExecutionHostRunner,
        ExecutionError,
    >)
        ensures
            ({
                let valid = forall|i: int|
                    0 <= i < overrides@.len() ==> valid_variable(
                        (#[trigger] overrides@[i]).0@,
                        overrides@[i].1@,
                    );
                match result {
                    Ok(runner) => valid && runner.bash_path@ == self.bash_path@
                        && runner.runtime_executable@ == self.runtime_executable@
                        && runner.embedded_test == self.embedded_test
                        && runner.environment_overrides == overrides,
                    Err(error) => !valid && error@ == ExecutionErrorView::PolicyUnavailable(
                        "local execution environment override is invalid"@,
                    ),
                }
            }),
    {
        let mut i: usize = 0;
        while i < overrides.len()
            invariant
                i <= overrides.len(),
                forall|j: int|
                    0 <= j < i ==> valid_variable(
                        (#[trigger] overrides@[j]).0@,
                        overrides@[j].1@,
                    ),
            decreases overrides.len() - i,
        {
            if !is_valid_variable(overrides[i].0.as_str(), overrides[i].1.as_str()) {
                assert(!valid_variable(overrides@[i as int].0@, overrides@[i as int].1@));
                return Err(
                    ExecutionError::policy_unavailable(
                        "local execution environment override is invalid",
                    ),
                );
            }
            i = i + 1;
        }
        let mut runner = self;
        runner.environment_overrides = overrides;
        Ok(runner)
    }

    /// The program that a command runs. `lookup` is what the program is, where it is not Bash.
    pub fn resolve_program(&self, program: &str, lookup: &ProgramLookup) -> (result: Result<
        String,
        ExecutionError,
    >)
        ensures
            executes(
                result,
                |path: String| path@,
                if program@ == "bash"@ {
                    Ok(self.bash_path@)
                } else {
                    match lookup {
                        ProgramLookup::Absolute => Ok(program@),
                        ProgramLookup::Relative { joined } => Ok(joined@),
                        ProgramLookup::Searched(Some(path)) => Ok(path@),
                        ProgramLookup::Searched(None) => Err(
                            ExecutionErrorView::HostUnavailable(
                                "execution program not found: "@ + program@,
                            ),
                        ),
                    }
                },
            ),
    {
        if text_equals(program, "bash") {
            return Ok(self.bash_path.clone());
        }
        match lookup {
            ProgramLookup::Absolute => Ok(program.to_owned()),
            ProgramLookup::Relative { joined } => Ok(joined.clone()),
            ProgramLookup::Searched(found) => match found {
                Some(path) => Ok(path.clone()),
                None => Err(
                    ExecutionError::host_unavailable(
                        concat2("execution program not found: ", program).as_str(),
                    ),
                ),
            },
        }
    }

    /// Sets in the environment of a command what is set in that of every command.
    pub fn extend_environment(&self, environment: &mut TextMap<String>)
        requires
            old(environment).wf(),
        ensures
            final(environment).wf(),
            forall|key: Seq<char>| #[trigger]
                environment_value(final(environment), key) == overridden(
                    environment_value(old(environment), key),
                    pair_views(self.environment_overrides@),
                    key,
                ),
    {
        let ghost start = *environment;
        let ghost all = pair_views(self.environment_overrides@);
        let mut i: usize = 0;
        assert(all.subrange(0, 0) =~= Seq::empty());
        while i < self.environment_overrides.len()
            invariant
                i <= self.environment_overrides.len(),
                environment.wf(),
                all == pair_views(self.environment_overrides@),
                forall|key: Seq<char>| #[trigger]
                    environment_value(environment, key) == overridden(
                        environment_value(&start, key),
                        all.subrange(0, i as int),
                        key,
                    ),
            decreases self.environment_overrides.len() - i,
        {
            let ghost before = *environment;
            let name = self.environment_overrides[i].0.as_str();
            let value = self.environment_overrides[i].1.clone();
            proof {
                let next = all.subrange(0, i + 1);
                assert(next.subrange(0, i as int) =~= all.subrange(0, i as int));
                assert(next[i as int] == (name@, value@));
            }
            environment.insert(name, value);
            proof {
                let next = all.subrange(0, i + 1);
                assert forall|key: Seq<char>| #[trigger]
                    environment_value(environment, key) == overridden(
                        environment_value(&start, key),
                        next,
                        key,
                    ) by {
                    assert(environment_value(&before, key) == overridden(
                        environment_value(&start, key),
                        all.subrange(0, i as int),
                        key,
                    ));
                }
            }
            i = i + 1;
        }
        assert(all.subrange(0, all.len() as int) =~= all);
    }

    /// Whether a command's background processes live on after it: only those of a command without
    /// an input of its own, and not where commands run in the foreground.
    pub fn preserves_background(&self, has_input: bool) -> (result: bool)
        ensures
            result == (!self.embedded_test && !has_input),
    {
        !self.embedded_test && !has_input
    }
}

/// The value of a variable in an environment.
pub open spec fn environment_value(environment: &TextMap<String>, key: Seq<char>) -> Option<
    Seq<char>,
> {
    if environment@.contains_key(key) {
        Some(environment@[key]@)
    } else {
        None
    }
}

/// The value of a variable after `overrides` were set in order.
pub open spec fn overridden(
    value: Option<Seq<char>>,
    overrides: Seq<(Seq<char>, Seq<char>)>,
    key: Seq<char>,
) -> Option<Seq<char>>
    decreases overrides.len(),
{
    if overrides.len() == 0 {
        value
    } else {
        let n = overrides.len() - 1;
        if overrides[n].0 == key {
            Some(overrides[n].1)
        } else {
            overridden(value, overrides.subrange(0, n), key)
        }
    }
}

/// The most that is kept of each output stream of a command with an input of its own.
pub const HOOK_OUTPUT_LIMIT_BYTES: usize = 65536;

/// How much is kept of each output stream of a command.
pub fn output_limit(has_input: bool) -> (result: Option<usize>)
    ensures
        result == if has_input {
            Some(HOOK_OUTPUT_LIMIT_BYTES)
        } else {
            None
        },
{
    if has_input {
        Some(HOOK_OUTPUT_LIMIT_BYTES)
    } else {
        None
    }
}

/// What a command is given to read: its own input, or what its launcher is to read, or a line with
/// the secret of its supervisor.
#[derive(Debug)]
pub enum StdinSource {
    Input,
    Launcher,
    /// A line of text.
    Secret(String),
    Nothing,
}

/// What a command is given to read.
pub fn stdin_source(has_input: bool, has_launcher_input: bool, secret: &Option<String>) -> (result:
    StdinSource)
    ensures
        match result {
            StdinSource::Input => has_input,
            StdinSource::Launcher => !has_input && has_launcher_input,
            StdinSource::Secret(line) => !has_input && !has_launcher_input && *secret is Some
                && line@ == (*secret)->0@ + "\n"@,
            StdinSource::Nothing => !has_input && !has_launcher_input && *secret is None,
        },
{
    if has_input {
        StdinSource::Input
    } else if has_launcher_input {
        StdinSource::Launcher
    } else {
        match secret {
            Some(secret) => StdinSource::Secret(concat2(secret.as_str(), "\n")),
            None => StdinSource::Nothing,
        }
    }
}

/// The most that a request to the helper for files may hold.
pub const LOCAL_FILESYSTEM_FRAME_LIMIT_BYTES: usize = 67108864;

/// How long an operation on files may take.
pub const LOCAL_FILESYSTEM_TIMEOUT_MS: u64 = 60_000;

/// The kind of a failed operation on files.
#[derive(Clone, Copy, Debug, PartialEq, Eq, Structural)]
pub enum FileSystemErrorKind {
    PermissionDenied,
    HostUnavailable,
    TooLarge,
}

/// A failed operation on files.
#[derive(Debug)]
pub struct FileSystemError {
    pub kind: FileSystemErrorKind,
    pub message: String,
    pub diagnostic: Option<String>,
}

/// The kind that a failure to run something has for an operation on files.
pub fn filesystem_sandbox_error(error: &ExecutionError) -> (result: FileSystemErrorKind)
    ensures
        result == if error@ is Denied {
            FileSystemErrorKind::PermissionDenied
        } else {
            FileSystemErrorKind::HostUnavailable
        },
{
    match error {
        ExecutionError::Denied { .. } => FileSystemErrorKind::PermissionDenied,
        _ => FileSystemErrorKind::HostUnavailable,
    }
}

/// Accepts a request to the helper for files that is not too large.
pub fn check_request_frame(length: usize) -> (result: Result<(), FileSystemError>)
    ensures
        match result {
            Ok(_) => length <= LOCAL_FILESYSTEM_FRAME_LIMIT_BYTES,
            Err(error) => length > LOCAL_FILESYSTEM_FRAME_LIMIT_BYTES && error.kind
                == FileSystemErrorKind::TooLarge && error.message@
                == "local filesystem sandbox request is too large"@ && error.diagnostic is None,
        },
{
    if length > LOCAL_FILESYSTEM_FRAME_LIMIT_BYTES {
        return Err(
            FileSystemError {
                kind: FileSystemErrorKind::TooLarge,
                message: "local filesystem sandbox request is too large".to_owned(),
                diagnostic: None,
            },
        );
    }
    Ok(())
}

/// Accepts what the helper for files has read where it is a request.
pub fn check_helper_input(length: usize) -> (result: Result<(), String>)
    ensures
        match result {
            Ok(_) => 0 < length <= LOCAL_FILESYSTEM_FRAME_LIMIT_BYTES,
            Err(message) => !(0 < length <= LOCAL_FILESYSTEM_FRAME_LIMIT_BYTES) && message@
                == "local filesystem sandbox request size is invalid"@,
        },
{
    if length == 0 || length > LOCAL_FILESYSTEM_FRAME_LIMIT_BYTES {
        return Err("local filesystem sandbox request size is invalid".to_owned());
    }
    Ok(())
}

/// Accepts the end of the helper for files where it has succeeded.
pub fn check_helper_end(timed_out: bool, exit_code: Option<i32>, stderr: &str) -> (result: Result<
    (),
    FileSystemError,
>)
    ensures
        match result {
            Ok(_) => !timed_out && exit_code == Some(0i32),
            Err(error) => (timed_out || exit_code != Some(0i32)) && error.kind
                == FileSystemErrorKind::HostUnavailable && error.message@
                == "local filesystem sandbox helper failed"@ && optional_text(error.diagnostic)
                == Some(stderr@),
        },
{
    let succeeded = match exit_code {
        Some(code) => !timed_out && code == 0,
        None => false,
    };
    if !succeeded {
        return Err(
            FileSystemError {
                kind: FileSystemErrorKind::HostUnavailable,
                message: "local filesystem sandbox helper failed".to_owned(),
                diagnostic: Some(stderr.to_owned()),
            },
        );
    }
    Ok(())
}

/// What of an operation on files could not be written or read as JSON.
#[derive(Clone, Copy, Debug, PartialEq, Eq, Structural)]
pub enum FrameStage {
    EncodeRequest,
    DecodeResponse,
}

/// The failure of an operation on files whose request could not be written, or whose response could
/// not be read.
pub fn frame_failure(stage: FrameStage, error: &str) -> (result: FileSystemError)
    ensures
        result.kind == FileSystemErrorKind::HostUnavailable,
        result.message@ == match stage {
            FrameStage::EncodeRequest => "encode local filesystem sandbox request failed"@,
            FrameStage::DecodeResponse => "decode local filesystem sandbox response failed"@,
        },
        optional_text(result.diagnostic) == Some(error@),
{
    FileSystemError {
        kind: FileSystemErrorKind::HostUnavailable,
        message: match stage {
            FrameStage::EncodeRequest => "encode local filesystem sandbox request failed",
            FrameStage::DecodeResponse => "decode local filesystem sandbox response failed",
        }.to_owned(),
        diagnostic: Some(error.to_owned()),
    }
}

/// What is told of the policy that a command ran under.
#[derive(Debug)]
pub struct PolicySummary {
    pub enforced: bool,
    pub network: NetworkAccess,
    pub workspace_root: String,
    pub read_only_root_count: usize,
    pub writable_root_count: usize,
    pub denied_read_path_count: usize,
    pub denied_write_path_count: usize,
}

/// The policy that a command runs under.
#[derive(Debug)]
pub struct ExecutionPolicy {
    pub network: NetworkAccess,
    pub workspace_root: String,
    pub tmp_root: Option<String>,
    pub read_only_roots: Vec<String>,
    pub writable_roots: Vec<String>,
    pub denied_read_paths: Vec<String>,
    pub denied_write_paths: Vec<String>,
}

/// What is told of the policy that a command ran under.
pub fn policy_summary(policy: &ExecutionPolicy, enforced: bool) -> (result: PolicySummary)
    ensures
        result.enforced == enforced,
        result.network == policy.network,
        result.workspace_root@ == policy.workspace_root@,
        result.read_only_root_count == policy.read_only_roots@.len(),
        result.writable_root_count == policy.writable_roots@.len(),
        result.denied_read_path_count == policy.denied_read_paths@.len(),
        result.denied_write_path_count == policy.denied_write_paths@.len(),
{
    PolicySummary {
        enforced,
        network: policy.network,
        workspace_root: policy.workspace_root.clone(),
        read_only_root_count: policy.read_only_roots.len(),
        writable_root_count: policy.writable_roots.len(),
        denied_read_path_count: policy.denied_read_paths.len(),
        denied_write_path_count: policy.denied_write_paths.len(),
    }
}

/// The policy for a workspace: `base` with more roots that are only to be read, with what is
/// private to the product denied, and with the public internet.
pub fn for_workspace(base: ExecutionPolicy, read_only: &Vec<String>, private: &Vec<String>) -> (result:
    ExecutionPolicy)
    ensures
        result.network == NetworkAccess::PublicInternet,
        result.workspace_root@ == base.workspace_root@,
        result.tmp_root == base.tmp_root,
        texts(result.read_only_roots@) == texts(base.read_only_roots@) + texts(read_only@),
        texts(result.writable_roots@) == texts(base.writable_roots@),
        texts(result.denied_read_paths@) == texts(private@),
        texts(result.denied_write_paths@) == texts(private@),
{
    let mut policy = base;
    let ghost before = texts(policy.read_only_roots@);
    let mut roots = clone_texts(&policy.read_only_roots);
    let mut i: usize = 0;
    assert(before + texts(read_only@).subrange(0, 0) =~= before);
    while i < read_only.len()
        invariant
            i <= read_only.len(),
            texts(roots@) == before + texts(read_only@).subrange(0, i as int),
        decreases read_only.len() - i,
    {
        let ghost now = texts(roots@);
        roots.push(read_only[i].clone());
        assert(texts(roots@) =~= now.push(read_only@[i as int]@));
        assert(texts(roots@) =~= before + texts(read_only@).subrange(0, i + 1));
        i = i + 1;
    }
    assert(texts(read_only@).subrange(0, read_only@.len() as int) =~= texts(read_only@));
    policy.read_only_roots = roots;
    policy.denied_read_paths = clone_texts(private);
    policy.denied_write_paths = clone_texts(private);
    policy.network = NetworkAccess::PublicInternet;
    policy
}

/// The systems that local commands run on.
#[derive(Clone, Copy, Debug, PartialEq, Eq, Structural)]
pub enum HostSystem {
    Linux,
    MacOs,
}

/// The program that is run to see whether commands can be confined.
pub const PROBE_PROGRAM: &'static str = "/usr/bin/true";

/// Why commands cannot be confined, with whether the probe has succeeded or why it could not be
/// run.
pub open spec fn probe_failure(system: HostSystem, probe: Result<bool, Seq<char>>) -> Option<
    Seq<char>,
> {
    match (system, probe) {
        (_, Ok(true)) => None,
        (HostSystem::Linux, Ok(false)) => Some("nono capability probe failed"@),
        (HostSystem::Linux, Err(error)) => Some("nono capability probe failed: "@ + error),
        (HostSystem::MacOs, Ok(false)) => Some("macOS nono capability probe failed"@),
        (HostSystem::MacOs, Err(error)) => Some(error),
    }
}

/// Checks that commands can be confined.
pub fn check_available(system: HostSystem, probe: &Result<bool, String>) -> (result: Result<
    (),
    ExecutionError,
>)
    ensures
        executes(
            result,
            |unit: ()| unit,
            match probe_failure(
                system,
                match probe {
                    Ok(succeeded) => Ok(*succeeded),
                    Err(error) => Err(error@),
                },
            ) {
                None => Ok(()),
                Some(reason) => Err(ExecutionErrorView::PolicyUnavailable(reason)),
            },
        ),
{
    match probe {
        Ok(succeeded) => {
            if *succeeded {
                return Ok(());
            }
            let reason = match system {
                HostSystem::Linux => "nono capability probe failed",
                HostSystem::MacOs => "macOS nono capability probe failed",
            };
            Err(ExecutionError::policy_unavailable(reason))
        },
        Err(error) => match system {
            HostSystem::Linux => Err(
                ExecutionError::policy_unavailable(
                    concat2("nono capability probe failed: ", error.as_str()).as_str(),
                ),
            ),
            HostSystem::MacOs => Err(ExecutionError::policy_unavailable(error.as_str())),
        },
    }
}

/// What a host that runs commands says of itself.
#[derive(Debug)]
pub struct HostStatus {
    pub policy_enforced: bool,
    pub ready: bool,
    pub detail: String,
}

impl LocalExecutionHostRunner {
    /// What the host says of itself: it is ready where a policy can be enforced, with the checks
    /// of the policy first.
    pub fn status(
        &self,
        policy_enforced: bool,
        checked: Result<(), ExecutionError>,
        available: Result<(), ExecutionError>,
    ) -> (result: Result<HostStatus, ExecutionError>)
        ensures
            match (checked, available) {
                (Err(error), _) => result matches Err(given) && given@ == error@,
                (Ok(_), Err(error)) => result matches Err(given) && given@ == error@,
                (Ok(_), Ok(_)) => {
                    &&& result is Ok
                    &&& result->Ok_0.policy_enforced == policy_enforced
                    &&& result->Ok_0.ready
                    &&& result->Ok_0.detail@ == "bash="@ + self.bash_path@
                },
            },
    {
        match checked {
            Ok(_) => {},
            Err(error) => {
                return Err(error);
            },
        }
        match available {
            Ok(_) => {},
            Err(error) => {
                return Err(error);
            },
        }
        Ok(
            HostStatus {
                policy_enforced,
                ready: true,
                detail: concat2("bash=", self.bash_path.as_str()),
            },
        )
    }
}

/// How the running of a command is explained.
pub fn platform_transition_reason(system: HostSystem) -> (result: &'static str)
    ensures
        result@ == match system {
            HostSystem::Linux => "linux_nono"@,
            HostSystem::MacOs => "macos_nono"@,
        },
{
    match system {
        HostSystem::Linux => "linux_nono",
        HostSystem::MacOs => "macos_nono",
    }
}

/// What is told of a command that was run.
#[derive(Debug)]
pub struct CommandReport {
    pub output: CapturedOutput,
    pub transition_reason: &'static str,
    pub policy: PolicySummary,
}

/// What is told of a command that was run: what its process came to, how it was confined and under
/// which policy.
pub fn command_report(output: CapturedOutput, system: HostSystem, policy: &ExecutionPolicy) -> (result:
    CommandReport)
    ensures
        result.output == output,
        result.transition_reason@ == match system {
            HostSystem::Linux => "linux_nono"@,
            HostSystem::MacOs => "macos_nono"@,
        },
        result.policy.enforced,
        result.policy.network == policy.network,
        result.policy.workspace_root@ == policy.workspace_root@,
        result.policy.read_only_root_count == policy.read_only_roots@.len(),
        result.policy.writable_root_count == policy.writable_roots@.len(),
        result.policy.denied_read_path_count == policy.denied_read_paths@.len(),
        result.policy.denied_write_path_count == policy.denied_write_paths@.len(),
{
    CommandReport {
        output,
        transition_reason: platform_transition_reason(system),
        policy: policy_summary(policy, true),
    }
}

/// The control group of the running process, from the text that lists its groups: the first line of
/// the unified hierarchy, without the slashes before it.
pub open spec fn control_group(membership: Seq<char>) -> Option<Seq<char>> {
    match first_group(lines(membership)) {
        Some(path) => Some(without_slashes(path)),
        None => None,
    }
}

/// The path of the unified hierarchy in the first of `lines` that has one.
pub open spec fn first_group(lines: Seq<Seq<char>>) -> Option<Seq<char>>
    decreases lines.len(),
{
    if lines.len() == 0 {
        None
    } else {
        let n = lines.len() - 1;
        match first_group(lines.subrange(0, n)) {
            Some(path) => Some(path),
            None => after_prefix(lines[n], "0::"@),
        }
    }
}

/// `s` without the slashes before it.
pub open spec fn without_slashes(s: Seq<char>) -> Seq<char>
    decreases s.len(),
{
    if s.len() > 0 && s[0] == '/' {
        without_slashes(s.subrange(1, s.len() as int))
    } else {
        s
    }
}

fn strip_slashes(s: &str) -> (result: String)
    ensures
        result@ == without_slashes(s@),
{
    let chars = chars_of(s);
    let n: usize = chars.len();
    let mut start: usize = 0;
    assert(s@.subrange(0, n as int) =~= s@);
    while start < n && chars[start] == '/'
        invariant
            start <= n,
            n == chars.len(),
            chars@ == s@,
            without_slashes(s@) == without_slashes(s@.subrange(start as int, n as int)),
        decreases n - start,
    {
        assert(s@.subrange(start as int, n as int).subrange(1, n - start) =~= s@.subrange(
            start + 1,
            n as int,
        ));
        start = start + 1;
    }
    s.substring_char(start, n).to_owned()
}

proof fn lemma_first_group(lines: Seq<Seq<char>>, n: int)
    requires
        0 <= n <= lines.len(),
        first_group(lines.subrange(0, n)) is Some,
    ensures
        first_group(lines) == first_group(lines.subrange(0, n)),
    decreases lines.len(),
{
    if n < lines.len() {
        let init = lines.subrange(0, lines.len() - 1);
        assert(init.subrange(0, n) =~= lines.subrange(0, n));
        lemma_first_group(init, n);
    } else {
        assert(lines.subrange(0, n) =~= lines);
    }
}

/// The control group of the running process, relative to the hierarchy of groups.
pub fn process_group(membership: &str) -> (result: Result<String, ExecutionError>)
    ensures
        executes(
            result,
            |path: String| path@,
            match control_group(membership@) {
                Some(path) => Ok(path),
                None => Err(
                    ExecutionErrorView::PolicyUnavailable("local execution requires cgroup v2"@),
                ),
            },
        ),
{
    let list = lines_of(membership);
    let ghost all = texts(list@);
    let mut i: usize = 0;
    assert(all.subrange(0, 0) =~= Seq::empty());
    while i < list.len()
        invariant
            i <= list.len(),
            all == texts(list@),
            all == lines(membership@),
            first_group(all.subrange(0, i as int)) is None,
        decreases list.len() - i,
    {
        proof {
            let next = all.subrange(0, i + 1);
            assert(next.subrange(0, i as int) =~= all.subrange(0, i as int));
            assert(next[i as int] == list@[i as int]@);
            if first_group(next) is Some {
                lemma_first_group(all, i + 1);
            }
        }
        match strip_prefix(list[i].as_str(), "0::") {
            Some(path) => {
                return Ok(strip_slashes(path));
            },
            None => {},
        }
        i = i + 1;
    }
    assert(all.subrange(0, all.len() as int) =~= all);
    Err(ExecutionError::policy_unavailable("local execution requires cgroup v2"))
}

/// Whether a control group holds no process, from the text of its events.
pub fn group_is_empty(events: &str) -> (result: bool)
    ensures
        result == lines(events@).contains("populated 0"@),
{
    let list = lines_of(events);
    let ghost all = texts(list@);
    let mut i: usize = 0;
    while i < list.len()
        invariant
            i <= list.len(),
            all == texts(list@),
            all == lines(events@),
            forall|j: int| 0 <= j < i ==> all[j] != "populated 0"@,
        decreases list.len() - i,
    {
        assert(all[i as int] == list@[i as int]@);
        if text_equals(list[i].as_str(), "populated 0") {
            return true;
        }
        i = i + 1;
    }
    false
}

/// Whether to look again whether a killed control group is empty: `empty` is what looking came to.
pub fn await_termination(empty: &Result<bool, String>, before_deadline: bool) -> (result: Result<
    bool,
    ExecutionError,
>)
    ensures
        executes(
            result,
            |again: bool| again,
            match empty {
                Ok(true) => Ok(false),
                Ok(false) => if before_deadline {
                    Ok(true)
                } else {
                    Err(
                        ExecutionErrorView::CancellationIndeterminate(
                            "execution cgroup did not confirm an empty process tree"@,
                        ),
                    )
                },
                Err(_) => Err(
                    ExecutionErrorView::CancellationIndeterminate(
                        "execution cgroup did not confirm an empty process tree"@,
                    ),
                ),
            },
        ),
{
    match empty {
        Ok(empty) => if *empty {
            return Ok(false);
        } else if before_deadline {
            return Ok(true);
        },
        Err(_) => {},
    }
    Err(
        ExecutionError::CancellationIndeterminate {
            reason: "execution cgroup did not confirm an empty process tree".to_owned(),
        },
    )
}

/// Accepts a policy for the host that enforces none, which serves only the public internet.
pub fn validate_unenforced_policy(network: NetworkAccess) -> (result: Result<(), ExecutionError>)
    ensures
        executes(
            result,
            |unit: ()| unit,
            if network == NetworkAccess::PublicInternet {
                Ok(())
            } else {
                Err(
                    ExecutionErrorView::PolicyUnavailable(
                        "local host execution supports only the publicInternet network policy"@,
                    ),
                )
            },
        ),
{
    if network == NetworkAccess::PublicInternet {
        Ok(())
    } else {
        Err(
            ExecutionError::policy_unavailable(
                "local host execution supports only the publicInternet network policy",
            ),
        )
    }
}

/// Bash is the one that was configured, where that is a file; without one it is the usual one where
/// that is a file, else the one that the path leads to; and it is an error that there is none.
pub proof fn law_the_configured_bash_is_taken(
    configured: String,
    is_file: bool,
    usual_is_file: bool,
    on_path: Option<String>,
)
    ensures
        bash_found(Some((configured, is_file)), usual_is_file, on_path) is Ok <==> is_file,
        is_file ==> bash_found(Some((configured, is_file)), usual_is_file, on_path) == Ok::<
            Seq<char>,
            ExecutionErrorView,
        >(configured@),
        bash_found(None, true, on_path) == Ok::<Seq<char>, ExecutionErrorView>("/bin/bash"@),
        bash_found(None, false, on_path) is Ok <==> on_path is Some,
        on_path is Some ==> bash_found(None, false, on_path) == Ok::<Seq<char>, ExecutionErrorView>(
            on_path->0@,
        ),
{
}

/// A variable of an environment is sound exactly where its name is not empty and holds neither NUL
/// nor an equals sign, and its value holds no NUL.
pub proof fn law_variables_are_sound(key: Seq<char>, value: Seq<char>)
    ensures
        valid_variable(key, value) <==> key.len() > 0 && (forall|i: int|
            0 <= i < key.len() ==> (#[trigger] key[i]) != '\0' && key[i] != '=') && (forall|i: int|
            0 <= i < value.len() ==> (#[trigger] value[i]) != '\0'),
{
    if valid_variable(key, value) {
        assert forall|i: int| 0 <= i < key.len() implies (#[trigger] key[i]) != '\0' && key[i]
            != '=' by {
            assert(key.contains(key[i]));
        }
        assert forall|i: int| 0 <= i < value.len() implies (#[trigger] value[i]) != '\0' by {
            assert(value.contains(value[i]));
        }
    }
}

/// A variable has the value that it is overridden with last, and its own where it is not.
pub proof fn law_the_last_override_holds(
    value: Option<Seq<char>>,
    overrides: Seq<(Seq<char>, Seq<char>)>,
    key: Seq<char>,
    other: Seq<char>,
    new: Seq<char>,
)
    ensures
        overridden(value, Seq::empty(), key) == value,
        overridden(value, overrides.push((key, new)), key) == Some(new),
        other != key ==> overridden(value, overrides.push((other, new)), key) == overridden(
            value,
            overrides,
            key,
        ),
{
    let same = overrides.push((key, new));
    let more = overrides.push((other, new));
    assert(same.subrange(0, same.len() - 1) =~= overrides);
    assert(more.subrange(0, more.len() - 1) =~= overrides);
}

/// A probe of the sandbox fails exactly where it did not run or did not succeed, and the reason that
/// it did not run is told.
pub proof fn law_probes_succeed_or_tell_why(system: HostSystem, probe: Result<bool, Seq<char>>)
    ensures
        probe_failure(system, probe) is None <==> probe == Ok::<bool, Seq<char>>(true),
        probe is Err ==> probe_failure(system, probe) is Some && ends_with_text(
            probe_failure(system, probe)->0,
            probe->Err_0,
        ),
{
    if probe is Err {
        let told = probe_failure(system, probe)->0;
        assert(told.subrange(told.len() - probe->Err_0.len(), told.len() as int) =~= probe->Err_0);
    }
}

/// Whether a line of the membership of a process is that of the unified hierarchy.
pub open spec fn unified(line: Seq<char>) -> bool {
    line.len() >= 3 && line[0] == '0' && line[1] == ':' && line[2] == ':'
}

/// The control group of a process is the path on the first line of its membership that is of the
/// unified hierarchy, without the slashes that it begins with; there is none exactly where no line is.
pub proof fn law_control_groups_are_unified(membership: Seq<char>, at: int, path: Seq<char>)
    ensures
        control_group(membership) is None <==> forall|k: int|
            0 <= k < lines(membership).len() ==> !unified(#[trigger] lines(membership)[k]),
        0 <= at < lines(membership).len() && lines(membership)[at] == seq!['0', ':', ':'] + path && (
        forall|k: int| 0 <= k < at ==> !unified(#[trigger] lines(membership)[k])) ==> control_group(
            membership,
        ) == Some(without_slashes(path)),
{
    lemma_unified_group(lines(membership));
    if 0 <= at < lines(membership).len() && lines(membership)[at] == seq!['0', ':', ':'] + path && (
    forall|k: int| 0 <= k < at ==> !unified(#[trigger] lines(membership)[k])) {
        assert(unified(lines(membership)[at]));
        let found = choose|found: int|
            0 <= found < lines(membership).len() && unified(#[trigger] lines(membership)[found])
                && first_group(lines(membership)) == Some(
                lines(membership)[found].subrange(3, lines(membership)[found].len() as int),
            ) && forall|k: int| 0 <= k < found ==> !unified(#[trigger] lines(membership)[k]);
        if found < at {
            assert(!unified(lines(membership)[found]));
        }
        if at < found {
            assert(!unified(lines(membership)[at]));
        }
        assert(lines(membership)[at].subrange(3, lines(membership)[at].len() as int) =~= path);
    }
}

proof fn lemma_unified_group(all: Seq<Seq<char>>)
    ensures
        first_group(all) is None <==> forall|k: int|
            0 <= k < all.len() ==> !unified(#[trigger] all[k]),
        first_group(all) is Some ==> exists|found: int|
            0 <= found < all.len() && unified(#[trigger] all[found]) && first_group(all) == Some(
                all[found].subrange(3, all[found].len() as int),
            ) && forall|k: int| 0 <= k < found ==> !unified(#[trigger] all[k]),
    decreases all.len(),
{
    reveal_strlit("0::");
    if all.len() > 0 {
        let n = all.len() - 1;
        let init = all.subrange(0, n);
        lemma_unified_group(init);
        assert forall|k: int| 0 <= k < n implies #[trigger] init[k] == all[k] by {}
        assert(unified(all[n]) <==> after_prefix(all[n], "0::"@) is Some) by {
            if unified(all[n]) {
                assert(all[n].subrange(0, 3) =~= "0::"@);
            }
            if after_prefix(all[n], "0::"@) is Some {
                assert(all[n].subrange(0, 3)[0] == "0::"@[0]);
                assert(all[n].subrange(0, 3)[1] == "0::"@[1]);
                assert(all[n].subrange(0, 3)[2] == "0::"@[2]);
            }
        }
        if first_group(init) is Some {
            let found = choose|found: int|
                0 <= found < init.len() && unified(#[trigger] init[found]) && first_group(init)
                    == Some(init[found].subrange(3, init[found].len() as int)) && forall|k: int|
                    0 <= k < found ==> !unified(#[trigger] init[k]);
            assert(init[found] == all[found]);
            assert forall|k: int| 0 <= k < found implies !unified(#[trigger] all[k]) by {
                assert(init[k] == all[k]);
            }
            assert(unified(all[found]));
        } else {
            assert forall|k: int| 0 <= k < n implies !unified(#[trigger] all[k]) by {
                assert(init[k] == all[k]);
            }
            if unified(all[n]) {
                assert(first_group(all) == Some(all[n].subrange(3, all[n].len() as int)));
            }
        }
    }
}

/// The slashes that a path begins with are taken off, and nothing else.
pub proof fn law_leading_slashes_are_taken_off(slashes: Seq<char>, rest: Seq<char>)
    requires
        forall|i: int| 0 <= i < slashes.len() ==> (#[trigger] slashes[i]) == '/',
        rest.len() == 0 || rest[0] != '/',
    ensures
        without_slashes(slashes + rest) == rest,
    decreases slashes.len(),
{
    let s = slashes + rest;
    if slashes.len() > 0 {
        let fewer = slashes.subrange(1, slashes.len() as int);
        assert(s[0] == slashes[0]);
        assert forall|i: int| 0 <= i < fewer.len() implies (#[trigger] fewer[i]) == '/' by {
            assert(fewer[i] == slashes[i + 1]);
        }
        law_leading_slashes_are_taken_off(fewer, rest);
        assert(s.subrange(1, s.len() as int) =~= fewer + rest);
    } else {
        assert(s =~= rest);
    }
}

} // verus!
