use centaeris_runtime_host::local_execution_host::{
    await_termination, check_available, check_helper_end, check_helper_input, check_request_frame,
    command_report, filesystem_sandbox_error, for_workspace, frame_failure, group_is_empty,
    is_valid_variable, output_limit, platform_transition_reason, policy_summary, process_group,
    resolve_bash_path, stdin_source, validate_unenforced_policy, ExecutionPolicy,
    FileSystemErrorKind, FrameStage, HostSystem, LocalExecutionHostRunner, ProgramLookup,
    StdinSource, LOCAL_FILESYSTEM_FRAME_LIMIT_BYTES, PROBE_PROGRAM,
};
use centaeris_runtime_host::local_hook_runner::{
    bound_hook_stream, check_hook_place, hook_input, hook_policy, run_hook, HookPlace, HookProcess,
};
use centaeris_runtime_host::process_output::{
    cancellation_error, cancellation_reason, captured_output, check_input, drain_available_output,
    policy_handshake_bytes, shown_stderr, stdout_limit, strip_policy_handshake, ChildStatus,
    ExecutionError, InputOutcome, Look, OutputDrain, ProcessWatch, ReadEvent, ReadOutput,
    WatchDecision,
};
use centaeris_runtime_host::sandbox_policy::{
    capabilities, check_roots, check_temporary_ancestor, materialize_temporary_root, overlap,
    starts_with_path, validate_layout, validate_local_policy, Access, CanonicalPath,
    CapabilityRequest, LookedUpPath, NetworkAccess, ProtectedPaths, ResolvedGrant,
};
use centaeris_runtime_host::socket_filter::{
    fixed_socket_boundary, FilterInstruction, SystemCallNumbers, ALLOWED, ALTERNATIVE_NUMBERS,
    JUMP_AT_LEAST, JUMP_EQUAL, KILLED, LOAD, NOT_PERMITTED, RETURN, UNIX_FAMILY,
};
use centaeris_runtime_host::supervisor::{
    completion_digest, completion_report, keep_reaping, parse_number, read_completion_marker,
    read_completion_report, run_linux_supervisor, run_macos_launcher, supervised_exit_code,
    MarkerFile, WaitOutcome,
};
use centaeris_runtime_host::text_map::TextMap;
use centaeris_runtime_host::windows_launch::{
    check_launch_input, git_bash_places, launched_exit_code, prepare_command,
    resolve_git_bash_path, validate_git_bash, validate_policy, BashCandidate, BashPlace,
    HostLaunchRequest, BASH_LIBRARY_PLACES, HOST_LAUNCH_SCHEMA, LOCAL_PROGRAM_VARIABLE,
    MAX_HELPER_INPUT_BYTES, PROGRAM_VARIABLES, WINDOWS_LAUNCHER_OPTION,
};

fn strings(items: &[&str]) -> Vec<String> {
    items.iter().map(|item| item.to_string()).collect()
}

fn canonical(text: &str) -> CanonicalPath {
    let mut parts = vec!["/".to_string()];
    parts.extend(text.split('/').filter(|part| !part.is_empty()).map(str::to_string));
    CanonicalPath {
        text: text.to_string(),
        parts,
    }
}

fn looked_up(text: &str) -> LookedUpPath {
    LookedUpPath {
        path: text.to_string(),
        canonical: Ok(canonical(text)),
    }
}

#[test]
fn policy_handshake_is_required_and_removed_before_decoding_output() {
    let mut output = ReadOutput::new(None);
    output.append(&policy_handshake_bytes());
    output.append(&[0xff, 0xfe, b'O', 0, b'K', 0]);
    strip_policy_handshake(&mut output).unwrap();
    assert_eq!(output.bytes, vec![0xff, 0xfe, b'O', 0, b'K', 0]);
    assert_eq!(output.total_bytes, 6);
    let mut missing = ReadOutput::new(None);
    missing.append(b"startup failed");
    assert!(matches!(
        strip_policy_handshake(&mut missing),
        Err(ExecutionError::PolicyUnavailable { .. })
    ));
}

#[test]
fn command_output_reader_preserves_all_bytes() {
    let expected = vec![b'x'; 1024 * 1024 + 17];
    let mut output = ReadOutput::new(None);
    for chunk in expected.chunks(8192) {
        output.append(chunk);
    }

    assert_eq!(output.bytes, expected);
    assert_eq!(output.total_bytes, 1024 * 1024 + 17);
    let mut limited = ReadOutput::new(Some(10));
    limited.append(b"0123456");
    limited.append(b"789abc");
    assert_eq!(limited.bytes, b"0123456789".to_vec());
    assert_eq!(limited.total_bytes, 13);
}

#[test]
fn output_is_drained_until_it_would_block() {
    let mut output = ReadOutput::new(None);
    let mut drain = OutputDrain {
        bytes_read: 0,
        eof: false,
    };
    assert!(drain_available_output(&mut output, &mut drain, &ReadEvent::Bytes(b"ab".to_vec()))
        .expect("bytes"));
    assert!(drain_available_output(&mut output, &mut drain, &ReadEvent::Interrupted)
        .expect("interrupted"));
    assert!(!drain_available_output(&mut output, &mut drain, &ReadEvent::WouldBlock)
        .expect("would block"));
    assert!(!drain.eof);
    assert!(!drain_available_output(&mut output, &mut drain, &ReadEvent::Ended).expect("ended"));
    assert!(drain.eof);
    assert_eq!(drain.bytes_read, 2);
    assert!(drain_available_output(
        &mut output,
        &mut drain,
        &ReadEvent::Failed("pipe".to_string())
    )
    .is_err());
}

fn look(now: u64) -> Look {
    Look {
        now,
        stdout: OutputDrain {
            bytes_read: 0,
            eof: false,
        },
        stderr: OutputDrain {
            bytes_read: 0,
            eof: false,
        },
        reported: None,
        status: ChildStatus::Running,
        cancellation: None,
        input_finished: true,
    }
}

#[test]
fn foreground_shell_and_its_process_group_stop_at_command_timeout() {
    let mut watch = ProcessWatch::start(1_000, 250);
    assert!(matches!(watch.look(&look(1_100)), WatchDecision::Wait));
    assert!(matches!(
        watch.look(&look(1_250)),
        WatchDecision::TimeOut { .. }
    ));
}

#[test]
fn background_process_inheriting_output_returns_after_parent_shell_exits() {
    let mut watch = ProcessWatch::start(0, 60_000);
    let mut ended = look(100);
    ended.status = ChildStatus::Ended(Some(0));
    assert!(matches!(watch.look(&ended), WatchDecision::Wait));
    let mut later = look(199);
    later.status = ChildStatus::Ended(Some(0));
    assert!(matches!(watch.look(&later), WatchDecision::Wait));
    let mut settled = look(200);
    settled.status = ChildStatus::Ended(Some(0));
    assert!(matches!(
        watch.look(&settled),
        WatchDecision::Finish(Some(0))
    ));
}

#[test]
fn cancellation_terminates_an_in_flight_local_process() {
    let mut watch = ProcessWatch::start(0, 60_000);
    let mut cancelled = look(10);
    cancelled.cancellation = Some("user_cancelled".to_string());
    assert!(matches!(
        watch.look(&cancelled),
        WatchDecision::Cancel(reason) if reason == "user_cancelled"
    ));
    assert!(matches!(
        cancellation_error("stop", &Err("no such process".to_string())),
        ExecutionError::CancellationIndeterminate { .. }
    ));
    assert_eq!(cancellation_reason(Ok(None)), None);
    assert_eq!(
        cancellation_reason(Ok(Some("stop".to_string()))).as_deref(),
        Some("stop")
    );
}

#[test]
fn input_and_errors_of_processes_are_told() {
    assert!(check_input(&InputOutcome::Written, false).is_ok());
    assert!(check_input(&InputOutcome::Panicked, false).is_err());
    assert!(check_input(&InputOutcome::Failed("closed".to_string()), false).is_err());
    assert!(shown_stderr("warning", true, 250).contains("250"));
    assert_eq!(shown_stderr("warning", false, 250), "warning");
}

#[test]
fn completion_marker_rejects_an_unauthenticated_exit_status() {
    let forged = MarkerFile::Text("0:banana\n".to_string());
    assert_eq!(read_completion_marker(&forged, "banana").unwrap_or(Some(9)), None);
    let authentic = MarkerFile::Text(format!("0:{}\n", completion_digest("banana", 0)));
    assert_eq!(
        read_completion_marker(&authentic, "banana").unwrap_or(None),
        Some(0)
    );
    assert_eq!(
        read_completion_marker(&MarkerFile::Missing, "banana").unwrap_or(Some(9)),
        None
    );
    assert!(read_completion_marker(&MarkerFile::Unreadable("denied".to_string()), "banana").is_err());
}

#[test]
fn completion_reports_read_back() {
    for code in [0, 1, -1, 127, i32::MAX, i32::MIN] {
        assert_eq!(
            read_completion_report(&completion_report("secret", code), "secret"),
            Some(code)
        );
        assert_eq!(
            read_completion_report(&completion_report("secret", code), "other"),
            None
        );
    }
    assert_eq!(parse_number("+7"), Some(7));
    assert_eq!(parse_number("2147483648"), None);
    assert_eq!(parse_number(""), None);
    assert_eq!(parse_number("-"), None);
}

#[test]
fn supervised_commands_are_read_from_their_arguments() {
    let secret = "0aF".repeat(21) + "b";
    let line = format!("{secret}\r\n");
    let command = run_linux_supervisor(
        &strings(&["/tmp/marker", "--", "/bin/bash", "-c", "true"]),
        &line,
    )
    .expect("supervised command");
    assert_eq!(command.secret, secret);
    assert_eq!(command.program, "/bin/bash");
    assert_eq!(command.args, strings(&["-c", "true"]));
    assert_eq!(command.marker, "/tmp/marker");
    let refusals = [
        (strings(&["/tmp/marker", "--", "/bin/true"]), "short\n", "sandbox supervisor completion secret is invalid"),
        (Vec::new(), line.as_str(), "sandbox supervisor completion path is required"),
        (strings(&["/tmp/marker", "/bin/true"]), line.as_str(), "sandbox supervisor command separator is required"),
        (strings(&["/tmp/marker", "--"]), line.as_str(), "sandbox supervisor command is required"),
    ];
    for (arguments, secret_line, error) in refusals {
        assert_eq!(
            run_linux_supervisor(&arguments, secret_line).expect_err("refused"),
            error
        );
    }
    assert_eq!(
        run_macos_launcher(&strings(&["(version 1)", "/bin/bash"])).expect_err("no separator"),
        "macOS launcher requires a policy and a command after --"
    );
    let launcher = run_macos_launcher(&strings(&["(version 1)", "--", "/bin/bash", "-c", "true"]))
        .expect("launcher");
    assert_eq!(launcher.policy, "(version 1)");
    assert_eq!(launcher.program, "/bin/bash");
    assert_eq!(launcher.args, strings(&["-c", "true"]));
    assert_eq!(supervised_exit_code(Some(3), None), 3);
    assert_eq!(supervised_exit_code(None, Some(9)), 137);
    assert_eq!(keep_reaping(&WaitOutcome::Reaped), Ok(true));
    assert_eq!(keep_reaping(&WaitOutcome::NoneLeft), Ok(false));
    assert!(keep_reaping(&WaitOutcome::Failed("x".to_string())).is_err());
}

#[test]
fn explicit_missing_bash_path_fails_loudly() {
    let error = resolve_bash_path(
        &Some(("banana/missing/bash".to_string(), false)),
        true,
        &Some("/usr/bin/bash".to_string()),
    )
    .expect_err("missing Bash path must fail");
    assert!(matches!(error, ExecutionError::HostUnavailable { .. }));
    assert!(resolve_bash_path(&None, false, &None).is_err());
    assert_eq!(
        resolve_bash_path(&None, false, &Some("/opt/bash".to_string())).ok(),
        Some("/opt/bash".to_string())
    );
}

#[test]
fn runners_need_a_shell_and_their_own_executable() {
    let runner = LocalExecutionHostRunner::new(
        Ok("/bin/bash".to_string()),
        Ok("/opt/host".to_string()),
        true,
    )
    .expect("runner");
    assert_eq!(runner.bash_path, "/bin/bash");
    assert!(!runner.embedded_test);
    assert!(!runner.bash_description().is_empty());
    assert!(LocalExecutionHostRunner::new(
        Ok("/bin/bash".to_string()),
        Ok("/opt/host".to_string()),
        false
    )
    .is_err());
    let embedded = LocalExecutionHostRunner::new_embedded_test(
        Ok("/bin/bash".to_string()),
        Ok("/opt/host".to_string()),
        true,
    )
    .expect("embedded runner");
    assert!(embedded.embedded_test);
    let overriding = runner
        .with_environment_overrides(vec![("PATH".to_string(), "/opt/bin".to_string())])
        .expect("overrides");
    let mut environment: TextMap<String> = TextMap::new();
    environment.insert("PATH", "/usr/bin".to_string());
    overriding.extend_environment(&mut environment);
    assert_eq!(environment.get("PATH").map(String::as_str), Some("/opt/bin"));
    assert!(overriding
        .with_environment_overrides(vec![("A=B".to_string(), "x".to_string())])
        .is_err());
    assert!(is_valid_variable("NAME", "value"));
    assert!(!is_valid_variable("", "value"));
    assert!(!is_valid_variable("NAME", "a\0b"));
}

#[test]
fn programs_are_looked_up_where_they_are_named() {
    let runner = LocalExecutionHostRunner::new(
        Ok("/bin/bash".to_string()),
        Ok("/opt/host".to_string()),
        true,
    )
    .expect("runner");
    assert_eq!(
        runner.resolve_program("/bin/ls", &ProgramLookup::Absolute).ok(),
        Some("/bin/ls".to_string())
    );
    assert_eq!(
        runner
            .resolve_program("tool", &ProgramLookup::Searched(Some("/usr/bin/tool".to_string())))
            .ok(),
        Some("/usr/bin/tool".to_string())
    );
    assert!(runner
        .resolve_program("tool", &ProgramLookup::Searched(None))
        .is_err());
}

#[test]
fn local_policy_rejects_a_missing_declared_root() {
    let error = check_roots(&vec![
        ("/workspace".to_string(), true),
        ("/workspace/banana".to_string(), false),
    ])
    .expect_err("missing declared root must loud-fail");
    assert!(matches!(error, ExecutionError::Denied { .. }));
}

#[test]
fn local_policy_rejects_the_whole_os_temporary_directory() {
    let temporary = canonical("/tmp");
    assert!(matches!(
        materialize_temporary_root(&temporary, &Ok(canonical("/tmp")), true),
        Err(ExecutionError::Denied { .. })
    ));
    assert!(materialize_temporary_root(&temporary, &Ok(canonical("/tmp/centaeris/a")), true).is_ok());
    assert!(materialize_temporary_root(&temporary, &Ok(canonical("/tmp/centaeris/a")), false).is_err());
    assert!(materialize_temporary_root(&temporary, &Ok(canonical("/var/a")), true).is_err());
    assert!(check_temporary_ancestor("/tmp/a", &Ok(canonical("/tmp")), &Some(Ok(canonical("/tmp")))).is_ok());
    assert!(check_temporary_ancestor("/var/a", &Ok(canonical("/tmp")), &Some(Ok(canonical("/var")))).is_err());
}

#[test]
fn local_sandbox_rejects_network_allowlist_without_running_the_command() {
    assert!(validate_unenforced_policy(NetworkAccess::Allowlist).is_err());
    assert!(validate_policy(NetworkAccess::Allowlist).is_err());
    assert!(validate_local_policy(
        &Err("allowlist is unsupported".to_string()),
        &Ok(canonical("/w")),
        &Ok(canonical("/w")),
        &vec![true]
    )
    .is_err());
    assert!(validate_local_policy(
        &Ok(()),
        &Ok(canonical("/w")),
        &Ok(canonical("/w")),
        &vec![true]
    )
    .is_ok());
    assert!(validate_local_policy(
        &Ok(()),
        &Ok(canonical("/w/sub")),
        &Ok(canonical("/w")),
        &vec![true]
    )
    .is_err());
    assert!(validate_local_policy(
        &Ok(()),
        &Ok(canonical("/w")),
        &Ok(canonical("/w")),
        &vec![true, false]
    )
    .is_err());
}

fn request(writable: &str) -> CapabilityRequest {
    CapabilityRequest {
        network: NetworkAccess::Disabled,
        runtime: looked_up("/opt/host/bin/runtime"),
        program: "/bin/bash".to_string(),
        read_only_roots: Vec::new(),
        writable_roots: vec![looked_up(writable)],
        prerequisites: strings(&["/usr"]),
        prerequisite_files: strings(&["/etc/hosts"]),
        scratch: Some("/tmp/scratch".to_string()),
        control: None,
        is_macos: false,
    }
}

#[test]
fn runtime_executable_cannot_be_inside_a_writable_grant() {
    assert!(
        capabilities(&request("/opt/host")).is_err(),
        "the tool must not be able to replace its trusted Runtime helper"
    );
    let plan = capabilities(&request("/workspace")).expect("apart");
    assert!(plan.block_network);
    assert!(plan
        .grants
        .iter()
        .any(|grant| grant.path == "/workspace" && grant.access == Access::ReadWrite));
    assert!(plan
        .grants
        .iter()
        .all(|grant| grant.path != "/opt/host/bin/runtime" || grant.access == Access::Read));
}

#[test]
fn denied_paths_are_kept_out_of_every_grant() {
    let grants = |path: &str, access: Access| {
        vec![ResolvedGrant {
            parts: canonical(path).parts,
            access,
        }]
    };
    let protected = |denied_read: &str| ProtectedPaths {
        denied_reads: vec![looked_up(denied_read)],
        denied_writes: Vec::new(),
        writable_roots: vec![looked_up("/workspace")],
        read_only_roots: Vec::new(),
    };
    assert!(validate_layout(
        &protected("/secrets"),
        &grants("/workspace", Access::ReadWrite)
    )
    .is_ok());
    assert!(validate_layout(
        &protected("/workspace/.centaeris"),
        &grants("/workspace", Access::ReadWrite)
    )
    .is_err());
    let a = canonical("/a/b").parts;
    let b = canonical("/a").parts;
    let c = canonical("/ab").parts;
    assert!(starts_with_path(&a, &b) && !starts_with_path(&b, &a));
    assert!(overlap(&a, &b) && overlap(&b, &a) && !overlap(&a, &c));
}

#[test]
fn workspaces_have_private_and_read_only_parts() {
    let base = ExecutionPolicy {
        network: NetworkAccess::PublicInternet,
        workspace_root: "/w".to_string(),
        tmp_root: None,
        read_only_roots: Vec::new(),
        writable_roots: strings(&["/w"]),
        denied_read_paths: Vec::new(),
        denied_write_paths: Vec::new(),
    };
    let policy = for_workspace(base, &strings(&["/skills"]), &strings(&["/private"]));
    assert!(policy.read_only_roots.contains(&"/skills".to_string()));
    assert!(policy.denied_read_paths.contains(&"/private".to_string()));
    let summary = policy_summary(&policy, true);
    assert!(summary.enforced);
    assert_eq!(summary.writable_root_count, policy.writable_roots.len());
    assert_eq!(summary.workspace_root, "/w");
    assert_ne!(
        platform_transition_reason(HostSystem::Linux),
        platform_transition_reason(HostSystem::MacOs)
    );
}

#[test]
fn helpers_are_bounded_and_told_when_they_fail() {
    assert!(check_request_frame(LOCAL_FILESYSTEM_FRAME_LIMIT_BYTES).is_ok());
    let error = check_request_frame(LOCAL_FILESYSTEM_FRAME_LIMIT_BYTES + 1).expect_err("too large");
    assert_eq!(error.kind, FileSystemErrorKind::TooLarge);
    assert!(check_helper_input(1).is_ok());
    assert!(check_helper_end(false, Some(0), "").is_ok());
    assert!(check_helper_end(true, None, "").is_err());
    assert!(check_helper_end(false, Some(2), "boom").is_err());
    assert_eq!(
        filesystem_sandbox_error(&ExecutionError::denied("no")),
        FileSystemErrorKind::PermissionDenied
    );
    assert_eq!(
        filesystem_sandbox_error(&ExecutionError::io("no")),
        FileSystemErrorKind::HostUnavailable
    );
    assert_eq!(output_limit(false), None);
    assert!(output_limit(true).is_some());
    assert!(matches!(stdin_source(true, false, &None), StdinSource::Input));
    assert!(matches!(
        stdin_source(false, false, &Some("secret".to_string())),
        StdinSource::Secret(secret) if secret.starts_with("secret")
    ));
    assert!(matches!(stdin_source(false, false, &None), StdinSource::Nothing));
}

#[test]
fn control_groups_are_read() {
    assert_eq!(process_group("0::/user.slice/a\n").ok(), Some("user.slice/a".to_string()));
    assert!(process_group("1:name=systemd:/x\n").is_err());
    assert!(group_is_empty("populated 0\nfrozen 0\n"));
    assert!(!group_is_empty("populated 1\nfrozen 0\n"));
    assert!(await_termination(&Ok(true), true).is_ok());
    assert!(await_termination(&Ok(false), false).is_err());
    assert!(await_termination(&Err("gone".to_string()), true).is_err());
}

#[test]
fn configured_git_bash_path_must_be_absolute() {
    let relative = BashCandidate {
        path: "banana/bash.exe".to_string(),
        is_absolute: false,
        is_file: true,
        canonical: Some("C:\\banana\\bash.exe".to_string()),
        has_library: true,
    };
    let error = resolve_git_bash_path(&Some(relative), &Vec::new())
        .expect_err("relative Bash path must fail");
    assert!(matches!(error, ExecutionError::HostUnavailable { .. }));
}

fn git_bash(path: &str) -> BashCandidate {
    BashCandidate {
        path: path.to_string(),
        is_absolute: true,
        is_file: true,
        canonical: Some(path.to_string()),
        has_library: true,
    }
}

#[test]
fn launch_requests_are_checked_before_anything_is_started() {
    let path = "C:\\Git\\bin\\bash.exe";
    assert_eq!(validate_git_bash(&git_bash(path)), Some(path.to_string()));
    assert_eq!(
        resolve_git_bash_path(&None, &vec![git_bash(path)]).ok(),
        Some(path.to_string())
    );
    let request = |schema: &str, cwd_is_directory: bool| HostLaunchRequest {
        schema: schema.to_string(),
        program: git_bash(path),
        args: Vec::new(),
        cwd: "C:\\workspace".to_string(),
        cwd_is_absolute: true,
        cwd_is_directory,
        environment_overrides: Vec::new(),
    };
    assert!(request(HOST_LAUNCH_SCHEMA, true).validate().is_ok());
    assert!(request("banana", true).validate().is_err());
    assert!(request(HOST_LAUNCH_SCHEMA, false).validate().is_err());
    assert!(check_launch_input(MAX_HELPER_INPUT_BYTES).is_ok());
    assert!(check_launch_input(MAX_HELPER_INPUT_BYTES + 1).is_err());
    assert_eq!(launched_exit_code(Some(4)), 4);
    assert_eq!(launched_exit_code(None), 1);
}

#[test]
fn commands_are_reported_with_their_policy() {
    assert_eq!(stdout_limit(None, true), None);
    assert_eq!(stdout_limit(Some(65_536), false), Some(65_536));
    assert_eq!(
        stdout_limit(Some(65_536), true),
        Some(65_536 + "centaeris-nono-applied\n".len())
    );
    let mut stdout = ReadOutput::new(Some(2));
    stdout.append(b"output");
    let stderr = ReadOutput::new(None);
    let captured = captured_output(
        Some(3),
        true,
        1_500,
        &stdout,
        "ou".to_string(),
        &stderr,
        "late",
    );
    assert_eq!(captured.exit_code, Some(3));
    assert_eq!(captured.stdout, "ou");
    assert_eq!(captured.stderr, "command timed out after 1500ms\nlate");
    assert_eq!((captured.stdout_bytes, captured.stderr_bytes), (6, 0));
    let policy = hook_policy(
        ExecutionPolicy {
            network: NetworkAccess::Disabled,
            workspace_root: "/w".to_string(),
            tmp_root: None,
            read_only_roots: strings(&["/usr"]),
            writable_roots: strings(&["/w"]),
            denied_read_paths: Vec::new(),
            denied_write_paths: Vec::new(),
        },
        &strings(&["/plugins"]),
        &strings(&["/private"]),
        "/w/sub".to_string(),
    );
    assert_eq!(policy.workspace_root, "/w/sub");
    assert_eq!(policy.network, NetworkAccess::PublicInternet);
    assert_eq!(policy.read_only_roots, strings(&["/usr", "/plugins"]));
    assert_eq!(policy.denied_read_paths, strings(&["/private"]));
    assert_eq!(hook_input(b"{}".to_vec()), b"{}\n".to_vec());
    let report = command_report(captured, HostSystem::MacOs, &policy);
    assert_eq!(report.transition_reason, "macos_nono");
    assert!(report.policy.enforced && report.output.timed_out);
    assert_eq!(report.policy.workspace_root, "/w/sub");
    assert_eq!(report.policy.read_only_root_count, 2);
    let failed = frame_failure(FrameStage::EncodeRequest, "cycle");
    assert_eq!(failed.kind, FileSystemErrorKind::HostUnavailable);
    assert_eq!(failed.message, "encode local filesystem sandbox request failed");
    assert_eq!(failed.diagnostic.as_deref(), Some("cycle"));
    assert_eq!(
        frame_failure(FrameStage::DecodeResponse, "eof").message,
        "decode local filesystem sandbox response failed"
    );
}

#[test]
fn a_host_is_ready_once_commands_can_be_confined() {
    assert_eq!(PROBE_PROGRAM, "/usr/bin/true");
    assert!(check_available(HostSystem::Linux, &Ok(true)).is_ok());
    let reason = |system: HostSystem, probe: Result<bool, String>| {
        match check_available(system, &probe) {
            Err(ExecutionError::PolicyUnavailable { reason }) => reason,
            other => panic!("{other:?}"),
        }
    };
    assert_eq!(
        reason(HostSystem::Linux, Ok(false)),
        "nono capability probe failed"
    );
    assert_eq!(
        reason(HostSystem::Linux, Err("no such file".to_string())),
        "nono capability probe failed: no such file"
    );
    assert_eq!(
        reason(HostSystem::MacOs, Ok(false)),
        "macOS nono capability probe failed"
    );
    assert_eq!(reason(HostSystem::MacOs, Err("gone".to_string())), "gone");
    let runner = LocalExecutionHostRunner::new(
        Ok("/bin/bash".to_string()),
        Ok("/opt/runtime".to_string()),
        true,
    )
    .expect("runner");
    let status = runner.status(true, Ok(()), Ok(())).expect("ready");
    assert!(status.policy_enforced && status.ready);
    assert_eq!(status.detail, "bash=/bin/bash");
    let denied = runner
        .status(
            true,
            Err(ExecutionError::denied("outside")),
            Err(ExecutionError::io("unused")),
        )
        .expect_err("checked first");
    assert!(matches!(denied, ExecutionError::Denied { reason } if reason == "outside"));
    assert!(runner
        .status(true, Ok(()), Err(ExecutionError::io("probe")))
        .is_err());
}

#[test]
fn git_bash_is_looked_for_where_git_installs_it() {
    assert_eq!(
        PROGRAM_VARIABLES,
        ["ProgramW6432", "ProgramFiles", "ProgramFiles(x86)"]
    );
    assert_eq!(LOCAL_PROGRAM_VARIABLE, "LOCALAPPDATA");
    assert_eq!(
        BASH_LIBRARY_PLACES,
        [
            "msys-2.0.dll",
            "../usr/bin/msys-2.0.dll",
            "../../usr/bin/msys-2.0.dll"
        ]
    );
    let shown: Vec<String> = git_bash_places(
        &vec![Some("A".to_string()), None, Some("B".to_string())],
        &Some("L".to_string()),
        &Some("G".to_string()),
        &Some("P/bash.exe".to_string()),
    )
    .iter()
    .map(|place| match place {
        BashPlace::Below { root, path } => format!("{root}/{path}"),
        BashPlace::At(path) => path.clone(),
    })
    .collect();
    assert_eq!(
        shown,
        strings(&[
            "A/Git/bin/bash.exe",
            "B/Git/bin/bash.exe",
            "L/Programs/Git/bin/bash.exe",
            "G/../bin/bash.exe",
            "G/../../bin/bash.exe",
            "P/bash.exe",
        ])
    );
    assert!(git_bash_places(&vec![None, None, None], &None, &None, &None).is_empty());
}

#[test]
fn only_git_bash_is_launched() {
    let path = "C:\\Git\\bin\\bash.exe";
    let prepare = |program: BashCandidate, cwd_is_directory: bool, network: NetworkAccess| {
        prepare_command(
            &program,
            git_bash(path),
            strings(&["-lc", "true"]),
            "C:\\workspace".to_string(),
            true,
            cwd_is_directory,
            vec![("NAME".to_string(), "value".to_string())],
            network,
        )
    };
    let mut linked = git_bash("C:\\link\\bash.exe");
    linked.canonical = Some(path.to_string());
    let request = prepare(linked, true, NetworkAccess::PublicInternet).expect("prepared");
    assert_eq!(request.schema, HOST_LAUNCH_SCHEMA);
    assert_eq!(request.program.path, path);
    assert_eq!(request.args, strings(&["-lc", "true"]));
    assert!(request.validate().is_ok());
    assert_eq!(WINDOWS_LAUNCHER_OPTION, "--windows-host-launcher");
    let mut other = git_bash("C:\\other\\bash.exe");
    other.has_library = false;
    match prepare(other, true, NetworkAccess::PublicInternet) {
        Err(ExecutionError::Denied { reason }) => assert_eq!(
            reason,
            "Windows host execution only accepts a verified Git for Windows Bash executable: C:\\other\\bash.exe"
        ),
        other => panic!("{other:?}"),
    }
    assert!(matches!(
        prepare(git_bash(path), false, NetworkAccess::PublicInternet),
        Err(ExecutionError::Io(reason))
            if reason == "Windows host launch working directory is unavailable: C:\\workspace"
    ));
    assert!(matches!(
        prepare(git_bash(path), true, NetworkAccess::Disabled),
        Err(ExecutionError::HostUnavailable { .. })
    ));
}

#[test]
fn hook_output_is_bounded_at_a_character() {
    let mut short = "ok".to_string();
    assert!(!bound_hook_stream(&mut short));
    assert_eq!(short, "ok");
    let mut long = format!("a{}", "é".repeat(40_000));
    assert!(bound_hook_stream(&mut long));
    assert!(long.len() <= 65_536);
    assert_eq!(long.len(), 65_535);
}

#[test]
fn hooks_run_in_their_workspace() {
    let place = |cwd: &str| HookPlace {
        workspace: Some(Ok(canonical("/w"))),
        cwd: Ok(canonical(cwd)),
        resources: Vec::new(),
    };
    assert!(check_hook_place(&place("/w/sub")).is_ok());
    assert!(check_hook_place(&place("/elsewhere")).is_err());
    let result = run_hook(Ok(HookProcess {
        exit_code: Some(2),
        stdout: "out".to_string(),
        stderr: "err".to_string(),
        stdout_bytes: 3,
        stderr_bytes: 70_000,
        timed_out: false,
    }));
    assert_eq!(result.exit_code, Some(2));
    assert!(!result.stdout_truncated);
    assert!(result.stderr_truncated);
    let failed = run_hook(Err("spawn".to_string()));
    assert_eq!(failed.spawn_error.as_deref(), Some("spawn"));
}

fn decide(program: &[FilterInstruction], number: u32, architecture: u32, argument: u32) -> u32 {
    let mut at = 0usize;
    let mut accumulator = 0u32;
    loop {
        let instruction = &program[at];
        match instruction.code {
            LOAD => {
                accumulator = match instruction.k {
                    0 => number,
                    4 => architecture,
                    _ => argument,
                };
                at += 1;
            }
            JUMP_EQUAL | JUMP_AT_LEAST => {
                let taken = if instruction.code == JUMP_EQUAL {
                    accumulator == instruction.k
                } else {
                    accumulator >= instruction.k
                };
                at += 1 + usize::from(if taken { instruction.jt } else { instruction.jf });
            }
            RETURN => return instruction.k,
            other => panic!("unknown instruction {other}"),
        }
    }
}

#[test]
fn the_filter_keeps_local_sockets_and_other_processes_out() {
    let numbers = SystemCallNumbers {
        architecture: 0xc000_003e,
        io_uring_setup: libc::SYS_io_uring_setup as u32,
        pidfd_getfd: libc::SYS_pidfd_getfd as u32,
        ptrace: libc::SYS_ptrace as u32,
        process_vm_readv: libc::SYS_process_vm_readv as u32,
        process_vm_writev: libc::SYS_process_vm_writev as u32,
        socket: libc::SYS_socket as u32,
    };
    let program = fixed_socket_boundary(&numbers);
    let native = numbers.architecture;
    assert_eq!(decide(&program, numbers.socket, native, UNIX_FAMILY), NOT_PERMITTED);
    assert_eq!(decide(&program, numbers.socket, native, libc::AF_INET as u32), ALLOWED);
    assert_eq!(decide(&program, numbers.ptrace, native, 0), NOT_PERMITTED);
    assert_eq!(decide(&program, numbers.io_uring_setup, native, 0), NOT_PERMITTED);
    assert_eq!(decide(&program, libc::SYS_read as u32, native, UNIX_FAMILY), ALLOWED);
    assert_eq!(decide(&program, libc::SYS_read as u32, 0x4000_0003, 0), KILLED);
    assert_eq!(
        decide(&program, ALTERNATIVE_NUMBERS + libc::SYS_read as u32, native, 0),
        NOT_PERMITTED
    );
    assert_eq!(LOAD, (libc::BPF_LD | libc::BPF_W | libc::BPF_ABS) as u16);
    assert_eq!(JUMP_EQUAL, (libc::BPF_JMP | libc::BPF_JEQ | libc::BPF_K) as u16);
    assert_eq!(JUMP_AT_LEAST, (libc::BPF_JMP | libc::BPF_JGE | libc::BPF_K) as u16);
    assert_eq!(RETURN, (libc::BPF_RET | libc::BPF_K) as u16);
    assert_eq!(ALLOWED, libc::SECCOMP_RET_ALLOW);
    assert_eq!(KILLED, libc::SECCOMP_RET_KILL_PROCESS);
    assert_eq!(NOT_PERMITTED, libc::SECCOMP_RET_ERRNO | libc::EPERM as u32);
    assert_eq!(UNIX_FAMILY, libc::AF_UNIX as u32);
}
