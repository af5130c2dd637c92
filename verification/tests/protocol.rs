use centaeris_runtime_host::commands::RuntimeHostCommand;
use centaeris_runtime_host::errors::{RpcErrorKind, RuntimeHostError};
use centaeris_runtime_host::handlers::{
    app_exit, check_sync_command, command_owns_store_lock, command_payload, command_place,
    event_after, failure_code, handle_request, handle_request_async, handler_error, is_stateless,
    join_failure, requires_registered_viewer, respond, state_lock_failure, stateless_join_failure,
    CommandPlace, FailureCode, Handled, PayloadMode,
};
use centaeris_runtime_host::host_protocol::{
    command_scope, is_registered_host_command, HostCommandScope, CENTAERIS_RUNTIME_PROTOCOL_EVENTS,
    CENTAERIS_RUNTIME_PROTOCOL_NAME, CENTAERIS_RUNTIME_PROTOCOL_PROJECTIONS,
    CENTAERIS_RUNTIME_PROTOCOL_VERSION, EXECUTION_HOST_COMMANDS, HOST_SURFACE_COMMANDS,
    SHARED_RUNTIME_COMMANDS,
};
use centaeris_runtime_host::runtime_registry::{
    check_documents, command_descriptors, generated_registry, generated_registry_manifest,
    generator_mode, listed_commands, operation_kind, replace_generated_registry,
    require_generator_argument, retry_policy, scope_text, GeneratorMode, RuntimeOperationKind,
    RuntimeRetryPolicy,
};
use std::collections::{BTreeSet, HashSet};

#[test]
fn classifies_shared_runtime_commands() {
    assert_eq!(
        command_scope("session/list"),
        Some(HostCommandScope::SharedRuntime)
    );
    assert_eq!(
        command_scope("plugin/list"),
        Some(HostCommandScope::SharedRuntime)
    );
}

#[test]
fn keeps_host_surface_out_of_shared_runtime() {
    assert_eq!(
        command_scope("desktop_file_preview_read"),
        Some(HostCommandScope::HostSurface)
    );
    assert_eq!(
        command_scope("workspace_file_tree"),
        Some(HostCommandScope::ExecutionHost)
    );
    assert_eq!(command_scope("missing_command"), None);
}

#[test]
fn centaeris_runtime_protocol_v1_descriptor_keeps_current_native_surface() {
    assert_eq!(CENTAERIS_RUNTIME_PROTOCOL_NAME, "centaeris.runtime");
    assert_eq!(CENTAERIS_RUNTIME_PROTOCOL_VERSION, 1);
    assert!(CENTAERIS_RUNTIME_PROTOCOL_EVENTS.contains(&"session/update"));
    assert!(CENTAERIS_RUNTIME_PROTOCOL_EVENTS.contains(&"runtime/config-changed"));
    for projection in ["runtime_event", "session_event"] {
        assert!(CENTAERIS_RUNTIME_PROTOCOL_PROJECTIONS.contains(&projection));
    }
}

#[test]
fn known_runtime_host_commands_are_registered_in_host_protocol() {
    let mut unique = HashSet::new();
    for descriptor in command_descriptors() {
        assert!(unique.insert(descriptor.command));
        assert_eq!(command_scope(descriptor.command), Some(descriptor.scope));
        let parsed = RuntimeHostCommand::parse(descriptor.command)
            .expect("registered command must parse");
        assert_eq!(parsed.command(), descriptor.command);
    }
    assert_eq!(unique.len(), 73);
}

#[test]
fn resource_settings_stores_do_not_wait_for_shared_runtime_host_state() {
    assert!(command_owns_store_lock(
        RuntimeHostCommand::AgentRuntimeConfigGet
    ));
    assert!(command_owns_store_lock(RuntimeHostCommand::PluginDetail));
    assert!(command_owns_store_lock(RuntimeHostCommand::SkillCatalog));
    assert!(!command_owns_store_lock(RuntimeHostCommand::SidecarStart));
    assert!(!command_owns_store_lock(RuntimeHostCommand::WorkspaceGet));
}

#[test]
fn generated_registry_contains_every_command_once() {
    let generated = generated_registry();
    for descriptor in command_descriptors() {
        assert_eq!(
            generated
                .lines()
                .filter(|line| line.starts_with(&format!("| `{}` |", descriptor.command)))
                .count(),
            1
        );
    }
}

#[test]
fn generated_registry_replaces_only_its_marked_region() {
    let document = "before\n<!-- BEGIN GENERATED:RUNTIME_METHOD_REGISTRY -->\nstale\n<!-- END GENERATED:RUNTIME_METHOD_REGISTRY -->\nafter\n";
    let updated = replace_generated_registry(document).expect("replace generated registry");
    assert!(updated.starts_with("before\n"));
    assert!(updated.ends_with("\nafter\n"));
    assert!(!updated.contains("stale"));
    assert_eq!(
        replace_generated_registry(&updated).expect("replace again"),
        updated
    );
}

#[test]
fn documents_without_their_markers_are_refused() {
    assert!(replace_generated_registry("no markers at all").is_err());
    let returns = "before\r\n<!-- BEGIN GENERATED:RUNTIME_METHOD_REGISTRY -->\r\nstale\r\n<!-- END GENERATED:RUNTIME_METHOD_REGISTRY -->\r\n<!-- END GENERATED:RUNTIME_METHOD_REGISTRY -->\r\n";
    let once = replace_generated_registry(returns).expect("line ends");
    assert!(!once.contains('\r'));
    assert_eq!(replace_generated_registry(&once), Ok(once));
    assert!(replace_generated_registry(
        "<!-- BEGIN GENERATED:RUNTIME_METHOD_REGISTRY -->\nopen ended"
    )
    .is_err());
}

#[test]
fn generated_manifest_is_strict_and_complete() {
    let manifest = generated_registry_manifest().expect("generate registry manifest");
    let value: serde_json::Value =
        serde_json::from_str(&manifest).expect("parse registry manifest");
    assert!(manifest.starts_with(
        "{\n  \"schema\": \"centaeris.runtime-method-registry.v1\",\n  \"methods\": ["
    ));
    assert_eq!(value["schema"], "centaeris.runtime-method-registry.v1");
    let methods = value["methods"].as_array().expect("methods array");
    assert_eq!(methods.len(), command_descriptors().len());

    let mut unique_names = HashSet::new();
    for method in methods {
        let fields = method.as_object().expect("method descriptor object");
        assert_eq!(
            fields.keys().map(String::as_str).collect::<BTreeSet<_>>(),
            BTreeSet::from([
                "name",
                "operationKind",
                "reconcileMethod",
                "retryPolicy",
                "scope",
            ])
        );
        assert!(unique_names.insert(method["name"].as_str().expect("method name")));
        assert!(matches!(
            method["operationKind"].as_str(),
            Some("read" | "desiredStateWrite" | "identityMutation" | "creation" | "oneShotAction")
        ));
        assert!(matches!(
            method["retryPolicy"].as_str(),
            Some("safeRetry" | "sameOperationId" | "noAutomaticRetry")
        ));
        assert!(
            method["reconcileMethod"].is_null() || method["reconcileMethod"].as_str().is_some()
        );
        if let Some(reconcile_method) = method["reconcileMethod"].as_str() {
            assert!(methods
                .iter()
                .any(|candidate| candidate["name"].as_str() == Some(reconcile_method)));
        }
    }
}

#[test]
fn retry_classifications_remain_conservative() {
    let descriptors = command_descriptors();
    let same_operation_id = descriptors
        .iter()
        .filter(|descriptor| descriptor.retry_policy == RuntimeRetryPolicy::SameOperationId)
        .map(|descriptor| descriptor.command)
        .collect::<BTreeSet<_>>();
    assert_eq!(
        same_operation_id,
        BTreeSet::from(["session/new", "session/prompt"])
    );

    for descriptor in &descriptors {
        if descriptor.operation_kind == RuntimeOperationKind::Read {
            assert_eq!(
                descriptor.retry_policy,
                RuntimeRetryPolicy::SafeRetry,
                "read command must be safely retryable: {}",
                descriptor.command
            );
        } else if !same_operation_id.contains(descriptor.command) {
            assert_eq!(
                descriptor.retry_policy,
                RuntimeRetryPolicy::NoAutomaticRetry,
                "unproved mutation must not be automatically retried: {}",
                descriptor.command
            );
        }
    }
}

#[test]
fn generated_reference_exposes_reliability_metadata() {
    let generated = generated_registry();
    for heading in [
        "| Method | Operation kind | Retry policy | Reconcile method |",
        "| --- | --- | --- | --- |",
    ] {
        assert!(generated.contains(heading));
    }
}

#[test]
fn the_generator_checks_or_writes() {
    assert!(matches!(generator_mode("--check"), Ok(GeneratorMode::Check)));
    assert!(matches!(generator_mode("--write"), Ok(GeneratorMode::Write)));
    assert!(generator_mode("--banana").is_err());
    assert!(require_generator_argument(&Vec::new()).is_err());
    assert_eq!(
        require_generator_argument(&vec!["--check".to_string()]),
        Ok("--check".to_string())
    );
    assert!(check_documents("a", "a", "m", "m").is_ok());
    assert!(check_documents("a", "b", "m", "m").is_err());
    assert!(check_documents("a", "a", "m", "n").is_err());
}

#[test]
fn every_command_has_one_scope() {
    let total =
        SHARED_RUNTIME_COMMANDS.len() + EXECUTION_HOST_COMMANDS.len() + HOST_SURFACE_COMMANDS.len();
    assert_eq!(total, 73);
    for command in listed_commands() {
        assert!(is_registered_host_command(command.command()));
        assert_eq!(command_scope(command.command()), Some(command.scope()));
    }
    assert!(!is_registered_host_command("session/banana"));
    assert_eq!(scope_text(HostCommandScope::SharedRuntime), "sharedRuntime");
    assert_eq!(scope_text(HostCommandScope::ExecutionHost), "executionHost");
    assert_eq!(scope_text(HostCommandScope::HostSurface), "hostSurface");
}

#[test]
fn operation_kinds_have_their_names() {
    assert_eq!(RuntimeOperationKind::Read.as_str(), "read");
    assert_eq!(
        RuntimeOperationKind::DesiredStateWrite.as_str(),
        "desiredStateWrite"
    );
    assert_eq!(
        RuntimeOperationKind::IdentityMutation.as_str(),
        "identityMutation"
    );
    assert_eq!(RuntimeOperationKind::Creation.as_str(), "creation");
    assert_eq!(RuntimeOperationKind::OneShotAction.as_str(), "oneShotAction");
    assert_eq!(RuntimeRetryPolicy::SafeRetry.as_str(), "safeRetry");
    assert_eq!(
        RuntimeRetryPolicy::SameOperationId.as_str(),
        "sameOperationId"
    );
    assert_eq!(
        RuntimeRetryPolicy::NoAutomaticRetry.as_str(),
        "noAutomaticRetry"
    );
    assert_eq!(
        operation_kind(RuntimeHostCommand::SessionList),
        RuntimeOperationKind::Read
    );
    assert_eq!(
        retry_policy(RuntimeHostCommand::AgentInput),
        RuntimeRetryPolicy::SameOperationId
    );
}

#[test]
fn commands_are_parsed_trimmed_or_refused() {
    let parsed = RuntimeHostCommand::parse(" session/list ").expect("trimmed command");
    assert_eq!(parsed, RuntimeHostCommand::SessionList);
    let missing = RuntimeHostCommand::parse("  ").expect_err("blank command");
    assert_eq!(missing.code, "invalid_request");
    let unknown = RuntimeHostCommand::parse("session/banana").expect_err("unknown command");
    assert_eq!(unknown.rpc_error_kind(), RpcErrorKind::MethodNotFound);
}

#[test]
fn errors_become_replies() {
    assert_eq!(
        RuntimeHostError::invalid_request("bad").rpc_error_kind(),
        RpcErrorKind::InvalidRequest
    );
    assert_eq!(
        RuntimeHostError::transport("gone").rpc_error_kind(),
        RpcErrorKind::InternalError
    );
    let error = RuntimeHostError::new("session_prompt_failed", "no model");
    assert_eq!(error.code, "session_prompt_failed");
    assert!(error.display_text().contains("no model"));
    assert!(RuntimeHostError::json_parse_failed("EOF").message.contains("EOF"));
}

#[test]
fn requests_are_sent_to_the_handlers_that_answer_them() {
    for command in listed_commands() {
        let (parsed, place) =
            handle_request_async(command.command()).expect("every command is answered");
        assert_eq!(parsed, command);
        assert_eq!(place, command_place(command));
        match place {
            CommandPlace::Asynchronous => {
                assert!(check_sync_command(command).is_err());
                assert!(handle_request(command.command()).is_err());
            }
            _ => {
                assert!(check_sync_command(command).is_ok());
                assert_eq!(handle_request(command.command()).ok(), Some(command));
            }
        }
        if place == CommandPlace::Isolated {
            assert!(command_owns_store_lock(command) || is_stateless(command));
        }
    }
    assert!(handle_request_async("session/banana").is_err());
    assert!(handle_request("").is_err());
}

#[test]
fn responses_carry_the_result_or_the_code_of_the_failure() {
    let done = respond(
        RuntimeHostCommand::SessionList,
        Handled::Done("[]".to_string()),
        "unused",
    );
    assert_eq!(done.ok(), Some("[]".to_string()));
    let failed = respond(
        RuntimeHostCommand::SessionList,
        Handled::Failed("disk".to_string()),
        "derived",
    )
    .expect_err("failed");
    assert_eq!(failed.message, "disk");
    let error = handler_error(RuntimeHostCommand::SessionList, "disk", "derived");
    assert_eq!(failed.code, error.code);
    match failure_code(RuntimeHostCommand::SessionList) {
        FailureCode::Fixed(code) => assert_eq!(error.code, code),
        _ => assert_eq!(error.code, "derived"),
    }
    let unserialized = respond(
        RuntimeHostCommand::SessionList,
        Handled::NotSerialized("cycle".to_string()),
        "derived",
    )
    .expect_err("not serialized");
    assert_eq!(unserialized.code, "serialize_response_failed");
    let refused = respond(
        RuntimeHostCommand::SessionList,
        Handled::Refused(RuntimeHostError::invalid_request("no")),
        "derived",
    )
    .expect_err("refused");
    assert_eq!(refused.code, "invalid_request");
}

#[test]
fn payloads_are_required_where_a_command_needs_one() {
    assert_eq!(
        command_payload(RuntimeHostCommand::AgentInput),
        PayloadMode::Required
    );
    assert!(requires_registered_viewer(RuntimeHostCommand::AgentRunAttach));
    assert!(!requires_registered_viewer(RuntimeHostCommand::AgentInput));
    assert_eq!(
        event_after(RuntimeHostCommand::AgentRuntimeConfigSet),
        Some("runtime/config-changed")
    );
    assert_eq!(event_after(RuntimeHostCommand::SessionList), None);
}

#[test]
fn a_handler_that_dies_is_told() {
    assert_eq!(
        join_failure(CommandPlace::Isolated, "boom").message,
        "independent store handler blocking owner join failed: boom"
    );
    assert_eq!(
        join_failure(CommandPlace::Shared, "boom").message,
        "Runtime Host sync handler blocking owner join failed: boom"
    );
    assert!(stateless_join_failure("boom").message.ends_with("boom"));
    assert_eq!(
        state_lock_failure().message,
        "Runtime Host state lock poisoned"
    );
}

#[test]
fn the_exit_of_an_owner_is_answered_as_far_as_it_went() {
    assert_eq!(
        app_exit(Ok(()), Ok(()), Ok(())).expect("exited"),
        "{\"ok\":true}"
    );
    let refused = app_exit(
        Err(RuntimeHostError::invalid_request("viewer")),
        Err("unused".to_string()),
        Err("unused".to_string()),
    )
    .expect_err("not detached");
    assert_eq!((refused.code.as_str(), refused.message.as_str()), ("invalid_request", "viewer"));
    let lost = app_exit(Ok(()), Err("gone".to_string()), Ok(())).expect_err("not recorded");
    assert_eq!((lost.code.as_str(), lost.message.as_str()), ("transport_error", "gone"));
    let kept = app_exit(Ok(()), Ok(()), Err("busy".to_string())).expect_err("not interrupted");
    assert_eq!(
        (kept.code.as_str(), kept.message.as_str()),
        ("owner_exit_interrupt_failed", "busy")
    );
}
