use centaeris_runtime_host::local_attachments::LocalImageInputRequest;
use centaeris_runtime_host::message_log::{MessageRole, ProjectedAgentRun};
use centaeris_runtime_host::model_provider::{
    agent_runtime_config, apply_auth_prefix, auth_spec_with_model_api_key, begin_model_test,
    custom_model_provider_info, ensure_selected_model_supports_vision, finish_model_test,
    model_config_wire_api, model_session_config_and_registry,
    model_session_config_and_registry_for, model_test_error_keyword, model_test_keyword,
    model_test_prompt, model_wire_api_to_wire_api, prompt_token_estimate_scale_basis_points, query_client,
    session_prompt_loop_failure_retryable, test_client, AuthSpec, CatalogModel,
    CustomModelProviderApi, ModelAnswer, ModelClient, ModelClientError, ModelProviderInfo,
    ModelProviderKind, ModelSettings, ModelTest, RequestDefaults, RunLimits, RunSettings, WireApi,
    MODEL_NOT_CONFIGURED,
};
use centaeris_runtime_host::operation_receipts::{
    deterministic_identity, receipt_path, request_digest, validate_operation_id, OperationReceipt,
    MAX_OPERATION_ID_BYTES,
};
use centaeris_runtime_host::prompt_input::{
    answer_now, answer_now_response, build_question_answer_message, canonical_request,
    compact_context, confirm_started, enqueue_supplement, input, latest_paused_question_turn_id,
    normalize_session_id, plan_input, question_answer_action,
    rewrite_last_user_input_from_request, supplement_response, ActiveRun, AgentInputRequest, AgentInputResponse,
    AgentSupplementRequest, AnswerNowDisposition, InputAction, PromptReceipt, QuestionAnswer,
    SessionCheckpoint, SESSION_PROMPT_METHOD,
};

const DEFAULTS: RequestDefaults = RequestDefaults {
    timeout_ms: 300_000,
    max_retries: 3,
    retry_backoff_ms: 500,
};

fn prompt_request(operation_id: &str, session_id: &str, message: &str) -> AgentInputRequest {
    AgentInputRequest {
        operation_id: operation_id.to_string(),
        session_id: Some(session_id.to_string()),
        message: message.to_string(),
        tail_policy: None,
        rewrite_target_message_id: None,
        rewrite_expected_tail_message_id: None,
        auto_continue_after_resume_wait: None,
        attachments: Vec::new(),
    }
}

fn started(request: &AgentInputRequest) -> centaeris_runtime_host::prompt_input::Prompt {
    match input(request, &Ok(None), &Ok(false)) {
        Ok(InputAction::Start(prompt)) => prompt,
        other => panic!("a new prompt must start: {other:?}"),
    }
}

fn receipt_of(digest: &str, response: &AgentInputResponse) -> PromptReceipt {
    PromptReceipt {
        request_digest: digest.to_string(),
        response: Ok(AgentInputResponse {
            session_id: response.session_id.clone(),
            agent_run_id: response.agent_run_id.clone(),
            turn_id: response.turn_id.clone(),
            stream_items: Vec::new(),
        }),
    }
}

fn run(id: &str, session: &str, status: &str, updated_at_ms: i64) -> ProjectedAgentRun {
    ProjectedAgentRun {
        agent_run_id: id.to_string(),
        session_id: session.to_string(),
        turn_id: format!("turn-{id}"),
        cwd: None,
        status: status.to_string(),
        started_at_ms: 1,
        updated_at_ms,
        completed_at_ms: None,
        last_event_at_ms: None,
        error: None,
    }
}

#[test]
fn session_prompt_operation_identity_uses_the_shared_bounded_opaque_contract() {
    for operation_id in [
        "".to_string(),
        " leading".to_string(),
        "path/segment".to_string(),
        "x".repeat(MAX_OPERATION_ID_BYTES + 1),
    ] {
        let error =
            validate_operation_id(&operation_id).expect_err("invalid operationId must fail loudly");
        assert!(error.contains("operationId"));
    }
    validate_operation_id("session-prompt:client_01.2").expect("valid operationId");
    validate_operation_id(&"x".repeat(MAX_OPERATION_ID_BYTES)).expect("longest operationId");
}

#[test]
fn duplicate_prompt_operation_while_running_returns_the_original_response_once() {
    let first = prompt_request("prompt-operation-running", "chat-1", "hello");
    let original = started(&first);
    let mut duplicate = prompt_request("prompt-operation-running", " chat-1 ", " hello ");
    duplicate.tail_policy = Some("append".to_string());
    let receipt = receipt_of(&original.digest, &original.response);
    match input(&duplicate, &Ok(Some(receipt)), &Ok(true)) {
        Ok(InputAction::Replay(response)) => {
            assert_eq!(response.agent_run_id, original.response.agent_run_id);
            assert_eq!(response.turn_id, original.response.turn_id);
            assert_eq!(response.session_id, "chat-1");
            assert!(response.stream_items.is_empty());
        }
        other => panic!("running duplicate did not return the original identities: {other:?}"),
    }
}

#[test]
fn completed_prompt_operation_replays_after_response_loss_and_runtime_reopen() {
    let request = prompt_request("prompt-operation-reopen", "chat-1", "hello");
    let original = started(&request);
    let receipt = receipt_of(&original.digest, &original.response);
    let replayed = input(
        &prompt_request("prompt-operation-reopen", "chat-1", "hello"),
        &Ok(Some(receipt)),
        &Ok(true),
    );
    match replayed {
        Ok(InputAction::Replay(response)) => {
            assert_eq!(response.agent_run_id, original.response.agent_run_id);
            assert_eq!(response.turn_id, original.response.turn_id);
        }
        other => panic!("reopened runtime did not replay the original receipt: {other:?}"),
    }
}

#[test]
fn prompt_operation_recovers_when_the_receipt_committed_before_the_agent_run() {
    let operation_id = "prompt-operation-receipt-crash-window";
    let digest = request_digest(
        canonical_request("chat-1", "hello", &None, None, &Vec::new()).as_bytes(),
    );
    let expected = AgentInputResponse {
        session_id: "chat-1".to_string(),
        agent_run_id: deterministic_identity("agent-run-", SESSION_PROMPT_METHOD, operation_id),
        turn_id: deterministic_identity("turn-", SESSION_PROMPT_METHOD, operation_id),
        stream_items: Vec::new(),
    };
    let receipt = receipt_of(&digest, &expected);
    match input(
        &prompt_request(operation_id, "chat-1", "hello"),
        &Ok(Some(receipt)),
        &Ok(false),
    ) {
        Ok(InputAction::Restart(prompt)) => {
            assert_eq!(prompt.response.agent_run_id, expected.agent_run_id);
            assert_eq!(prompt.response.turn_id, expected.turn_id);
            assert_eq!(prompt.message, "hello");
            let run_id = expected.agent_run_id.clone();
            let turn_id = expected.turn_id.clone();
            assert!(confirm_started(prompt.response, &run_id, &turn_id).is_ok());
        }
        other => panic!("receipt-only recovery changed prompt identities: {other:?}"),
    }
}

#[test]
fn duplicate_prompt_operation_with_changed_payload_fails_as_a_conflict() {
    let first = prompt_request("prompt-operation-conflict", "chat-1", "first");
    let original = started(&first);
    let receipt = receipt_of(&original.digest, &original.response);
    let error = input(
        &prompt_request("prompt-operation-conflict", "chat-1", "changed"),
        &Ok(Some(receipt)),
        &Ok(true),
    )
    .expect_err("changed payload must not reuse an operationId");
    assert_eq!(error.code(), "operation_id_conflict");
    assert_eq!(
        error.message(),
        "operationId was already used for a different session/prompt request: prompt-operation-conflict"
    );
}

#[test]
fn every_change_of_a_prompt_is_a_conflict() {
    let first = prompt_request("prompt-operation-change", "chat-1", "first");
    let original = started(&first);
    let mut changed = Vec::new();
    changed.push(prompt_request("prompt-operation-change", "chat-2", "first"));
    let mut continued = prompt_request("prompt-operation-change", "chat-1", "first");
    continued.auto_continue_after_resume_wait = Some(false);
    changed.push(continued);
    let mut rewriting = prompt_request("prompt-operation-change", "chat-1", "first");
    rewriting.tail_policy = Some("rewriteLastUser".to_string());
    rewriting.rewrite_target_message_id = Some("m-1".to_string());
    rewriting.rewrite_expected_tail_message_id = Some("m-2".to_string());
    changed.push(rewriting);
    let mut with_image = prompt_request("prompt-operation-change", "chat-1", "first");
    with_image.attachments = vec![LocalImageInputRequest {
        placeholder: "[image]".to_string(),
        local_path: "/tmp/a.png".to_string(),
    }];
    changed.push(with_image);
    for request in &changed {
        let receipt = receipt_of(&original.digest, &original.response);
        let error = input(request, &Ok(Some(receipt)), &Ok(true)).expect_err("changed");
        assert_eq!(error.code(), "operation_id_conflict");
    }
}

#[test]
fn receipts_that_do_not_fit_are_refused() {
    let request = prompt_request("prompt-operation-broken", "chat-1", "hello");
    let original = started(&request);
    let unreadable = PromptReceipt {
        request_digest: original.digest.clone(),
        response: Err("missing field `turnId`".to_string()),
    };
    let error = input(&request, &Ok(Some(unreadable)), &Ok(true)).expect_err("unreadable");
    assert_eq!(error.code(), "session_prompt_failed");
    assert_eq!(
        error.message(),
        "decode persisted session/prompt result failed: missing field `turnId`"
    );
    let mut other = receipt_of(&original.digest, &original.response);
    if let Ok(response) = &mut other.response {
        response.turn_id = "turn-other".to_string();
    }
    let error = input(&request, &Ok(Some(other)), &Ok(true)).expect_err("mismatch");
    assert_eq!(
        error.message(),
        "persisted session/prompt result identity mismatch"
    );
    let error = input(&request, &Err("disk".to_string()), &Ok(true)).expect_err("unread");
    assert_eq!(error.message(), "disk");
    let receipt = receipt_of(&original.digest, &original.response);
    let error =
        input(&request, &Ok(Some(receipt)), &Err("log".to_string())).expect_err("unknown run");
    assert_eq!(error.message(), "log");
    let error = confirm_started(original.response, "agent-run-x", "turn-x").expect_err("drift");
    assert_eq!(
        error.message(),
        "session/prompt started with identities that differ from its durable receipt"
    );
}

#[test]
fn canonical_requests_are_encoded_field_by_field() {
    let attachments = vec![
        LocalImageInputRequest {
            placeholder: "[image]".to_string(),
            local_path: "/tmp/a \"b\".png".to_string(),
        },
        LocalImageInputRequest {
            placeholder: "[two]".to_string(),
            local_path: "/tmp/c.png".to_string(),
        },
    ];
    assert_eq!(
        canonical_request("chat-1", "hi\nthere", &None, Some(true), &attachments),
        concat_lines(&[
            "{\"sessionId\":\"chat-1\",\"message\":\"hi\\nthere\",\"tailPolicy\":\"append\",",
            "\"rewriteTargetMessageId\":null,\"rewriteExpectedTailMessageId\":null,",
            "\"autoContinueAfterResumeWait\":true,\"attachments\":[",
            "{\"placeholder\":\"[image]\",\"localPath\":\"/tmp/a \\\"b\\\".png\"},",
            "{\"placeholder\":\"[two]\",\"localPath\":\"/tmp/c.png\"}]}",
        ])
    );
    let value: serde_json::Value = serde_json::from_str(&canonical_request(
        "chat-1",
        "hello",
        &None,
        None,
        &Vec::new(),
    ))
    .expect("canonical request is JSON");
    assert_eq!(value["message"], "hello");
    assert!(value["attachments"].as_array().expect("list").is_empty());
}

fn concat_lines(lines: &[&str]) -> String {
    lines.concat()
}

#[test]
fn rewriting_prompts_take_no_images_and_need_a_message() {
    let mut request = prompt_request("operation", "chat", " ");
    assert_eq!(
        plan_input(&request).expect_err("blank message").message(),
        "message is required"
    );
    request.message = "hello".to_string();
    request.tail_policy = Some("rewriteLastUser".to_string());
    request.rewrite_target_message_id = Some(" msg:user:turn-1 ".to_string());
    request.rewrite_expected_tail_message_id = Some("msg:assistant:turn-1".to_string());
    let prompt = plan_input(&request).expect("rewrite");
    assert_eq!(
        prompt.rewrite.expect("rewrite").target_chat_message_id,
        "msg:user:turn-1"
    );
    request.attachments.push(LocalImageInputRequest {
        placeholder: "[image]".to_string(),
        local_path: "/tmp/a.png".to_string(),
    });
    assert_eq!(
        plan_input(&request).expect_err("images").message(),
        "rewriteLastUser does not support input images"
    );
}

#[test]
fn session_prompt_request_rejects_unknown_tail_policy() {
    let mut request = prompt_request("prompt-operation-tail-policy", "chat-tail-policy", "hello");
    request.tail_policy = Some("banana".to_string());
    let error = rewrite_last_user_input_from_request(&request)
        .expect_err("unsupported tailPolicy must fail loudly");

    assert!(error.contains("unsupported tailPolicy"));
}

#[test]
fn session_prompt_request_rejects_rewrite_tail_policy_without_ids() {
    let mut request =
        prompt_request("prompt-operation-rewrite-missing-ids", "chat-rewrite", "hello");
    request.tail_policy = Some("rewriteLastUser".to_string());
    let error = rewrite_last_user_input_from_request(&request)
        .expect_err("rewriteLastUser requires explicit target ids");

    assert!(error.contains("rewriteTargetMessageId"));
    request.rewrite_target_message_id = Some("msg:user:turn-1".to_string());
    let error = rewrite_last_user_input_from_request(&request).expect_err("tail id");
    assert_eq!(error, "rewriteExpectedTailMessageId is required");
}

#[test]
fn session_prompt_request_accepts_rewrite_tail_policy_with_ids() {
    let mut request = prompt_request("prompt-operation-rewrite", "chat-rewrite", "hello");
    request.tail_policy = Some("rewriteLastUser".to_string());
    request.rewrite_target_message_id = Some("msg:user:turn-1".to_string());
    request.rewrite_expected_tail_message_id = Some("msg:assistant:turn-1".to_string());
    let rewrite = rewrite_last_user_input_from_request(&request)
        .expect("parse rewrite policy")
        .expect("rewrite policy");

    assert_eq!(rewrite.target_chat_message_id, "msg:user:turn-1");
    assert_eq!(
        rewrite.expected_tail_chat_message_id,
        "msg:assistant:turn-1"
    );
}

#[test]
fn sessions_have_a_default() {
    assert_eq!(normalize_session_id(&None), "chat-default");
    assert_eq!(normalize_session_id(&Some("  ".to_string())), "chat-default");
    assert_eq!(normalize_session_id(&Some(" chat-2 ".to_string())), "chat-2");
}

#[test]
fn receipts_are_kept_by_method_and_operation() {
    let (directory, file) = receipt_path("session/prompt", "operation-1");
    assert!(!directory.contains('/'));
    assert!(file.ends_with(".json"));
    let receipt = OperationReceipt::for_operation(
        "session/prompt",
        "operation-1",
        "sha256:0".to_string(),
        "{}".to_string(),
    );
    assert!(receipt.validate("session/prompt", "operation-1").is_ok());
    assert!(receipt.validate("session/new", "operation-1").is_err());
    assert!(receipt.validate("session/prompt", "operation-2").is_err());
    assert_eq!(
        deterministic_identity("turn-", "session/prompt", "a"),
        deterministic_identity("turn-", "session/prompt", "a")
    );
    assert_ne!(
        deterministic_identity("turn-", "session/prompt", "a"),
        deterministic_identity("turn-", "session/prompt", "b")
    );
    assert_eq!(
        deterministic_identity("turn-", "session/prompt", "a").len(),
        "turn-".len() + 32
    );
}

#[test]
fn supplements_go_to_the_active_run_of_their_session() {
    let request = AgentSupplementRequest {
        session_id: " chat-supplement ".to_string(),
        agent_run_id: "agent-run-supplement".to_string(),
        message: "change direction".to_string(),
    };
    let supplement =
        enqueue_supplement(&request, &Some("chat-supplement".to_string())).expect("accepted");
    assert_eq!(supplement.session_id, "chat-supplement");
    assert_eq!(supplement.message, "change direction");
    assert_eq!(
        enqueue_supplement(&request, &None).expect_err("inactive"),
        "turn supplement rejected: active agent run not found for agentRunId=agent-run-supplement"
    );
    assert_eq!(
        enqueue_supplement(&request, &Some("chat-other".to_string())).expect_err("other session"),
        "turn supplement sessionId mismatch: expected=chat-other actual=chat-supplement"
    );
    let response = supplement_response(&supplement, 2);
    assert!(response.accepted);
    assert_eq!(response.session_id, "chat-supplement");
    assert_eq!(response.agent_run_id, "agent-run-supplement");
    assert_eq!(response.queued_count, 2);
    let blank = AgentSupplementRequest {
        session_id: "chat".to_string(),
        agent_run_id: " ".to_string(),
        message: "x".to_string(),
    };
    assert_eq!(
        enqueue_supplement(&blank, &None).expect_err("blank"),
        "agentRunId is required"
    );
}

#[test]
fn answering_now_is_accepted_once() {
    let active = Some(ActiveRun {
        session_id: "chat".to_string(),
        agent_run_id: "run".to_string(),
        turn_id: "turn".to_string(),
    });
    let fact = answer_now(" run ", &active).expect("active");
    assert_eq!(fact.session_id, "chat");
    assert_eq!(fact.turn_id, "turn");
    assert_eq!(fact.agent_run_id, "run");
    assert_eq!(fact.source, "electron.host_bridge");
    assert_eq!(
        answer_now("run", &None).expect_err("not active"),
        "agentRunNotActive"
    );
    assert_eq!(
        answer_now(" ", &active).expect_err("blank"),
        "agentRunId is required"
    );
    let accepted =
        answer_now_response(AnswerNowDisposition::Accepted, &Ok(()), &fact, "intervention")
            .expect("accepted");
    assert!(accepted.accepted);
    assert_eq!(accepted.disposition, "accepted");
    assert_eq!(accepted.session_id, "chat");
    assert_eq!(accepted.agent_run_id, "run");
    assert_eq!(accepted.intervention_id, "intervention");
    let again = answer_now_response(
        AnswerNowDisposition::AlreadyConverging,
        &Err("alreadyConverging".to_string()),
        &fact,
        "intervention",
    )
    .expect("already converging");
    assert!(!again.accepted);
    assert_eq!(again.disposition, "alreadyConverging");
    assert_eq!(
        answer_now_response(
            AnswerNowDisposition::AlreadyConverging,
            &Err("disk".to_string()),
            &fact,
            "intervention",
        )
        .expect_err("not recorded"),
        "disk"
    );
}

#[test]
fn a_model_is_tested_with_one_short_message() {
    let prompt = model_test_prompt();
    assert_eq!(prompt.session_id, "model-test");
    assert_eq!(prompt.turn_id, "model-test");
    assert_eq!(prompt.loop_index, 0);
    assert_eq!(prompt.system_prompt, None);
    assert!(prompt.tools.is_empty());
    assert!(!prompt.chooses_tools);
    assert_eq!(prompt.prompt_token_estimate, 32);
    assert_eq!(prompt.context_token_estimate, 32);
    assert_eq!(prompt.prompt_cache_key, None);
    assert_eq!(prompt.prompt_cache_retention, None);
    assert_eq!(prompt.system_prompt_manifest_json, None);
    assert_eq!(prompt.compression_stats_json, None);
    assert_eq!(prompt.messages.len(), 1);
    let message = &prompt.messages[0];
    assert_eq!(message.message_id, "model-test-user");
    assert_eq!(message.role, MessageRole::User);
    assert_eq!(message.content, "Reply with a short connectivity confirmation.");
    assert!(message.tool_calls.is_empty());
    assert_eq!(message.tool_call_id, None);
    assert_eq!(message.reasoning_content, None);
}

#[test]
fn the_scale_of_estimates_is_the_least_that_covers_them() {
    let scale = prompt_token_estimate_scale_basis_points(1_001, 1_000);
    assert_eq!(scale, 10_010);
    assert!(u64::from(scale - 1) * 1_000 < 1_001 * 10_000);
    assert!(u64::from(scale) * 1_000 >= 1_001 * 10_000);
    assert_eq!(prompt_token_estimate_scale_basis_points(1, 3), 10_000);
    assert_eq!(prompt_token_estimate_scale_basis_points(4, 3), 13_334);
    assert_eq!(prompt_token_estimate_scale_basis_points(5, 3), 16_667);
    assert_eq!(prompt_token_estimate_scale_basis_points(u64::MAX, 3), 100_000);
}

#[test]
fn questions_are_answered_with_options_and_text() {
    let answers = vec![" main ".to_string(), "  ".to_string(), "release".to_string()];
    assert_eq!(
        build_question_answer_message("q-1", &answers, &Some(" Use it ".to_string())),
        Ok("Answer for pending question q-1:\nSelected options:\n- main\n- release\n\nFree-form answer:\nUse it".to_string())
    );
    assert_eq!(
        build_question_answer_message("q-1", &Vec::new(), &Some("yes".to_string())),
        Ok("Answer for pending question q-1:\nFree-form answer:\nyes".to_string())
    );
    assert_eq!(
        build_question_answer_message("q-1", &vec![" ".to_string()], &None),
        Err("question answer cannot be empty".to_string())
    );
}

#[test]
fn answers_resume_the_paused_turn_or_reach_the_active_run() {
    let checkpoint = Some(SessionCheckpoint {
        turn_id: "turn-paused".to_string(),
        status: "done".to_string(),
        done_reason: Some("question".to_string()),
    });
    assert_eq!(
        latest_paused_question_turn_id(&checkpoint, "chat"),
        Ok("turn-paused".to_string())
    );
    assert_eq!(
        latest_paused_question_turn_id(&None, "chat"),
        Err("paused question checkpoint not found for sessionId=chat".to_string())
    );
    let answers = vec!["yes".to_string()];
    let paused: Result<String, String> = Ok("turn-paused".to_string());
    match question_answer_action(&None, "q-1", &answers, &None, &paused, &None) {
        Ok(QuestionAnswer::Start {
            session_id,
            message,
            resume_from_turn_id,
        }) => {
            assert_eq!(session_id, "chat-default");
            assert!(message.starts_with("Answer for pending question q-1:"));
            assert_eq!(resume_from_turn_id, "turn-paused");
        }
        other => panic!("{other:?}"),
    }
    let active = Some(ActiveRun {
        session_id: "chat-default".to_string(),
        agent_run_id: "run-1".to_string(),
        turn_id: "turn-1".to_string(),
    });
    match question_answer_action(&None, "q-1", &answers, &None, &paused, &active) {
        Ok(QuestionAnswer::Supplement { request, response }) => {
            assert_eq!(request.agent_run_id, "run-1");
            assert_eq!(response.turn_id, "turn-1");
        }
        other => panic!("{other:?}"),
    }
    assert!(question_answer_action(
        &None,
        "q-1",
        &answers,
        &None,
        &Err("none paused".to_string()),
        &active
    )
    .is_err());
}

#[test]
fn contexts_are_compacted_for_the_run_that_was_updated_last() {
    let runs = vec![
        run("a", "chat", "succeeded", 5),
        run("b", "chat", "succeeded", 9),
        run("c", "chat", "succeeded", 9),
        run("d", "chat", "succeeded", 2),
    ];
    assert_eq!(
        compact_context(" chat ", false, &runs),
        Ok(("chat".to_string(), "c".to_string()))
    );
    assert_eq!(
        compact_context("chat", true, &runs),
        Err("cannot compact context while an AgentRun is active".to_string())
    );
    assert_eq!(
        compact_context("chat", false, &Vec::new()),
        Err("context compaction requires an existing AgentRun".to_string())
    );
}

#[test]
fn session_prompt_loop_preserves_model_retryability_metadata() {
    assert!(session_prompt_loop_failure_retryable(
        "model_client_error(kind=provider_response_interrupted,retryable=true): read SSE chunk failed"
    ));
    assert!(!session_prompt_loop_failure_retryable(
        "model_client_error(kind=invalid_request,retryable=false): bad request"
    ));
    assert!(!session_prompt_loop_failure_retryable(
        "session store failed before model request"
    ));
}

#[test]
fn actual_provider_usage_calibrates_future_prompt_estimates_conservatively() {
    assert_eq!(
        prompt_token_estimate_scale_basis_points(228_800, 163_000),
        14_037
    );
    assert_eq!(prompt_token_estimate_scale_basis_points(100, 200), 10_000);
    assert_eq!(
        prompt_token_estimate_scale_basis_points(2_000_000, 1),
        100_000
    );
    assert_eq!(prompt_token_estimate_scale_basis_points(7, 0), 10_000);
    assert_eq!(
        prompt_token_estimate_scale_basis_points(u64::MAX, u64::MAX),
        10_000
    );
    assert!(14_037 * 163_000u64 >= 228_800 * 10_000);
}

#[test]
fn runs_are_configured_by_request_settings_and_defaults() {
    let initial = RunLimits {
        auto_continue_after_resume_wait: false,
        model_context_tokens: 100,
        model_max_output_tokens: 10,
        tool_parallelism: 4,
        prompt_token_estimate_scale_basis_points: 10_000,
    };
    let settings = RunSettings {
        auto_continue_after_resume_wait: true,
        model_context_tokens: Some(200),
        model_max_output_tokens: None,
        tool_parallelism: Some(2),
    };
    let limits = agent_runtime_config(initial, settings, None, Some(228_800), Some(163_000));
    assert_eq!(
        limits,
        RunLimits {
            auto_continue_after_resume_wait: true,
            model_context_tokens: 200,
            model_max_output_tokens: 10,
            tool_parallelism: 2,
            prompt_token_estimate_scale_basis_points: 14_037,
        }
    );
    let asked = agent_runtime_config(initial, settings, Some(false), None, Some(1));
    assert!(!asked.auto_continue_after_resume_wait);
    assert_eq!(asked.prompt_token_estimate_scale_basis_points, 10_000);
}

#[test]
fn custom_anthropic_provider_uses_messages_wire_and_x_api_key() {
    let provider = custom_model_provider_info(
        "custom.anthropic",
        CustomModelProviderApi::AnthropicMessages,
        &Some("test-key".to_string()),
        false,
        DEFAULTS,
    );

    assert_eq!(provider.provider_kind, ModelProviderKind::Custom);
    assert_eq!(provider.wire_api, WireApi::AnthropicMessages);
    assert_eq!(
        provider.http_headers,
        vec![("anthropic-version".to_string(), "2023-06-01".to_string())]
    );
    assert_eq!(
        provider.auth,
        AuthSpec::StaticHeader {
            header_name: "x-api-key".to_string(),
            value: "test-key".to_string(),
        }
    );
}

#[test]
fn custom_provider_without_key_omits_authentication() {
    let provider = custom_model_provider_info(
        "custom.local",
        CustomModelProviderApi::OpenAiCompletions,
        &None,
        false,
        DEFAULTS,
    );

    assert_eq!(provider.auth, AuthSpec::Anonymous);
    assert!(provider.http_headers.is_empty());
    assert_eq!(provider.wire_api, WireApi::OpenAiChatCompletions);
    assert_eq!(provider.defaults, Some(DEFAULTS));
}

#[test]
fn catalog_model_api_override_selects_its_wire_adapter() {
    assert_eq!(
        model_wire_api_to_wire_api(CustomModelProviderApi::OpenAiResponses),
        WireApi::OpenAiResponses
    );
    assert_eq!(
        model_wire_api_to_wire_api(CustomModelProviderApi::AnthropicMessages),
        WireApi::AnthropicMessages
    );
}

#[test]
fn deepseek_default_model_provider_resolves_to_openai_compatible_wire_api() {
    assert_eq!(
        model_config_wire_api(
            "deepseek.default",
            &None,
            &Some(WireApi::OpenAiChatCompletions)
        )
        .expect("deepseek wire api"),
        WireApi::OpenAiChatCompletions
    );
    assert_eq!(
        model_config_wire_api("banana.default", &None, &None),
        Err("unknown model provider: banana.default".to_string())
    );
}

#[test]
fn model_test_summary_values_are_raw_and_bounded() {
    assert_eq!(model_test_keyword("invalid_api_key"), "invalid_api_key");
    assert_eq!(model_test_keyword("one\n two\tthree"), "one two three");
    assert_eq!(model_test_keyword(&"x".repeat(100)).chars().count(), 96);
    assert_eq!(
        model_test_keyword(&"x".repeat(97)),
        format!("{}...", "x".repeat(93))
    );
    assert_eq!(model_test_keyword(&"x".repeat(96)), "x".repeat(96));
}

#[test]
fn shortening_a_keyword_again_changes_nothing() {
    for text in [
        " one\u{a0}\u{3000} two\r\n ".to_string(),
        "word ".repeat(40),
        format!("{} {}", "x".repeat(92), "y".repeat(10)),
        "\u{e9}".repeat(200),
        String::new(),
    ] {
        let short = model_test_keyword(&text);
        assert!(short.chars().count() <= 96);
        assert_eq!(short.trim(), short);
        assert_eq!(model_test_keyword(&short), short);
    }
    assert_eq!(
        model_test_keyword(&format!("{} {}", "x".repeat(92), "y".repeat(10))),
        format!("{} ...", "x".repeat(92))
    );
}

#[test]
fn keys_become_headers() {
    let prefixed = AuthSpec::ApiKeyEnv {
        source: "KEY".to_string(),
        header_name: "x-key".to_string(),
        prefix: Some(" Token ".to_string()),
    };
    assert_eq!(
        auth_spec_with_model_api_key(&prefixed, " secret "),
        AuthSpec::StaticHeader {
            header_name: "x-key".to_string(),
            value: "Token secret".to_string(),
        }
    );
    let bearer = AuthSpec::BearerEnv {
        source: "KEY".to_string(),
    };
    assert_eq!(
        auth_spec_with_model_api_key(&bearer, " secret "),
        AuthSpec::StaticHeader {
            header_name: "authorization".to_string(),
            value: "Bearer secret".to_string(),
        }
    );
    let command = AuthSpec::CommandToken {
        source: "print-token".to_string(),
        header_name: "authorization".to_string(),
        prefix: None,
    };
    assert_eq!(
        auth_spec_with_model_api_key(&command, "secret"),
        AuthSpec::StaticHeader {
            header_name: "authorization".to_string(),
            value: "secret".to_string(),
        }
    );
    assert_eq!(apply_auth_prefix("k", &Some("  ".to_string())), "k");
}

fn catalog_model(provider: &str, model: &str, built_in: bool) -> CatalogModel {
    CatalogModel {
        provider_id: provider.to_string(),
        model: model.to_string(),
        built_in,
        model_api: None,
        supports_vision: false,
        diagnostic: None,
        model_max_output_tokens: Some(4096),
        model_api_base: Some("https://models.example".to_string()),
        model_thinking_mode: Some("low".to_string()),
    }
}

fn settings(models: Vec<CatalogModel>) -> ModelSettings {
    ModelSettings {
        model_provider_id: Some("deepseek.default".to_string()),
        model: Some("deepseek-v4-pro".to_string()),
        model_thinking_mode: Some("high".to_string()),
        models,
    }
}

fn built_in_provider(auth: AuthSpec) -> ModelProviderInfo {
    ModelProviderInfo {
        provider_key: "deepseek.default".to_string(),
        name: "DeepSeek".to_string(),
        provider_kind: ModelProviderKind::BuiltIn("DeepSeek".to_string()),
        wire_api: WireApi::OpenAiChatCompletions,
        auth,
        http_headers: Vec::new(),
        defaults: None,
        supports_streaming: true,
        supports_tool_calls: true,
        supports_vision: false,
    }
}

#[test]
fn sessions_ask_the_model_that_was_chosen() {
    let chosen = settings(vec![catalog_model("deepseek.default", "deepseek-v4-pro", true)]);
    let bearer = AuthSpec::BearerEnv {
        source: "DEEPSEEK_API_KEY".to_string(),
    };
    let session = model_session_config_and_registry(
        &chosen,
        &Ok(Some("secret".to_string())),
        Some(built_in_provider(bearer)),
        DEFAULTS,
    )
    .expect("session");
    assert_eq!(session.config.provider_id, "deepseek.default");
    assert_eq!(session.config.model, "deepseek-v4-pro");
    assert_eq!(session.config.max_output_tokens, 4096);
    assert_eq!(session.config.thinking_mode.as_deref(), Some("high"));
    let registered = session.registered.expect("registered");
    assert_eq!(
        registered.auth,
        AuthSpec::StaticHeader {
            header_name: "authorization".to_string(),
            value: "Bearer secret".to_string(),
        }
    );
    assert_eq!(registered.name, "DeepSeek");
    let other = model_session_config_and_registry_for(
        &settings(vec![catalog_model("custom.local", "banana", false)]),
        "custom.local",
        "banana",
        &Ok(None),
        None,
        DEFAULTS,
    )
    .expect_err("no API");
    assert_eq!(
        other,
        "custom model API is missing: providerId=custom.local model=banana"
    );
}

#[test]
fn sessions_are_refused_for_what_is_missing() {
    let bearer = AuthSpec::BearerEnv {
        source: "DEEPSEEK_API_KEY".to_string(),
    };
    let chosen = settings(vec![catalog_model("deepseek.default", "deepseek-v4-pro", true)]);
    assert!(model_session_config_and_registry(
        &chosen,
        &Ok(None),
        Some(built_in_provider(bearer)),
        DEFAULTS
    )
    .expect_err("no key")
    .contains("requires API key"));
    assert_eq!(
        model_session_config_and_registry(&chosen, &Ok(None), None, DEFAULTS)
            .expect_err("unknown provider"),
        "unknown model provider: deepseek.default"
    );
    assert_eq!(
        model_session_config_and_registry(&chosen, &Err("keychain".to_string()), None, DEFAULTS)
            .expect_err("no keychain"),
        "keychain"
    );
    let nothing = ModelSettings {
        model_provider_id: None,
        model: None,
        model_thinking_mode: None,
        models: Vec::new(),
    };
    assert_eq!(
        model_session_config_and_registry(&nothing, &Ok(None), None, DEFAULTS)
            .expect_err("nothing chosen"),
        MODEL_NOT_CONFIGURED
    );
    let absent = settings(Vec::new());
    assert!(model_session_config_and_registry(&absent, &Ok(None), None, DEFAULTS)
        .expect_err("absent")
        .starts_with("selected model provider is not configured or model is unavailable:"));
    let mut broken = catalog_model("deepseek.default", "deepseek-v4-pro", true);
    broken.diagnostic = Some("model is disabled".to_string());
    assert_eq!(
        model_session_config_and_registry(&settings(vec![broken]), &Ok(None), None, DEFAULTS)
            .expect_err("diagnostic"),
        "model is disabled"
    );
    let mut endless = catalog_model("custom.local", "banana", false);
    endless.model_api = Some(CustomModelProviderApi::OpenAiCompletions);
    endless.model_max_output_tokens = None;
    assert_eq!(
        model_session_config_and_registry_for(
            &settings(vec![endless]),
            " custom.local ",
            "banana",
            &Ok(None),
            None,
            DEFAULTS
        )
        .expect_err("no limit"),
        "custom model maxOutputTokens is missing: providerId=custom.local model=banana"
    );
    assert_eq!(
        model_session_config_and_registry_for(
            &settings(Vec::new()),
            " ",
            "banana",
            &Ok(None),
            None,
            DEFAULTS
        )
        .expect_err("blank"),
        "providerId and model are required"
    );
}

#[test]
fn images_need_a_model_that_sees() {
    let blind = settings(vec![catalog_model("deepseek.default", "deepseek-v4-pro", true)]);
    assert_eq!(
        ensure_selected_model_supports_vision(&blind),
        Err("selected model does not support image input: providerId=deepseek.default model=deepseek-v4-pro".to_string())
    );
    let mut seeing = catalog_model("deepseek.default", "deepseek-v4-pro", true);
    seeing.supports_vision = true;
    assert!(ensure_selected_model_supports_vision(&settings(vec![seeing])).is_ok());
    assert_eq!(
        ensure_selected_model_supports_vision(&settings(Vec::new())),
        Err("selected model is unavailable".to_string())
    );
}

#[test]
fn models_are_tested_with_a_short_request() {
    let mut model = catalog_model("custom.local", "banana", false);
    model.model_api = Some(CustomModelProviderApi::OpenAiResponses);
    match begin_model_test(
        &settings(vec![model]),
        " custom.local ",
        "banana",
        &Ok(None),
        None,
        DEFAULTS,
        7,
    ) {
        ModelTest::Ask(session) => {
            assert_eq!(session.config.defaults.timeout_ms, 15_000);
            assert_eq!(session.config.defaults.max_retries, 0);
            assert_eq!(session.config.max_output_tokens, 32);
        }
        other => panic!("{other:?}"),
    }
    match begin_model_test(
        &settings(Vec::new()),
        "custom.local",
        "banana",
        &Ok(None),
        None,
        DEFAULTS,
        7,
    ) {
        ModelTest::Done(report) => {
            assert_eq!(report.error_keyword.as_deref(), Some("model_not_available"));
            assert_eq!(report.latency_ms, 7);
            assert_eq!(report.http_status, None);
        }
        other => panic!("{other:?}"),
    }
    let answered = finish_model_test(&ModelAnswer::Content("  ok \n".to_string()), Some(200), 12);
    assert_eq!(answered.output_preview.as_deref(), Some("ok"));
    assert_eq!(answered.error_keyword, None);
    let failed = finish_model_test(
        &ModelAnswer::Failed(ModelClientError {
            provider_code: Some("invalid_api_key".to_string()),
            message: "no".to_string(),
        }),
        Some(401),
        12,
    );
    assert_eq!(failed.error_keyword.as_deref(), Some("invalid_api_key"));
    assert_eq!(
        model_test_error_keyword(&ModelClientError {
            provider_code: Some("  ".to_string()),
            message: "read\ttimeout".to_string(),
        }),
        "read timeout"
    );
}

#[test]
fn clients_speak_the_forms_they_know() {
    assert_eq!(
        query_client(&WireApi::OpenAiResponses),
        Ok(ModelClient::OpenAiResponses)
    );
    assert_eq!(
        query_client(&WireApi::Other("GeminiGenerate".to_string())),
        Err("model wire API GeminiGenerate is not supported by the Local Runtime Host".to_string())
    );
    assert_eq!(
        test_client(&WireApi::AnthropicMessages),
        Ok(ModelClient::AnthropicMessages)
    );
    assert_eq!(
        test_client(&WireApi::Other("GeminiGenerate".to_string())),
        Err("model test does not support wire API GeminiGenerate".to_string())
    );
}
