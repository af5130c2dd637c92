use centaeris_runtime_host::agent_cancel::{
    active_agent_run_for_cancel, after_cancel, cancel_agent_run,
    close_incomplete_tool_calls_for_agent_run, interrupt_owner_agent_runs,
    recover_incomplete_tool_calls_before_new_turn, require_cancelled_job, run_to_close,
    schedule_child_job_cancellation, AgentRunCancelRequest, CancelTarget, ChildCancellation,
    OwnerExitDisposition,
};
use centaeris_runtime_host::agent_run::{
    after_abandoned_step, AgentRun, QueryStop, RunOutcome, RunStep,
};
use centaeris_runtime_host::agent_runs::into_summary;
use centaeris_runtime_host::journal_recovery::{
    check_journal_cancelled, check_run_cancelled, isolated_journal_text, recover_journal,
    recover_open_runs, recover_run, recovery_cancellation, unreadable_journal_text,
    JournalRecovery, RecoveredJournal, RunRecovery,
};
use centaeris_runtime_host::json::{object2, object3, text_json, Json};
use centaeris_runtime_host::live_text::{
    is_live_text_payload, is_model_text_delta_payload, live_text_operation_from_payload,
    LiveTextAccumulator, LiveTextOperation,
};
use centaeris_runtime_host::message_log::{copy_run, ProjectedAgentRun, ProjectedChatMessage};
use centaeris_runtime_host::run_lifecycle::{
    after_job_pause, build_agent_runtime, check_rewritten, check_wait_identity, compaction_update,
    manual_compaction_safe_point, native_agent_run_identity, persist_agent_checkpoint_refs,
    persist_agent_run_completed, persist_agent_run_failed, persist_agent_tool_safe_point,
    persist_agent_turn_setup_error, persist_interrupted_live_text, resolve_agent_runtime,
    runtime_job_wait_checkpoint, session_activity, started_run_id, wait_checkpoint_turn_id,
    wait_for_question_input_or_control, wait_for_runtime_jobs_or_control, AgentRunStop, AwaitedJob,
    KnownJob, ProcessState, QuestionWaitWake, RunMessage, RunStart, RuntimeJobWaitWake,
    SafePointAction, StartDecision, StartStep, StartedModelRequest, ToolSafePoint, TurnCheckpoint,
};
use centaeris_runtime_host::run_updates::{
    background_turn_id, commit_file_mutation, emit_annotated_agent_run_payloads,
    materialize_spawned_agent_session, session_update, FileMutation, SpawnedAgent,
};
use centaeris_runtime_host::sandbox_policy::NetworkAccess;
use centaeris_runtime_host::turn_stream::{
    after_job_wait, after_query, after_question_wait, check_interrupted, close_run, failure_notice,
    final_answer_from_stream_payload, first_query, interrupt_reason,
    resume_execute_agent_run_request, Closing, LoopStep, QueryMessage, ResumeIntent, Resumption,
    RunFailure, SinkOutcome, SinkStep, StreamSink, TurnUpdate,
};

fn run(id: &str, session: &str, status: &str) -> ProjectedAgentRun {
    ProjectedAgentRun {
        agent_run_id: id.to_string(),
        session_id: session.to_string(),
        turn_id: format!("turn-{id}"),
        cwd: None,
        status: status.to_string(),
        started_at_ms: 1,
        updated_at_ms: 2,
        completed_at_ms: None,
        last_event_at_ms: None,
        error: None,
    }
}

fn assistant(turn: &str, content: &str, status: Option<&str>) -> Option<ProjectedChatMessage> {
    Some(ProjectedChatMessage {
        id: format!("message:{turn}:assistant"),
        session_id: "session".to_string(),
        turn_id: turn.to_string(),
        role: "assistant".to_string(),
        content: content.to_string(),
        status: status.map(str::to_string),
        created_at_ms: 1,
        updated_at_ms: 2,
        agent_run_id: Some("run".to_string()),
    })
}

fn event(kind: &str, key: &str, text: &str) -> Json {
    object2(
        "event",
        object2(
            "payload",
            object2(key, text_json(text), "unused", Json::Null),
            "type",
            text_json(kind),
        ),
        "type",
        text_json("runtime_event"),
    )
}

fn delta(text: &str) -> Json {
    event("ModelTextDelta", "delta", text)
}

#[test]
fn live_text_recovery_request_starts_from_the_preserved_prefix() {
    let mut live_text = LiveTextAccumulator::new(
        "session_1".to_string(),
        "turn_1".to_string(),
        "run_1".to_string(),
    );

    let turn = live_text
        .model_request("turn_1:2", "partial")
        .expect("recovery request")
        .expect("another turn");
    let payloads = live_text.flushed(0);
    live_text.begin_turn(turn, "partial");

    assert!(payloads.is_empty());
    assert_eq!(live_text.content, "partial");
    assert_eq!(live_text.turn_id, "turn_1:2");
    assert!(matches!(
        live_text.pending_operations.as_slice(),
        [LiveTextOperation::Replace(text)] if text == "partial"
    ));
}

#[test]
fn live_text_is_gathered_without_loss() {
    let mut live_text =
        LiveTextAccumulator::new("s".to_string(), "t".to_string(), "r".to_string());
    for piece in ["He", "llo", " world"] {
        live_text.push(delta(piece)).expect("delta");
    }
    assert_eq!(live_text.content, "Hello world");
    assert_eq!(live_text.pending_operations.len(), 1);
    assert_eq!(live_text.pending_payloads.len(), 1);
    assert!(matches!(
        live_text_operation_from_payload(&live_text.pending_payloads[0]),
        Ok(LiveTextOperation::Append(text)) if text == "Hello world"
    ));
    live_text
        .push(event("ModelTextReplace", "content", "Bye"))
        .expect("replace");
    live_text.push(delta("!")).expect("delta");
    assert_eq!(live_text.content, "Bye!");
    assert_eq!(live_text.pending_operations.len(), 2);
    assert_eq!(live_text.pending_payloads.len(), 2);
    assert!(live_text.flush_due(0));
    assert_eq!(live_text.flushed(100).len(), 2);
    assert!(!live_text.has_pending());
    assert!(!live_text.flush_due(174));
    assert!(live_text.flush_due(175));
    assert_eq!(live_text.content, "Bye!");
}

#[test]
fn live_text_payloads_are_told_apart() {
    assert!(is_model_text_delta_payload(&delta("x")));
    assert!(is_live_text_payload(&event("ModelTextReplace", "content", "x")));
    assert!(!is_live_text_payload(&event("Final", "content", "x")));
    let errors = [
        (object2("a", Json::Null, "b", Json::Null), "live text payload is missing event"),
        (
            object2("event", object2("a", Json::Null, "b", Json::Null), "z", Json::Null),
            "live text payload is missing event.type",
        ),
        (
            object2("event", object2("a", Json::Null, "type", text_json("Final")), "z", Json::Null),
            "live text payload is missing event.payload",
        ),
        (event("ModelTextDelta", "content", "x"), "ModelTextDelta is missing payload.delta"),
        (event("ModelTextReplace", "delta", "x"), "ModelTextReplace is missing payload.content"),
        (event("Final", "content", "x"), "unsupported live text event type: Final"),
    ];
    for (payload, message) in errors {
        assert_eq!(
            live_text_operation_from_payload(&payload).expect_err("refused"),
            message
        );
    }
}

#[test]
fn a_request_of_the_same_turn_keeps_the_text() {
    let mut live_text =
        LiveTextAccumulator::new("s".to_string(), "t".to_string(), "r".to_string());
    live_text.push(delta("abc")).expect("delta");
    assert_eq!(live_text.model_request(" t ", "abc"), Ok(None));
    assert_eq!(
        live_text.model_request("t", "ab"),
        Err("duplicate model request start changed initialContent".to_string())
    );
    assert_eq!(
        live_text.model_request(" ", ""),
        Err("turnId is required".to_string())
    );
}

#[test]
fn the_final_answer_is_taken_from_the_stream() {
    assert_eq!(
        final_answer_from_stream_payload(&event("Final", "content", "done")).as_deref(),
        Some("done")
    );
    assert_eq!(final_answer_from_stream_payload(&delta("x")), None);
    assert_eq!(final_answer_from_stream_payload(&Json::Null), None);
}

#[test]
fn updates_are_handled_step_by_step() {
    let mut sink = StreamSink::new();
    assert_eq!(sink.open(&TurnUpdate::ModelRequestStart), SinkStep::Begin);
    assert_eq!(sink.advance(SinkOutcome::Done), SinkStep::EmitLive);
    assert_eq!(sink.advance(SinkOutcome::Done), SinkStep::Materialize);
    assert_eq!(sink.advance(SinkOutcome::Done), SinkStep::Project);
    assert_eq!(sink.advance(SinkOutcome::NoPayload), SinkStep::Idle);

    assert_eq!(sink.open(&TurnUpdate::Other), SinkStep::Materialize);
    assert_eq!(sink.advance(SinkOutcome::Done), SinkStep::Project);
    assert_eq!(sink.advance(SinkOutcome::Payload(delta("x"))), SinkStep::Push);
    assert_eq!(sink.advance(SinkOutcome::Done), SinkStep::EmitLive);
    assert_eq!(sink.advance(SinkOutcome::Done), SinkStep::Idle);

    assert_eq!(sink.open(&TurnUpdate::RuntimeEvent), SinkStep::Materialize);
    assert_eq!(sink.advance(SinkOutcome::Done), SinkStep::Commit);
    assert_eq!(
        sink.advance(SinkOutcome::Payload(event("Final", "content", "answer"))),
        SinkStep::Flush
    );
    assert_eq!(sink.final_answer.as_deref(), Some("answer"));
    assert_eq!(sink.advance(SinkOutcome::Done), SinkStep::EmitLive);
    assert_eq!(sink.advance(SinkOutcome::Done), SinkStep::Deliver);
    assert_eq!(sink.advance(SinkOutcome::Done), SinkStep::Idle);
    assert!(sink.check().is_ok());
}

#[test]
fn the_first_failure_ends_the_stream() {
    let mut sink = StreamSink::new();
    assert_eq!(sink.open(&TurnUpdate::RuntimeError), SinkStep::Materialize);
    assert!(sink.streamed_runtime_error);
    assert_eq!(
        sink.advance(SinkOutcome::Failed("disk".to_string())),
        SinkStep::Idle
    );
    assert_eq!(sink.open(&TurnUpdate::ModelDone), SinkStep::Idle);
    assert_eq!(
        sink.check(),
        Err("persist stream item failed: disk".to_string())
    );
}

fn checkpoint(turn: &str, reason: &str) -> Option<TurnCheckpoint> {
    Some(TurnCheckpoint {
        session_id: "session".to_string(),
        turn_id: turn.to_string(),
        done_reason: Some(reason.to_string()),
        payload_json: format!("{{\"turn\":\"{turn}\"}}"),
    })
}

#[test]
fn queries_end_by_completion_cancellation_or_waiting() {
    let steps = vec![
        checkpoint("turn-1", "runtime_job"),
        None,
        checkpoint("turn-2", "question"),
        checkpoint("turn-3", "runtime_job"),
    ];
    assert!(matches!(
        after_query(&AgentRunStop::Finalized, "finalized", &steps),
        Ok(LoopStep::Complete)
    ));
    assert!(matches!(
        after_query(&AgentRunStop::Cancelled("stop".to_string()), "cancelled", &steps),
        Ok(LoopStep::Cancelled(reason)) if reason == "stop"
    ));
    match after_query(&AgentRunStop::RuntimeJobWait, "runtime_job_wait", &steps) {
        Ok(LoopStep::AwaitJobs {
            turn_id,
            payload_json,
        }) => {
            assert_eq!(turn_id, "turn-3");
            assert_eq!(payload_json, "{\"turn\":\"turn-3\"}");
        }
        other => panic!("{other:?}"),
    }
    assert!(matches!(
        after_query(&AgentRunStop::QuestionWait, "question_wait", &steps),
        Ok(LoopStep::AwaitAnswer { turn_id }) if turn_id == "turn-2"
    ));
    assert_eq!(
        wait_checkpoint_turn_id(&Vec::new(), "question_wait", "question"),
        Err("question_wait response missing question checkpoint".to_string())
    );
    assert_eq!(
        runtime_job_wait_checkpoint(&Vec::new()),
        Err("runtime_job_wait response missing runtime_job checkpoint".to_string())
    );
}

#[test]
fn waiting_runs_are_resumed_or_cancelled() {
    assert!(matches!(
        after_job_wait(RuntimeJobWaitWake::Cancelled, "turn".to_string()),
        Resumption::Cancelled(reason) if reason == "agent_run_cancelled"
    ));
    assert!(matches!(
        after_job_wait(RuntimeJobWaitWake::JobsTerminal, "turn".to_string()),
        Resumption::Resume {
            next_turn_id: None,
            intent: ResumeIntent::RuntimeJobsTerminal,
            ..
        }
    ));
    match after_question_wait(
        QuestionWaitWake::Resume {
            turn_id: "turn-2".to_string(),
            message: "yes".to_string(),
        },
        "turn-1".to_string(),
    ) {
        Resumption::Resume {
            from_turn_id,
            next_turn_id,
            intent,
        } => {
            assert_eq!(from_turn_id, "turn-1");
            assert_eq!(next_turn_id.as_deref(), Some("turn-2"));
            assert!(matches!(intent, ResumeIntent::QuestionAnswered(text) if text == "yes"));
        }
        other => panic!("{other:?}"),
    }
}

#[test]
fn runs_are_closed_as_they_ended() {
    assert!(matches!(
        close_run(Ok(AgentRunStop::Cancelled("x".to_string())), false, false, ""),
        Ok(Closing::Interrupt)
    ));
    assert!(matches!(
        close_run(Ok(AgentRunStop::TerminalTool), true, false, ""),
        Ok(Closing::Complete)
    ));
    assert_eq!(
        close_run(Ok(AgentRunStop::Finalized), false, false, "").expect_err("no projection"),
        "completed agent turn is missing the Core completion projection"
    );
    match close_run(
        Err("model_client_error(kind=x,retryable=true): y".to_string()),
        false,
        false,
        "partial",
    ) {
        Ok(Closing::Fail {
            tell,
            reason,
            retryable,
            keep_text,
            ..
        }) => {
            assert!(tell && retryable && keep_text);
            assert_eq!(reason, "session_prompt_loop_failed");
        }
        other => panic!("{other:?}"),
    }
    assert_eq!(interrupt_reason(&None), "user_interrupt");
    assert_eq!(
        check_interrupted(false, true),
        Err("active AgentRun cancellation did not commit terminal".to_string())
    );
    assert_eq!(
        check_interrupted(true, false),
        Err("cancelled AgentRun terminal summary is missing".to_string())
    );
    assert!(check_interrupted(true, true).is_ok());
}

#[test]
fn starting_a_run_goes_through_its_steps() {
    let mut start = RunStart::new(true, true);
    let mut steps = vec![start.step];
    loop {
        match start.advance(Ok(())) {
            StartDecision::Go(step) => steps.push(step),
            StartDecision::Started => break,
            other => panic!("{other:?}"),
        }
    }
    assert_eq!(
        steps,
        vec![
            StartStep::ResolveRuntime,
            StartStep::FindExecutor,
            StartStep::Lease,
            StartStep::BindWriter,
            StartStep::RecoverToolCalls,
            StartStep::RestoreSession,
            StartStep::ReadConfig,
            StartStep::CheckVision,
            StartStep::ImportImages,
            StartStep::PersistStarted,
            StartStep::RestoreStarted,
            StartStep::StartLifecycle,
            StartStep::Spawn,
        ]
    );
    let mut plain = RunStart::new(false, false);
    plain.step = StartStep::ReadConfig;
    assert!(matches!(
        plain.advance(Err("config".to_string())),
        StartDecision::FailAfterRecording(error) if error == "config"
    ));
    assert!(matches!(
        plain.advance(Ok(())),
        StartDecision::Go(StartStep::ImportImages)
    ));
    assert!(matches!(
        plain.advance(Err("image".to_string())),
        StartDecision::Fail(error) if error == "image"
    ));
}

#[test]
fn setup_errors_tell_what_else_failed() {
    let fine = Ok(());
    assert_eq!(persist_agent_turn_setup_error("e", &fine, &fine, &fine), "e");
    assert_eq!(
        persist_agent_turn_setup_error("e", &Err("a".to_string()), &fine, &fine),
        "e; additionally failed to close incomplete tool calls: a"
    );
    assert_eq!(
        persist_agent_turn_setup_error("e", &fine, &Err("b".to_string()), &fine),
        "e; additionally failed to persist assistant error message: b"
    );
    assert_eq!(
        persist_agent_turn_setup_error("e", &fine, &fine, &Err("c".to_string())),
        "e; additionally failed to persist failed agent run lifecycle: c"
    );
    assert_eq!(started_run_id(&None, -5, 12), "agent-run--5-12");
    assert_eq!(started_run_id(&Some("given".to_string()), 1, 2), "given");
    assert!(check_rewritten(0).is_err());
    assert!(check_rewritten(1).is_ok());
}

#[test]
fn agent_run_completion_uses_the_core_final_turn_and_failure_keeps_a_sealed_final() {
    let committed = assistant("turn-final", "final answer", Some("done"));
    assert_eq!(
        persist_agent_run_completed(
            "turn-final",
            &Some("final answer".to_string()),
            &AgentRunStop::Finalized,
            &committed
        ),
        Ok("final answer".to_string())
    );
    assert_eq!(
        persist_agent_run_completed("turn-initial", &None, &AgentRunStop::TerminalTool, &committed),
        Err("committed final assistant message is missing: turn-initial".to_string())
    );
    assert_eq!(
        persist_agent_run_completed(
            "turn-final",
            &Some("another".to_string()),
            &AgentRunStop::Finalized,
            &committed
        ),
        Err("committed final assistant message mismatch: turn-final".to_string())
    );
    assert_eq!(
        persist_agent_run_completed("turn-final", &None, &AgentRunStop::Finalized, &committed),
        Err("finalized agent turn is missing the final assistant event".to_string())
    );
    assert!(matches!(
        persist_agent_run_failed(&committed, "banana"),
        Ok(RunMessage::Recorded(text)) if text == "final answer"
    ));
    assert!(matches!(
        persist_agent_run_failed(&None, "banana"),
        Ok(RunMessage::Record { content, status }) if content == "banana" && status == "error"
    ));
    assert_eq!(
        persist_agent_run_failed(&assistant("turn", "x", Some("streaming")), "banana")
            .expect_err("not settled"),
        "committed assistant message has unsupported status: Some(\"streaming\")"
    );
    assert_eq!(
        persist_agent_run_failed(&assistant("turn", "x", None), "banana")
            .expect_err("without a status"),
        "committed assistant message has unsupported status: None"
    );
}

#[test]
fn interrupted_text_is_kept() {
    assert!(matches!(
        persist_interrupted_live_text(&None, "partial"),
        Ok(RunMessage::Record { content, status }) if content == "partial" && status == "error"
    ));
    assert!(matches!(
        persist_interrupted_live_text(&None, ""),
        Ok(RunMessage::Nothing)
    ));
    assert!(matches!(
        persist_interrupted_live_text(&assistant("t", "sealed", Some("error")), "partial"),
        Ok(RunMessage::Recorded(text)) if text == "sealed"
    ));
}

#[test]
fn checkpoints_belong_to_their_session() {
    let mut steps = vec![checkpoint("turn-1", "question"), None];
    let (count, result) = persist_agent_checkpoint_refs("session", &steps);
    assert_eq!(count, 2);
    assert!(result.is_ok());
    steps.push(Some(TurnCheckpoint {
        session_id: "other".to_string(),
        turn_id: "turn-2".to_string(),
        done_reason: None,
        payload_json: String::new(),
    }));
    let (count, result) = persist_agent_checkpoint_refs("session", &steps);
    assert_eq!(count, 2);
    assert_eq!(
        result,
        Err("checkpoint sessionId mismatch: expected session, got other".to_string())
    );
}

#[test]
fn waiting_ends_for_cancellation_first() {
    let waits = vec![AwaitedJob {
        job_id: "job-1".to_string(),
        job_kind: "subagent".to_string(),
    }];
    let known = |ended: bool, session: &str, kind: &str| {
        vec![Some(KnownJob {
            session_id: Some(session.to_string()),
            job_kind: kind.to_string(),
            ended,
        })]
    };
    assert_eq!(
        wait_for_runtime_jobs_or_control(true, true, &waits, &vec![None], "s"),
        Ok(Some(RuntimeJobWaitWake::Cancelled))
    );
    assert_eq!(
        wait_for_runtime_jobs_or_control(false, true, &waits, &vec![None], "s"),
        Ok(Some(RuntimeJobWaitWake::AnswerNow))
    );
    assert_eq!(
        wait_for_runtime_jobs_or_control(false, false, &waits, &known(true, "s", "subagent"), "s"),
        Ok(Some(RuntimeJobWaitWake::JobsTerminal))
    );
    assert_eq!(
        wait_for_runtime_jobs_or_control(false, false, &waits, &known(false, "s", "subagent"), "s"),
        Ok(None)
    );
    assert_eq!(
        wait_for_runtime_jobs_or_control(false, false, &waits, &vec![None], "s"),
        Err("runtime_job_wait_job_missing: jobId=job-1".to_string())
    );
    assert_eq!(
        wait_for_runtime_jobs_or_control(false, false, &waits, &known(true, "t", "subagent"), "s"),
        Err("runtime_job_wait_job_identity_mismatch: jobId=job-1".to_string())
    );
    assert_eq!(after_job_pause(Some(true)), Some(RuntimeJobWaitWake::AnswerNow));
    assert_eq!(after_job_pause(Some(false)), Some(RuntimeJobWaitWake::Cancelled));
    assert_eq!(after_job_pause(None), None);
    assert!(check_wait_identity("r", "d", "r", "d").is_ok());
    assert!(check_wait_identity("r", "d", "r", "e").is_err());
    assert!(matches!(
        wait_for_question_input_or_control(false, false, "turn", &Some("hi".to_string())),
        Some(QuestionWaitWake::Resume { .. })
    ));
    assert!(wait_for_question_input_or_control(false, false, "turn", &None).is_none());
    assert!(matches!(
        wait_for_question_input_or_control(true, true, "turn", &None),
        Some(QuestionWaitWake::Cancelled)
    ));
}

#[test]
fn safe_points_are_recorded_for_their_own_run() {
    let call = ToolSafePoint::DurableToolCall {
        session_id: "s".to_string(),
        turn_id: "t".to_string(),
        agent_run_id: "r".to_string(),
    };
    match persist_agent_tool_safe_point(&call, "s", "r") {
        Ok(SafePointAction::RecordCall {
            session_id,
            turn_id,
            agent_run_id,
        }) => {
            assert_eq!(session_id, "s");
            assert_eq!(turn_id, "t");
            assert_eq!(agent_run_id, "r");
        }
        other => panic!("{other:?}"),
    }
    assert_eq!(
        persist_agent_tool_safe_point(&call, "s", "other").expect_err("another run"),
        "tool safe point AgentRun identity mismatch"
    );
    let receipt = ToolSafePoint::DurableReceipt {
        session_id: "s".to_string(),
        turn_id: "t".to_string(),
        agent_run_id: "r".to_string(),
    };
    assert!(matches!(
        persist_agent_tool_safe_point(&receipt, "s", "r"),
        Ok(SafePointAction::RecordResult { turn_id, .. }) if turn_id == "t"
    ));
    assert!(persist_agent_tool_safe_point(&receipt, "other", "r").is_err());
    let usage = ToolSafePoint::ProviderUsage {
        turn_id: "t".to_string(),
    };
    assert!(matches!(
        persist_agent_tool_safe_point(&usage, "s", "r"),
        Ok(SafePointAction::RecordUsage { session_id, turn_id, agent_run_id })
            if session_id == "s" && turn_id == "t" && agent_run_id == "r"
    ));
    assert!(matches!(
        persist_agent_tool_safe_point(&ToolSafePoint::CompletedTurn, "s", "r"),
        Ok(SafePointAction::Nothing)
    ));
    assert_eq!(
        manual_compaction_safe_point(&usage),
        Err("manual context compaction emitted an unsupported safe point".to_string())
    );
}

fn started_request(compaction: bool) -> StartedModelRequest {
    StartedModelRequest {
        session_id: "s".to_string(),
        turn_id: "t".to_string(),
        compaction,
        context_token_estimate: 1_234,
    }
}

#[test]
fn compaction_is_told_at_once() {
    let started = ToolSafePoint::ModelRequestStarted(started_request(true));
    assert!(manual_compaction_safe_point(&started).is_ok());
    match persist_agent_tool_safe_point(&started, "elsewhere", "r") {
        Ok(SafePointAction::RecordRequest {
            agent_run_id,
            told: Some(update),
        }) => {
            assert_eq!(agent_run_id, "r");
            assert_eq!(update.session_id, "s");
            assert_eq!(update.turn_id, "t");
            assert!(update.compaction);
            assert_eq!(update.context_token_estimate, 1_234);
            assert_eq!(update.message, None);
            assert_eq!(update.process_state, ProcessState::Compressing);
            assert_eq!(update.elapsed_ms, 0);
            assert_eq!(update.initial_content, "");
        }
        other => panic!("{other:?}"),
    }
    assert!(compaction_update(&started_request(false)).is_none());
    assert!(matches!(
        persist_agent_tool_safe_point(
            &ToolSafePoint::ModelRequestStarted(started_request(false)),
            "s",
            "r"
        ),
        Ok(SafePointAction::RecordRequest { told: None, .. })
    ));
}

#[test]
fn what_is_said_in_a_session_is_noted() {
    let started = session_activity(true, "hello");
    assert_eq!(started.said.as_deref(), Some("hello"));
    assert_eq!(started.preview, "hello");
    let ended = session_activity(false, "done");
    assert_eq!(ended.said, None);
    assert_eq!(ended.preview, "done");
}

#[test]
fn failures_are_told_with_their_reason() {
    let retryable = "model_client_error(kind=x,retryable=true): y";
    let queries = failure_notice(RunFailure::Queries, "s", "t", retryable);
    assert_eq!(queries.session_id, "s");
    assert_eq!(queries.turn_id, "t");
    assert_eq!(queries.message, retryable);
    assert_eq!(queries.reason, "session_prompt_loop_failed");
    assert!(queries.retryable);
    assert!(!failure_notice(RunFailure::Queries, "s", "t", "disk full").retryable);
    let run = failure_notice(RunFailure::Run, "s", "t", retryable);
    assert_eq!(run.reason, "session_prompt_agent_run_failed");
    assert_eq!(run.message, retryable);
    assert!(!run.retryable);
}

#[test]
fn an_abandoned_run_is_closed_as_far_as_it_can_be() {
    let walk = |closed: bool, recorded: bool| {
        let second = after_abandoned_step(RunStep::TellFailure, false);
        let third = after_abandoned_step(second, closed);
        let last = after_abandoned_step(third, recorded);
        (second, third, last, after_abandoned_step(last, true))
    };
    assert_eq!(
        walk(true, true),
        (
            RunStep::CloseCalls,
            RunStep::RecordFailure,
            RunStep::FailRun,
            RunStep::Done
        )
    );
    assert_eq!(walk(true, false).2, RunStep::Done);
    assert_eq!(walk(false, true).1, RunStep::Done);
}

#[test]
fn queries_say_what_they_go_on_from() {
    let first = first_query("s", "r", "t", "hello".to_string(), None, Some(true));
    assert_eq!(first.initial_turn_id, "t");
    assert!(matches!(first.message, QueryMessage::User(text) if text == "hello"));
    assert_eq!(first.resume_from_turn_id, None);
    assert_eq!(first.auto_continue_after_resume_wait, Some(true));
    let next = resume_execute_agent_run_request(
        "s",
        "r",
        "waited",
        "next".to_string(),
        ResumeIntent::AnswerNow,
        None,
    );
    assert_eq!(next.session_id, "s");
    assert_eq!(next.agent_run_id, "r");
    assert_eq!(next.initial_turn_id, "next");
    assert_eq!(next.resume_from_turn_id.as_deref(), Some("waited"));
    assert!(matches!(next.message, QueryMessage::Resume(ResumeIntent::AnswerNow)));
    assert_eq!(next.auto_continue_after_resume_wait, None);
}

#[test]
fn a_run_that_cannot_be_set_up_is_over() {
    let mut run = AgentRun::new();
    assert_eq!(run.step, RunStep::Prepare);
    assert_eq!(
        run.advance(RunOutcome::Failed("no plugins".to_string())),
        RunStep::Done
    );
    assert!(matches!(&run.result, Some(Err(error)) if error == "no plugins"));
    assert!(run.closing.is_none());
}

#[test]
fn run_identities_are_digests() {
    let identity = native_agent_run_identity("run-1", "chat", "/work");
    assert_eq!(
        identity.execution_id.len(),
        "execution:".len() + 64
    );
    assert_eq!(
        identity.authorization_digest,
        "sha256:cb2ee3dbb5c557ff8c6b9f131e52c0154d6a02ec1ce1d3f0b1de21b27a4921a1"
    );
    let same = native_agent_run_identity("run-1", "chat", "/work");
    assert_eq!(identity.authorization_digest, same.authorization_digest);
    let other = native_agent_run_identity("run-1", "chat", "/elsewhere");
    assert_ne!(identity.authorization_digest, other.authorization_digest);
    assert_eq!(identity.execution_id, other.execution_id);
    let setup = build_agent_runtime("chat", "owner", "scope").expect("setup");
    assert_eq!(setup.session_id, "chat");
    assert_eq!(setup.execution_owner, "owner");
    assert_eq!(setup.concurrency_scope, "session:scope");
    assert_eq!(setup.network, NetworkAccess::PublicInternet);
    assert!(build_agent_runtime(" ", "owner", "scope").is_err());
    assert!(build_agent_runtime("chat", " ", "scope").is_err());
    assert!(build_agent_runtime("chat", "owner", " ").is_err());
    assert_eq!(
        resolve_agent_runtime("chat", "/gone", &None),
        Err("working directory is not a directory: /gone".to_string())
    );
}

#[test]
fn cancellations_find_their_run() {
    let request = AgentRunCancelRequest {
        agent_run_id: Some(" run-1 ".to_string()),
        session_id: Some("chat".to_string()),
        reason: Some(" stop ".to_string()),
    };
    assert!(matches!(
        active_agent_run_for_cancel(&request),
        CancelTarget::Run(id) if id == "run-1"
    ));
    let order = cancel_agent_run(&request, &Some("lease-session".to_string()));
    assert_eq!(order.reason, "stop");
    assert_eq!(order.session_id.as_deref(), Some("lease-session"));
    assert!(order.active);
    let later = after_cancel(&order, true, &None).expect("active runs end themselves");
    assert!(!later.tell);
    assert_eq!(later.children_of.as_deref(), Some("lease-session"));
    let order = cancel_agent_run(&request, &None);
    assert_eq!(
        after_cancel(&order, true, &None).expect_err("no summary"),
        "cancelled agent run is missing its terminal summary"
    );
    let ended = Some(into_summary(&run("run-1", "chat", "cancelled")));
    assert!(after_cancel(&order, true, &ended).expect("ended").tell);
    assert!(after_cancel(&order, false, &None)
        .expect("not cancelled")
        .children_of
        .is_none());
}

#[test]
fn only_open_runs_are_closed_before_a_cancellation() {
    let runs = vec![
        run("a", "chat", "succeeded"),
        run("b", "chat", "running"),
        run("c", "other", "stalled"),
    ];
    let found = run_to_close(&runs, &None, &Some("chat".to_string()))
        .expect("unique")
        .expect("open");
    assert_eq!(found.agent_run_id, "b");
    assert!(run_to_close(&runs, &Some("a".to_string()), &None)
        .expect("ended")
        .is_none());
    assert_eq!(
        run_to_close(&runs, &Some(" ".to_string()), &None).expect_err("blank"),
        "agentRunId is required"
    );
    let ambiguous = vec![run("a", "chat", "running"), run("b", "chat", "stalled")];
    assert_eq!(
        run_to_close(&ambiguous, &None, &Some("chat".to_string())).expect_err("ambiguous"),
        "active AgentRun is ambiguous for Session cancellation"
    );
    assert_eq!(
        recover_incomplete_tool_calls_before_new_turn(&ambiguous, &vec![false, true], "chat"),
        vec![1]
    );
    let mut recovered = ambiguous.iter().map(copy_run).collect::<Vec<_>>();
    recovered[1].status = "failed".to_string();
    assert!(recover_incomplete_tool_calls_before_new_turn(
        &recovered,
        &vec![false, false],
        "chat"
    )
    .is_empty());
    assert_eq!(
        close_incomplete_tool_calls_for_agent_run(&None, "chat", "run"),
        Err("AgentRun not found: run".to_string())
    );
    assert_eq!(
        close_incomplete_tool_calls_for_agent_run(
            &Some(run("run", "other", "running")),
            "chat",
            "run"
        ),
        Err("AgentRun sessionId mismatch: run".to_string())
    );
}

#[test]
fn children_are_cancelled_with_their_run() {
    let bound = schedule_child_job_cancellation(
        "child".to_string(),
        "stop".to_string(),
        Some(("parent".to_string(), "job-1".to_string())),
    );
    assert_eq!(bound.told_session(), "parent");
    let all = schedule_child_job_cancellation("chat".to_string(), "stop".to_string(), None);
    assert_eq!(all.told_session(), "chat");
    assert!(matches!(
        all,
        ChildCancellation::Jobs {
            limit: 1024,
            running_too: true,
            ..
        }
    ));
    assert_eq!(
        require_cancelled_job(false, "job-1"),
        Err("cancelled Agent runtime job missing: job-1".to_string())
    );
    let requests = interrupt_owner_agent_runs(&vec![
        OwnerExitDisposition::Keep,
        OwnerExitDisposition::Interrupt {
            agent_run_id: "run".to_string(),
            session_id: "chat".to_string(),
        },
    ]);
    assert_eq!(requests.len(), 1);
    assert_eq!(requests[0].reason.as_deref(), Some("host_owner_exited"));
    assert_eq!(requests[0].agent_run_id.as_deref(), Some("run"));
}

#[test]
fn server_recovery_seals_live_text_as_error_and_cancels_turn() {
    let journal = RecoveredJournal {
        session_id: "session".to_string(),
        turn_id: "turn-live".to_string(),
        agent_run_id: "run".to_string(),
        content: "partial".to_string(),
    };
    match recover_journal(&journal, &Some(run("run", "session", "running")), &None) {
        Ok(JournalRecovery::RecordAndCancel { turn_id, content, status }) => {
            assert_eq!(status, "error");
            assert_eq!(turn_id, "turn-live");
            assert_eq!(content, "partial");
        }
        other => panic!("{other:?}"),
    }
    let request = recovery_cancellation("run", "session");
    assert_eq!(request.agent_run_id.as_deref(), Some("run"));
    assert_eq!(request.session_id.as_deref(), Some("session"));
    assert_eq!(
        request.reason.as_deref(),
        Some("runtime_server_recovered_interrupted")
    );
    assert!(matches!(
        recover_journal(
            &journal,
            &Some(run("run", "session", "stalled")),
            &assistant("turn-run", "x", Some("done"))
        ),
        Ok(JournalRecovery::Finish)
    ));
    assert!(matches!(
        recover_journal(
            &journal,
            &Some(run("run", "session", "succeeded")),
            &assistant("turn-run", "x", Some("done"))
        ),
        Ok(JournalRecovery::Nothing)
    ));
    assert!(matches!(
        recover_journal(
            &journal,
            &Some(run("run", "session", "running")),
            &assistant("turn-run", "x", Some("error"))
        ),
        Ok(JournalRecovery::Cancel)
    ));
}

#[test]
fn journals_that_do_not_fit_are_set_aside() {
    let journal = RecoveredJournal {
        session_id: "session".to_string(),
        turn_id: "turn-live".to_string(),
        agent_run_id: "run".to_string(),
        content: String::new(),
    };
    let cases = [
        (None, None, "live text journal agent run is missing: run"),
        (
            Some(run("run", "other", "running")),
            None,
            "live text journal agent run identity mismatch: agentRunId=run",
        ),
        (
            Some(run("run", "session", "stopped")),
            None,
            "live text journal agent run has unsupported status stopped: run",
        ),
        (
            Some(run("run", "session", "failed")),
            None,
            "live text journal assistant message is missing for terminal AgentRun: turn-run",
        ),
        (
            Some(run("run", "session", "running")),
            assistant("turn-run", "x", Some("streaming")),
            "live text journal assistant has unsupported status streaming: turn-run",
        ),
        (
            Some(run("run", "session", "running")),
            assistant("turn-run", "x", None),
            "live text journal assistant has no status: turn-run",
        ),
    ];
    for (run, message, error) in cases {
        assert_eq!(
            recover_journal(&journal, &run, &message).expect_err("set aside"),
            error
        );
    }
    assert!(check_journal_cancelled(true, "run").is_ok());
    assert_eq!(
        check_journal_cancelled(false, "run"),
        Err("live text recovery did not cancel active agent run: run".to_string())
    );
    let logged = isolated_journal_text("run", &"e".repeat(2000));
    assert!(logged.ends_with(&format!(" error={}", "e".repeat(1024))));
    assert_eq!(
        unreadable_journal_text("c", "/p", &None, "m"),
        "live_text_journal_isolated: code=c path=/p agentRunId=unknown error=m"
    );
}

#[test]
fn open_runs_are_ended_at_the_start_of_the_host() {
    let runs = vec![
        run("a", "s", "succeeded"),
        run("b", "s", "running"),
        run("c", "s", "stalled"),
    ];
    let messages = vec![None, assistant("turn-b", "x", Some("done")), None];
    let (plan, error) = recover_open_runs(&runs, &messages);
    assert_eq!(plan, vec![(1, RunRecovery::Finish), (2, RunRecovery::Cancel)]);
    assert_eq!(error, None);
    let broken = vec![None, assistant("turn-b", "x", None), None];
    let (plan, error) = recover_open_runs(&runs, &broken);
    assert!(plan.is_empty());
    assert_eq!(
        error.as_deref(),
        Some("active agent run assistant has no status: turn-b")
    );
    assert_eq!(
        recover_run(&runs[1], &assistant("turn-b", "x", Some("odd"))),
        Err("active agent run assistant has unsupported status odd: turn-b".to_string())
    );
    assert_eq!(
        check_run_cancelled(false, "b"),
        Err("runtime server recovery did not cancel active agent run: b".to_string())
    );
}

#[test]
fn payloads_are_handed_on_in_updates() {
    let payloads = vec![delta("x"), object2("a", Json::Null, "type", text_json("other"))];
    let (told, event) =
        emit_annotated_agent_run_payloads("chat", "run", &payloads).expect("an event");
    assert_eq!(told.len(), 2);
    assert!(event.equals(&payloads[0]));
    assert!(told[0].equals(&object3(
        "agentRunId",
        text_json("run"),
        "payload",
        delta("x"),
        "sessionId",
        text_json("chat"),
    )));
    assert!(session_update("chat", "run", delta("x")).equals(&told[0]));
    let nothing = vec![object2("a", Json::Null, "type", text_json("other"))];
    assert_eq!(
        emit_annotated_agent_run_payloads("chat", "run", &nothing).expect_err("no event"),
        "stream projection returned no event for agentRunId=run"
    );
    assert_eq!(background_turn_id(&delta("x"), "job"), "job");
    let named = object2(
        "event",
        object2("turnId", text_json(" turn-9 "), "type", text_json("x")),
        "type",
        text_json("runtime_event"),
    );
    assert_eq!(background_turn_id(&named, "job"), "turn-9");
}

#[test]
fn spawned_agents_have_sessions_of_their_own() {
    let agent = SpawnedAgent {
        parent_session_id: "parent".to_string(),
        child_session_id: "child".to_string(),
        runtime_job_id: "job".to_string(),
    };
    assert_eq!(
        materialize_spawned_agent_session(&agent, "parent", &None),
        Ok(true)
    );
    assert_eq!(
        materialize_spawned_agent_session(&agent, "parent", &Some("job".to_string())),
        Ok(false)
    );
    assert_eq!(
        materialize_spawned_agent_session(&agent, "parent", &Some("run".to_string())),
        Err("AgentRun session mismatch: sessionId=child expected=job actual=run".to_string())
    );
    assert_eq!(
        materialize_spawned_agent_session(&agent, "stranger", &None),
        Err("SubagentSpawned sessionId mismatch: expected=stranger actual=parent".to_string())
    );
}

#[test]
fn changes_of_files_are_facts() {
    let fact = commit_file_mutation(&FileMutation {
        tool_name: "write".to_string(),
        tool_call_id: "call-1".to_string(),
        operation: "create".to_string(),
        path: "/work/a".to_string(),
        target_path: None,
        previous_file_hash: None,
        read_snapshot_hash: None,
        file_hash: Some("sha256:1".to_string()),
        bytes_written: Some(3),
        added_lines: Some(1),
        removed_lines: None,
        session_id: Some("chat".to_string()),
        execution_owner: None,
    });
    assert_eq!(
        fact.get_text("schema").map(String::as_str),
        Some("file_mutation_pre_apply_fact_v1")
    );
    assert!(matches!(fact.get("bytesWritten"), Some(Json::Unsigned(3))));
    assert!(matches!(fact.get("targetPath"), Some(Json::Null)));
    assert!(matches!(&fact, Json::Object(entries) if entries.len() == 14));
}

fn stopped(stop: AgentRunStop, steps: Vec<Option<TurnCheckpoint>>) -> RunOutcome {
    RunOutcome::Stopped(QueryStop {
        stop,
        reason: "stop".to_string(),
        steps,
        stream_error: None,
    })
}

fn settled(told: bool, content: &str) -> RunOutcome {
    RunOutcome::Settled {
        told,
        content: content.to_string(),
    }
}

fn prepared_run() -> AgentRun {
    let mut run = AgentRun::new();
    run.advance(RunOutcome::Done);
    run
}

fn advance_all(run: &mut AgentRun, outcomes: Vec<RunOutcome>) -> Vec<RunStep> {
    outcomes
        .into_iter()
        .map(|outcome| run.advance(outcome))
        .collect()
}

#[test]
fn a_completed_run_is_recorded_before_it_is_told() {
    let mut run = prepared_run();
    assert_eq!(run.step, RunStep::Query);
    let steps = advance_all(
        &mut run,
        vec![
            stopped(AgentRunStop::Finalized, Vec::new()),
            RunOutcome::Done,
            RunOutcome::Done,
            RunOutcome::Done,
            RunOutcome::Done,
            RunOutcome::Done,
            settled(false, "text"),
            RunOutcome::Done,
            RunOutcome::Done,
            RunOutcome::Done,
            RunOutcome::Done,
        ],
    );
    assert_eq!(
        steps,
        vec![
            RunStep::Flush,
            RunStep::Emit,
            RunStep::RecordCheckpoints,
            RunStep::Project,
            RunStep::LastFlush,
            RunStep::LastEmit,
            RunStep::RecordAnswer,
            RunStep::FinishRun,
            RunStep::TellEnd,
            RunStep::Seal,
            RunStep::Done,
        ]
    );
    assert!(matches!(run.result, Some(Ok(()))));
}

#[test]
fn a_cancelled_run_closes_its_calls_before_it_ends() {
    let mut run = prepared_run();
    advance_all(
        &mut run,
        vec![
            stopped(AgentRunStop::Cancelled("banana".to_string()), Vec::new()),
            RunOutcome::Done,
            RunOutcome::Done,
            RunOutcome::Done,
            RunOutcome::Done,
        ],
    );
    let steps = advance_all(
        &mut run,
        vec![
            settled(false, "text"),
            RunOutcome::Done,
            RunOutcome::Done,
            RunOutcome::Done,
            RunOutcome::Done,
        ],
    );
    assert_eq!(
        steps,
        vec![
            RunStep::KeepText,
            RunStep::AskReason,
            RunStep::CloseCalls,
            RunStep::CancelRun,
            RunStep::CancelRun,
        ]
    );
    run.advance(RunOutcome::Cancelled {
        cancelled: false,
        summarised: true,
    });
    assert!(matches!(
        &run.result,
        Some(Err(error)) if error == "active AgentRun cancellation did not commit terminal"
    ));
}

#[test]
fn a_waiting_run_is_asked_again_from_its_turn() {
    let mut run = prepared_run();
    let steps = advance_all(
        &mut run,
        vec![
            stopped(
                AgentRunStop::QuestionWait,
                vec![checkpoint("turn-1", "question")],
            ),
            RunOutcome::Done,
            RunOutcome::Done,
            RunOutcome::Done,
        ],
    );
    assert_eq!(steps[3], RunStep::AwaitAnswer);
    assert_eq!(run.wait_turn_id, "turn-1");
    assert_eq!(
        run.advance(RunOutcome::AnswerWoke(QuestionWaitWake::Resume {
            turn_id: "turn-2".to_string(),
            message: "yes".to_string(),
        })),
        RunStep::Query
    );
    match &run.resumption {
        Some(Resumption::Resume {
            from_turn_id,
            next_turn_id,
            intent: ResumeIntent::QuestionAnswered(message),
        }) => {
            assert_eq!(from_turn_id, "turn-1");
            assert_eq!(next_turn_id.as_deref(), Some("turn-2"));
            assert_eq!(message, "yes");
        }
        other => panic!("{other:?}"),
    }
}

#[test]
fn a_failed_run_is_closed_as_failed() {
    let mut run = prepared_run();
    run.advance(RunOutcome::Stopped(QueryStop {
        stop: AgentRunStop::Finalized,
        reason: "stop".to_string(),
        steps: Vec::new(),
        stream_error: Some("disk full".to_string()),
    }));
    advance_all(&mut run, vec![RunOutcome::Done, RunOutcome::Done]);
    assert_eq!(run.step, RunStep::LastFlush);
    run.advance(RunOutcome::Done);
    assert_eq!(run.advance(settled(false, "")), RunStep::TellFailure);
    match &run.closing {
        Some(Closing::Fail { error, reason, retryable, .. }) => {
            assert_eq!(error, "persist stream item failed: disk full");
            assert_eq!(reason, "session_prompt_loop_failed");
            assert!(!retryable);
        }
        other => panic!("{other:?}"),
    }
    let steps = advance_all(
        &mut run,
        vec![
            RunOutcome::Done,
            RunOutcome::Done,
            RunOutcome::Done,
            RunOutcome::Done,
            RunOutcome::Done,
        ],
    );
    assert_eq!(
        steps,
        vec![
            RunStep::CloseCalls,
            RunStep::RecordFailure,
            RunStep::FailRun,
            RunStep::TellEnd,
            RunStep::Done,
        ]
    );
    assert!(matches!(run.result, Some(Ok(()))));
}
