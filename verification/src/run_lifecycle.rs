//! The life of a run: how it is started, what it records on its way, what it waits for, and how
//! its end is recorded.

use crate::digest::{hex_sha256, sha256, tagged, tagged_text_digest};
use crate::json::{json_text, text_json, write_json, Json, JsonView};
use crate::message_log::{MessageView, ProjectedChatMessage};
use crate::observation_cas::agrees;
use crate::sandbox_policy::NetworkAccess;
use crate::text::{
    blank, concat2, concat3, debug_text, decimal, decimal_text, hex,
    law_trimming_takes_off_the_whitespace_around, optional_text, show_optional, signed_decimal,
    signed_long_text, text_equals, trim, trimmed,
};
use vstd::prelude::*;
use vstd::utf8::encode_utf8;

verus! {

/// The identity of a run that is started: the one that was asked for, else one made from the time
/// and a count.
pub fn started_run_id(requested: &Option<String>, started_at_ms: i64, sequence: u64) -> (result:
    String)
    ensures
        result@ == match optional_text(*requested) {
            Some(id) => id,
            None => "agent-run-"@ + signed_decimal(started_at_ms as int) + "-"@ + decimal(
                sequence as nat,
            ),
        },
{
    match requested {
        Some(id) => id.clone(),
        None => {
            let head = concat2("agent-run-", signed_long_text(started_at_ms).as_str());
            concat3(head.as_str(), "-", decimal_text(sequence).as_str())
        },
    }
}

/// A step on the way to a run.
#[derive(Clone, Copy, Debug, PartialEq, Eq, Structural)]
pub enum StartStep {
    /// Finds the directory that the session works in.
    ResolveRuntime,
    /// Finds what carries the run out.
    FindExecutor,
    /// Takes the lease of the run.
    Lease,
    /// Binds what the run tells to its lease.
    BindWriter,
    /// Recovers the calls of tools that were not completed.
    RecoverToolCalls,
    /// Restores the session from its log.
    RestoreSession,
    /// Reads what the user has configured.
    ReadConfig,
    /// Checks that the model can be sent images.
    CheckVision,
    /// Takes the images in.
    ImportImages,
    /// Records that the run has started.
    PersistStarted,
    /// Restores the session with that record.
    RestoreStarted,
    /// Starts the life of a run that takes the place of another.
    StartLifecycle,
    /// Lets the run go.
    Spawn,
}

/// The step after another; there is none after the last.
pub open spec fn step_after(step: StartStep, images: bool, rewrites: bool) -> Option<StartStep> {
    match step {
        StartStep::ResolveRuntime => Some(StartStep::FindExecutor),
        StartStep::FindExecutor => Some(StartStep::Lease),
        StartStep::Lease => Some(StartStep::BindWriter),
        StartStep::BindWriter => Some(StartStep::RecoverToolCalls),
        StartStep::RecoverToolCalls => Some(StartStep::RestoreSession),
        StartStep::RestoreSession => Some(StartStep::ReadConfig),
        StartStep::ReadConfig => if images {
            Some(StartStep::CheckVision)
        } else {
            Some(StartStep::ImportImages)
        },
        StartStep::CheckVision => Some(StartStep::ImportImages),
        StartStep::ImportImages => Some(StartStep::PersistStarted),
        StartStep::PersistStarted => Some(StartStep::RestoreStarted),
        StartStep::RestoreStarted => if rewrites {
            Some(StartStep::StartLifecycle)
        } else {
            Some(StartStep::Spawn)
        },
        StartStep::StartLifecycle => Some(StartStep::Spawn),
        StartStep::Spawn => None,
    }
}

/// Whether the failure of a step is recorded as the failure of the run.
pub open spec fn failure_recorded(step: StartStep) -> bool {
    step == StartStep::ReadConfig || step == StartStep::StartLifecycle
}

/// How far a run is on its way.
#[derive(Clone, Copy, Debug, PartialEq, Eq, Structural)]
pub struct RunStart {
    pub step: StartStep,
    /// Whether the message has images.
    pub images: bool,
    /// Whether the message takes the place of another.
    pub rewrites: bool,
}

/// What comes after a step.
#[derive(Debug)]
pub enum StartDecision {
    Go(StartStep),
    /// The run is on its way.
    Started,
    Fail(String),
    /// The failure is recorded first.
    FailAfterRecording(String),
}

pub enum StartView {
    Go(StartStep),
    Started,
    Fail(Seq<char>),
    FailAfterRecording(Seq<char>),
}

impl View for StartDecision {
    type V = StartView;

    open spec fn view(&self) -> StartView {
        match self {
            StartDecision::Go(step) => StartView::Go(*step),
            StartDecision::Started => StartView::Started,
            StartDecision::Fail(error) => StartView::Fail(error@),
            StartDecision::FailAfterRecording(error) => StartView::FailAfterRecording(error@),
        }
    }
}

/// What comes after a step that ended as given.
pub open spec fn start_decision(start: RunStart, outcome: Result<(), String>) -> StartView {
    match outcome {
        Err(error) => if failure_recorded(start.step) {
            StartView::FailAfterRecording(error@)
        } else {
            StartView::Fail(error@)
        },
        Ok(_) => match step_after(start.step, start.images, start.rewrites) {
            Some(step) => StartView::Go(step),
            None => StartView::Started,
        },
    }
}

impl RunStart {
    /// The way to a run.
    pub fn new(images: bool, rewrites: bool) -> (result: RunStart)
        ensures
            result == (RunStart { step: StartStep::ResolveRuntime, images, rewrites }),
    {
        RunStart { step: StartStep::ResolveRuntime, images, rewrites }
    }

    /// Goes on after a step.
    pub fn advance(&mut self, outcome: Result<(), String>) -> (result: StartDecision)
        ensures
            result@ == start_decision(*old(self), outcome),
            final(self).images == old(self).images,
            final(self).rewrites == old(self).rewrites,
            final(self).step == match result@ {
                StartView::Go(step) => step,
                _ => old(self).step,
            },
    {
        match outcome {
            Err(error) => match self.step {
                StartStep::ReadConfig => StartDecision::FailAfterRecording(error),
                StartStep::StartLifecycle => StartDecision::FailAfterRecording(error),
                _ => StartDecision::Fail(error),
            },
            Ok(_) => {
                let next = match self.step {
                    StartStep::ResolveRuntime => StartStep::FindExecutor,
                    StartStep::FindExecutor => StartStep::Lease,
                    StartStep::Lease => StartStep::BindWriter,
                    StartStep::BindWriter => StartStep::RecoverToolCalls,
                    StartStep::RecoverToolCalls => StartStep::RestoreSession,
                    StartStep::RestoreSession => StartStep::ReadConfig,
                    StartStep::ReadConfig => if self.images {
                        StartStep::CheckVision
                    } else {
                        StartStep::ImportImages
                    },
                    StartStep::CheckVision => StartStep::ImportImages,
                    StartStep::ImportImages => StartStep::PersistStarted,
                    StartStep::PersistStarted => StartStep::RestoreStarted,
                    StartStep::RestoreStarted => if self.rewrites {
                        StartStep::StartLifecycle
                    } else {
                        StartStep::Spawn
                    },
                    StartStep::StartLifecycle => StartStep::Spawn,
                    StartStep::Spawn => {
                        return StartDecision::Started;
                    },
                };
                self.step = next;
                StartDecision::Go(next)
            },
        }
    }
}

/// How many steps come before a step at most.
pub open spec fn step_rank(step: StartStep) -> nat {
    match step {
        StartStep::ResolveRuntime => 0,
        StartStep::FindExecutor => 1,
        StartStep::Lease => 2,
        StartStep::BindWriter => 3,
        StartStep::RecoverToolCalls => 4,
        StartStep::RestoreSession => 5,
        StartStep::ReadConfig => 6,
        StartStep::CheckVision => 7,
        StartStep::ImportImages => 8,
        StartStep::PersistStarted => 9,
        StartStep::RestoreStarted => 10,
        StartStep::StartLifecycle => 11,
        StartStep::Spawn => 12,
    }
}

/// The steps that are left, where all go well.
pub open spec fn steps_left(step: StartStep, images: bool, rewrites: bool) -> Seq<StartStep>
    decreases 12 - step_rank(step),
{
    match step_after(step, images, rewrites) {
        Some(next) => seq![step] + steps_left(next, images, rewrites),
        None => seq![step],
    }
}

proof fn lemma_step_order(step: StartStep, images: bool, rewrites: bool)
    ensures
        match step_after(step, images, rewrites) {
            Some(next) => {
                &&& step_rank(step) < step_rank(next)
                &&& step_rank(step) < 9 ==> step_rank(next) <= 9
                &&& images && step_rank(step) < 7 ==> step_rank(next) <= 7
                &&& rewrites && step_rank(step) < 11 ==> step_rank(next) <= 11
            },
            None => step == StartStep::Spawn,
        },
        step_rank(step) == 9 ==> step == StartStep::PersistStarted,
        step_rank(step) == 7 ==> step == StartStep::CheckVision,
        step_rank(step) == 11 ==> step == StartStep::StartLifecycle,
        step_rank(step) <= 12,
{
}

proof fn lemma_contained_behind(first: StartStep, rest: Seq<StartStep>, wanted: StartStep)
    requires
        rest.contains(wanted) || first == wanted,
    ensures
        (seq![first] + rest).contains(wanted),
{
    let all = seq![first] + rest;
    if first == wanted {
        assert(all[0] == wanted);
    } else {
        let k = choose|k: int| 0 <= k < rest.len() && rest[k] == wanted;
        assert(all[k + 1] == wanted);
    }
}

/// Whether each step of a way comes after the ones before it.
pub open spec fn in_order(steps: Seq<StartStep>) -> bool {
    forall|i: int, j: int|
        0 <= i < j < steps.len() ==> step_rank(#[trigger] steps[i]) < step_rank(
            #[trigger] steps[j],
        )
}

proof fn lemma_in_order_behind(first: StartStep, rest: Seq<StartStep>)
    requires
        in_order(rest),
        rest.len() > 0,
        step_rank(first) < step_rank(rest[0]),
    ensures
        in_order(seq![first] + rest),
{
    let all = seq![first] + rest;
    assert forall|i: int, j: int| 0 <= i < j < all.len() implies step_rank(#[trigger] all[i])
        < step_rank(#[trigger] all[j]) by {
        assert(all[j] == rest[j - 1]);
        if i > 0 {
            assert(all[i] == rest[i - 1]);
        } else if j > 1 {
            assert(step_rank(rest[0]) < step_rank(rest[j - 1]));
        }
    }
}

/// A run that goes its way is let go last, once it was recorded that it started; and where the
/// message has images they are taken in only after it was checked that the model can be sent them.
pub proof fn law_runs_are_recorded_before_they_go(step: StartStep, images: bool, rewrites: bool)
    ensures
        ({
            let steps = steps_left(step, images, rewrites);
            &&& 0 < steps.len() <= 13 - step_rank(step)
            &&& steps[0] == step
            &&& steps[steps.len() - 1] == StartStep::Spawn
            &&& step_rank(step) <= step_rank(StartStep::PersistStarted) ==> steps.contains(
                StartStep::PersistStarted,
            )
            &&& images && step_rank(step) <= step_rank(StartStep::CheckVision) ==> steps.contains(
                StartStep::CheckVision,
            )
            &&& rewrites && step_rank(step) <= step_rank(StartStep::StartLifecycle)
                ==> steps.contains(StartStep::StartLifecycle)
            &&& in_order(steps)
        }),
    decreases 12 - step_rank(step),
{
    lemma_step_order(step, images, rewrites);
    match step_after(step, images, rewrites) {
        Some(next) => {
            lemma_step_order(next, images, rewrites);
            law_runs_are_recorded_before_they_go(next, images, rewrites);
            let rest = steps_left(next, images, rewrites);
            let steps = seq![step] + rest;
            assert(steps_left(step, images, rewrites) == steps);
            assert(steps[steps.len() - 1] == rest[rest.len() - 1]);
            lemma_in_order_behind(step, rest);
            if step_rank(step) <= 9 {
                lemma_contained_behind(step, rest, StartStep::PersistStarted);
            }
            if images && step_rank(step) <= 7 {
                lemma_contained_behind(step, rest, StartStep::CheckVision);
            }
            if rewrites && step_rank(step) <= 11 {
                lemma_contained_behind(step, rest, StartStep::StartLifecycle);
            }
        },
        None => {
            assert(steps_left(step, images, rewrites) == seq![step]);
        },
    }
}

/// The error of a run that could not be set up, with what went wrong while it was recorded: first
/// the calls of tools are closed, then the message of the error is recorded, then the end of the
/// run. What comes after a failure is not tried.
pub fn persist_agent_turn_setup_error(
    error: &str,
    closed: &Result<(), String>,
    message: &Result<(), String>,
    lifecycle: &Result<(), String>,
) -> (result: String)
    ensures
        result@ == match (closed, message, lifecycle) {
            (Err(failure), _, _) => error@
                + "; additionally failed to close incomplete tool calls: "@ + failure@,
            (Ok(_), Err(failure), _) => error@
                + "; additionally failed to persist assistant error message: "@ + failure@,
            (Ok(_), Ok(_), Err(failure)) => error@
                + "; additionally failed to persist failed agent run lifecycle: "@ + failure@,
            (Ok(_), Ok(_), Ok(_)) => error@,
        },
{
    match closed {
        Err(failure) => {
            return concat3(
                error,
                "; additionally failed to close incomplete tool calls: ",
                failure.as_str(),
            );
        },
        Ok(_) => {},
    }
    match message {
        Err(failure) => {
            return concat3(
                error,
                "; additionally failed to persist assistant error message: ",
                failure.as_str(),
            );
        },
        Ok(_) => {},
    }
    match lifecycle {
        Err(failure) => concat3(
            error,
            "; additionally failed to persist failed agent run lifecycle: ",
            failure.as_str(),
        ),
        Ok(_) => error.to_owned(),
    }
}

/// Checks that a message that takes the place of another has taken some records away.
pub fn check_rewritten(tombstoned_count: usize) -> (result: Result<(), String>)
    ensures
        if tombstoned_count == 0 {
            result matches Err(message) && message@ == "rewrite did not tombstone any tail records"@
        } else {
            result is Ok
        },
{
    if tombstoned_count == 0 {
        Err("rewrite did not tombstone any tail records".to_owned())
    } else {
        Ok(())
    }
}

/// Why a run stopped.
#[derive(Debug)]
pub enum AgentRunStop {
    /// The model gave its final answer.
    Finalized,
    /// A tool ended the run.
    TerminalTool,
    Cancelled(String),
    /// The run waits for jobs.
    RuntimeJobWait,
    /// The run waits for the answer to a question.
    QuestionWait,
}

pub enum StopView {
    Finalized,
    TerminalTool,
    Cancelled(Seq<char>),
    RuntimeJobWait,
    QuestionWait,
}

impl View for AgentRunStop {
    type V = StopView;

    open spec fn view(&self) -> StopView {
        match self {
            AgentRunStop::Finalized => StopView::Finalized,
            AgentRunStop::TerminalTool => StopView::TerminalTool,
            AgentRunStop::Cancelled(reason) => StopView::Cancelled(reason@),
            AgentRunStop::RuntimeJobWait => StopView::RuntimeJobWait,
            AgentRunStop::QuestionWait => StopView::QuestionWait,
        }
    }
}

pub open spec fn optional_message(message: Option<ProjectedChatMessage>) -> Option<MessageView> {
    match message {
        Some(message) => Some(message@),
        None => None,
    }
}

/// The answer of a run that has completed, which has to be recorded as its last message.
pub open spec fn completed_answer(
    final_turn: Seq<char>,
    answer: Option<Seq<char>>,
    finalized: bool,
    assistant: Option<MessageView>,
) -> Result<Seq<char>, Seq<char>> {
    if answer is None && finalized {
        Err("finalized agent turn is missing the final assistant event"@)
    } else {
        let text = match answer {
            Some(text) => text,
            None => ""@,
        };
        match assistant {
            Some(message) if message.turn == final_turn => if message.id == "message:"@
                + final_turn + ":assistant"@ && message.content == text && message.status == Some(
                "done"@,
            ) {
                Ok(text)
            } else {
                Err("committed final assistant message mismatch: "@ + final_turn)
            },
            _ => Err("committed final assistant message is missing: "@ + final_turn),
        }
    }
}

/// The answer of a run that has completed, which has to be recorded as its last message.
pub fn persist_agent_run_completed(
    final_turn_id: &str,
    final_answer: &Option<String>,
    stop: &AgentRunStop,
    assistant: &Option<ProjectedChatMessage>,
) -> (result: Result<String, String>)
    ensures
        agrees(
            result,
            |answer: String| answer@,
            completed_answer(
                final_turn_id@,
                optional_text(*final_answer),
                stop is Finalized,
                optional_message(*assistant),
            ),
        ),
{
    let answer = match final_answer {
        Some(answer) => answer.clone(),
        None => {
            match stop {
                AgentRunStop::Finalized => {
                    return Err(
                        "finalized agent turn is missing the final assistant event".to_owned(),
                    );
                },
                _ => "".to_owned(),
            }
        },
    };
    match assistant {
        Some(message) => {
            if text_equals(message.turn_id.as_str(), final_turn_id) {
                let done = match &message.status {
                    Some(status) => text_equals(status.as_str(), "done"),
                    None => false,
                };
                let id = concat3("message:", final_turn_id, ":assistant");
                if text_equals(message.id.as_str(), id.as_str()) && text_equals(
                    message.content.as_str(),
                    answer.as_str(),
                ) && done {
                    return Ok(answer);
                }
                return Err(
                    concat2("committed final assistant message mismatch: ", final_turn_id),
                );
            }
        },
        None => {},
    }
    Err(concat2("committed final assistant message is missing: ", final_turn_id))
}

/// What is noted of a session when something is said in it.
#[derive(Debug)]
pub struct SessionActivity {
    /// What the user said.
    pub said: Option<String>,
    /// What was said last, by anyone.
    pub preview: String,
}

/// What is noted of a session when something is said in it: what starts a run is said by the user,
/// and what ends one is not.
pub fn session_activity(starts_run: bool, text: &str) -> (result: SessionActivity)
    ensures
        result.preview@ == text@,
        optional_text(result.said) == if starts_run {
            Some(text@)
        } else {
            None
        },
{
    SessionActivity {
        said: if starts_run {
            Some(text.to_owned())
        } else {
            None
        },
        preview: text.to_owned(),
    }
}

/// Whether a message is complete, by its status.
pub open spec fn settled_status(status: Option<Seq<char>>) -> bool {
    status == Some("done"@) || status == Some("error"@)
}

fn is_settled(status: &Option<String>) -> (result: bool)
    ensures
        result == settled_status(optional_text(*status)),
{
    match status {
        Some(status) => text_equals(status.as_str(), "done") || text_equals(
            status.as_str(),
            "error",
        ),
        None => false,
    }
}

/// The message that a run has recorded already; one that is not complete is an error.
pub open spec fn settled_message(assistant: Option<MessageView>) -> Result<
    Option<Seq<char>>,
    Seq<char>,
> {
    match assistant {
        None => Ok(None),
        Some(message) => if settled_status(message.status) {
            Ok(Some(message.content))
        } else {
            Err("committed assistant message has unsupported status: "@ + debug_text(message.status))
        },
    }
}

fn recorded_message(assistant: &Option<ProjectedChatMessage>) -> (result: Result<
    Option<String>,
    String,
>)
    ensures
        agrees(
            result,
            |content: Option<String>| optional_text(content),
            settled_message(optional_message(*assistant)),
        ),
{
    match assistant {
        None => Ok(None),
        Some(message) => if is_settled(&message.status) {
            Ok(Some(message.content.clone()))
        } else {
            Err(
                concat2(
                    "committed assistant message has unsupported status: ",
                    show_optional(&message.status).as_str(),
                ),
            )
        },
    }
}

pub const FAILED_MESSAGE_STATUS: &'static str = "error";

/// What becomes of the message of a run that ends early.
#[derive(Debug)]
pub enum RunMessage {
    /// A message was recorded already.
    Recorded(String),
    /// A message is recorded, with a status.
    Record { content: String, status: String },
    /// There is nothing to record.
    Nothing,
}

pub enum RunMessageView {
    Recorded(Seq<char>),
    Record { content: Seq<char>, status: Seq<char> },
    Nothing,
}

impl View for RunMessage {
    type V = RunMessageView;

    open spec fn view(&self) -> RunMessageView {
        match self {
            RunMessage::Recorded(text) => RunMessageView::Recorded(text@),
            RunMessage::Record { content, status } => RunMessageView::Record {
                content: content@,
                status: status@,
            },
            RunMessage::Nothing => RunMessageView::Nothing,
        }
    }
}

/// What becomes of the message of a run that has failed: where none was recorded, the failure is
/// its message, and ended in an error.
pub open spec fn failed_message(assistant: Option<MessageView>, error: Seq<char>) -> Result<
    RunMessageView,
    Seq<char>,
> {
    match settled_message(assistant) {
        Err(refused) => Err(refused),
        Ok(Some(recorded)) => Ok(RunMessageView::Recorded(recorded)),
        Ok(None) => Ok(RunMessageView::Record { content: error, status: "error"@ }),
    }
}

/// What becomes of the message of a run that has failed.
pub fn persist_agent_run_failed(assistant: &Option<ProjectedChatMessage>, error: &str) -> (result:
    Result<RunMessage, String>)
    ensures
        agrees(
            result,
            |message: RunMessage| message@,
            failed_message(optional_message(*assistant), error@),
        ),
{
    match recorded_message(assistant) {
        Err(refused) => Err(refused),
        Ok(Some(recorded)) => Ok(RunMessage::Recorded(recorded)),
        Ok(None) => Ok(
            RunMessage::Record {
                content: error.to_owned(),
                status: FAILED_MESSAGE_STATUS.to_owned(),
            },
        ),
    }
}

/// What becomes of the text that a model had written when it was interrupted: where no message was
/// recorded, the text is, and ended in an error.
pub open spec fn interrupted_text(assistant: Option<MessageView>, content: Seq<char>) -> Result<
    RunMessageView,
    Seq<char>,
> {
    match settled_message(assistant) {
        Err(error) => Err(error),
        Ok(Some(recorded)) => Ok(RunMessageView::Recorded(recorded)),
        Ok(None) => if content.len() > 0 {
            Ok(RunMessageView::Record { content, status: "error"@ })
        } else {
            Ok(RunMessageView::Nothing)
        },
    }
}

/// What becomes of the text that a model had written when it was interrupted.
pub fn persist_interrupted_live_text(
    assistant: &Option<ProjectedChatMessage>,
    content: &str,
) -> (result: Result<RunMessage, String>)
    ensures
        agrees(
            result,
            |message: RunMessage| message@,
            interrupted_text(optional_message(*assistant), content@),
        ),
{
    match recorded_message(assistant) {
        Err(error) => Err(error),
        Ok(Some(recorded)) => Ok(RunMessage::Recorded(recorded)),
        Ok(None) => if content.is_empty() {
            Ok(RunMessage::Nothing)
        } else {
            Ok(
                RunMessage::Record {
                    content: content.to_owned(),
                    status: FAILED_MESSAGE_STATUS.to_owned(),
                },
            )
        },
    }
}

/// No text is lost to an interruption: what the model had written is recorded unless a message
/// was recorded already.
pub proof fn law_interrupted_text_is_kept(assistant: Option<MessageView>, content: Seq<char>)
    requires
        content.len() > 0,
        assistant matches Some(message) ==> settled_status(message.status),
    ensures
        interrupted_text(assistant, content) == Ok::<RunMessageView, Seq<char>>(
            match assistant {
                Some(message) => RunMessageView::Recorded(message.content),
                None => RunMessageView::Record { content, status: "error"@ },
            },
        ),
{
}

/// A checkpoint that a turn has left.
#[derive(Debug)]
pub struct TurnCheckpoint {
    pub session_id: String,
    pub turn_id: String,
    pub done_reason: Option<String>,
    pub payload_json: String,
}

/// What is wrong with the checkpoints of a session's turns.
pub open spec fn checkpoint_error(
    steps: Seq<Option<TurnCheckpoint>>,
    session: Seq<char>,
) -> Option<(int, Seq<char>)>
    decreases steps.len(),
{
    if steps.len() == 0 {
        None
    } else {
        let n = steps.len() - 1;
        match checkpoint_error(steps.subrange(0, n), session) {
            Some(error) => Some(error),
            None => match steps[n] {
                Some(checkpoint) => if checkpoint.session_id@ != session {
                    Some(
                        (
                            n,
                            "checkpoint sessionId mismatch: expected "@ + session + ", got "@
                                + checkpoint.session_id@,
                        ),
                    )
                } else {
                    None
                },
                None => None,
            },
        }
    }
}

/// Checks the checkpoints of a session's turns, which are recorded one after the other: how many
/// turns' checkpoints are recorded, and the error that ends it.
pub fn persist_agent_checkpoint_refs(
    session_id: &str,
    steps: &Vec<Option<TurnCheckpoint>>,
) -> (result: (usize, Result<(), String>))
    ensures
        match checkpoint_error(steps@, session_id@) {
            None => result.0 == steps.len() && result.1 is Ok,
            Some(error) => result.0 == error.0 && (result.1 matches Err(message) && message@
                == error.1),
        },
{
    let mut i: usize = 0;
    assert(steps@.subrange(0, 0) =~= Seq::empty());
    while i < steps.len()
        invariant
            i <= steps.len(),
            checkpoint_error(steps@.subrange(0, i as int), session_id@) == None::<(int, Seq<char>)>,
        decreases steps.len() - i,
    {
        let ghost next = steps@.subrange(0, i + 1);
        assert(next.subrange(0, i as int) =~= steps@.subrange(0, i as int));
        match &steps[i] {
            Some(checkpoint) => {
                if !text_equals(checkpoint.session_id.as_str(), session_id) {
                    let head = concat2("checkpoint sessionId mismatch: expected ", session_id);
                    let message = concat3(head.as_str(), ", got ", checkpoint.session_id.as_str());
                    proof {
                        lemma_checkpoint_error(steps@, session_id@, i + 1);
                    }
                    return (i, Err(message));
                }
            },
            None => {},
        }
        i = i + 1;
    }
    assert(steps@.subrange(0, steps@.len() as int) =~= steps@);
    (i, Ok(()))
}

proof fn lemma_checkpoint_error(
    steps: Seq<Option<TurnCheckpoint>>,
    session: Seq<char>,
    n: int,
)
    requires
        0 <= n <= steps.len(),
        checkpoint_error(steps.subrange(0, n), session) is Some,
    ensures
        checkpoint_error(steps, session) == checkpoint_error(steps.subrange(0, n), session),
    decreases steps.len() - n,
{
    if n < steps.len() {
        let next = steps.subrange(0, n + 1);
        assert(next.subrange(0, n) =~= steps.subrange(0, n));
        lemma_checkpoint_error(steps, session, n + 1);
    } else {
        assert(steps.subrange(0, n) =~= steps);
    }
}

/// The last checkpoint that was left for a reason.
pub open spec fn last_checkpoint(
    steps: Seq<Option<TurnCheckpoint>>,
    reason: Seq<char>,
) -> Option<TurnCheckpoint>
    decreases steps.len(),
{
    if steps.len() == 0 {
        None
    } else {
        let last = steps[steps.len() - 1];
        match last {
            Some(checkpoint) if optional_text(checkpoint.done_reason) == Some(reason) => Some(
                checkpoint,
            ),
            _ => last_checkpoint(steps.subrange(0, steps.len() - 1), reason),
        }
    }
}

fn find_last_checkpoint<'a>(
    steps: &'a Vec<Option<TurnCheckpoint>>,
    done_reason: &str,
) -> (result: Option<&'a TurnCheckpoint>)
    ensures
        match result {
            Some(checkpoint) => last_checkpoint(steps@, done_reason@) == Some(*checkpoint),
            None => last_checkpoint(steps@, done_reason@) == None::<TurnCheckpoint>,
        },
{
    let mut i: usize = steps.len();
    assert(steps@.subrange(0, steps@.len() as int) =~= steps@);
    while i > 0
        invariant
            i <= steps.len(),
            last_checkpoint(steps@.subrange(0, i as int), done_reason@) == last_checkpoint(
                steps@,
                done_reason@,
            ),
        decreases i,
    {
        let ghost here = steps@.subrange(0, i as int);
        assert(here.subrange(0, i - 1) =~= steps@.subrange(0, i - 1));
        i = i - 1;
        match &steps[i] {
            Some(checkpoint) => {
                let found = match &checkpoint.done_reason {
                    Some(reason) => text_equals(reason.as_str(), done_reason),
                    None => false,
                };
                if found {
                    return Some(checkpoint);
                }
            },
            None => {},
        }
    }
    None
}

/// The turn that a run waits in, by the last checkpoint that was left for the reason it waits for.
pub fn wait_checkpoint_turn_id(
    steps: &Vec<Option<TurnCheckpoint>>,
    stop_reason: &str,
    done_reason: &str,
) -> (result: Result<String, String>)
    ensures
        agrees(
            result,
            |turn: String| turn@,
            match last_checkpoint(steps@, done_reason@) {
                Some(checkpoint) => Ok(checkpoint.turn_id@),
                None => Err(
                    stop_reason@ + " response missing "@ + done_reason@ + " checkpoint"@,
                ),
            },
        ),
{
    match find_last_checkpoint(steps, done_reason) {
        Some(checkpoint) => Ok(checkpoint.turn_id.clone()),
        None => {
            let head = concat3(stop_reason, " response missing ", done_reason);
            Err(concat2(head.as_str(), " checkpoint"))
        },
    }
}

/// The turn that a run waits in for jobs, and what its checkpoint says of them.
pub fn runtime_job_wait_checkpoint(steps: &Vec<Option<TurnCheckpoint>>) -> (result: Result<
    (String, String),
    String,
>)
    ensures
        agrees(
            result,
            |found: (String, String)| (found.0@, found.1@),
            match last_checkpoint(steps@, "runtime_job"@) {
                Some(checkpoint) => Ok((checkpoint.turn_id@, checkpoint.payload_json@)),
                None => Err("runtime_job_wait response missing runtime_job checkpoint"@),
            },
        ),
{
    match find_last_checkpoint(steps, "runtime_job") {
        Some(checkpoint) => Ok((checkpoint.turn_id.clone(), checkpoint.payload_json.clone())),
        None => Err("runtime_job_wait response missing runtime_job checkpoint".to_owned()),
    }
}

pub const RUNTIME_JOB_WAIT_POLL_MS: u64 = 500;

/// What ends the waiting for jobs.
#[derive(Clone, Copy, Debug, PartialEq, Eq, Structural)]
pub enum RuntimeJobWaitWake {
    JobsTerminal,
    AnswerNow,
    Cancelled,
}

/// A job that a run waits for.
#[derive(Debug)]
pub struct AwaitedJob {
    pub job_id: String,
    pub job_kind: String,
}

/// A job as the store knows it.
#[derive(Debug)]
pub struct KnownJob {
    pub session_id: Option<String>,
    pub job_kind: String,
    pub ended: bool,
}

/// Checks that a run waits for jobs of its own.
pub fn check_wait_identity(
    waiting_run_id: &str,
    waiting_authorization: &str,
    agent_run_id: &str,
    authorization_digest: &str,
) -> (result: Result<(), String>)
    ensures
        if waiting_run_id@ == agent_run_id@ && waiting_authorization@ == authorization_digest@ {
            result is Ok
        } else {
            result matches Err(message) && message@
                == "runtime job wait AgentRun identity mismatch"@
        },
{
    if text_equals(waiting_run_id, agent_run_id) && text_equals(
        waiting_authorization,
        authorization_digest,
    ) {
        Ok(())
    } else {
        Err("runtime job wait AgentRun identity mismatch".to_owned())
    }
}

/// Whether all jobs have ended; each has to be known, as a job of the session and of its kind.
pub open spec fn jobs_ended(
    waits: Seq<AwaitedJob>,
    known: Seq<Option<KnownJob>>,
    session: Seq<char>,
) -> Result<bool, Seq<char>>
    decreases waits.len(),
{
    if waits.len() == 0 {
        Ok(true)
    } else {
        let n = waits.len() - 1;
        match jobs_ended(waits.subrange(0, n), known, session) {
            Err(error) => Err(error),
            Ok(ended) => match known[n] {
                None => Err("runtime_job_wait_job_missing: jobId="@ + waits[n].job_id@),
                Some(job) => if optional_text(job.session_id) != Some(session) || job.job_kind@
                    != waits[n].job_kind@ {
                    Err("runtime_job_wait_job_identity_mismatch: jobId="@ + waits[n].job_id@)
                } else {
                    Ok(ended && job.ended)
                },
            },
        }
    }
}

proof fn lemma_jobs_error(
    waits: Seq<AwaitedJob>,
    known: Seq<Option<KnownJob>>,
    session: Seq<char>,
    n: int,
)
    requires
        0 <= n <= waits.len(),
        jobs_ended(waits.subrange(0, n), known, session) is Err,
    ensures
        jobs_ended(waits, known, session) == jobs_ended(waits.subrange(0, n), known, session),
    decreases waits.len() - n,
{
    if n < waits.len() {
        let next = waits.subrange(0, n + 1);
        assert(next.subrange(0, n) =~= waits.subrange(0, n));
        lemma_jobs_error(waits, known, session, n + 1);
    } else {
        assert(waits.subrange(0, n) =~= waits);
    }
}

fn all_jobs_ended(
    waits: &Vec<AwaitedJob>,
    known: &Vec<Option<KnownJob>>,
    session_id: &str,
) -> (result: Result<bool, String>)
    requires
        known.len() == waits.len(),
    ensures
        agrees(result, |ended: bool| ended, jobs_ended(waits@, known@, session_id@)),
{
    let mut all: bool = true;
    let mut i: usize = 0;
    assert(waits@.subrange(0, 0) =~= Seq::empty());
    while i < waits.len()
        invariant
            i <= waits.len(),
            known.len() == waits.len(),
            jobs_ended(waits@.subrange(0, i as int), known@, session_id@) == Ok::<bool, Seq<char>>(
                all,
            ),
        decreases waits.len() - i,
    {
        let ghost next = waits@.subrange(0, i + 1);
        assert(next.subrange(0, i as int) =~= waits@.subrange(0, i as int));
        match &known[i] {
            None => {
                proof {
                    lemma_jobs_error(waits@, known@, session_id@, i + 1);
                }
                return Err(
                    concat2("runtime_job_wait_job_missing: jobId=", waits[i].job_id.as_str()),
                );
            },
            Some(job) => {
                let own = match &job.session_id {
                    Some(session) => text_equals(session.as_str(), session_id),
                    None => false,
                };
                if !own || !text_equals(job.job_kind.as_str(), waits[i].job_kind.as_str()) {
                    proof {
                        lemma_jobs_error(waits@, known@, session_id@, i + 1);
                    }
                    return Err(
                        concat2(
                            "runtime_job_wait_job_identity_mismatch: jobId=",
                            waits[i].job_id.as_str(),
                        ),
                    );
                }
                all = all && job.ended;
            },
        }
        i = i + 1;
    }
    assert(waits@.subrange(0, waits@.len() as int) =~= waits@);
    Ok(all)
}

/// What ends the waiting for jobs at one look: a cancellation before a request to answer at once,
/// and that before the end of all jobs. Nothing where the waiting goes on.
pub open spec fn job_wait_look(
    cancelled: bool,
    answer_now: bool,
    ended: Result<bool, Seq<char>>,
) -> Result<Option<RuntimeJobWaitWake>, Seq<char>> {
    if cancelled {
        Ok(Some(RuntimeJobWaitWake::Cancelled))
    } else if answer_now {
        Ok(Some(RuntimeJobWaitWake::AnswerNow))
    } else {
        match ended {
            Err(error) => Err(error),
            Ok(true) => Ok(Some(RuntimeJobWaitWake::JobsTerminal)),
            Ok(false) => Ok(None),
        }
    }
}

/// Looks whether the waiting for jobs has ended.
pub fn wait_for_runtime_jobs_or_control(
    cancelled: bool,
    answer_now: bool,
    waits: &Vec<AwaitedJob>,
    known: &Vec<Option<KnownJob>>,
    session_id: &str,
) -> (result: Result<Option<RuntimeJobWaitWake>, String>)
    requires
        known.len() == waits.len(),
    ensures
        agrees(
            result,
            |wake: Option<RuntimeJobWaitWake>| wake,
            job_wait_look(cancelled, answer_now, jobs_ended(waits@, known@, session_id@)),
        ),
{
    if cancelled {
        return Ok(Some(RuntimeJobWaitWake::Cancelled));
    }
    if answer_now {
        return Ok(Some(RuntimeJobWaitWake::AnswerNow));
    }
    match all_jobs_ended(waits, known, session_id) {
        Err(error) => Err(error),
        Ok(true) => Ok(Some(RuntimeJobWaitWake::JobsTerminal)),
        Ok(false) => Ok(None),
    }
}

/// What ends the waiting between two looks: a request to answer at once, or the end of the
/// control of the run. Nothing where only the time has passed.
pub fn after_job_pause(signal: Option<bool>) -> (result: Option<RuntimeJobWaitWake>)
    ensures
        result == match signal {
            Some(true) => Some(RuntimeJobWaitWake::AnswerNow),
            Some(false) => Some(RuntimeJobWaitWake::Cancelled),
            None => None,
        },
{
    match signal {
        Some(true) => Some(RuntimeJobWaitWake::AnswerNow),
        Some(false) => Some(RuntimeJobWaitWake::Cancelled),
        None => None,
    }
}

/// A run that is cancelled stops waiting, whatever its jobs do; and it goes on for its jobs only
/// when all of them have ended.
pub proof fn law_waiting_ends(
    cancelled: bool,
    answer_now: bool,
    waits: Seq<AwaitedJob>,
    known: Seq<Option<KnownJob>>,
    session: Seq<char>,
    i: int,
)
    requires
        0 <= i < waits.len(),
    ensures
        ({
            let look = job_wait_look(cancelled, answer_now, jobs_ended(waits, known, session));
            &&& cancelled ==> look == Ok::<Option<RuntimeJobWaitWake>, Seq<char>>(
                Some(RuntimeJobWaitWake::Cancelled),
            )
            &&& look == Ok::<Option<RuntimeJobWaitWake>, Seq<char>>(
                Some(RuntimeJobWaitWake::JobsTerminal),
            ) ==> known[i] is Some && known[i]->0.ended
        }),
    decreases waits.len(),
{
    let n = waits.len() - 1;
    if i < n && jobs_ended(waits, known, session) == Ok::<bool, Seq<char>>(true) {
        let init = waits.subrange(0, n);
        assert(jobs_ended(init, known, session) == Ok::<bool, Seq<char>>(true));
        law_waiting_ends(false, false, init, known, session, i);
    }
}

/// What ends the waiting for the answer to a question.
#[derive(Debug)]
pub enum QuestionWaitWake {
    Resume { turn_id: String, message: String },
    AnswerNow,
    Cancelled,
}

pub enum QuestionWakeView {
    Resume { turn: Seq<char>, message: Seq<char> },
    AnswerNow,
    Cancelled,
}

impl View for QuestionWaitWake {
    type V = QuestionWakeView;

    open spec fn view(&self) -> QuestionWakeView {
        match self {
            QuestionWaitWake::Resume { turn_id, message } => QuestionWakeView::Resume {
                turn: turn_id@,
                message: message@,
            },
            QuestionWaitWake::AnswerNow => QuestionWakeView::AnswerNow,
            QuestionWaitWake::Cancelled => QuestionWakeView::Cancelled,
        }
    }
}

/// What ends the waiting for the answer to a question at one look; nothing where it goes on.
pub open spec fn question_wait_look(
    cancelled: bool,
    answer_now: bool,
    turn: Seq<char>,
    message: Option<Seq<char>>,
) -> Option<QuestionWakeView> {
    if cancelled {
        Some(QuestionWakeView::Cancelled)
    } else if answer_now {
        Some(QuestionWakeView::AnswerNow)
    } else {
        match message {
            Some(message) => Some(QuestionWakeView::Resume { turn, message }),
            None => None,
        }
    }
}

/// Looks whether the waiting for the answer to a question has ended.
pub fn wait_for_question_input_or_control(
    cancelled: bool,
    answer_now: bool,
    turn_id: &str,
    message: &Option<String>,
) -> (result: Option<QuestionWaitWake>)
    ensures
        match result {
            Some(wake) => question_wait_look(
                cancelled,
                answer_now,
                turn_id@,
                optional_text(*message),
            ) == Some(wake@),
            None => question_wait_look(
                cancelled,
                answer_now,
                turn_id@,
                optional_text(*message),
            ) == None::<QuestionWakeView>,
        },
{
    if cancelled {
        return Some(QuestionWaitWake::Cancelled);
    }
    if answer_now {
        return Some(QuestionWaitWake::AnswerNow);
    }
    match message {
        Some(message) => Some(
            QuestionWaitWake::Resume { turn_id: turn_id.to_owned(), message: message.clone() },
        ),
        None => None,
    }
}

/// A request to the model that starts.
#[derive(Debug)]
pub struct StartedModelRequest {
    pub session_id: String,
    pub turn_id: String,
    /// Whether the request is there to compact the context.
    pub compaction: bool,
    pub context_token_estimate: u64,
}

/// What a run is shown to be doing.
#[derive(Clone, Copy, Debug, PartialEq, Eq, Structural)]
pub enum ProcessState {
    /// It compacts its context.
    Compressing,
}

/// What is told of a request to the model that starts.
#[derive(Debug)]
pub struct ModelRequestUpdate {
    pub session_id: String,
    pub turn_id: String,
    pub compaction: bool,
    pub context_token_estimate: u64,
    pub message: Option<String>,
    pub process_state: ProcessState,
    pub elapsed_ms: u64,
    pub initial_content: String,
}

pub struct RequestUpdateView {
    pub session: Seq<char>,
    pub turn: Seq<char>,
    pub compaction: bool,
    pub context_token_estimate: u64,
    pub message: Option<Seq<char>>,
    pub process_state: ProcessState,
    pub elapsed_ms: u64,
    pub initial_content: Seq<char>,
}

impl View for ModelRequestUpdate {
    type V = RequestUpdateView;

    open spec fn view(&self) -> RequestUpdateView {
        RequestUpdateView {
            session: self.session_id@,
            turn: self.turn_id@,
            compaction: self.compaction,
            context_token_estimate: self.context_token_estimate,
            message: optional_text(self.message),
            process_state: self.process_state,
            elapsed_ms: self.elapsed_ms,
            initial_content: self.initial_content@,
        }
    }
}

/// What is told at once of a request that starts: of one to compact the context that the run is
/// compressing, with no message, no time elapsed and no content yet; nothing of any other.
pub open spec fn told_request(request: StartedModelRequest) -> Option<RequestUpdateView> {
    if request.compaction {
        Some(
            RequestUpdateView {
                session: request.session_id@,
                turn: request.turn_id@,
                compaction: true,
                context_token_estimate: request.context_token_estimate,
                message: None,
                process_state: ProcessState::Compressing,
                elapsed_ms: 0,
                initial_content: ""@,
            },
        )
    } else {
        None
    }
}

pub open spec fn optional_update(update: Option<ModelRequestUpdate>) -> Option<RequestUpdateView> {
    match update {
        Some(update) => Some(update@),
        None => None,
    }
}

/// What is told at once of a request that starts.
pub fn compaction_update(request: &StartedModelRequest) -> (result: Option<ModelRequestUpdate>)
    ensures
        optional_update(result) == told_request(*request),
{
    if request.compaction {
        Some(
            ModelRequestUpdate {
                session_id: request.session_id.clone(),
                turn_id: request.turn_id.clone(),
                compaction: true,
                context_token_estimate: request.context_token_estimate,
                message: None,
                process_state: ProcessState::Compressing,
                elapsed_ms: 0,
                initial_content: "".to_owned(),
            },
        )
    } else {
        None
    }
}

/// A point at which what a run has done is recorded.
#[derive(Debug)]
pub enum ToolSafePoint {
    /// A request to the model starts.
    ModelRequestStarted(StartedModelRequest),
    /// The provider has counted the tokens of a turn.
    ProviderUsage { turn_id: String },
    DurableToolCall { session_id: String, turn_id: String, agent_run_id: String },
    DurableReceipt { session_id: String, turn_id: String, agent_run_id: String },
    CompletedTurn,
}

/// What is recorded at such a point, and for which session, turn and run.
#[derive(Debug)]
pub enum SafePointAction {
    /// Records the request for the run, and then tells what is to be told of it.
    RecordRequest { agent_run_id: String, told: Option<ModelRequestUpdate> },
    RecordUsage { session_id: String, turn_id: String, agent_run_id: String },
    /// Records a call of a tool, and then tells of it.
    RecordCall { session_id: String, turn_id: String, agent_run_id: String },
    /// Records the result of a call, and then tells of it.
    RecordResult { session_id: String, turn_id: String, agent_run_id: String },
    Nothing,
}

pub enum SafePointView {
    RecordRequest { run: Seq<char>, told: Option<RequestUpdateView> },
    RecordUsage { session: Seq<char>, turn: Seq<char>, run: Seq<char> },
    RecordCall { session: Seq<char>, turn: Seq<char>, run: Seq<char> },
    RecordResult { session: Seq<char>, turn: Seq<char>, run: Seq<char> },
    Nothing,
}

impl View for SafePointAction {
    type V = SafePointView;

    open spec fn view(&self) -> SafePointView {
        match self {
            SafePointAction::RecordRequest { agent_run_id, told } => SafePointView::RecordRequest {
                run: agent_run_id@,
                told: optional_update(*told),
            },
            SafePointAction::RecordUsage { session_id, turn_id, agent_run_id } => {
                SafePointView::RecordUsage {
                    session: session_id@,
                    turn: turn_id@,
                    run: agent_run_id@,
                }
            },
            SafePointAction::RecordCall { session_id, turn_id, agent_run_id } => {
                SafePointView::RecordCall {
                    session: session_id@,
                    turn: turn_id@,
                    run: agent_run_id@,
                }
            },
            SafePointAction::RecordResult { session_id, turn_id, agent_run_id } => {
                SafePointView::RecordResult {
                    session: session_id@,
                    turn: turn_id@,
                    run: agent_run_id@,
                }
            },
            SafePointAction::Nothing => SafePointView::Nothing,
        }
    }
}

/// What is recorded at a point of a run, which has to be the run itself for calls of tools.
pub open spec fn safe_point_action(
    point: ToolSafePoint,
    session: Seq<char>,
    run: Seq<char>,
) -> Result<SafePointView, Seq<char>> {
    match point {
        ToolSafePoint::ModelRequestStarted(request) => Ok(
            SafePointView::RecordRequest { run, told: told_request(request) },
        ),
        ToolSafePoint::ProviderUsage { turn_id } => Ok(
            SafePointView::RecordUsage { session, turn: turn_id@, run },
        ),
        ToolSafePoint::DurableToolCall { session_id, turn_id, agent_run_id } => if session_id@
            == session && agent_run_id@ == run {
            Ok(SafePointView::RecordCall { session, turn: turn_id@, run })
        } else {
            Err("tool safe point AgentRun identity mismatch"@)
        },
        ToolSafePoint::DurableReceipt { session_id, turn_id, agent_run_id } => if session_id@
            == session && agent_run_id@ == run {
            Ok(SafePointView::RecordResult { session, turn: turn_id@, run })
        } else {
            Err("tool safe point AgentRun identity mismatch"@)
        },
        ToolSafePoint::CompletedTurn => Ok(SafePointView::Nothing),
    }
}

/// Decides what is recorded at a point of a run.
pub fn persist_agent_tool_safe_point(
    point: &ToolSafePoint,
    session_id: &str,
    agent_run_id: &str,
) -> (result: Result<SafePointAction, String>)
    ensures
        agrees(
            result,
            |action: SafePointAction| action@,
            safe_point_action(*point, session_id@, agent_run_id@),
        ),
{
    match point {
        ToolSafePoint::ModelRequestStarted(request) => Ok(
            SafePointAction::RecordRequest {
                agent_run_id: agent_run_id.to_owned(),
                told: compaction_update(request),
            },
        ),
        ToolSafePoint::ProviderUsage { turn_id } => Ok(
            SafePointAction::RecordUsage {
                session_id: session_id.to_owned(),
                turn_id: turn_id.clone(),
                agent_run_id: agent_run_id.to_owned(),
            },
        ),
        ToolSafePoint::DurableToolCall { session_id: session, turn_id, agent_run_id: run } => {
            if text_equals(session.as_str(), session_id) && text_equals(run.as_str(), agent_run_id) {
                Ok(
                    SafePointAction::RecordCall {
                        session_id: session_id.to_owned(),
                        turn_id: turn_id.clone(),
                        agent_run_id: agent_run_id.to_owned(),
                    },
                )
            } else {
                Err("tool safe point AgentRun identity mismatch".to_owned())
            }
        },
        ToolSafePoint::DurableReceipt { session_id: session, turn_id, agent_run_id: run } => {
            if text_equals(session.as_str(), session_id) && text_equals(run.as_str(), agent_run_id) {
                Ok(
                    SafePointAction::RecordResult {
                        session_id: session_id.to_owned(),
                        turn_id: turn_id.clone(),
                        agent_run_id: agent_run_id.to_owned(),
                    },
                )
            } else {
                Err("tool safe point AgentRun identity mismatch".to_owned())
            }
        },
        ToolSafePoint::CompletedTurn => Ok(SafePointAction::Nothing),
    }
}

/// Whatever is recorded at a point of a run is recorded for that run, and what a tool was asked or
/// has answered for another run is refused; and only a compaction is told at once.
pub proof fn law_safe_points_stay_in_their_run(
    point: ToolSafePoint,
    session: Seq<char>,
    run: Seq<char>,
)
    ensures
        match safe_point_action(point, session, run) {
            Ok(SafePointView::RecordRequest { run: recorded, told }) => {
                &&& recorded == run
                &&& told is Some <==> (point matches ToolSafePoint::ModelRequestStarted(request)
                    && request.compaction)
            },
            Ok(SafePointView::RecordUsage { session: in_session, turn, run: recorded }) => in_session
                == session && recorded == run,
            Ok(SafePointView::RecordCall { session: in_session, turn, run: recorded }) => in_session
                == session && recorded == run,
            Ok(SafePointView::RecordResult { session: in_session, turn, run: recorded }) => in_session
                == session && recorded == run,
            Ok(SafePointView::Nothing) => point is CompletedTurn,
            Err(_) => match point {
                ToolSafePoint::DurableToolCall { session_id, turn_id, agent_run_id } => session_id@
                    != session || agent_run_id@ != run,
                ToolSafePoint::DurableReceipt { session_id, turn_id, agent_run_id } => session_id@
                    != session || agent_run_id@ != run,
                _ => false,
            },
        },
{
}

/// Decides what is recorded at a point of a compaction that the user asked for: only requests to
/// the model are.
pub fn manual_compaction_safe_point(point: &ToolSafePoint) -> (result: Result<(), String>)
    ensures
        match point {
            ToolSafePoint::ModelRequestStarted(_) => result is Ok,
            _ => result matches Err(message) && message@
                == "manual context compaction emitted an unsupported safe point"@,
        },
{
    match point {
        ToolSafePoint::ModelRequestStarted(_) => Ok(()),
        _ => Err("manual context compaction emitted an unsupported safe point".to_owned()),
    }
}

/// Who a run is to what it calls.
#[derive(Debug)]
pub struct AgentRunIdentity {
    pub agent_run_id: String,
    pub execution_id: String,
    pub authorization_digest: String,
}

/// What a run is authorised for, as a JSON value.
pub open spec fn authorization_json(run: Seq<char>, session: Seq<char>, cwd: Seq<char>) -> JsonView {
    JsonView::Object(
        seq![
            ("schema"@, JsonView::Text("native_agent_run_authorization.v1"@)),
            ("agentRunId"@, JsonView::Text(run)),
            ("sessionId"@, JsonView::Text(session)),
            ("cwd"@, JsonView::Text(cwd)),
        ],
    )
}

/// Who a run is to what it calls: the same run in the same session and directory is always the
/// same.
pub fn native_agent_run_identity(agent_run_id: &str, session_id: &str, cwd: &str) -> (result:
    AgentRunIdentity)
    ensures
        result.agent_run_id@ == agent_run_id@,
        result.execution_id@ == "execution:"@ + hex(
            sha256(encode_utf8("native_agent_run_execution_v1:"@ + agent_run_id@)),
        ),
        result.authorization_digest@ == tagged(
            encode_utf8(json_text(authorization_json(agent_run_id@, session_id@, cwd@))),
        ),
{
    let source = concat2("native_agent_run_execution_v1:", agent_run_id);
    let execution_id = concat2("execution:", hex_sha256(source.as_str().as_bytes()).as_str());
    let mut entries: Vec<(String, Json)> = Vec::new();
    entries.push(("schema".to_owned(), text_json("native_agent_run_authorization.v1")));
    entries.push(("agentRunId".to_owned(), text_json(agent_run_id)));
    entries.push(("sessionId".to_owned(), text_json(session_id)));
    entries.push(("cwd".to_owned(), text_json(cwd)));
    let authorization = Json::Object(entries);
    assert(authorization@->Object_0 =~= authorization_json(
        agent_run_id@,
        session_id@,
        cwd@,
    )->Object_0);
    AgentRunIdentity {
        agent_run_id: agent_run_id.to_owned(),
        execution_id,
        authorization_digest: tagged_text_digest(write_json(&authorization).as_str()),
    }
}

/// The scope in which the tools of a run are called side by side, for a run that can be built.
pub open spec fn concurrency_scope(
    session: Seq<char>,
    owner: Seq<char>,
    scope: Seq<char>,
) -> Result<Seq<char>, Seq<char>> {
    if trimmed(session).len() == 0 {
        Err("sessionId is required"@)
    } else if trimmed(owner).len() == 0 {
        Err("executionOwner is required"@)
    } else if trimmed(scope).len() == 0 {
        Err("concurrencyScopeId is required"@)
    } else {
        Ok("session:"@ + scope)
    }
}

/// What the tools of a run are set up with.
#[derive(Debug)]
pub struct RuntimeSetup {
    pub session_id: String,
    pub execution_owner: String,
    /// The scope in which tools are called side by side.
    pub concurrency_scope: String,
    pub network: NetworkAccess,
}

/// Checks that a run can be built, and gives what its tools are set up with: they may use the
/// public internet.
pub fn build_agent_runtime(
    session_id: &str,
    execution_owner: &str,
    concurrency_scope_id: &str,
) -> (result: Result<RuntimeSetup, String>)
    ensures
        agrees(
            result,
            |setup: RuntimeSetup|
                (
                    setup.session_id@,
                    setup.execution_owner@,
                    setup.concurrency_scope@,
                    setup.network,
                ),
            match concurrency_scope(session_id@, execution_owner@, concurrency_scope_id@) {
                Err(error) => Err(error),
                Ok(scope) => Ok(
                    (session_id@, execution_owner@, scope, NetworkAccess::PublicInternet),
                ),
            },
        ),
{
    if trim(session_id).is_empty() {
        return Err("sessionId is required".to_owned());
    }
    if trim(execution_owner).is_empty() {
        return Err("executionOwner is required".to_owned());
    }
    if trim(concurrency_scope_id).is_empty() {
        return Err("concurrencyScopeId is required".to_owned());
    }
    Ok(
        RuntimeSetup {
            session_id: session_id.to_owned(),
            execution_owner: execution_owner.to_owned(),
            concurrency_scope: concat2("session:", concurrency_scope_id),
            network: NetworkAccess::PublicInternet,
        },
    )
}

/// The directory that a session works in.
pub fn resolve_agent_runtime(
    session_id: &str,
    bound_cwd: &str,
    normalized_cwd: &Option<String>,
) -> (result: Result<String, String>)
    ensures
        agrees(
            result,
            |cwd: String| cwd@,
            if trimmed(session_id@).len() == 0 {
                Err("sessionId is required"@)
            } else {
                match optional_text(*normalized_cwd) {
                    Some(cwd) => Ok(cwd),
                    None => Err("working directory is not a directory: "@ + bound_cwd@),
                }
            },
        ),
{
    if trim(session_id).is_empty() {
        return Err("sessionId is required".to_owned());
    }
    match normalized_cwd {
        Some(cwd) => Ok(cwd.clone()),
        None => Err(concat2("working directory is not a directory: ", bound_cwd)),
    }
}

/// The steps of a start, one by one: what the run needs is found, leased and bound, what an earlier
/// run has left open is closed and the session restored, before the configuration is read; images
/// are imported, after the model was found to see them where there are any, before the run is
/// recorded; and only a recorded run, restored and taken over where it rewrites, is let go.
pub proof fn law_starts_take_these_steps(images: bool, rewrites: bool)
    ensures
        steps_left(StartStep::ResolveRuntime, images, rewrites) == seq![
            StartStep::ResolveRuntime,
            StartStep::FindExecutor,
            StartStep::Lease,
            StartStep::BindWriter,
            StartStep::RecoverToolCalls,
            StartStep::RestoreSession,
            StartStep::ReadConfig,
        ] + (if images {
            seq![StartStep::CheckVision]
        } else {
            seq![]
        }) + seq![
            StartStep::ImportImages,
            StartStep::PersistStarted,
            StartStep::RestoreStarted,
        ] + (if rewrites {
            seq![StartStep::StartLifecycle]
        } else {
            seq![]
        }) + seq![StartStep::Spawn],
{
    reveal_with_fuel(steps_left, 14);
}

/// A start that fails ends with its error, and the failure is recorded with the run where the
/// configuration could not be read or the run could not be taken over.
pub proof fn law_failed_starts_report_their_error(start: RunStart, error: String)
    ensures
        match start_decision(start, Err(error)) {
            StartView::Fail(told) => told == error@ && start.step != StartStep::ReadConfig
                && start.step != StartStep::StartLifecycle,
            StartView::FailAfterRecording(told) => told == error@ && (start.step
                == StartStep::ReadConfig || start.step == StartStep::StartLifecycle),
            _ => false,
        },
        start_decision(start, Ok(())) is Started <==> start.step == StartStep::Spawn,
{
}

/// A run is complete exactly with the answer that its last turn committed: the message of the
/// assistant for that turn, done, with just the text of the answer. A run that was finalized must
/// have an answer.
pub proof fn law_runs_complete_with_the_committed_answer(
    turn: Seq<char>,
    answer: Option<Seq<char>>,
    finalized: bool,
    assistant: Option<ProjectedChatMessage>,
    text: Seq<char>,
)
    ensures
        completed_answer(turn, answer, finalized, optional_message(assistant)) == Ok::<
            Seq<char>,
            Seq<char>,
        >(text) <==> {
            &&& answer is Some ==> text == answer->0
            &&& answer is None ==> !finalized && text == Seq::<char>::empty()
            &&& assistant matches Some(message) && {
                &&& message.turn_id@ == turn
                &&& message.id@ == "message:"@ + turn + ":assistant"@
                &&& message.content@ == text
                &&& message.status matches Some(status) && status@ == "done"@
            }
        },
{
    reveal_strlit("");
    assert(""@ =~= Seq::<char>::empty());
}

/// What is recorded of a run that failed or was interrupted: nothing more where its message is done
/// or failed already, else the error of a run that failed, and the text of one that was interrupted
/// where it said anything. A message of another status is not touched and refused.
pub proof fn law_a_message_is_recorded_once(
    assistant: Option<ProjectedChatMessage>,
    error: Seq<char>,
    content: Seq<char>,
)
    ensures
        ({
            let failed = failed_message(optional_message(assistant), error);
            let kept = interrupted_text(optional_message(assistant), content);
            match assistant {
                None => {
                    &&& failed == Ok::<RunMessageView, Seq<char>>(
                        RunMessageView::Record { content: error, status: "error"@ },
                    )
                    &&& content.len() > 0 ==> kept == Ok::<RunMessageView, Seq<char>>(
                        RunMessageView::Record { content, status: "error"@ },
                    )
                    &&& content.len() == 0 ==> kept == Ok::<RunMessageView, Seq<char>>(
                        RunMessageView::Nothing,
                    )
                },
                Some(message) => if message.status matches Some(status) && (status@ == "done"@
                    || status@ == "error"@) {
                    &&& failed == Ok::<RunMessageView, Seq<char>>(
                        RunMessageView::Recorded(message.content@),
                    )
                    &&& kept == failed
                } else {
                    failed is Err && kept is Err
                },
            }
        }),
{
}

/// The checkpoints of a query are recorded up to the first that belongs to another session.
pub proof fn law_checkpoints_belong_to_the_session(
    steps: Seq<Option<TurnCheckpoint>>,
    session: Seq<char>,
)
    ensures
        match checkpoint_error(steps, session) {
            None => forall|i: int|
                0 <= i < steps.len() ==> (#[trigger] steps[i] matches Some(checkpoint)
                    ==> checkpoint.session_id@ == session),
            Some((at, _)) => 0 <= at < steps.len() && (steps[at] matches Some(checkpoint)
                && checkpoint.session_id@ != session) && forall|i: int|
                0 <= i < at ==> (#[trigger] steps[i] matches Some(checkpoint)
                    ==> checkpoint.session_id@ == session),
        },
    decreases steps.len(),
{
    if steps.len() > 0 {
        let n = steps.len() - 1;
        let init = steps.subrange(0, n);
        law_checkpoints_belong_to_the_session(init, session);
        assert forall|i: int| 0 <= i < n implies #[trigger] init[i] == steps[i] by {}
        assert(forall|i: int| 0 <= i < n ==> #[trigger] steps[i] == init[i]);
    }
}

/// Whether a step has a checkpoint that was left for a reason.
pub open spec fn left_for(step: Option<TurnCheckpoint>, reason: Seq<char>) -> bool {
    step matches Some(checkpoint) && (checkpoint.done_reason matches Some(given) && given@ == reason)
}

/// A wait goes on from the last checkpoint that was left for its reason.
pub proof fn law_waits_go_on_from_the_last_checkpoint(
    steps: Seq<Option<TurnCheckpoint>>,
    reason: Seq<char>,
)
    ensures
        last_checkpoint(steps, reason) is None <==> forall|i: int|
            0 <= i < steps.len() ==> !left_for(#[trigger] steps[i], reason),
        last_checkpoint(steps, reason) is Some ==> exists|i: int|
            0 <= i < steps.len() && left_for(#[trigger] steps[i], reason) && steps[i]
                == last_checkpoint(steps, reason) && forall|k: int|
                i < k < steps.len() ==> !left_for(#[trigger] steps[k], reason),
    decreases steps.len(),
{
    if steps.len() > 0 {
        let n = steps.len() - 1;
        let init = steps.subrange(0, n);
        law_waits_go_on_from_the_last_checkpoint(init, reason);
        assert forall|i: int| 0 <= i < n implies #[trigger] init[i] == steps[i] by {}
        if !left_for(steps[n], reason) {
            if last_checkpoint(init, reason) is Some {
                let i = choose|i: int|
                    0 <= i < init.len() && left_for(#[trigger] init[i], reason) && init[i]
                        == last_checkpoint(init, reason) && forall|k: int|
                        i < k < init.len() ==> !left_for(#[trigger] init[k], reason);
                assert(init[i] == steps[i]);
                assert forall|k: int| i < k < steps.len() implies !left_for(
                    #[trigger] steps[k],
                    reason,
                ) by {
                    if k < n {
                        assert(init[k] == steps[k]);
                    }
                }
            } else {
                assert forall|i: int| 0 <= i < steps.len() implies !left_for(
                    #[trigger] steps[i],
                    reason,
                ) by {
                    if i < n {
                        assert(init[i] == steps[i]);
                    }
                }
            }
        } else {
            assert(left_for(steps[n], reason));
        }
    }
}

/// Whether a job is the one that is waited for.
pub open spec fn is_awaited(wait: AwaitedJob, known: Option<KnownJob>, session: Seq<char>) -> bool {
    known matches Some(job) && (job.session_id matches Some(given) && given@ == session)
        && job.job_kind@ == wait.job_kind@
}

/// Whether a job is the one that is waited for and has ended.
pub open spec fn is_over(wait: AwaitedJob, known: Option<KnownJob>, session: Seq<char>) -> bool {
    is_awaited(wait, known, session) && known->0.ended
}

/// A wait for jobs is over exactly when all of them are known as what they are waited for as and
/// have ended; it fails exactly where one of them is not known so.
pub proof fn law_waits_end_with_all_their_jobs(
    waits: Seq<AwaitedJob>,
    known: Seq<Option<KnownJob>>,
    session: Seq<char>,
)
    ensures
        jobs_ended(waits, known, session) is Ok <==> forall|i: int|
            0 <= i < waits.len() ==> is_awaited(#[trigger] waits[i], known[i], session),
        jobs_ended(waits, known, session) == Ok::<bool, Seq<char>>(true) <==> forall|i: int|
            0 <= i < waits.len() ==> is_over(#[trigger] waits[i], known[i], session),
    decreases waits.len(),
{
    if waits.len() > 0 {
        let n = waits.len() - 1;
        let init = waits.subrange(0, n);
        law_waits_end_with_all_their_jobs(init, known, session);
        assert forall|i: int| 0 <= i < n implies #[trigger] init[i] == waits[i] by {}
        assert(forall|i: int| 0 <= i < n ==> #[trigger] waits[i] == init[i]);
        if jobs_ended(waits, known, session) == Ok::<bool, Seq<char>>(true) {
            assert forall|i: int| 0 <= i < waits.len() implies is_over(
                #[trigger] waits[i],
                known[i],
                session,
            ) by {
                if i < n {
                    assert(is_over(init[i], known[i], session));
                }
            }
        }
        if forall|i: int| 0 <= i < waits.len() ==> is_over(#[trigger] waits[i], known[i], session) {
            assert forall|i: int| 0 <= i < init.len() implies is_over(
                #[trigger] init[i],
                known[i],
                session,
            ) by {
                assert(is_over(waits[i], known[i], session));
            }
            assert(is_over(waits[n], known[n], session));
        }
    }
}

/// A wait is ended by a cancellation before all else, by the wish for an answer next, and else by
/// what is waited for.
pub proof fn law_waits_are_ended_by_the_user_first(
    answer_now: bool,
    ended: Result<bool, Seq<char>>,
    turn: Seq<char>,
    message: Option<Seq<char>>,
)
    ensures
        job_wait_look(true, answer_now, ended) == Ok::<Option<RuntimeJobWaitWake>, Seq<char>>(
            Some(RuntimeJobWaitWake::Cancelled),
        ),
        job_wait_look(false, true, ended) == Ok::<Option<RuntimeJobWaitWake>, Seq<char>>(
            Some(RuntimeJobWaitWake::AnswerNow),
        ),
        ended is Err ==> job_wait_look(false, false, ended) == Err::<
            Option<RuntimeJobWaitWake>,
            Seq<char>,
        >(ended->Err_0),
        job_wait_look(false, false, Ok(true)) == Ok::<Option<RuntimeJobWaitWake>, Seq<char>>(
            Some(RuntimeJobWaitWake::JobsTerminal),
        ),
        job_wait_look(false, false, Ok(false)) == Ok::<Option<RuntimeJobWaitWake>, Seq<char>>(None),
        question_wait_look(true, answer_now, turn, message) == Some(QuestionWakeView::Cancelled),
        question_wait_look(false, true, turn, message) == Some(QuestionWakeView::AnswerNow),
        question_wait_look(false, false, turn, message) is Some <==> message is Some,
        message is Some ==> question_wait_look(false, false, turn, message) == Some(
            QuestionWakeView::Resume { turn, message: message->0 },
        ),
{
}

/// What is done at a safe point is about the turn of that point: its request, usage, call or result
/// is recorded under it.
pub proof fn law_safe_points_are_recorded_as_they_are(
    point: ToolSafePoint,
    session: Seq<char>,
    run: Seq<char>,
    action: SafePointAction,
)
    requires
        safe_point_action(point, session, run) == Ok::<SafePointView, Seq<char>>(action@),
    ensures
        match point {
            ToolSafePoint::ModelRequestStarted(request) => action matches
                SafePointAction::RecordRequest { agent_run_id, told } && agent_run_id@ == run && (
            told matches Some(update) ==> {
                &&& update.session_id@ == request.session_id@
                &&& update.turn_id@ == request.turn_id@
                &&& update.compaction
                &&& update.context_token_estimate == request.context_token_estimate
                &&& update.message is None
                &&& update.elapsed_ms == 0
                &&& update.initial_content@.len() == 0
            }),
            ToolSafePoint::ProviderUsage { turn_id: turn } => action matches
                SafePointAction::RecordUsage { session_id, turn_id, agent_run_id } && session_id@
                == session && turn_id@ == turn@ && agent_run_id@ == run,
            ToolSafePoint::DurableToolCall { turn_id: turn, .. } => action matches
                SafePointAction::RecordCall { session_id, turn_id, agent_run_id } && session_id@
                == session && turn_id@ == turn@ && agent_run_id@ == run,
            ToolSafePoint::DurableReceipt { turn_id: turn, .. } => action matches
                SafePointAction::RecordResult { session_id, turn_id, agent_run_id } && session_id@
                == session && turn_id@ == turn@ && agent_run_id@ == run,
            ToolSafePoint::CompletedTurn => action is Nothing,
        },
{
    reveal_strlit("");
}

/// A runtime is built exactly where session, owner and scope are all named, and calls of one scope
/// exclude each other under its name alone.
pub proof fn law_runtimes_are_scoped(
    session: Seq<char>,
    owner: Seq<char>,
    scope: Seq<char>,
    other: Seq<char>,
)
    ensures
        concurrency_scope(session, owner, scope) is Ok <==> !blank(session) && !blank(owner)
            && !blank(scope),
        concurrency_scope(session, owner, scope) is Ok && concurrency_scope(session, owner, other)
            is Ok && concurrency_scope(session, owner, scope) == concurrency_scope(
            session,
            owner,
            other,
        ) ==> scope == other,
{
    law_trimming_takes_off_the_whitespace_around(session);
    law_trimming_takes_off_the_whitespace_around(owner);
    law_trimming_takes_off_the_whitespace_around(scope);
    law_trimming_takes_off_the_whitespace_around(other);
    let a = "session:"@ + scope;
    let b = "session:"@ + other;
    if a == b {
        assert(a.subrange("session:"@.len() as int, a.len() as int) =~= scope);
        assert(b.subrange("session:"@.len() as int, b.len() as int) =~= other);
    }
}

/// A request to the model is told of before it ends only where it compacts the context: as one of its
/// session and turn that is compressing, has taken no time, and has said nothing.
pub proof fn law_compactions_are_told_of_when_they_start(
    request: StartedModelRequest,
    update: Option<ModelRequestUpdate>,
)
    requires
        optional_update(update) == told_request(request),
    ensures
        update is Some <==> request.compaction,
        update matches Some(told) ==> told.session_id@ == request.session_id@ && told.turn_id@
            == request.turn_id@ && told.compaction && told.context_token_estimate
            == request.context_token_estimate && told.message is None && told.process_state
            == ProcessState::Compressing && told.elapsed_ms == 0 && told.initial_content@.len() == 0,
{
    reveal_strlit("");
}

} // verus!
