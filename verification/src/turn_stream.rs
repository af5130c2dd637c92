//! What a run does with the updates that its turns stream, how it goes on when a turn stops, and
//! how it is closed.

use crate::json::{field, text_field, Json, JsonView};
use crate::live_text::{event_type, is_live_text_payload};
use crate::model_provider::{retryable, session_prompt_loop_failure_retryable};
use crate::observation_cas::agrees;
use crate::run_lifecycle::{
    last_checkpoint, runtime_job_wait_checkpoint, wait_checkpoint_turn_id, AgentRunStop,
    QuestionWaitWake, QuestionWakeView, RuntimeJobWaitWake, StopView, TurnCheckpoint,
};
use crate::text::{concat2, optional_text, text_equals};
use vstd::prelude::*;

verus! {

/// An update that a turn streams.
#[derive(Debug)]
pub enum TurnUpdate {
    /// A failure that the turn itself tells.
    RuntimeError,
    /// A request to the model, and the text that it goes on from.
    ModelRequestStart,
    /// The end of the model's answer.
    ModelDone,
    /// An event that is recorded.
    RuntimeEvent,
    Other,
}

/// What is done next for an update.
#[derive(Clone, Copy, Debug, PartialEq, Eq, Structural)]
pub enum SinkStep {
    /// Nothing: the update is done.
    Idle,
    /// Begins the text of a request to the model.
    Begin,
    /// Writes the text that is not in the journal.
    Flush,
    /// Hands on the text that was written.
    EmitLive,
    /// Makes the session of an agent that was started.
    Materialize,
    /// Records the event.
    Commit,
    /// Makes the payload that is handed on.
    Project,
    /// Gathers the text of the payload.
    Push,
    /// Hands on the payload.
    Deliver,
}

/// What is done after text was handed on.
#[derive(Clone, Copy, Debug, PartialEq, Eq, Structural)]
pub enum AfterLive {
    Materialize,
    Deliver,
    End,
}

/// How a step went.
#[derive(Debug)]
pub enum SinkOutcome {
    Done,
    /// There is a payload.
    Payload(Json),
    /// There is no payload.
    NoPayload,
    Failed(String),
}

/// What was gathered from the updates of a run, and how far the present update is.
#[derive(Debug)]
pub struct StreamSink {
    /// The failure that ended the handling of updates.
    pub error: Option<String>,
    /// Whether the turns have told a failure themselves.
    pub streamed_runtime_error: bool,
    pub final_answer: Option<String>,
    pub step: SinkStep,
    pub then_step: AfterLive,
    pub recorded: bool,
}

pub struct SinkView {
    pub error: Option<Seq<char>>,
    pub told: bool,
    pub answer: Option<Seq<char>>,
    pub step: SinkStep,
    pub then_step: AfterLive,
    pub recorded: bool,
}

impl View for StreamSink {
    type V = SinkView;

    open spec fn view(&self) -> SinkView {
        SinkView {
            error: optional_text(self.error),
            told: self.streamed_runtime_error,
            answer: optional_text(self.final_answer),
            step: self.step,
            then_step: self.then_step,
            recorded: self.recorded,
        }
    }
}

/// The final answer that a payload holds.
pub open spec fn final_answer(payload: JsonView) -> Option<Seq<char>> {
    if event_type(payload) == Some("Final"@) {
        match field(field(payload, "event"@)->0, "payload"@) {
            Some(body) => text_field(body, "content"@),
            None => None,
        }
    } else {
        None
    }
}

/// The final answer that a payload holds.
pub fn final_answer_from_stream_payload(payload: &Json) -> (result: Option<String>)
    ensures
        optional_text(result) == final_answer(payload@),
{
    let event = match payload.get("event") {
        Some(event) => event,
        None => {
            return None;
        },
    };
    let last = match event.get_text("type") {
        Some(kind) => text_equals(kind.as_str(), "Final"),
        None => false,
    };
    if !last {
        return None;
    }
    match event.get("payload") {
        Some(body) => match body.get_text("content") {
            Some(content) => Some(content.clone()),
            None => None,
        },
        None => None,
    }
}

/// Whether a payload tells of a change of the text.
pub open spec fn tells_text(payload: JsonView) -> bool {
    event_type(payload) == Some("ModelTextDelta"@) || event_type(payload) == Some(
        "ModelTextReplace"@,
    )
}

/// The handling of an update begins; after a failure no update is handled.
pub open spec fn opened(sink: SinkView, update: TurnUpdate) -> SinkView {
    if sink.error is Some {
        SinkView { step: SinkStep::Idle, ..sink }
    } else {
        SinkView {
            told: sink.told || update is RuntimeError,
            recorded: update is RuntimeEvent,
            step: match update {
                TurnUpdate::ModelRequestStart => SinkStep::Begin,
                TurnUpdate::ModelDone => SinkStep::Flush,
                _ => SinkStep::Materialize,
            },
            then_step: AfterLive::Materialize,
            ..sink
        }
    }
}

/// The handling goes on with a payload: text is gathered, and before anything else is handed on
/// the text that was gathered is.
pub open spec fn routed(sink: SinkView, payload: JsonView) -> SinkView {
    SinkView {
        answer: match final_answer(payload) {
            Some(answer) => Some(answer),
            None => sink.answer,
        },
        step: if tells_text(payload) {
            SinkStep::Push
        } else {
            SinkStep::Flush
        },
        then_step: if tells_text(payload) {
            AfterLive::End
        } else {
            AfterLive::Deliver
        },
        ..sink
    }
}

/// The handling goes on after a step that went as given.
pub open spec fn advanced(sink: SinkView, outcome: SinkOutcome) -> SinkView {
    match outcome {
        SinkOutcome::Failed(error) => if sink.step is Idle {
            sink
        } else {
            SinkView { error: Some(error@), step: SinkStep::Idle, ..sink }
        },
        _ => match sink.step {
            SinkStep::Idle => sink,
            SinkStep::Begin => SinkView { step: SinkStep::EmitLive, ..sink },
            SinkStep::Flush => SinkView { step: SinkStep::EmitLive, ..sink },
            SinkStep::EmitLive => SinkView {
                step: match sink.then_step {
                    AfterLive::Materialize => SinkStep::Materialize,
                    AfterLive::Deliver => SinkStep::Deliver,
                    AfterLive::End => SinkStep::Idle,
                },
                ..sink
            },
            SinkStep::Materialize => SinkView {
                step: if sink.recorded {
                    SinkStep::Commit
                } else {
                    SinkStep::Project
                },
                ..sink
            },
            SinkStep::Commit => match outcome {
                SinkOutcome::Payload(payload) => routed(sink, payload@),
                _ => SinkView { step: SinkStep::Project, ..sink },
            },
            SinkStep::Project => match outcome {
                SinkOutcome::Payload(payload) => routed(sink, payload@),
                _ => SinkView { step: SinkStep::Idle, ..sink },
            },
            SinkStep::Push => SinkView { step: SinkStep::EmitLive, ..sink },
            SinkStep::Deliver => SinkView { step: SinkStep::Idle, ..sink },
        },
    }
}

impl StreamSink {
    pub fn new() -> (result: StreamSink)
        ensures
            result@ == (SinkView {
                error: None,
                told: false,
                answer: None,
                step: SinkStep::Idle,
                then_step: AfterLive::End,
                recorded: false,
            }),
    {
        StreamSink {
            error: None,
            streamed_runtime_error: false,
            final_answer: None,
            step: SinkStep::Idle,
            then_step: AfterLive::End,
            recorded: false,
        }
    }

    /// Begins to handle an update.
    pub fn open(&mut self, update: &TurnUpdate) -> (result: SinkStep)
        ensures
            final(self)@ == opened(old(self)@, *update),
            result == final(self)@.step,
    {
        if self.error.is_some() {
            self.step = SinkStep::Idle;
            return SinkStep::Idle;
        }
        self.recorded = false;
        self.then_step = AfterLive::Materialize;
        let step = match update {
            TurnUpdate::RuntimeError => {
                self.streamed_runtime_error = true;
                SinkStep::Materialize
            },
            TurnUpdate::ModelRequestStart => SinkStep::Begin,
            TurnUpdate::ModelDone => SinkStep::Flush,
            TurnUpdate::RuntimeEvent => {
                self.recorded = true;
                SinkStep::Materialize
            },
            TurnUpdate::Other => SinkStep::Materialize,
        };
        self.step = step;
        step
    }

    fn route(&mut self, payload: &Json)
        ensures
            final(self)@ == routed(old(self)@, payload@),
    {
        match final_answer_from_stream_payload(payload) {
            Some(answer) => {
                self.final_answer = Some(answer);
            },
            None => {},
        }
        if is_live_text_payload(payload) {
            self.step = SinkStep::Push;
            self.then_step = AfterLive::End;
        } else {
            self.step = SinkStep::Flush;
            self.then_step = AfterLive::Deliver;
        }
    }

    /// Goes on with the present update.
    pub fn advance(&mut self, outcome: SinkOutcome) -> (result: SinkStep)
        ensures
            final(self)@ == advanced(old(self)@, outcome),
            result == final(self)@.step,
    {
        match self.step {
            SinkStep::Idle => {
                return SinkStep::Idle;
            },
            _ => {},
        }
        match outcome {
            SinkOutcome::Failed(error) => {
                self.error = Some(error);
                self.step = SinkStep::Idle;
            },
            SinkOutcome::Payload(payload) => {
                match self.step {
                    SinkStep::Commit => {
                        self.route(&payload);
                    },
                    SinkStep::Project => {
                        self.route(&payload);
                    },
                    _ => {
                        self.pass();
                    },
                }
            },
            _ => {
                self.pass();
            },
        }
        self.step
    }

    /// Goes on after a step that gave no payload.
    fn pass(&mut self)
        ensures
            final(self)@ == advanced(old(self)@, SinkOutcome::Done),
    {
        self.step =
        match self.step {
            SinkStep::Idle => SinkStep::Idle,
            SinkStep::Begin => SinkStep::EmitLive,
            SinkStep::Flush => SinkStep::EmitLive,
            SinkStep::EmitLive => match self.then_step {
                AfterLive::Materialize => SinkStep::Materialize,
                AfterLive::Deliver => SinkStep::Deliver,
                AfterLive::End => SinkStep::Idle,
            },
            SinkStep::Materialize => if self.recorded {
                SinkStep::Commit
            } else {
                SinkStep::Project
            },
            SinkStep::Commit => SinkStep::Project,
            SinkStep::Project => SinkStep::Idle,
            SinkStep::Push => SinkStep::EmitLive,
            SinkStep::Deliver => SinkStep::Idle,
        };
    }

    /// Whether all updates of a query were handled.
    pub fn check(&self) -> (result: Result<(), String>)
        ensures
            match self@.error {
                None => result is Ok,
                Some(error) => result matches Err(message) && message@
                    == "persist stream item failed: "@ + error,
            },
    {
        match &self.error {
            None => Ok(()),
            Some(error) => Err(concat2("persist stream item failed: ", error.as_str())),
        }
    }
}

/// Whether a sink is at a step that handling an update leads to.
pub open spec fn reachable(sink: SinkView) -> bool {
    match sink.step {
        SinkStep::Push => sink.then_step == AfterLive::End,
        SinkStep::Begin => sink.then_step == AfterLive::Materialize,
        _ => true,
    }
}

/// How many steps are left for an update at most, the handling of a payload counted.
pub open spec fn update_rank(sink: SinkView) -> nat {
    match sink.step {
        SinkStep::Idle => 0,
        SinkStep::Deliver => 1,
        SinkStep::EmitLive => match sink.then_step {
            AfterLive::End => 1,
            AfterLive::Deliver => 2,
            AfterLive::Materialize => 7,
        },
        SinkStep::Push => 2,
        SinkStep::Flush => match sink.then_step {
            AfterLive::End => 2,
            AfterLive::Deliver => 3,
            AfterLive::Materialize => 8,
        },
        SinkStep::Begin => 8,
        SinkStep::Project => 4,
        SinkStep::Commit => 5,
        SinkStep::Materialize => 6,
    }
}

/// Every update is done after at most eight steps, whatever each step gives.
pub proof fn law_every_update_ends(sink: SinkView, update: TurnUpdate, outcome: SinkOutcome)
    requires
        reachable(sink),
    ensures
        reachable(opened(sink, update)),
        update_rank(opened(sink, update)) <= 8,
        reachable(advanced(sink, outcome)),
        sink.step !is Idle ==> update_rank(advanced(sink, outcome)) < update_rank(sink),
{
}

/// After a failure nothing more of the stream is handled, and the failure stays.
pub proof fn law_failures_end_the_stream(sink: SinkView, update: TurnUpdate, outcome: SinkOutcome)
    ensures
        sink.error is Some ==> opened(sink, update).step is Idle && opened(sink, update).error
            == sink.error && opened(sink, update).answer == sink.answer,
        sink.error is Some && sink.step is Idle ==> advanced(sink, outcome) == sink,
        outcome is Failed && sink.step !is Idle ==> advanced(sink, outcome).error is Some
            && advanced(sink, outcome).step is Idle,
{
}

/// A payload is handed on only once the text that was gathered before it was.
pub proof fn law_text_goes_first(sink: SinkView, outcome: SinkOutcome)
    requires
        sink.step !is Idle,
    ensures
        advanced(sink, outcome).step is Deliver ==> sink.step is EmitLive,
        advanced(sink, outcome).step is EmitLive && advanced(sink, outcome).then_step is Deliver
            && reachable(sink) ==> sink.step is Flush,
{
}

/// How a run goes on when a query has ended.
#[derive(Debug)]
pub enum LoopStep {
    /// The run has completed.
    Complete,
    /// The run was cancelled.
    Cancelled(String),
    /// The run waits for jobs in a turn, as its checkpoint says.
    AwaitJobs { turn_id: String, payload_json: String },
    /// The run waits in a turn for the answer to a question.
    AwaitAnswer { turn_id: String },
}

pub enum LoopView {
    Complete,
    Cancelled(Seq<char>),
    AwaitJobs { turn: Seq<char>, payload: Seq<char> },
    AwaitAnswer { turn: Seq<char> },
}

impl View for LoopStep {
    type V = LoopView;

    open spec fn view(&self) -> LoopView {
        match self {
            LoopStep::Complete => LoopView::Complete,
            LoopStep::Cancelled(reason) => LoopView::Cancelled(reason@),
            LoopStep::AwaitJobs { turn_id, payload_json } => LoopView::AwaitJobs {
                turn: turn_id@,
                payload: payload_json@,
            },
            LoopStep::AwaitAnswer { turn_id } => LoopView::AwaitAnswer { turn: turn_id@ },
        }
    }
}

/// How a run goes on when a query has stopped.
pub open spec fn loop_step(
    stop: StopView,
    stop_reason: Seq<char>,
    steps: Seq<Option<TurnCheckpoint>>,
) -> Result<LoopView, Seq<char>> {
    match stop {
        StopView::Finalized => Ok(LoopView::Complete),
        StopView::TerminalTool => Ok(LoopView::Complete),
        StopView::Cancelled(reason) => Ok(LoopView::Cancelled(reason)),
        StopView::RuntimeJobWait => match last_checkpoint(steps, "runtime_job"@) {
            Some(checkpoint) => Ok(
                LoopView::AwaitJobs {
                    turn: checkpoint.turn_id@,
                    payload: checkpoint.payload_json@,
                },
            ),
            None => Err("runtime_job_wait response missing runtime_job checkpoint"@),
        },
        StopView::QuestionWait => match last_checkpoint(steps, "question"@) {
            Some(checkpoint) => Ok(LoopView::AwaitAnswer { turn: checkpoint.turn_id@ }),
            None => Err(
                stop_reason + " response missing "@ + "question"@ + " checkpoint"@,
            ),
        },
    }
}

/// Decides how a run goes on when a query has stopped.
pub fn after_query(
    stop: &AgentRunStop,
    stop_reason: &str,
    steps: &Vec<Option<TurnCheckpoint>>,
) -> (result: Result<LoopStep, String>)
    ensures
        agrees(result, |step: LoopStep| step@, loop_step(stop@, stop_reason@, steps@)),
{
    match stop {
        AgentRunStop::Finalized => Ok(LoopStep::Complete),
        AgentRunStop::TerminalTool => Ok(LoopStep::Complete),
        AgentRunStop::Cancelled(reason) => Ok(LoopStep::Cancelled(reason.clone())),
        AgentRunStop::RuntimeJobWait => match runtime_job_wait_checkpoint(steps) {
            Ok((turn_id, payload_json)) => Ok(LoopStep::AwaitJobs { turn_id, payload_json }),
            Err(error) => Err(error),
        },
        AgentRunStop::QuestionWait => match wait_checkpoint_turn_id(steps, stop_reason, "question") {
            Ok(turn_id) => Ok(LoopStep::AwaitAnswer { turn_id }),
            Err(error) => Err(error),
        },
    }
}

/// What a run is resumed for.
#[derive(Debug)]
pub enum ResumeIntent {
    RuntimeJobsTerminal,
    AnswerNow,
    QuestionAnswered(String),
}

pub enum IntentView {
    RuntimeJobsTerminal,
    AnswerNow,
    QuestionAnswered(Seq<char>),
}

impl View for ResumeIntent {
    type V = IntentView;

    open spec fn view(&self) -> IntentView {
        match self {
            ResumeIntent::RuntimeJobsTerminal => IntentView::RuntimeJobsTerminal,
            ResumeIntent::AnswerNow => IntentView::AnswerNow,
            ResumeIntent::QuestionAnswered(message) => IntentView::QuestionAnswered(message@),
        }
    }
}

/// How a run goes on after it has waited.
#[derive(Debug)]
pub enum Resumption {
    Cancelled(String),
    /// The run is resumed from the turn that it waited in; the next turn has the identity given, or
    /// a new one.
    Resume { from_turn_id: String, next_turn_id: Option<String>, intent: ResumeIntent },
}

pub enum ResumptionView {
    Cancelled(Seq<char>),
    Resume { from: Seq<char>, next: Option<Seq<char>>, intent: IntentView },
}

impl View for Resumption {
    type V = ResumptionView;

    open spec fn view(&self) -> ResumptionView {
        match self {
            Resumption::Cancelled(reason) => ResumptionView::Cancelled(reason@),
            Resumption::Resume { from_turn_id, next_turn_id, intent } => ResumptionView::Resume {
                from: from_turn_id@,
                next: optional_text(*next_turn_id),
                intent: intent@,
            },
        }
    }
}

pub const AGENT_RUN_CANCELLED: &'static str = "agent_run_cancelled";

/// How a run goes on after it has waited for jobs in a turn.
pub open spec fn resumed_after_jobs(wake: RuntimeJobWaitWake, turn: Seq<char>) -> ResumptionView {
    match wake {
        RuntimeJobWaitWake::Cancelled => ResumptionView::Cancelled(AGENT_RUN_CANCELLED@),
        RuntimeJobWaitWake::JobsTerminal => ResumptionView::Resume {
            from: turn,
            next: None,
            intent: IntentView::RuntimeJobsTerminal,
        },
        RuntimeJobWaitWake::AnswerNow => ResumptionView::Resume {
            from: turn,
            next: None,
            intent: IntentView::AnswerNow,
        },
    }
}

/// Decides how a run goes on after it has waited for jobs.
pub fn after_job_wait(wake: RuntimeJobWaitWake, wait_turn_id: String) -> (result: Resumption)
    ensures
        result@ == resumed_after_jobs(wake, wait_turn_id@),
{
    match wake {
        RuntimeJobWaitWake::Cancelled => Resumption::Cancelled(AGENT_RUN_CANCELLED.to_owned()),
        RuntimeJobWaitWake::JobsTerminal => Resumption::Resume {
            from_turn_id: wait_turn_id,
            next_turn_id: None,
            intent: ResumeIntent::RuntimeJobsTerminal,
        },
        RuntimeJobWaitWake::AnswerNow => Resumption::Resume {
            from_turn_id: wait_turn_id,
            next_turn_id: None,
            intent: ResumeIntent::AnswerNow,
        },
    }
}

/// How a run goes on after it has waited in a turn for the answer to a question.
pub open spec fn resumed_after_question(wake: QuestionWakeView, turn: Seq<char>) -> ResumptionView {
    match wake {
        QuestionWakeView::Cancelled => ResumptionView::Cancelled(AGENT_RUN_CANCELLED@),
        QuestionWakeView::AnswerNow => ResumptionView::Resume {
            from: turn,
            next: None,
            intent: IntentView::AnswerNow,
        },
        QuestionWakeView::Resume { turn: next, message } => ResumptionView::Resume {
            from: turn,
            next: Some(next),
            intent: IntentView::QuestionAnswered(message),
        },
    }
}

/// Decides how a run goes on after it has waited for the answer to a question.
pub fn after_question_wait(wake: QuestionWaitWake, wait_turn_id: String) -> (result: Resumption)
    ensures
        result@ == resumed_after_question(wake@, wait_turn_id@),
{
    match wake {
        QuestionWaitWake::Cancelled => Resumption::Cancelled(AGENT_RUN_CANCELLED.to_owned()),
        QuestionWaitWake::AnswerNow => Resumption::Resume {
            from_turn_id: wait_turn_id,
            next_turn_id: None,
            intent: ResumeIntent::AnswerNow,
        },
        QuestionWaitWake::Resume { turn_id, message } => Resumption::Resume {
            from_turn_id: wait_turn_id,
            next_turn_id: Some(turn_id),
            intent: ResumeIntent::QuestionAnswered(message),
        },
    }
}

/// What a query says to the model.
#[derive(Debug)]
pub enum QueryMessage {
    User(String),
    /// What is said where a run goes on.
    Resume(ResumeIntent),
}

pub enum QueryMessageView {
    User(Seq<char>),
    Resume(IntentView),
}

impl View for QueryMessage {
    type V = QueryMessageView;

    open spec fn view(&self) -> QueryMessageView {
        match self {
            QueryMessage::User(text) => QueryMessageView::User(text@),
            QueryMessage::Resume(intent) => QueryMessageView::Resume(intent@),
        }
    }
}

/// A query of a run.
#[derive(Debug)]
pub struct QueryRequest {
    pub session_id: String,
    pub agent_run_id: String,
    pub initial_turn_id: String,
    pub message: QueryMessage,
    pub resume_from_turn_id: Option<String>,
    pub auto_continue_after_resume_wait: Option<bool>,
}

pub struct QueryView {
    pub session: Seq<char>,
    pub run: Seq<char>,
    pub turn: Seq<char>,
    pub message: QueryMessageView,
    pub resume_from: Option<Seq<char>>,
    pub auto_continue: Option<bool>,
}

impl View for QueryRequest {
    type V = QueryView;

    open spec fn view(&self) -> QueryView {
        QueryView {
            session: self.session_id@,
            run: self.agent_run_id@,
            turn: self.initial_turn_id@,
            message: self.message@,
            resume_from: optional_text(self.resume_from_turn_id),
            auto_continue: self.auto_continue_after_resume_wait,
        }
    }
}

/// The first query of a run: what the user said, in the turn of the run.
pub fn first_query(
    session_id: &str,
    agent_run_id: &str,
    turn_id: &str,
    message: String,
    resume_from_turn_id: Option<String>,
    auto_continue_after_resume_wait: Option<bool>,
) -> (result: QueryRequest)
    ensures
        result@ == (QueryView {
            session: session_id@,
            run: agent_run_id@,
            turn: turn_id@,
            message: QueryMessageView::User(message@),
            resume_from: optional_text(resume_from_turn_id),
            auto_continue: auto_continue_after_resume_wait,
        }),
{
    QueryRequest {
        session_id: session_id.to_owned(),
        agent_run_id: agent_run_id.to_owned(),
        initial_turn_id: turn_id.to_owned(),
        message: QueryMessage::User(message),
        resume_from_turn_id,
        auto_continue_after_resume_wait,
    }
}

/// The query with which a run goes on from the turn that it waited in.
pub fn resume_execute_agent_run_request(
    session_id: &str,
    agent_run_id: &str,
    wait_turn_id: &str,
    initial_turn_id: String,
    intent: ResumeIntent,
    auto_continue_after_resume_wait: Option<bool>,
) -> (result: QueryRequest)
    ensures
        result@ == (QueryView {
            session: session_id@,
            run: agent_run_id@,
            turn: initial_turn_id@,
            message: QueryMessageView::Resume(intent@),
            resume_from: Some(wait_turn_id@),
            auto_continue: auto_continue_after_resume_wait,
        }),
{
    QueryRequest {
        session_id: session_id.to_owned(),
        agent_run_id: agent_run_id.to_owned(),
        initial_turn_id,
        message: QueryMessage::Resume(intent),
        resume_from_turn_id: Some(wait_turn_id.to_owned()),
        auto_continue_after_resume_wait,
    }
}

pub const SESSION_PROMPT_LOOP_FAILED: &'static str = "session_prompt_loop_failed";

pub const SESSION_PROMPT_AGENT_RUN_FAILED: &'static str = "session_prompt_agent_run_failed";

/// What of a run has failed.
#[derive(Clone, Copy, Debug, PartialEq, Eq, Structural)]
pub enum RunFailure {
    /// Its queries; the run is closed as failed.
    Queries,
    /// The run itself, outside its queries or while it was closed.
    Run,
}

/// The reason that a failure is told with.
pub open spec fn failure_reason(failure: RunFailure) -> Seq<char> {
    match failure {
        RunFailure::Queries => "session_prompt_loop_failed"@,
        RunFailure::Run => "session_prompt_agent_run_failed"@,
    }
}

/// Whether what failed may be tried again: a run that itself failed never, its queries as the
/// error says.
pub open spec fn failure_retryable(failure: RunFailure, error: Seq<char>) -> bool {
    match failure {
        RunFailure::Queries => retryable(error),
        RunFailure::Run => false,
    }
}

/// What is told of a failure.
#[derive(Debug)]
pub struct FailureNotice {
    pub session_id: String,
    pub turn_id: String,
    pub message: String,
    pub reason: String,
    pub retryable: bool,
}

pub struct NoticeView {
    pub session: Seq<char>,
    pub turn: Seq<char>,
    pub message: Seq<char>,
    pub reason: Seq<char>,
    pub retryable: bool,
}

impl View for FailureNotice {
    type V = NoticeView;

    open spec fn view(&self) -> NoticeView {
        NoticeView {
            session: self.session_id@,
            turn: self.turn_id@,
            message: self.message@,
            reason: self.reason@,
            retryable: self.retryable,
        }
    }
}

/// What is told of a failure of a run.
pub fn failure_notice(failure: RunFailure, session_id: &str, turn_id: &str, error: &str) -> (result:
    FailureNotice)
    ensures
        result@ == (NoticeView {
            session: session_id@,
            turn: turn_id@,
            message: error@,
            reason: failure_reason(failure),
            retryable: failure_retryable(failure, error@),
        }),
{
    let (reason, retryable) = match failure {
        RunFailure::Queries => (
            SESSION_PROMPT_LOOP_FAILED,
            session_prompt_loop_failure_retryable(error),
        ),
        RunFailure::Run => (SESSION_PROMPT_AGENT_RUN_FAILED, false),
    };
    FailureNotice {
        session_id: session_id.to_owned(),
        turn_id: turn_id.to_owned(),
        message: error.to_owned(),
        reason: reason.to_owned(),
        retryable,
    }
}

/// How a run is closed.
#[derive(Debug)]
pub enum Closing {
    /// Its text is kept, and it is ended as cancelled.
    Interrupt,
    /// Its answer is recorded, and it is ended as succeeded.
    Complete,
    /// The failure is told where `tell` says so, its text is kept or the failure is its message,
    /// and it is ended as failed.
    Fail { error: String, tell: bool, reason: String, retryable: bool, keep_text: bool },
}

pub enum ClosingView {
    Interrupt,
    Complete,
    Fail { error: Seq<char>, tell: bool, reason: Seq<char>, retryable: bool, keep_text: bool },
}

impl View for Closing {
    type V = ClosingView;

    open spec fn view(&self) -> ClosingView {
        match self {
            Closing::Interrupt => ClosingView::Interrupt,
            Closing::Complete => ClosingView::Complete,
            Closing::Fail { error, tell, reason, retryable, keep_text } => ClosingView::Fail {
                error: error@,
                tell: *tell,
                reason: reason@,
                retryable: *retryable,
                keep_text: *keep_text,
            },
        }
    }
}

/// How the queries of a run have ended.
pub open spec fn ended_view(ended: Result<AgentRunStop, String>) -> Result<StopView, Seq<char>> {
    match ended {
        Ok(stop) => Ok(stop@),
        Err(error) => Err(error@),
    }
}

/// How a run is closed, with how its queries ended, whether there is a projection of its
/// completion, and what was streamed.
pub open spec fn closing(
    ended: Result<StopView, Seq<char>>,
    projected: bool,
    told: bool,
    content: Seq<char>,
) -> Result<ClosingView, Seq<char>> {
    match ended {
        Ok(StopView::Cancelled(_)) => Ok(ClosingView::Interrupt),
        Ok(StopView::RuntimeJobWait) => Err(
            "unexpected unresolved AgentRun stop: RuntimeJobWait"@,
        ),
        Ok(StopView::QuestionWait) => Err("unexpected unresolved AgentRun stop: QuestionWait"@),
        Ok(_) => if projected {
            Ok(ClosingView::Complete)
        } else {
            Err("completed agent turn is missing the Core completion projection"@)
        },
        Err(error) => Ok(
            ClosingView::Fail {
                error,
                tell: !told,
                reason: failure_reason(RunFailure::Queries),
                retryable: failure_retryable(RunFailure::Queries, error),
                keep_text: content.len() > 0,
            },
        ),
    }
}

/// Decides how a run is closed.
pub fn close_run(
    ended: Result<AgentRunStop, String>,
    projected: bool,
    streamed_runtime_error: bool,
    content: &str,
) -> (result: Result<Closing, String>)
    ensures
        agrees(
            result,
            |closing: Closing| closing@,
            closing(ended_view(ended), projected, streamed_runtime_error, content@),
        ),
{
    match ended {
        Ok(AgentRunStop::Cancelled(_)) => Ok(Closing::Interrupt),
        Ok(AgentRunStop::RuntimeJobWait) => Err(
            "unexpected unresolved AgentRun stop: RuntimeJobWait".to_owned(),
        ),
        Ok(AgentRunStop::QuestionWait) => Err(
            "unexpected unresolved AgentRun stop: QuestionWait".to_owned(),
        ),
        Ok(AgentRunStop::Finalized) => complete(projected),
        Ok(AgentRunStop::TerminalTool) => complete(projected),
        Err(error) => {
            let retryable = session_prompt_loop_failure_retryable(error.as_str());
            Ok(
                Closing::Fail {
                    error,
                    tell: !streamed_runtime_error,
                    reason: SESSION_PROMPT_LOOP_FAILED.to_owned(),
                    retryable,
                    keep_text: !content.is_empty(),
                },
            )
        },
    }
}

fn complete(projected: bool) -> (result: Result<Closing, String>)
    ensures
        if projected {
            result == Ok::<Closing, String>(Closing::Complete)
        } else {
            result matches Err(message) && message@
                == "completed agent turn is missing the Core completion projection"@
        },
{
    if projected {
        Ok(Closing::Complete)
    } else {
        Err("completed agent turn is missing the Core completion projection".to_owned())
    }
}

/// A run whose queries have ended is closed, unless the projection of its completion is missing:
/// what is cancelled is ended as cancelled, what fails as failed, and what completes as succeeded.
pub proof fn law_every_run_is_closed(
    ended: Result<StopView, Seq<char>>,
    stop_reason: Seq<char>,
    steps: Seq<Option<TurnCheckpoint>>,
    told: bool,
    content: Seq<char>,
)
    requires
        ended matches Ok(stop) ==> loop_step(stop, stop_reason, steps) matches Ok(step) && (step
            is Complete || step is Cancelled),
    ensures
        closing(ended, true, told, content) is Ok,
        match ended {
            Ok(StopView::Cancelled(_)) => closing(ended, true, told, content)->Ok_0
                is Interrupt,
            Ok(_) => closing(ended, true, told, content)->Ok_0 is Complete,
            Err(_) => closing(ended, true, told, content)->Ok_0 is Fail,
        },
{
}

/// The reason that a cancelled run is ended for.
pub fn interrupt_reason(asked: &Option<String>) -> (result: String)
    ensures
        result@ == match optional_text(*asked) {
            Some(reason) => reason,
            None => "user_interrupt"@,
        },
{
    match asked {
        Some(reason) => reason.clone(),
        None => "user_interrupt".to_owned(),
    }
}

/// Whether a run was ended as cancelled and can be shown so.
pub open spec fn interrupted(cancelled: bool, summarised: bool) -> Result<(), Seq<char>> {
    if !cancelled {
        Err("active AgentRun cancellation did not commit terminal"@)
    } else if !summarised {
        Err("cancelled AgentRun terminal summary is missing"@)
    } else {
        Ok(())
    }
}

/// Checks that a run was ended as cancelled.
pub fn check_interrupted(cancelled: bool, summarised: bool) -> (result: Result<(), String>)
    ensures
        agrees(result, |unit: ()| unit, interrupted(cancelled, summarised)),
{
    if !cancelled {
        Err("active AgentRun cancellation did not commit terminal".to_owned())
    } else if !summarised {
        Err("cancelled AgentRun terminal summary is missing".to_owned())
    } else {
        Ok(())
    }
}

/// The final answer of a stream is the content of the payload of an event of the type Final, and no
/// other payload has one.
pub proof fn law_final_answers_are_final_events(payload: JsonView, answer: Seq<char>)
    ensures
        final_answer(payload) == Some(answer) <==> (field(payload, "event"@) matches Some(event) && {
            &&& text_field(event, "type"@) == Some("Final"@)
            &&& field(event, "payload"@) matches Some(body) && text_field(body, "content"@) == Some(
                answer,
            )
        }),
{
}

/// Whether a payload tells of a change of the text that a model is writing.
pub open spec fn is_text_change(payload: JsonView) -> bool {
    field(payload, "event"@) matches Some(event) && (text_field(event, "type"@) == Some(
        "ModelTextDelta"@,
    ) || text_field(event, "type"@) == Some("ModelTextReplace"@))
}

/// What becomes of the payload of an update. A change of text is pushed and then shown. Any other
/// payload is delivered after the text that was pending was flushed and shown, and its final answer,
/// if it has one, is kept as the answer of the stream.
pub proof fn law_payloads_are_shown_in_order(sink: SinkView, payload: Json)
    requires
        sink.step is Commit || sink.step is Project,
    ensures
        ({
            let one = advanced(sink, SinkOutcome::Payload(payload));
            let two = advanced(one, SinkOutcome::Done);
            let three = advanced(two, SinkOutcome::Done);
            let four = advanced(three, SinkOutcome::Done);
            &&& one.error == sink.error && one.told == sink.told
            &&& final_answer(payload@) is Some ==> one.answer == final_answer(payload@)
            &&& final_answer(payload@) is None ==> one.answer == sink.answer
            &&& is_text_change(payload@) ==> one.step is Push && two.step is EmitLive && three.step
                is Idle
            &&& !is_text_change(payload@) ==> one.step is Flush && two.step is EmitLive
                && three.step is Deliver && four.step is Idle
        }),
{
}

/// How an update is taken up while nothing has failed: the start of a request begins a text and its
/// end flushes it, and what is shown then comes before the update itself; an event of the runtime is
/// committed, and any other update is projected, as is a committed event that has no payload; an
/// update without a payload ends there. That an error of the runtime was told is remembered.
pub proof fn law_updates_are_taken_up_by_kind(sink: SinkView, update: TurnUpdate)
    requires
        sink.error is None,
    ensures
        ({
            let one = opened(sink, update);
            let shown = advanced(advanced(one, SinkOutcome::Done), SinkOutcome::Done);
            let made = if update is ModelRequestStart || update is ModelDone {
                shown
            } else {
                one
            };
            let next = advanced(made, SinkOutcome::Done);
            &&& one.told == (sink.told || update is RuntimeError)
            &&& one.answer == sink.answer && one.error is None
            &&& update is ModelRequestStart ==> one.step is Begin
            &&& update is ModelDone ==> one.step is Flush
            &&& made.step is Materialize
            &&& update is RuntimeEvent ==> next.step is Commit && advanced(
                next,
                SinkOutcome::NoPayload,
            ).step is Project
            &&& update !is RuntimeEvent ==> next.step is Project && advanced(
                next,
                SinkOutcome::NoPayload,
            ).step is Idle
        }),
{
}

/// A wait is resumed from the turn in which it was begun: with the word that the jobs have ended or
/// that an answer is wanted, or with what the user answered, in the turn of the answer. A wait that
/// was cancelled is not resumed.
pub proof fn law_waits_are_resumed_where_they_began(
    jobs: RuntimeJobWaitWake,
    question: QuestionWaitWake,
    turn: Seq<char>,
    after_jobs: Resumption,
    after_question: Resumption,
)
    requires
        after_jobs@ == resumed_after_jobs(jobs, turn),
        after_question@ == resumed_after_question(question@, turn),
    ensures
        match jobs {
            RuntimeJobWaitWake::Cancelled => after_jobs matches Resumption::Cancelled(reason)
                && reason@ == "agent_run_cancelled"@,
            RuntimeJobWaitWake::JobsTerminal => after_jobs matches Resumption::Resume {
                from_turn_id,
                next_turn_id,
                intent,
            } && from_turn_id@ == turn && next_turn_id is None && intent is RuntimeJobsTerminal,
            RuntimeJobWaitWake::AnswerNow => after_jobs matches Resumption::Resume {
                from_turn_id,
                next_turn_id,
                intent,
            } && from_turn_id@ == turn && next_turn_id is None && intent is AnswerNow,
        },
        match question {
            QuestionWaitWake::Cancelled => after_question matches Resumption::Cancelled(reason)
                && reason@ == "agent_run_cancelled"@,
            QuestionWaitWake::AnswerNow => after_question matches Resumption::Resume {
                from_turn_id,
                next_turn_id,
                intent,
            } && from_turn_id@ == turn && next_turn_id is None && intent is AnswerNow,
            QuestionWaitWake::Resume { turn_id, message } => after_question matches
                Resumption::Resume { from_turn_id, next_turn_id, intent } && from_turn_id@ == turn
                && (next_turn_id matches Some(next) && next@ == turn_id@) && (intent matches
                ResumeIntent::QuestionAnswered(answer) && answer@ == message@),
        },
{
}

/// A query that stopped for a wait waits from its last checkpoint that was left for that wait, and
/// fails where there is none; one that was finalized or ended by a tool is complete, and one that was
/// cancelled is cancelled for its reason.
pub proof fn law_queries_go_on_as_they_stopped(
    stop: AgentRunStop,
    reason: Seq<char>,
    steps: Seq<Option<TurnCheckpoint>>,
    step: LoopStep,
)
    requires
        loop_step(stop@, reason, steps) == Ok::<LoopView, Seq<char>>(step@),
    ensures
        match stop {
            AgentRunStop::Finalized => step is Complete,
            AgentRunStop::TerminalTool => step is Complete,
            AgentRunStop::Cancelled(why) => step matches LoopStep::Cancelled(told) && told@ == why@,
            AgentRunStop::RuntimeJobWait => step matches LoopStep::AwaitJobs {
                turn_id,
                payload_json,
            } && (last_checkpoint(steps, "runtime_job"@) matches Some(checkpoint) && turn_id@
                == checkpoint.turn_id@ && payload_json@ == checkpoint.payload_json@),
            AgentRunStop::QuestionWait => step matches LoopStep::AwaitAnswer { turn_id } && (
            last_checkpoint(steps, "question"@) matches Some(checkpoint) && turn_id@
                == checkpoint.turn_id@),
        },
{
}

/// Why a run failed is told as it was, unless it was told already, and the text that it had written
/// is kept exactly where there is any; it may be tried again exactly where the failure says so.
pub proof fn law_failures_are_told_once(error: Seq<char>, told: bool, content: Seq<char>, made: Closing)
    requires
        closing(Err(error), true, told, content) == Ok::<ClosingView, Seq<char>>(made@),
    ensures
        made matches Closing::Fail { error: kept, tell, reason, retryable: again, keep_text } && {
            &&& kept@ == error
            &&& tell == !told
            &&& reason@ == "session_prompt_loop_failed"@
            &&& again == retryable(error)
            &&& keep_text <==> content.len() > 0
        },
{
}

/// A cancellation has happened exactly where it was committed and the run has its summary.
pub proof fn law_cancellations_are_committed(cancelled: bool, summarised: bool)
    ensures
        interrupted(cancelled, summarised) is Ok <==> cancelled && summarised,
{
}

/// Only a failure of the queries may be tried again, and exactly where its text says so; the reason
/// tells a failure of the queries from one of the run.
pub proof fn law_only_queries_are_tried_again(failure: RunFailure, error: Seq<char>)
    ensures
        failure == RunFailure::Run ==> !failure_retryable(failure, error),
        failure == RunFailure::Queries ==> failure_retryable(failure, error) == retryable(error),
        failure == RunFailure::Run ==> failure_reason(failure)
            == "session_prompt_agent_run_failed"@,
        failure == RunFailure::Queries ==> failure_reason(failure)
            == "session_prompt_loop_failed"@,
{
}

} // verus!
