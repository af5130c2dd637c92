//! An agent run from its first query to its end: what is done in which order, and how the run goes
//! on after each step.

use crate::run_lifecycle::{
    last_checkpoint, AgentRunStop, QuestionWaitWake, RuntimeJobWaitWake, StopView, TurnCheckpoint,
};
use crate::text::{concat2, optional_text};
use crate::turn_stream::{
    after_job_wait, after_query, after_question_wait, check_interrupted, close_run, closing,
    ended_view, failure_reason, failure_retryable, interrupted, loop_step, resumed_after_jobs,
    resumed_after_question, Closing, ClosingView, IntentView, LoopStep, LoopView, Resumption,
    ResumptionView, RunFailure,
};
use vstd::prelude::*;

verus! {

/// A step of a run.
#[derive(Clone, Copy, Debug, PartialEq, Eq, Structural)]
pub enum RunStep {
    /// Sets up what the queries are carried out with.
    Prepare,
    /// Asks the model, and handles the updates that it streams.
    Query,
    /// Writes the text of the query to its journal.
    Flush,
    /// Hands the text on.
    Emit,
    /// Records the checkpoints of the query.
    RecordCheckpoints,
    /// Projects the completion of the run.
    Project,
    /// Waits for jobs.
    AwaitJobs,
    /// Waits for the answer to a question.
    AwaitAnswer,
    /// Writes what is left of the text.
    LastFlush,
    /// Hands what is left of the text on.
    LastEmit,
    /// Tells that the run has failed.
    TellFailure,
    /// Closes the calls of tools that were not completed.
    CloseCalls,
    /// Keeps the text that was interrupted.
    KeepText,
    /// Asks why the run was cancelled.
    AskReason,
    /// Records the failure as the message of the run.
    RecordFailure,
    /// Records the answer of the run.
    RecordAnswer,
    /// Records that the run was cancelled.
    CancelRun,
    /// Records that the run has succeeded.
    FinishRun,
    /// Records that the run has failed.
    FailRun,
    /// Tells how the run has ended.
    TellEnd,
    /// Closes the journal of the text.
    Seal,
    /// There is nothing left to do.
    Done,
}

/// How a query has stopped.
#[derive(Debug)]
pub struct QueryStop {
    pub stop: AgentRunStop,
    pub reason: String,
    pub steps: Vec<Option<TurnCheckpoint>>,
    /// Why an update of the query was not handled.
    pub stream_error: Option<String>,
}

pub struct QueryStopView {
    pub stop: StopView,
    pub reason: Seq<char>,
    pub steps: Seq<Option<TurnCheckpoint>>,
    pub stream_error: Option<Seq<char>>,
}

impl View for QueryStop {
    type V = QueryStopView;

    open spec fn view(&self) -> QueryStopView {
        QueryStopView {
            stop: self.stop@,
            reason: self.reason@,
            steps: self.steps@,
            stream_error: optional_text(self.stream_error),
        }
    }
}

/// How a step went.
#[derive(Debug)]
pub enum RunOutcome {
    Done,
    Failed(String),
    /// The query has stopped.
    Stopped(QueryStop),
    JobsWoke(RuntimeJobWaitWake),
    AnswerWoke(QuestionWaitWake),
    /// All text was handed on: whether a failure was told meanwhile, and the text of the run.
    Settled { told: bool, content: String },
    /// Whether the run was ended as cancelled, and whether it can be shown so.
    Cancelled { cancelled: bool, summarised: bool },
}

/// How far a run is.
#[derive(Debug)]
pub struct AgentRun {
    pub step: RunStep,
    pub stopped: Option<QueryStop>,
    /// The turn that the run waits in.
    pub wait_turn_id: String,
    /// What the checkpoint of that turn says of the jobs.
    pub wait_payload: String,
    /// What the next query goes on from; nothing for the first.
    pub resumption: Option<Resumption>,
    /// How the queries have ended.
    pub ended: Option<Result<AgentRunStop, String>>,
    pub closing: Option<Closing>,
    /// The steps that close the run, and the place of the present one.
    pub plan: Vec<RunStep>,
    pub place: usize,
    pub result: Option<Result<(), String>>,
}

pub struct ProgressView {
    pub step: RunStep,
    pub stopped: Option<QueryStopView>,
    pub wait_turn: Seq<char>,
    pub wait_payload: Seq<char>,
    pub resumption: Option<ResumptionView>,
    pub ended: Option<Result<StopView, Seq<char>>>,
    pub closing: Option<ClosingView>,
    pub plan: Seq<RunStep>,
    pub place: nat,
    pub result: Option<Result<(), Seq<char>>>,
}

impl View for AgentRun {
    type V = ProgressView;

    open spec fn view(&self) -> ProgressView {
        ProgressView {
            step: self.step,
            stopped: match self.stopped {
                Some(stopped) => Some(stopped@),
                None => None,
            },
            wait_turn: self.wait_turn_id@,
            wait_payload: self.wait_payload@,
            resumption: match self.resumption {
                Some(resumption) => Some(resumption@),
                None => None,
            },
            ended: match self.ended {
                Some(ended) => Some(ended_view(ended)),
                None => None,
            },
            closing: match self.closing {
                Some(closing) => Some(closing@),
                None => None,
            },
            plan: self.plan@,
            place: self.place as nat,
            result: match self.result {
                Some(Ok(_)) => Some(Ok(())),
                Some(Err(error)) => Some(Err(error@)),
                None => None,
            },
        }
    }
}

/// The steps that close a run.
pub open spec fn closing_plan(closing: ClosingView) -> Seq<RunStep> {
    match closing {
        ClosingView::Interrupt => seq![
            RunStep::KeepText,
            RunStep::AskReason,
            RunStep::CloseCalls,
            RunStep::CancelRun,
            RunStep::TellEnd,
        ],
        ClosingView::Complete => seq![
            RunStep::RecordAnswer,
            RunStep::FinishRun,
            RunStep::TellEnd,
            RunStep::Seal,
        ],
        ClosingView::Fail { error, tell, reason, retryable, keep_text } => {
            let message = if keep_text {
                RunStep::KeepText
            } else {
                RunStep::RecordFailure
            };
            if tell {
                seq![
                    RunStep::TellFailure,
                    RunStep::CloseCalls,
                    message,
                    RunStep::FailRun,
                    RunStep::TellEnd,
                ]
            } else {
                seq![RunStep::CloseCalls, message, RunStep::FailRun, RunStep::TellEnd]
            }
        },
    }
}

/// The queries have ended, and what is left of the text is handed on.
pub open spec fn queries_ended(run: ProgressView, ended: Result<StopView, Seq<char>>) ->
    ProgressView {
    ProgressView { step: RunStep::LastFlush, stopped: None, ended: Some(ended), ..run }
}

/// The run is over.
pub open spec fn run_over(run: ProgressView, result: Result<(), Seq<char>>) -> ProgressView {
    ProgressView { step: RunStep::Done, result: Some(result), ..run }
}

/// How a run goes on once what its query has left is recorded.
pub open spec fn query_settled(run: ProgressView) -> ProgressView {
    match run.stopped {
        None => run,
        Some(stopped) => match loop_step(stopped.stop, stopped.reason, stopped.steps) {
            Err(error) => queries_ended(run, Err(error)),
            Ok(LoopView::Complete) => ProgressView { step: RunStep::Project, ..run },
            Ok(LoopView::Cancelled(reason)) => queries_ended(run, Ok(StopView::Cancelled(reason))),
            Ok(LoopView::AwaitJobs { turn, payload }) => ProgressView {
                step: RunStep::AwaitJobs,
                wait_turn: turn,
                wait_payload: payload,
                ..run
            },
            Ok(LoopView::AwaitAnswer { turn }) => ProgressView {
                step: RunStep::AwaitAnswer,
                wait_turn: turn,
                ..run
            },
        },
    }
}

/// How a run goes on after it has waited.
pub open spec fn run_resumed(run: ProgressView, resumption: ResumptionView) -> ProgressView {
    match resumption {
        ResumptionView::Cancelled(reason) => queries_ended(run, Ok(StopView::Cancelled(reason))),
        _ => ProgressView {
            step: RunStep::Query,
            stopped: None,
            resumption: Some(resumption),
            ..run
        },
    }
}

/// How a run begins to be closed.
pub open spec fn closing_begun(run: ProgressView, told: bool, content: Seq<char>) -> ProgressView {
    match run.ended {
        None => run,
        Some(ended) => match closing(ended, true, told, content) {
            Err(error) => run_over(ProgressView { ended: None, ..run }, Err(error)),
            Ok(closing) => ProgressView {
                step: closing_plan(closing)[0],
                ended: None,
                closing: Some(closing),
                plan: closing_plan(closing),
                place: 0,
                ..run
            },
        },
    }
}

/// The next step that closes a run.
pub open spec fn closing_next(run: ProgressView) -> ProgressView {
    if run.place + 1 < run.plan.len() {
        ProgressView { step: run.plan[run.place as int + 1], place: run.place + 1, ..run }
    } else {
        run_over(run, Ok(()))
    }
}

/// Whether a step comes before the queries of a run have ended.
pub open spec fn queries(step: RunStep) -> bool {
    step is Query || step is Flush || step is Emit || step is RecordCheckpoints || step is Project
        || step is AwaitJobs || step is AwaitAnswer
}

/// How a run goes on after a step that went as given. An outcome that the step cannot have changes
/// nothing.
pub open spec fn progressed(run: ProgressView, outcome: RunOutcome) -> ProgressView {
    match outcome {
        RunOutcome::Failed(error) => if run.step is Done {
            run
        } else if queries(run.step) {
            queries_ended(run, Err(error@))
        } else {
            run_over(run, Err(error@))
        },
        RunOutcome::Stopped(stopped) => if run.step is Query {
            ProgressView { step: RunStep::Flush, stopped: Some(stopped@), ..run }
        } else {
            run
        },
        RunOutcome::JobsWoke(wake) => if run.step is AwaitJobs {
            run_resumed(run, resumed_after_jobs(wake, run.wait_turn))
        } else {
            run
        },
        RunOutcome::AnswerWoke(wake) => if run.step is AwaitAnswer {
            run_resumed(run, resumed_after_question(wake@, run.wait_turn))
        } else {
            run
        },
        RunOutcome::Settled { told, content } => if run.step is LastEmit {
            closing_begun(run, told, content@)
        } else {
            run
        },
        RunOutcome::Cancelled { cancelled, summarised } => if run.step is CancelRun {
            match interrupted(cancelled, summarised) {
                Ok(_) => closing_next(run),
                Err(error) => run_over(run, Err(error)),
            }
        } else {
            run
        },
        RunOutcome::Done => match run.step {
            RunStep::Prepare => ProgressView { step: RunStep::Query, ..run },
            RunStep::Flush => ProgressView { step: RunStep::Emit, ..run },
            RunStep::Emit => match run.stopped {
                Some(stopped) => match stopped.stream_error {
                    Some(error) => queries_ended(
                        run,
                        Err("persist stream item failed: "@ + error),
                    ),
                    None => ProgressView { step: RunStep::RecordCheckpoints, ..run },
                },
                None => run,
            },
            RunStep::RecordCheckpoints => query_settled(run),
            RunStep::Project => match run.stopped {
                Some(stopped) => queries_ended(run, Ok(stopped.stop)),
                None => run,
            },
            RunStep::LastFlush => ProgressView { step: RunStep::LastEmit, ..run },
            RunStep::Query => run,
            RunStep::AwaitJobs => run,
            RunStep::AwaitAnswer => run,
            RunStep::LastEmit => run,
            RunStep::CancelRun => run,
            RunStep::Done => run,
            _ => closing_next(run),
        },
    }
}

fn plan_of(closing: &Closing) -> (result: Vec<RunStep>)
    ensures
        result@ == closing_plan(closing@),
{
    let mut plan: Vec<RunStep> = Vec::new();
    match closing {
        Closing::Interrupt => {
            plan.push(RunStep::KeepText);
            plan.push(RunStep::AskReason);
            plan.push(RunStep::CloseCalls);
            plan.push(RunStep::CancelRun);
        },
        Closing::Complete => {
            plan.push(RunStep::RecordAnswer);
            plan.push(RunStep::FinishRun);
            plan.push(RunStep::TellEnd);
            plan.push(RunStep::Seal);
            assert(plan@ =~= closing_plan(closing@));
            return plan;
        },
        Closing::Fail { error: _, tell, reason: _, retryable: _, keep_text } => {
            if *tell {
                plan.push(RunStep::TellFailure);
            }
            plan.push(RunStep::CloseCalls);
            if *keep_text {
                plan.push(RunStep::KeepText);
            } else {
                plan.push(RunStep::RecordFailure);
            }
            plan.push(RunStep::FailRun);
        },
    }
    plan.push(RunStep::TellEnd);
    assert(plan@ =~= closing_plan(closing@));
    plan
}

impl AgentRun {
    /// A run that is about to be set up.
    pub fn new() -> (result: AgentRun)
        ensures
            result@ == (ProgressView {
                step: RunStep::Prepare,
                stopped: None,
                wait_turn: ""@,
                wait_payload: ""@,
                resumption: None,
                ended: None,
                closing: None,
                plan: Seq::empty(),
                place: 0,
                result: None,
            }),
            result@.wf(),
    {
        let run = AgentRun {
            step: RunStep::Prepare,
            stopped: None,
            wait_turn_id: "".to_owned(),
            wait_payload: "".to_owned(),
            resumption: None,
            ended: None,
            closing: None,
            plan: Vec::new(),
            place: 0,
            result: None,
        };
        assert(run@.plan =~= Seq::empty());
        run
    }

    fn end_queries(&mut self, ended: Result<AgentRunStop, String>)
        ensures
            final(self)@ == queries_ended(old(self)@, ended_view(ended)),
    {
        self.step = RunStep::LastFlush;
        self.stopped = None;
        self.ended = Some(ended);
    }

    fn end(&mut self, result: Result<(), String>)
        ensures
            final(self)@ == run_over(
                old(self)@,
                match result {
                    Ok(_) => Ok(()),
                    Err(error) => Err(error@),
                },
            ),
    {
        self.step = RunStep::Done;
        self.result = Some(result);
    }

    fn settle_query(&mut self)
        ensures
            final(self)@ == query_settled(old(self)@),
    {
        let next = match &self.stopped {
            None => {
                return ;
            },
            Some(stopped) => after_query(&stopped.stop, stopped.reason.as_str(), &stopped.steps),
        };
        match next {
            Err(error) => {
                self.end_queries(Err(error));
            },
            Ok(LoopStep::Complete) => {
                self.step = RunStep::Project;
            },
            Ok(LoopStep::Cancelled(reason)) => {
                self.end_queries(Ok(AgentRunStop::Cancelled(reason)));
            },
            Ok(LoopStep::AwaitJobs { turn_id, payload_json }) => {
                self.step = RunStep::AwaitJobs;
                self.wait_turn_id = turn_id;
                self.wait_payload = payload_json;
            },
            Ok(LoopStep::AwaitAnswer { turn_id }) => {
                self.step = RunStep::AwaitAnswer;
                self.wait_turn_id = turn_id;
            },
        }
    }

    fn resume(&mut self, resumption: Resumption)
        ensures
            final(self)@ == run_resumed(old(self)@, resumption@),
    {
        match resumption {
            Resumption::Cancelled(reason) => {
                self.end_queries(Ok(AgentRunStop::Cancelled(reason)));
            },
            resumption => {
                self.step = RunStep::Query;
                self.stopped = None;
                self.resumption = Some(resumption);
            },
        }
    }

    fn begin_closing(&mut self, told: bool, content: &str)
        ensures
            final(self)@ == closing_begun(old(self)@, told, content@),
    {
        let ended = match self.ended.take() {
            Some(ended) => ended,
            None => {
                return ;
            },
        };
        match close_run(ended, true, told, content) {
            Err(error) => {
                self.end(Err(error));
            },
            Ok(closing) => {
                let plan = plan_of(&closing);
                self.step = plan[0];
                self.plan = plan;
                self.place = 0;
                self.closing = Some(closing);
            },
        }
    }

    fn close_on(&mut self)
        ensures
            final(self)@ == closing_next(old(self)@),
    {
        if self.place < self.plan.len() && self.place + 1 < self.plan.len() {
            self.place = self.place + 1;
            self.step = self.plan[self.place];
        } else {
            self.end(Ok(()));
        }
    }

    /// Goes on after a step.
    pub fn advance(&mut self, outcome: RunOutcome) -> (result: RunStep)
        ensures
            final(self)@ == progressed(old(self)@, outcome),
            result == final(self)@.step,
            old(self)@.wf() ==> final(self)@.wf(),
    {
        proof {
            law_runs_stay_sound(self@, outcome);
        }
        match outcome {
            RunOutcome::Failed(error) => match self.step {
                RunStep::Done => {},
                RunStep::Query => self.end_queries(Err(error)),
                RunStep::Flush => self.end_queries(Err(error)),
                RunStep::Emit => self.end_queries(Err(error)),
                RunStep::RecordCheckpoints => self.end_queries(Err(error)),
                RunStep::Project => self.end_queries(Err(error)),
                RunStep::AwaitJobs => self.end_queries(Err(error)),
                RunStep::AwaitAnswer => self.end_queries(Err(error)),
                _ => self.end(Err(error)),
            },
            RunOutcome::Stopped(stopped) => match self.step {
                RunStep::Query => {
                    self.step = RunStep::Flush;
                    self.stopped = Some(stopped);
                },
                _ => {},
            },
            RunOutcome::JobsWoke(wake) => match self.step {
                RunStep::AwaitJobs => {
                    let turn_id = self.wait_turn_id.clone();
                    self.resume(after_job_wait(wake, turn_id));
                },
                _ => {},
            },
            RunOutcome::AnswerWoke(wake) => match self.step {
                RunStep::AwaitAnswer => {
                    let turn_id = self.wait_turn_id.clone();
                    self.resume(after_question_wait(wake, turn_id));
                },
                _ => {},
            },
            RunOutcome::Settled { told, content } => match self.step {
                RunStep::LastEmit => self.begin_closing(told, content.as_str()),
                _ => {},
            },
            RunOutcome::Cancelled { cancelled, summarised } => match self.step {
                RunStep::CancelRun => match check_interrupted(cancelled, summarised) {
                    Ok(_) => self.close_on(),
                    Err(error) => self.end(Err(error)),
                },
                _ => {},
            },
            RunOutcome::Done => self.done(),
        }
        self.step
    }

    fn done(&mut self)
        ensures
            final(self)@ == progressed(old(self)@, RunOutcome::Done),
    {
        match self.step {
            RunStep::Prepare => {
                self.step = RunStep::Query;
            },
            RunStep::Flush => {
                self.step = RunStep::Emit;
            },
            RunStep::Emit => {
                let error = match &self.stopped {
                    Some(stopped) => match &stopped.stream_error {
                        Some(error) => concat2("persist stream item failed: ", error.as_str()),
                        None => {
                            self.step = RunStep::RecordCheckpoints;
                            return ;
                        },
                    },
                    None => {
                        return ;
                    },
                };
                self.end_queries(Err(error));
            },
            RunStep::RecordCheckpoints => self.settle_query(),
            RunStep::Project => match self.stopped.take() {
                Some(stopped) => self.end_queries(Ok(stopped.stop)),
                None => {},
            },
            RunStep::LastFlush => {
                self.step = RunStep::LastEmit;
            },
            RunStep::Query => {},
            RunStep::AwaitJobs => {},
            RunStep::AwaitAnswer => {},
            RunStep::LastEmit => {},
            RunStep::CancelRun => {},
            RunStep::Done => {},
            _ => self.close_on(),
        }
    }
}

impl ProgressView {
    /// Whether a run is where its steps can lead it.
    pub open spec fn wf(self) -> bool {
        &&& self.step is Flush || self.step is Emit || self.step is RecordCheckpoints
            || self.step is Project ==> self.stopped is Some
        &&& self.step is Project ==> loop_step(
            self.stopped->0.stop,
            self.stopped->0.reason,
            self.stopped->0.steps,
        ) == Ok::<LoopView, Seq<char>>(LoopView::Complete)
        &&& self.step is LastFlush || self.step is LastEmit ==> (self.ended matches Some(ended) && (
        ended matches Ok(stop) ==> stop !is RuntimeJobWait && stop !is QuestionWait))
        &&& self.step !is Prepare && !queries(self.step) && self.step !is LastFlush && self.step !is LastEmit && self.step
            !is Done ==> self.closing is Some && self.plan == closing_plan(self.closing->0)
            && self.place < self.plan.len() && self.step == self.plan[self.place as int]
        &&& self.step is Done <==> self.result is Some
    }
}

/// Whatever its steps come to, a run stays where its steps can lead it: it is closed only after
/// its queries have ended, by the steps that its end asks for, and it has a result exactly when
/// nothing is left to do.
pub proof fn law_runs_stay_sound(run: ProgressView, outcome: RunOutcome)
    ensures
        run.wf() ==> progressed(run, outcome).wf(),
{
    if run.wf() {
        match outcome {
            RunOutcome::Settled { told, content } => {
                if run.step is LastEmit {
                    let ended = run.ended->0;
                    match closing(ended, true, told, content@) {
                        Ok(closing) => {
                            lemma_plan_starts(closing);
                        },
                        Err(_) => {},
                    }
                }
            },
            _ => {},
        }
        if run.closing is Some {
            lemma_plan_steps(run.closing->0, run.place as int + 1);
        }
    }
}

proof fn lemma_plan_starts(closing: ClosingView)
    ensures
        closing_plan(closing).len() > 0,
        !queries(closing_plan(closing)[0]),
        closing_plan(closing)[0] !is LastFlush,
        closing_plan(closing)[0] !is LastEmit,
        closing_plan(closing)[0] !is Done,
{
}

proof fn lemma_plan_steps(closing: ClosingView, place: int)
    ensures
        0 <= place < closing_plan(closing).len() ==> !queries(closing_plan(closing)[place])
            && closing_plan(closing)[place] !is LastFlush && closing_plan(closing)[place]
            !is LastEmit && closing_plan(closing)[place] !is Done,
{
}

/// Whether a step records the end of a run.
pub open spec fn records_end(step: RunStep) -> bool {
    step is CancelRun || step is FinishRun || step is FailRun
}

/// A run that is closed is recorded as ended exactly once; the calls of tools of a run that was
/// interrupted or has failed are closed before that, its text or its message is recorded before
/// that, and that it has ended is told only after that.
pub proof fn law_runs_end_once(closing: ClosingView)
    ensures
        ({
            let plan = closing_plan(closing);
            &&& exists|i: int| 0 <= i < plan.len() && #[trigger] records_end(plan[i])
            &&& forall|i: int, j: int|
                0 <= i < plan.len() && 0 <= j < plan.len() && #[trigger] records_end(plan[i])
                    && #[trigger] records_end(plan[j]) ==> i == j
            &&& forall|i: int, j: int|
                #![trigger plan[i], records_end(plan[j])]
                0 <= i < plan.len() && 0 <= j < plan.len() && records_end(plan[j]) ==> match plan[i] {
                    RunStep::CloseCalls => i < j,
                    RunStep::KeepText => i < j,
                    RunStep::RecordFailure => i < j,
                    RunStep::RecordAnswer => i < j,
                    RunStep::TellEnd => j < i,
                    _ => true,
                }
            &&& closing !is Complete ==> plan.contains(RunStep::CloseCalls)
            &&& plan.contains(RunStep::TellEnd)
        }),
{
    let plan = closing_plan(closing);
    match closing {
        ClosingView::Interrupt => {
            assert(records_end(plan[3]));
            assert(plan[2] == RunStep::CloseCalls);
            assert(plan[4] == RunStep::TellEnd);
        },
        ClosingView::Complete => {
            assert(records_end(plan[1]));
            assert(plan[2] == RunStep::TellEnd);
        },
        ClosingView::Fail { error, tell, reason, retryable, keep_text } => {
            if tell {
                assert(records_end(plan[3]));
                assert(plan[1] == RunStep::CloseCalls);
                assert(plan[4] == RunStep::TellEnd);
            } else {
                assert(records_end(plan[2]));
                assert(plan[0] == RunStep::CloseCalls);
                assert(plan[3] == RunStep::TellEnd);
            }
        },
    }
}

/// The step that follows `step` where a run itself has failed, and whether `step` was done: the
/// failure is told, which is no matter where it cannot be; the calls of its tools are closed, the
/// failure is recorded as its message, and it is ended as failed, as far as each of these is done.
pub open spec fn abandoned_step(step: RunStep, done: bool) -> RunStep {
    match step {
        RunStep::TellFailure => RunStep::CloseCalls,
        RunStep::CloseCalls => if done {
            RunStep::RecordFailure
        } else {
            RunStep::Done
        },
        RunStep::RecordFailure => if done {
            RunStep::FailRun
        } else {
            RunStep::Done
        },
        _ => RunStep::Done,
    }
}

/// The step that follows `step` where a run itself has failed; the first is to tell the failure.
pub fn after_abandoned_step(step: RunStep, done: bool) -> (result: RunStep)
    ensures
        result == abandoned_step(step, done),
{
    match step {
        RunStep::TellFailure => RunStep::CloseCalls,
        RunStep::CloseCalls => if done {
            RunStep::RecordFailure
        } else {
            RunStep::Done
        },
        RunStep::RecordFailure => if done {
            RunStep::FailRun
        } else {
            RunStep::Done
        },
        _ => RunStep::Done,
    }
}

/// A run that itself has failed is ended as failed only after the calls of its tools are closed
/// and the failure is recorded, and whether the failure could be told changes nothing.
pub proof fn law_abandoned_runs_are_closed_first(told: bool, closed: bool, recorded: bool)
    ensures
        ({
            let second = abandoned_step(RunStep::TellFailure, told);
            let third = abandoned_step(second, closed);
            let last = abandoned_step(third, recorded);
            &&& second == RunStep::CloseCalls
            &&& third == RunStep::RecordFailure <==> closed
            &&& last == RunStep::FailRun <==> closed && recorded
            &&& abandoned_step(last, true) == RunStep::Done
        }),
{
}

/// A run that cannot be set up is over at once, with that failure, and is not closed by its own
/// steps.
pub proof fn law_unprepared_runs_are_over(run: ProgressView, error: String)
    requires
        run.wf(),
        run.step is Prepare,
    ensures
        ({
            let failed = progressed(run, RunOutcome::Failed(error));
            &&& failed.step is Done
            &&& failed.result == Some(Err::<(), Seq<char>>(error@))
            &&& failed.closing == run.closing
        }),
{
}

/// A failure before the queries have ended does not end the run at once: its text is handed on,
/// and it is closed as failed with that failure.
pub proof fn law_failures_are_closed(run: ProgressView, error: String, told: bool, content: String)
    requires
        run.wf(),
        queries(run.step),
    ensures
        ({
            let failed = progressed(run, RunOutcome::Failed(error));
            let emitted = progressed(failed, RunOutcome::Done);
            let closed = progressed(emitted, RunOutcome::Settled { told, content });
            &&& failed.step is LastFlush
            &&& emitted.step is LastEmit
            &&& closed.closing matches Some(ClosingView::Fail { error: told_error, reason, retryable, .. })
            &&& told_error == error@
            &&& reason == failure_reason(RunFailure::Queries)
            &&& retryable == failure_retryable(RunFailure::Queries, error@)
            &&& closed.plan.contains(RunStep::FailRun)
        }),
{
    let failed = progressed(run, RunOutcome::Failed(error));
    let emitted = progressed(failed, RunOutcome::Done);
    let closed = progressed(emitted, RunOutcome::Settled { told, content });
    if told {
        assert(closed.plan[2] == RunStep::FailRun);
    } else {
        assert(closed.plan[3] == RunStep::FailRun);
    }
}

/// A run after each of several steps was done.
pub open spec fn after_done(run: ProgressView, n: nat) -> ProgressView
    decreases n,
{
    if n == 0 {
        run
    } else {
        after_done(progressed(run, RunOutcome::Done), (n - 1) as nat)
    }
}

/// A query that stops is flushed, its text handed on and its checkpoints recorded, before it is
/// decided how the run goes on; what could not be streamed fails the run there.
pub proof fn law_queries_are_recorded_before_the_run_goes_on(run: ProgressView, stopped: QueryStop)
    requires
        run.step is Query,
    ensures
        ({
            let flush = progressed(run, RunOutcome::Stopped(stopped));
            let emit = after_done(flush, 1);
            let record = after_done(flush, 2);
            &&& flush.step is Flush && flush.stopped == Some(stopped@)
            &&& emit.step is Emit
            &&& stopped.stream_error matches Some(error) ==> record.step is LastFlush
                && record.ended == Some(
                Err::<StopView, Seq<char>>("persist stream item failed: "@ + error@),
            )
            &&& stopped.stream_error is None ==> record.step is RecordCheckpoints && record.stopped
                == Some(stopped@)
        }),
{
    reveal_with_fuel(after_done, 3);
}

/// Once its checkpoints are recorded, a query that is complete is projected and ends the queries
/// with its stop; one that was cancelled ends them for its reason; one that waits makes the run wait,
/// in its turn; and one whose checkpoint is missing fails.
pub proof fn law_recorded_queries_decide_the_run(run: ProgressView, stopped: QueryStop)
    requires
        run.step is RecordCheckpoints,
        run.stopped == Some(stopped@),
    ensures
        ({
            let next = progressed(run, RunOutcome::Done);
            match stopped.stop {
                AgentRunStop::Cancelled(reason) => next.step is LastFlush && next.ended == Some(
                    Ok::<StopView, Seq<char>>(StopView::Cancelled(reason@)),
                ),
                AgentRunStop::RuntimeJobWait => match last_checkpoint(
                    stopped.steps@,
                    "runtime_job"@,
                ) {
                    Some(checkpoint) => next.step is AwaitJobs && next.wait_turn
                        == checkpoint.turn_id@ && next.wait_payload == checkpoint.payload_json@,
                    None => next.step is LastFlush && next.ended matches Some(Err(_)),
                },
                AgentRunStop::QuestionWait => match last_checkpoint(stopped.steps@, "question"@) {
                    Some(checkpoint) => next.step is AwaitAnswer && next.wait_turn
                        == checkpoint.turn_id@,
                    None => next.step is LastFlush && next.ended matches Some(Err(_)),
                },
                _ => next.step is Project && progressed(next, RunOutcome::Done).step is LastFlush
                    && progressed(next, RunOutcome::Done).ended == Some(
                    Ok::<StopView, Seq<char>>(stopped.stop@),
                ),
            }
        }),
{
}

/// A run that waits asks again when it is woken, from the turn in which it began to wait, and ends
/// as cancelled when the wait is.
pub proof fn law_woken_runs_ask_again(
    run: ProgressView,
    jobs: RuntimeJobWaitWake,
    question: QuestionWaitWake,
)
    ensures
        run.step is AwaitJobs ==> ({
            let next = progressed(run, RunOutcome::JobsWoke(jobs));
            if jobs is Cancelled {
                next.step is LastFlush && next.ended == Some(
                    Ok::<StopView, Seq<char>>(StopView::Cancelled("agent_run_cancelled"@)),
                )
            } else {
                next.step is Query && next.stopped is None && (next.resumption matches Some(
                    ResumptionView::Resume { from, next: turn, intent },
                ) && from == run.wait_turn && turn is None && (intent is AnswerNow <==> jobs
                    is AnswerNow) && (intent is RuntimeJobsTerminal <==> jobs is JobsTerminal))
            }
        }),
        run.step is AwaitAnswer ==> ({
            let next = progressed(run, RunOutcome::AnswerWoke(question));
            match question {
                QuestionWaitWake::Cancelled => next.step is LastFlush && next.ended == Some(
                    Ok::<StopView, Seq<char>>(StopView::Cancelled("agent_run_cancelled"@)),
                ),
                QuestionWaitWake::AnswerNow => next.step is Query && (next.resumption matches Some(
                    ResumptionView::Resume { from, next: turn, intent },
                ) && from == run.wait_turn && turn is None && intent is AnswerNow),
                QuestionWaitWake::Resume { turn_id, message } => next.step is Query && (
                next.resumption matches Some(ResumptionView::Resume { from, next: turn, intent })
                    && from == run.wait_turn && turn == Some(turn_id@) && intent
                    == IntentView::QuestionAnswered(message@)),
            }
        }),
{
}

/// A run that ended well records its answer, is finished, tells its end and is sealed, in this
/// order, and is over without an error.
pub proof fn law_completed_runs_are_closed_in_order(
    run: ProgressView,
    stop: AgentRunStop,
    told: bool,
    content: String,
)
    requires
        run.step is LastFlush,
        run.ended == Some(Ok::<StopView, Seq<char>>(stop@)),
        stop is Finalized || stop is TerminalTool,
    ensures
        ({
            let settled = progressed(
                progressed(run, RunOutcome::Done),
                RunOutcome::Settled { told, content },
            );
            &&& progressed(run, RunOutcome::Done).step is LastEmit
            &&& settled.step is RecordAnswer
            &&& after_done(settled, 1).step is FinishRun
            &&& after_done(settled, 2).step is TellEnd
            &&& after_done(settled, 3).step is Seal
            &&& after_done(settled, 4).step is Done
            &&& after_done(settled, 4).result == Some(Ok::<(), Seq<char>>(()))
        }),
{
    reveal_with_fuel(after_done, 5);
}

/// A run that was cancelled keeps its text, learns why, closes its calls and records that it was
/// cancelled before it tells its end. Where the cancellation is not committed or has no summary the
/// run is over with that error.
pub proof fn law_cancelled_runs_are_closed_in_order(
    run: ProgressView,
    reason: Seq<char>,
    told: bool,
    content: String,
    cancelled: bool,
    summarised: bool,
)
    requires
        run.step is LastFlush,
        run.ended == Some(Ok::<StopView, Seq<char>>(StopView::Cancelled(reason))),
    ensures
        ({
            let settled = progressed(
                progressed(run, RunOutcome::Done),
                RunOutcome::Settled { told, content },
            );
            let asked = after_done(settled, 3);
            let after = progressed(asked, RunOutcome::Cancelled { cancelled, summarised });
            &&& settled.step is KeepText
            &&& after_done(settled, 1).step is AskReason
            &&& after_done(settled, 2).step is CloseCalls
            &&& asked.step is CancelRun
            &&& cancelled && summarised ==> after.step is TellEnd && after_done(after, 1).step is Done
                && after_done(after, 1).result == Some(Ok::<(), Seq<char>>(()))
            &&& !(cancelled && summarised) ==> after.step is Done && (after.result matches Some(Err(
                _,
            )))
        }),
{
    reveal_with_fuel(after_done, 4);
}

/// A run that failed tells why, unless that was told already, closes its calls, keeps the text that
/// it has or records the failure in its place, is recorded as failed, and tells its end.
pub proof fn law_failed_runs_are_closed_in_order(
    run: ProgressView,
    error: Seq<char>,
    told: bool,
    content: String,
)
    requires
        run.step is LastFlush,
        run.ended == Some(Err::<StopView, Seq<char>>(error)),
    ensures
        ({
            let settled = progressed(
                progressed(run, RunOutcome::Done),
                RunOutcome::Settled { told, content },
            );
            let closing = if told {
                settled
            } else {
                after_done(settled, 1)
            };
            &&& !told ==> settled.step is TellFailure
            &&& closing.step is CloseCalls
            &&& content@.len() > 0 ==> after_done(closing, 1).step is KeepText
            &&& content@.len() == 0 ==> after_done(closing, 1).step is RecordFailure
            &&& after_done(closing, 2).step is FailRun
            &&& after_done(closing, 3).step is TellEnd
            &&& after_done(closing, 4).step is Done
        }),
{
    reveal_with_fuel(after_done, 5);
}

/// A failure while a run is closed ends the run with that failure, and nothing happens to a run that
/// is over.
pub proof fn law_runs_that_are_over_stay_over(run: ProgressView, error: String, outcome: RunOutcome)
    ensures
        run.step is Done ==> progressed(run, outcome) == run,
        run.step !is Done && !queries(run.step) ==> progressed(run, RunOutcome::Failed(error)).step
            is Done && progressed(run, RunOutcome::Failed(error)).result == Some(
            Err::<(), Seq<char>>(error@),
        ),
{
}

} // verus!
