//! How runs are cancelled: which run a request is about, what has to be closed first, and which
//! jobs end with it.

use crate::agent_runs::{
    first_with_id, law_runs_are_found_by_identity, none_with_id, on_its_way, project_agent_run,
    run_with_id, AgentRunSummary,
};
use crate::message_log::{
    copy_run, run_views, terminal_record_for, ProjectedAgentRun, RunView, TerminalRecordView,
};
use crate::observation_cas::agrees;
use crate::text::{
    blank, concat2, copy_optional, law_trimming_takes_off_the_whitespace_around,
    normalize_optional_string, normalized, optional_text, required, required_string, text_equals,
    trimmed,
};
use vstd::prelude::*;

verus! {

/// A request to cancel a run.
#[derive(Debug)]
pub struct AgentRunCancelRequest {
    pub agent_run_id: Option<String>,
    pub session_id: Option<String>,
    pub reason: Option<String>,
}

/// What a request to cancel is about.
#[derive(Debug)]
pub enum CancelTarget {
    Run(String),
    Session(String),
    Nothing,
}

pub enum TargetView {
    Run(Seq<char>),
    Session(Seq<char>),
    Nothing,
}

impl View for CancelTarget {
    type V = TargetView;

    open spec fn view(&self) -> TargetView {
        match self {
            CancelTarget::Run(id) => TargetView::Run(id@),
            CancelTarget::Session(id) => TargetView::Session(id@),
            CancelTarget::Nothing => TargetView::Nothing,
        }
    }
}

/// What a request to cancel is about: the run that it names, else the active run of the session
/// that it names.
pub fn active_agent_run_for_cancel(request: &AgentRunCancelRequest) -> (result: CancelTarget)
    ensures
        result@ == match (
            normalized(optional_text(request.agent_run_id)),
            normalized(optional_text(request.session_id)),
        ) {
            (Some(run), _) => TargetView::Run(run),
            (None, Some(session)) => TargetView::Session(session),
            (None, None) => TargetView::Nothing,
        },
{
    match normalize_optional_string(&request.agent_run_id) {
        Some(run) => CancelTarget::Run(run),
        None => match normalize_optional_string(&request.session_id) {
            Some(session) => CancelTarget::Session(session),
            None => CancelTarget::Nothing,
        },
    }
}

/// How a cancellation goes on.
#[derive(Debug)]
pub struct CancelOrder {
    pub reason: String,
    /// The session whose jobs end with the run.
    pub session_id: Option<String>,
    /// Whether the run is active here: it is told to end, and ends itself. Otherwise its calls of
    /// tools are closed and it is ended at once.
    pub active: bool,
}

pub struct OrderView {
    pub reason: Seq<char>,
    pub session: Option<Seq<char>>,
    pub active: bool,
}

impl View for CancelOrder {
    type V = OrderView;

    open spec fn view(&self) -> OrderView {
        OrderView {
            reason: self.reason@,
            session: optional_text(self.session_id),
            active: self.active,
        }
    }
}

/// Decides how a cancellation goes on, with the session of the run that is active for it, if any.
pub fn cancel_agent_run(
    request: &AgentRunCancelRequest,
    active_session: &Option<String>,
) -> (result: CancelOrder)
    ensures
        result@.reason == match normalized(optional_text(request.reason)) {
            Some(reason) => reason,
            None => "user_cancelled"@,
        },
        result@.session == normalized(
            match optional_text(*active_session) {
                Some(session) => Some(session),
                None => optional_text(request.session_id),
            },
        ),
        result@.active == (active_session is Some),
{
    let reason = match normalize_optional_string(&request.reason) {
        Some(reason) => reason,
        None => "user_cancelled".to_owned(),
    };
    let session_id = if active_session.is_some() {
        normalize_optional_string(active_session)
    } else {
        normalize_optional_string(&request.session_id)
    };
    CancelOrder { reason, session_id, active: active_session.is_some() }
}

/// What is left to do once a cancellation was answered.
#[derive(Debug)]
pub struct AfterCancel {
    /// Whether it is told that the run has ended.
    pub tell: bool,
    /// The session whose jobs are ended.
    pub children_of: Option<String>,
}

/// Decides what is left to do once a cancellation was answered.
pub fn after_cancel(order: &CancelOrder, cancelled: bool, ended: &Option<AgentRunSummary>) -> (result:
    Result<AfterCancel, String>)
    ensures
        if !cancelled {
            result matches Ok(after) && !after.tell && after.children_of is None
        } else if !order.active && ended is None {
            result matches Err(message) && message@
                == "cancelled agent run is missing its terminal summary"@
        } else {
            result matches Ok(after) && after.tell == !order.active && optional_text(
                after.children_of,
            ) == order@.session
        },
{
    if !cancelled {
        return Ok(AfterCancel { tell: false, children_of: None });
    }
    if !order.active && ended.is_none() {
        return Err("cancelled agent run is missing its terminal summary".to_owned());
    }
    Ok(
        AfterCancel {
            tell: !order.active,
            children_of: copy_optional(&order.session_id),
        },
    )
}

/// Whether a run has not ended, by its status.
pub open spec fn open_status(status: Seq<char>) -> bool {
    status == "running"@ || status == "stalled"@
}

/// Whether a run has not ended, by its status.
pub fn is_open(status: &str) -> (result: bool)
    ensures
        result == open_status(status@),
{
    text_equals(status, "running") || text_equals(status, "stalled")
}

/// The runs of a session that have not ended.
pub open spec fn open_runs(runs: Seq<RunView>, session: Seq<char>) -> Seq<RunView>
    decreases runs.len(),
{
    if runs.len() == 0 {
        Seq::empty()
    } else {
        let run = runs[runs.len() - 1];
        let before = open_runs(runs.subrange(0, runs.len() - 1), session);
        if run.session == session && open_status(run.status) {
            before.push(run)
        } else {
            before
        }
    }
}

/// The run whose calls of tools are closed before a cancellation: the one that is named, else the
/// only one of the session that has not ended. A run that has ended is left alone.
pub open spec fn closed_run(
    runs: Seq<RunView>,
    run_id: Option<Seq<char>>,
    session: Option<Seq<char>>,
) -> Result<Option<RunView>, Seq<char>> {
    match run_id {
        Some(id) => match required(id, "agentRunId"@) {
            Err(error) => Err(error),
            Ok(id) => match run_with_id(runs, id) {
                Some(run) if open_status(run.status) => Ok(Some(run)),
                _ => Ok(None),
            },
        },
        None => match normalized(session) {
            None => Ok(None),
            Some(session) => {
                let open = open_runs(runs, session);
                if open.len() > 1 {
                    Err("active AgentRun is ambiguous for Session cancellation"@)
                } else if open.len() == 1 {
                    Ok(Some(open[0]))
                } else {
                    Ok(None)
                }
            },
        },
    }
}

pub open spec fn optional_run(run: Option<ProjectedAgentRun>) -> Option<RunView> {
    match run {
        Some(run) => Some(run@),
        None => None,
    }
}

fn only_open_run(runs: &Vec<ProjectedAgentRun>, session: &str) -> (result: Result<
    Option<ProjectedAgentRun>,
    String,
>)
    ensures
        ({
            let open = open_runs(run_views(runs@), session@);
            match result {
                Ok(Some(run)) => open.len() == 1 && run@ == open[0],
                Ok(None) => open.len() == 0,
                Err(message) => open.len() > 1 && message@
                    == "active AgentRun is ambiguous for Session cancellation"@,
            }
        }),
{
    let ghost all = run_views(runs@);
    let mut found: Option<ProjectedAgentRun> = None;
    let mut count: usize = 0;
    let mut i: usize = 0;
    assert(all.subrange(0, 0) =~= Seq::empty());
    while i < runs.len()
        invariant
            i <= runs.len(),
            all == run_views(runs@),
            count <= i,
            count == open_runs(all.subrange(0, i as int), session@).len(),
            match found {
                Some(run) => count >= 1 && run@ == open_runs(
                    all.subrange(0, i as int),
                    session@,
                )[0],
                None => count == 0,
            },
        decreases runs.len() - i,
    {
        let ghost next = all.subrange(0, i + 1);
        assert(next.subrange(0, i as int) =~= all.subrange(0, i as int));
        assert(next[i as int] == runs@[i as int]@);
        if text_equals(runs[i].session_id.as_str(), session) && is_open(runs[i].status.as_str()) {
            if found.is_none() {
                found = Some(copy_run(&runs[i]));
            }
            count = count + 1;
        }
        i = i + 1;
    }
    assert(all.subrange(0, all.len() as int) =~= all);
    if count > 1 {
        Err("active AgentRun is ambiguous for Session cancellation".to_owned())
    } else {
        Ok(found)
    }
}

/// The run whose calls of tools are closed before a cancellation.
pub fn run_to_close(
    runs: &Vec<ProjectedAgentRun>,
    agent_run_id: &Option<String>,
    session_id: &Option<String>,
) -> (result: Result<Option<ProjectedAgentRun>, String>)
    ensures
        agrees(
            result,
            |run: Option<ProjectedAgentRun>| optional_run(run),
            closed_run(run_views(runs@), optional_text(*agent_run_id), optional_text(*session_id)),
        ),
{
    match agent_run_id {
        Some(id) => match required_string(id.as_str(), "agentRunId") {
            Err(error) => Err(error),
            Ok(id) => match project_agent_run(runs, id.as_str()) {
                Some(run) => if is_open(run.status.as_str()) {
                    Ok(Some(run))
                } else {
                    Ok(None)
                },
                None => Ok(None),
            },
        },
        None => match normalize_optional_string(session_id) {
            None => Ok(None),
            Some(session) => only_open_run(runs, session.as_str()),
        },
    }
}

proof fn lemma_open_runs(runs: Seq<RunView>, session: Seq<char>)
    ensures
        forall|k: int|
            0 <= k < open_runs(runs, session).len() ==> ({
                let run = #[trigger] open_runs(runs, session)[k];
                run.session == session && open_status(run.status) && runs.contains(run)
            }),
        forall|i: int|
            0 <= i < runs.len() && (#[trigger] runs[i]).session == session && open_status(
                runs[i].status,
            ) ==> open_runs(runs, session).contains(runs[i]),
    decreases runs.len(),
{
    if runs.len() > 0 {
        let n = runs.len() - 1;
        let init = runs.subrange(0, n);
        let before = open_runs(init, session);
        let after = open_runs(runs, session);
        lemma_open_runs(init, session);
        assert forall|k: int| 0 <= k < after.len() implies ({
            let run = #[trigger] after[k];
            run.session == session && open_status(run.status) && runs.contains(run)
        }) by {
            if k < before.len() {
                assert(after[k] == before[k]);
                let i = choose|i: int| 0 <= i < init.len() && init[i] == before[k];
                assert(runs[i] == before[k]);
            } else {
                assert(after[k] == runs[n]);
            }
        }
        assert forall|i: int|
            0 <= i < runs.len() && (#[trigger] runs[i]).session == session && open_status(
                runs[i].status,
            ) implies after.contains(runs[i]) by {
            if i < n {
                assert(init[i] == runs[i]);
                assert(before.contains(init[i]));
                let k = choose|k: int| 0 <= k < before.len() && before[k] == init[i];
                assert(after[k] == before[k]);
            } else {
                assert(after[before.len() as int] == runs[n]);
            }
        }
    }
}

/// A cancellation never touches a run that has ended, nor picks between several: what is closed
/// has not ended, and for a session it is the only run of it that has not.
pub proof fn law_only_open_runs_are_closed(
    runs: Seq<RunView>,
    run_id: Option<Seq<char>>,
    session: Option<Seq<char>>,
)
    ensures
        match closed_run(runs, run_id, session) {
            Ok(Some(run)) => open_status(run.status) && (run_id is None ==> normalized(session)
                == Some(run.session) && runs.contains(run) && forall|i: int|
                0 <= i < runs.len() && (#[trigger] runs[i]).session == run.session && open_status(
                    runs[i].status,
                ) ==> runs[i] == run),
            Ok(None) => run_id is None && normalized(session) is Some ==> forall|i: int|
                0 <= i < runs.len() && (#[trigger] runs[i]).session == normalized(session)->0
                    ==> !open_status(runs[i].status),
            Err(_) => run_id matches Some(id) ==> required(id, "agentRunId"@) is Err,
        },
{
    if run_id is None && normalized(session) is Some {
        let id = normalized(session)->0;
        lemma_open_runs(runs, id);
        let open = open_runs(runs, id);
        if open.len() == 1 {
            assert forall|i: int|
                0 <= i < runs.len() && (#[trigger] runs[i]).session == open[0].session
                    && open_status(runs[i].status) implies runs[i] == open[0] by {
                assert(open.contains(runs[i]));
            }
        } else if open.len() == 0 {
            assert forall|i: int|
                0 <= i < runs.len() && (#[trigger] runs[i]).session == id implies !open_status(
                runs[i].status,
            ) by {
                if open_status(runs[i].status) {
                    assert(open.contains(runs[i]));
                }
            }
        }
    }
}

pub const RECOVERED_BEFORE_TURN: &'static str = "Recovered incomplete ToolCall before new user turn";

/// The runs of a session that are recovered before a new turn: those that have not ended and have
/// calls of tools that were not completed. `incomplete` says of each run whether it has some.
pub open spec fn recovered_runs(
    runs: Seq<RunView>,
    incomplete: Seq<bool>,
    session: Seq<char>,
) -> Seq<int>
    decreases runs.len(),
{
    if runs.len() == 0 {
        Seq::empty()
    } else {
        let n = runs.len() - 1;
        let before = recovered_runs(runs.subrange(0, n), incomplete, session);
        if needs_recovery(runs[n], incomplete[n], session) {
            before.push(n)
        } else {
            before
        }
    }
}

/// The places of the runs that are recovered before a new turn.
pub fn recover_incomplete_tool_calls_before_new_turn(
    runs: &Vec<ProjectedAgentRun>,
    incomplete: &Vec<bool>,
    session_id: &str,
) -> (result: Vec<usize>)
    requires
        incomplete.len() == runs.len(),
    ensures
        Seq::new(result@.len(), |k: int| result@[k] as int) == recovered_runs(
            run_views(runs@),
            incomplete@,
            session_id@,
        ),
{
    let ghost all = run_views(runs@);
    let mut result: Vec<usize> = Vec::new();
    let mut i: usize = 0;
    assert(all.subrange(0, 0) =~= Seq::empty());
    assert(Seq::new(result@.len(), |k: int| result@[k] as int) =~= Seq::empty());
    while i < runs.len()
        invariant
            i <= runs.len(),
            incomplete.len() == runs.len(),
            all == run_views(runs@),
            Seq::new(result@.len(), |k: int| result@[k] as int) == recovered_runs(
                all.subrange(0, i as int),
                incomplete@,
                session_id@,
            ),
        decreases runs.len() - i,
    {
        let ghost before = Seq::new(result@.len(), |k: int| result@[k] as int);
        let ghost next = all.subrange(0, i + 1);
        assert(next.subrange(0, i as int) =~= all.subrange(0, i as int));
        assert(next[i as int] == runs@[i as int]@);
        if text_equals(runs[i].session_id.as_str(), session_id) && is_open(runs[i].status.as_str())
            && incomplete[i] {
            result.push(i);
            assert(Seq::new(result@.len(), |k: int| result@[k] as int) =~= before.push(i as int));
        }
        i = i + 1;
    }
    assert(all.subrange(0, all.len() as int) =~= all);
    result
}

/// Whether a run is recovered before a new turn of a session.
pub open spec fn needs_recovery(run: RunView, incomplete: bool, session: Seq<char>) -> bool {
    run.session == session && open_status(run.status) && incomplete
}

proof fn lemma_recovered_runs(runs: Seq<RunView>, incomplete: Seq<bool>, session: Seq<char>)
    ensures
        forall|k: int|
            0 <= k < recovered_runs(runs, incomplete, session).len() ==> 0 <= (
            #[trigger] recovered_runs(runs, incomplete, session)[k]) < runs.len()
                && needs_recovery(
                runs[recovered_runs(runs, incomplete, session)[k]],
                incomplete[recovered_runs(runs, incomplete, session)[k]],
                session,
            ),
        forall|i: int|
            0 <= i < runs.len() && needs_recovery(#[trigger] runs[i], incomplete[i], session)
                ==> recovered_runs(runs, incomplete, session).contains(i),
    decreases runs.len(),
{
    if runs.len() > 0 {
        let n = runs.len() - 1;
        let init = runs.subrange(0, n);
        let before = recovered_runs(init, incomplete, session);
        let after = recovered_runs(runs, incomplete, session);
        lemma_recovered_runs(init, incomplete, session);
        assert forall|k: int| 0 <= k < after.len() implies 0 <= (#[trigger] after[k]) < runs.len()
            && needs_recovery(runs[after[k]], incomplete[after[k]], session) by {
            if k < before.len() {
                assert(after[k] == before[k]);
                assert(init[before[k]] == runs[before[k]]);
            }
        }
        assert forall|i: int|
            0 <= i < runs.len() && needs_recovery(
                #[trigger] runs[i],
                incomplete[i],
                session,
            ) implies after.contains(i) by {
            if i < n {
                assert(init[i] == runs[i]);
                assert(before.contains(i));
                let k = choose|k: int| 0 <= k < before.len() && before[k] == i;
                assert(after[k] == i);
            } else {
                assert(after[before.len() as int] == n);
            }
        }
    }
}

/// Before a new turn exactly the runs of the session are recovered that have not ended and have
/// calls that were not completed; the others are left as they are. A run is failed only once its
/// calls are closed. Once each of the recovered runs is failed and its calls are closed, nothing is
/// left to recover: doing it again does nothing.
pub proof fn law_recovery_happens_once(
    runs: Seq<RunView>,
    incomplete: Seq<bool>,
    session: Seq<char>,
    later: Seq<RunView>,
    still_incomplete: Seq<bool>,
    open_call: Seq<char>,
)
    requires
        later.len() == runs.len(),
        forall|i: int|
            0 <= i < runs.len() && recovered_runs(runs, incomplete, session).contains(i)
                ==> #[trigger] later[i] == (RunView { status: "failed"@, ..runs[i] })
                && !still_incomplete[i],
        forall|i: int|
            0 <= i < runs.len() && !recovered_runs(runs, incomplete, session).contains(i)
                ==> #[trigger] later[i] == runs[i] && still_incomplete[i] == incomplete[i],
    ensures
        forall|i: int|
            0 <= i < runs.len() ==> (recovered_runs(runs, incomplete, session).contains(i)
                <==> needs_recovery(#[trigger] runs[i], incomplete[i], session)),
        recovered_runs(later, still_incomplete, session) == Seq::<int>::empty(),
        terminal_record_for("failed"@, Some(RECOVERED_BEFORE_TURN@), Some(open_call)) is Err,
        terminal_record_for("failed"@, Some(RECOVERED_BEFORE_TURN@), None) == Ok::<
            TerminalRecordView,
            Seq<char>,
        >(TerminalRecordView::Failed { message: RECOVERED_BEFORE_TURN@ }),
{
    let found = recovered_runs(runs, incomplete, session);
    lemma_recovered_runs(runs, incomplete, session);
    assert forall|i: int| 0 <= i < runs.len() implies (found.contains(i) == needs_recovery(
        #[trigger] runs[i],
        incomplete[i],
        session,
    )) by {
        if found.contains(i) {
            let k = choose|k: int| 0 <= k < found.len() && found[k] == i;
            assert(needs_recovery(runs[found[k]], incomplete[found[k]], session));
        }
    }
    let again = recovered_runs(later, still_incomplete, session);
    lemma_recovered_runs(later, still_incomplete, session);
    if again.len() > 0 {
        let i = again[0];
        assert(needs_recovery(later[i], still_incomplete[i], session));
        if !found.contains(i) {
            assert(later[i] == runs[i]);
            assert(needs_recovery(runs[i], incomplete[i], session));
        }
    }
    assert(again =~= Seq::<int>::empty());
    reveal_strlit("failed");
    reveal_strlit("succeeded");
    assert("failed"@.len() != "succeeded"@.len());
    reveal_strlit("Recovered incomplete ToolCall before new user turn");
    assert(trimmed(RECOVERED_BEFORE_TURN@) == RECOVERED_BEFORE_TURN@);
}

/// Checks that a run whose calls of tools are to be closed is one of the session.
pub fn close_incomplete_tool_calls_for_agent_run(
    run: &Option<ProjectedAgentRun>,
    session_id: &str,
    agent_run_id: &str,
) -> (result: Result<(), String>)
    ensures
        match run {
            None => result matches Err(message) && message@ == "AgentRun not found: "@
                + agent_run_id@,
            Some(run) => if run@.session == session_id@ {
                result is Ok
            } else {
                result matches Err(message) && message@ == "AgentRun sessionId mismatch: "@
                    + agent_run_id@
            },
        },
{
    match run {
        None => Err(concat2("AgentRun not found: ", agent_run_id)),
        Some(run) => if text_equals(run.session_id.as_str(), session_id) {
            Ok(())
        } else {
            Err(concat2("AgentRun sessionId mismatch: ", agent_run_id))
        },
    }
}

pub const CANCELLED_JOBS_LIMIT: usize = 1_024;

/// Which jobs are ended with a run.
#[derive(Debug)]
pub enum ChildCancellation {
    /// The job that the session itself is run by.
    Job { parent_session_id: String, job_id: String, reason: String },
    /// All jobs that the session has started, those that run too.
    Jobs { session_id: String, reason: String, limit: usize, running_too: bool },
}

/// Decides which jobs are ended with a run of a session, with the parent session and the job that
/// the session is bound to, if any.
pub fn schedule_child_job_cancellation(
    session_id: String,
    reason: String,
    binding: Option<(String, String)>,
) -> (result: ChildCancellation)
    ensures
        match binding {
            Some(bound) => result == (ChildCancellation::Job {
                parent_session_id: bound.0,
                job_id: bound.1,
                reason,
            }),
            None => result == (ChildCancellation::Jobs {
                session_id,
                reason,
                limit: CANCELLED_JOBS_LIMIT,
                running_too: true,
            }),
        },
{
    match binding {
        Some((parent_session_id, job_id)) => ChildCancellation::Job {
            parent_session_id,
            job_id,
            reason,
        },
        None => ChildCancellation::Jobs {
            session_id,
            reason,
            limit: CANCELLED_JOBS_LIMIT,
            running_too: true,
        },
    }
}

impl ChildCancellation {
    /// The session that the end of the jobs is told to.
    pub fn told_session(&self) -> (result: &str)
        ensures
            result@ == match self {
                ChildCancellation::Job { parent_session_id, job_id: _, reason: _ } =>
                    parent_session_id@,
                ChildCancellation::Jobs { session_id, reason: _, limit: _, running_too: _ } =>
                    session_id@,
            },
    {
        match self {
            ChildCancellation::Job { parent_session_id, job_id: _, reason: _ } =>
                parent_session_id.as_str(),
            ChildCancellation::Jobs { session_id, reason: _, limit: _, running_too: _ } =>
                session_id.as_str(),
        }
    }
}

/// Checks that a job that was ended is still known.
pub fn require_cancelled_job(known: bool, job_id: &str) -> (result: Result<(), String>)
    ensures
        if known {
            result is Ok
        } else {
            result matches Err(message) && message@ == "cancelled Agent runtime job missing: "@
                + job_id@
        },
{
    if known {
        Ok(())
    } else {
        Err(concat2("cancelled Agent runtime job missing: ", job_id))
    }
}

/// What becomes of a run when the process that owns it exits.
#[derive(Debug)]
pub enum OwnerExitDisposition {
    /// The run goes on.
    Keep,
    /// The run is interrupted.
    Interrupt { agent_run_id: String, session_id: String },
}

/// The run and the session of each run that is interrupted.
pub open spec fn interrupted(dispositions: Seq<OwnerExitDisposition>) -> Seq<(Seq<char>, Seq<char>)>
    decreases dispositions.len(),
{
    if dispositions.len() == 0 {
        Seq::empty()
    } else {
        let n = dispositions.len() - 1;
        let before = interrupted(dispositions.subrange(0, n));
        match dispositions[n] {
            OwnerExitDisposition::Keep => before,
            OwnerExitDisposition::Interrupt { agent_run_id, session_id } => before.push(
                (agent_run_id@, session_id@),
            ),
        }
    }
}

/// Whether requests cancel the runs given, because their owner has exited.
pub open spec fn cancels(
    requests: Seq<AgentRunCancelRequest>,
    runs: Seq<(Seq<char>, Seq<char>)>,
) -> bool {
    requests.len() == runs.len() && forall|i: int|
        0 <= i < runs.len() ==> optional_text((#[trigger] requests[i]).agent_run_id) == Some(
            runs[i].0,
        ) && optional_text(requests[i].session_id) == Some(runs[i].1) && optional_text(
            requests[i].reason,
        ) == Some("host_owner_exited"@)
}

/// The requests to cancel the runs that are interrupted by the exit of their owner.
pub fn interrupt_owner_agent_runs(dispositions: &Vec<OwnerExitDisposition>) -> (result: Vec<
    AgentRunCancelRequest,
>)
    ensures
        cancels(result@, interrupted(dispositions@)),
{
    let mut result: Vec<AgentRunCancelRequest> = Vec::new();
    let mut i: usize = 0;
    assert(dispositions@.subrange(0, 0) =~= Seq::empty());
    while i < dispositions.len()
        invariant
            i <= dispositions.len(),
            cancels(result@, interrupted(dispositions@.subrange(0, i as int))),
        decreases dispositions.len() - i,
    {
        let ghost next = dispositions@.subrange(0, i + 1);
        assert(next.subrange(0, i as int) =~= dispositions@.subrange(0, i as int));
        let ghost before = result@;
        match &dispositions[i] {
            OwnerExitDisposition::Keep => {},
            OwnerExitDisposition::Interrupt { agent_run_id, session_id } => {
                result.push(
                    AgentRunCancelRequest {
                        agent_run_id: Some(agent_run_id.clone()),
                        session_id: Some(session_id.clone()),
                        reason: Some("host_owner_exited".to_owned()),
                    },
                );
                assert forall|k: int| 0 <= k < before.len() implies (#[trigger] result@[k])
                    == before[k] by {}
            },
        }
        i = i + 1;
    }
    assert(dispositions@.subrange(0, dispositions@.len() as int) =~= dispositions@);
    result
}

/// Whether a run of a session is on its way.
pub open spec fn open_in(run: ProjectedAgentRun, session: Seq<char>) -> bool {
    run.session_id@ == session && on_its_way(run)
}

/// A run that is named is closed exactly where it is known and on its way. Where only a session is
/// named, its run that is on its way is closed, none where there is none, and the request is refused
/// where there are several.
pub proof fn law_the_run_that_is_on_its_way_is_closed(
    runs: Seq<ProjectedAgentRun>,
    run_id: Option<Seq<char>>,
    session: Option<Seq<char>>,
)
    ensures
        ({
            let closed = closed_run(run_views(runs), run_id, session);
            &&& run_id is Some && blank(run_id->0) ==> closed is Err
            &&& run_id is Some && !blank(run_id->0) ==> forall|at: int| #[trigger]
                first_with_id(runs, trimmed(run_id->0), at) ==> closed == Ok::<_, Seq<char>>(
                    if on_its_way(runs[at]) {
                        Some(runs[at]@)
                    } else {
                        None
                    },
                )
            &&& run_id is Some && !blank(run_id->0) && none_with_id(runs, trimmed(run_id->0))
                ==> closed == Ok::<Option<RunView>, Seq<char>>(None)
            &&& run_id is None && (session is None || blank(session->0)) ==> closed == Ok::<
                Option<RunView>,
                Seq<char>,
            >(None)
            &&& run_id is None && session is Some && !blank(session->0) ==> {
                let name = trimmed(session->0);
                &&& closed == Ok::<Option<RunView>, Seq<char>>(None) <==> forall|k: int|
                    0 <= k < runs.len() ==> !open_in(#[trigger] runs[k], name)
                &&& closed is Err <==> exists|i: int, j: int|
                    0 <= i < j < runs.len() && open_in(#[trigger] runs[i], name) && open_in(
                        #[trigger] runs[j],
                        name,
                    )
                &&& closed matches Ok(Some(run)) ==> exists|k: int|
                    0 <= k < runs.len() && open_in(#[trigger] runs[k], name) && run == runs[k]@
            }
        }),
{
    if run_id is Some {
        law_trimming_takes_off_the_whitespace_around(run_id->0);
        law_runs_are_found_by_identity(runs, trimmed(run_id->0));
    } else if session is Some {
        law_trimming_takes_off_the_whitespace_around(session->0);
        lemma_runs_on_their_way(runs, trimmed(session->0));
    }
}

proof fn lemma_runs_on_their_way(runs: Seq<ProjectedAgentRun>, session: Seq<char>)
    ensures
        open_runs(run_views(runs), session).len() == 0 <==> forall|k: int|
            0 <= k < runs.len() ==> !open_in(#[trigger] runs[k], session),
        open_runs(run_views(runs), session).len() > 1 <==> exists|i: int, j: int|
            0 <= i < j < runs.len() && open_in(#[trigger] runs[i], session) && open_in(
                #[trigger] runs[j],
                session,
            ),
        open_runs(run_views(runs), session).len() > 0 ==> exists|k: int|
            0 <= k < runs.len() && open_in(#[trigger] runs[k], session) && open_runs(
                run_views(runs),
                session,
            )[0] == runs[k]@,
    decreases runs.len(),
{
    let all = run_views(runs);
    if runs.len() > 0 {
        let n = runs.len() - 1;
        let init = runs.subrange(0, n);
        lemma_runs_on_their_way(init, session);
        assert(run_views(init) =~= all.subrange(0, n));
        assert(all[n] == runs[n]@);
        let before = open_runs(all.subrange(0, n), session);
        assert forall|k: int| 0 <= k < n implies #[trigger] init[k] == runs[k] by {}
        if before.len() > 0 {
            let k = choose|k: int|
                0 <= k < init.len() && open_in(#[trigger] init[k], session) && before[0]
                    == init[k]@;
            assert(init[k] == runs[k]);
            assert(open_in(runs[k], session));
            if open_in(runs[n], session) {
                assert(0 <= k < n < runs.len() && open_in(runs[k], session));
            }
        } else {
            assert forall|k: int| 0 <= k < n implies !open_in(#[trigger] runs[k], session) by {
                assert(init[k] == runs[k]);
            }
        }
        if before.len() > 1 {
            let (i, j) = choose|i: int, j: int|
                0 <= i < j < init.len() && open_in(#[trigger] init[i], session) && open_in(
                    #[trigger] init[j],
                    session,
                );
            assert(open_in(runs[i], session) && open_in(runs[j], session));
        }
        if exists|i: int, j: int|
            0 <= i < j < runs.len() && open_in(#[trigger] runs[i], session) && open_in(
                #[trigger] runs[j],
                session,
            ) {
            let (i, j) = choose|i: int, j: int|
                0 <= i < j < runs.len() && open_in(#[trigger] runs[i], session) && open_in(
                    #[trigger] runs[j],
                    session,
                );
            assert(init[i] == runs[i]);
            if j < n {
                assert(init[j] == runs[j]);
            }
        }
    }
}

/// Whether a request cancels a run because the host that owned it is gone.
pub open spec fn cancels_left_run(request: AgentRunCancelRequest, run: Seq<char>, session: Seq<char>) -> bool {
    &&& request.agent_run_id matches Some(given) && given@ == run
    &&& request.session_id matches Some(given) && given@ == session
    &&& request.reason matches Some(given) && given@ == "host_owner_exited"@
}

/// When the owner of runs is gone, each run that it leaves to be interrupted is cancelled by a
/// request of its own, and no other run is.
pub proof fn law_left_runs_are_cancelled(
    dispositions: Seq<OwnerExitDisposition>,
    requests: Seq<AgentRunCancelRequest>,
)
    requires
        cancels(requests, interrupted(dispositions)),
    ensures
        forall|i: int|
            0 <= i < dispositions.len() ==> (#[trigger] dispositions[i] matches
                OwnerExitDisposition::Interrupt { agent_run_id, session_id } ==> exists|k: int|
                0 <= k < requests.len() && cancels_left_run(
                    #[trigger] requests[k],
                    agent_run_id@,
                    session_id@,
                )),
        forall|k: int|
            0 <= k < requests.len() ==> exists|i: int|
                0 <= i < dispositions.len() && (#[trigger] dispositions[i] matches
                    OwnerExitDisposition::Interrupt { agent_run_id, session_id }
                    && cancels_left_run(#[trigger] requests[k], agent_run_id@, session_id@)),
{
    lemma_interrupted(dispositions);
    let runs = interrupted(dispositions);
    assert forall|i: int| 0 <= i < dispositions.len() implies (#[trigger] dispositions[i] matches
        OwnerExitDisposition::Interrupt { agent_run_id, session_id } ==> exists|k: int|
        0 <= k < requests.len() && cancels_left_run(
            #[trigger] requests[k],
            agent_run_id@,
            session_id@,
        )) by {
        if let OwnerExitDisposition::Interrupt { agent_run_id, session_id } = dispositions[i] {
            assert(runs.contains((agent_run_id@, session_id@)));
            let k = choose|k: int| 0 <= k < runs.len() && runs[k] == (agent_run_id@, session_id@);
            assert(cancels_left_run(requests[k], agent_run_id@, session_id@));
        }
    }
    assert forall|k: int| 0 <= k < requests.len() implies exists|i: int|
        0 <= i < dispositions.len() && (#[trigger] dispositions[i] matches
            OwnerExitDisposition::Interrupt { agent_run_id, session_id } && cancels_left_run(
            #[trigger] requests[k],
            agent_run_id@,
            session_id@,
        )) by {
        let i = choose|i: int|
            0 <= i < dispositions.len() && (#[trigger] dispositions[i] matches
                OwnerExitDisposition::Interrupt { agent_run_id, session_id } && (
            agent_run_id@,
            session_id@,
        ) == runs[k]);
        assert(dispositions[i] is Interrupt);
        assert(cancels_left_run(requests[k], runs[k].0, runs[k].1));
    }
}

proof fn lemma_interrupted(dispositions: Seq<OwnerExitDisposition>)
    ensures
        forall|i: int|
            0 <= i < dispositions.len() ==> (#[trigger] dispositions[i] matches
                OwnerExitDisposition::Interrupt { agent_run_id, session_id } ==> interrupted(
                dispositions,
            ).contains((agent_run_id@, session_id@))),
        forall|k: int|
            0 <= k < interrupted(dispositions).len() ==> exists|i: int|
                0 <= i < dispositions.len() && (#[trigger] dispositions[i] matches
                    OwnerExitDisposition::Interrupt { agent_run_id, session_id } && (
                agent_run_id@,
                session_id@,
            ) == #[trigger] interrupted(dispositions)[k]),
    decreases dispositions.len(),
{
    if dispositions.len() > 0 {
        let n = dispositions.len() - 1;
        let init = dispositions.subrange(0, n);
        lemma_interrupted(init);
        let before = interrupted(init);
        let all = interrupted(dispositions);
        assert forall|i: int| 0 <= i < dispositions.len() implies (#[trigger] dispositions[i] matches
            OwnerExitDisposition::Interrupt { agent_run_id, session_id } ==> all.contains(
            (agent_run_id@, session_id@),
        )) by {
            if let OwnerExitDisposition::Interrupt { agent_run_id, session_id } = dispositions[i] {
                let run = (agent_run_id@, session_id@);
                if i < n {
                    assert(init[i] == dispositions[i]);
                    let k = choose|k: int| 0 <= k < before.len() && before[k] == run;
                    assert(all[k] == run);
                } else {
                    assert(all[before.len() as int] == run);
                }
            }
        }
        assert forall|k: int| 0 <= k < all.len() implies exists|i: int|
            0 <= i < dispositions.len() && (#[trigger] dispositions[i] matches
                OwnerExitDisposition::Interrupt { agent_run_id, session_id } && (
            agent_run_id@,
            session_id@,
        ) == #[trigger] all[k]) by {
            if k < before.len() {
                assert(all[k] == before[k]);
                let i = choose|i: int|
                    0 <= i < init.len() && (#[trigger] init[i] matches
                        OwnerExitDisposition::Interrupt { agent_run_id, session_id } && (
                    agent_run_id@,
                    session_id@,
                ) == before[k]);
                assert(init[i] == dispositions[i]);
            } else {
                assert(dispositions[n] is Interrupt);
            }
        }
    }
}

} // verus!
