//! What is done at the start of the host for runs that an earlier one has left: those whose text
//! is still in a journal, and those that never ended.

use crate::agent_cancel::{is_open, open_status, AgentRunCancelRequest};
use crate::message_log::{
    run_views, MessageView, ProjectedAgentRun, ProjectedChatMessage, RunView,
};
use crate::observation_cas::agrees;
use crate::run_lifecycle::{optional_message, FAILED_MESSAGE_STATUS};
use crate::text::{concat2, concat3, first_chars, limited, optional_text, text_equals};
use vstd::prelude::*;

verus! {

pub const RECOVERED_REASON: &'static str = "runtime_server_recovered_interrupted";

/// The request to cancel a run that an earlier host has left.
pub fn recovery_cancellation(agent_run_id: &str, session_id: &str) -> (result:
    AgentRunCancelRequest)
    ensures
        optional_text(result.agent_run_id) == Some(agent_run_id@),
        optional_text(result.session_id) == Some(session_id@),
        optional_text(result.reason) == Some("runtime_server_recovered_interrupted"@),
{
    AgentRunCancelRequest {
        agent_run_id: Some(agent_run_id.to_owned()),
        session_id: Some(session_id.to_owned()),
        reason: Some(RECOVERED_REASON.to_owned()),
    }
}

/// A journal that was left, with the text that replaying it gives.
#[derive(Debug)]
pub struct RecoveredJournal {
    pub session_id: String,
    pub turn_id: String,
    pub agent_run_id: String,
    pub content: String,
}

/// What is done for a run whose journal was left, before the journal is closed.
#[derive(Debug)]
pub enum JournalRecovery {
    /// The run has ended and its message is recorded.
    Nothing,
    /// The run has its answer, and is ended as succeeded.
    Finish,
    /// The text is recorded as a message with a status, and the run is cancelled.
    RecordAndCancel { turn_id: String, content: String, status: String },
    /// The run is cancelled.
    Cancel,
}

pub enum RecoveryView {
    Nothing,
    Finish,
    RecordAndCancel { turn: Seq<char>, content: Seq<char>, status: Seq<char> },
    Cancel,
}

impl View for JournalRecovery {
    type V = RecoveryView;

    open spec fn view(&self) -> RecoveryView {
        match self {
            JournalRecovery::Nothing => RecoveryView::Nothing,
            JournalRecovery::Finish => RecoveryView::Finish,
            JournalRecovery::RecordAndCancel { turn_id, content, status } =>
                RecoveryView::RecordAndCancel {
                turn: turn_id@,
                content: content@,
                status: status@,
            },
            JournalRecovery::Cancel => RecoveryView::Cancel,
        }
    }
}

/// Whether a run has ended, by its status.
pub open spec fn ended_status(status: Seq<char>) -> bool {
    status == "cancelled"@ || status == "succeeded"@ || status == "failed"@
}

/// What is done for a run whose journal was left.
pub open spec fn journal_recovery(
    journal: RecoveredJournal,
    run: Option<RunView>,
    assistant: Option<MessageView>,
) -> Result<RecoveryView, Seq<char>> {
    match run {
        None => Err("live text journal agent run is missing: "@ + journal.agent_run_id@),
        Some(run) => if run.session != journal.session_id@ {
            Err("live text journal agent run identity mismatch: agentRunId="@
                + journal.agent_run_id@)
        } else if !open_status(run.status) && !ended_status(run.status) {
            Err(
                "live text journal agent run has unsupported status "@ + run.status + ": "@ + run.id,
            )
        } else {
            let active = open_status(run.status);
            match assistant {
                None => if !active {
                    Err(
                        "live text journal assistant message is missing for terminal AgentRun: "@
                            + run.turn,
                    )
                } else if journal.content@.len() > 0 {
                    Ok(
                        RecoveryView::RecordAndCancel {
                            turn: journal.turn_id@,
                            content: journal.content@,
                            status: "error"@,
                        },
                    )
                } else {
                    Ok(RecoveryView::Cancel)
                },
                Some(message) => match message.status {
                    None => Err("live text journal assistant has no status: "@ + run.turn),
                    Some(status) => if status == "done"@ {
                        if active {
                            Ok(RecoveryView::Finish)
                        } else {
                            Ok(RecoveryView::Nothing)
                        }
                    } else if status == "error"@ {
                        if active {
                            Ok(RecoveryView::Cancel)
                        } else {
                            Ok(RecoveryView::Nothing)
                        }
                    } else {
                        Err(
                            "live text journal assistant has unsupported status "@ + status + ": "@
                                + run.turn,
                        )
                    },
                },
            }
        },
    }
}

/// Decides what is done for a run whose journal was left.
pub fn recover_journal(
    journal: &RecoveredJournal,
    run: &Option<ProjectedAgentRun>,
    assistant: &Option<ProjectedChatMessage>,
) -> (result: Result<JournalRecovery, String>)
    ensures
        agrees(
            result,
            |recovery: JournalRecovery| recovery@,
            journal_recovery(
                *journal,
                crate::agent_cancel::optional_run(*run),
                optional_message(*assistant),
            ),
        ),
{
    let run = match run {
        Some(run) => run,
        None => {
            return Err(
                concat2(
                    "live text journal agent run is missing: ",
                    journal.agent_run_id.as_str(),
                ),
            );
        },
    };
    if !text_equals(run.session_id.as_str(), journal.session_id.as_str()) {
        return Err(
            concat2(
                "live text journal agent run identity mismatch: agentRunId=",
                journal.agent_run_id.as_str(),
            ),
        );
    }
    let status = run.status.as_str();
    let active = is_open(status);
    if !active && !text_equals(status, "cancelled") && !text_equals(status, "succeeded")
        && !text_equals(status, "failed") {
        let head = concat2("live text journal agent run has unsupported status ", status);
        return Err(concat3(head.as_str(), ": ", run.agent_run_id.as_str()));
    }
    match assistant {
        None => {
            if !active {
                return Err(
                    concat2(
                        "live text journal assistant message is missing for terminal AgentRun: ",
                        run.turn_id.as_str(),
                    ),
                );
            }
            if journal.content.as_str().is_empty() {
                return Ok(JournalRecovery::Cancel);
            }
            Ok(
                JournalRecovery::RecordAndCancel {
                    turn_id: journal.turn_id.clone(),
                    content: journal.content.clone(),
                    status: FAILED_MESSAGE_STATUS.to_owned(),
                },
            )
        },
        Some(message) => match &message.status {
            None => Err(
                concat2("live text journal assistant has no status: ", run.turn_id.as_str()),
            ),
            Some(status) => {
                if text_equals(status.as_str(), "done") {
                    if active {
                        Ok(JournalRecovery::Finish)
                    } else {
                        Ok(JournalRecovery::Nothing)
                    }
                } else if text_equals(status.as_str(), "error") {
                    if active {
                        Ok(JournalRecovery::Cancel)
                    } else {
                        Ok(JournalRecovery::Nothing)
                    }
                } else {
                    let head = concat2(
                        "live text journal assistant has unsupported status ",
                        status.as_str(),
                    );
                    Err(concat3(head.as_str(), ": ", run.turn_id.as_str()))
                }
            },
        },
    }
}

/// What a journal holds of a run that never recorded a message is not lost: it is recorded, and
/// the run does not stay open; and nothing is done twice for a run that has ended.
pub proof fn law_recovery_keeps_text(
    journal: RecoveredJournal,
    run: RunView,
    assistant: Option<MessageView>,
)
    requires
        run.session == journal.session_id@,
        open_status(run.status) || ended_status(run.status),
    ensures
        ({
            let recovery = journal_recovery(journal, Some(run), assistant);
            &&& open_status(run.status) && assistant is None && journal.content@.len() > 0
                ==> recovery == Ok::<RecoveryView, Seq<char>>(
                RecoveryView::RecordAndCancel {
                    turn: journal.turn_id@,
                    content: journal.content@,
                    status: "error"@,
                },
            )
            &&& open_status(run.status) && recovery is Ok ==> recovery->Ok_0 !is Nothing
            &&& ended_status(run.status) && recovery is Ok ==> recovery->Ok_0 is Nothing
        }),
{
    reveal_strlit("running");
    reveal_strlit("stalled");
    reveal_strlit("cancelled");
    reveal_strlit("succeeded");
    reveal_strlit("failed");
    assert("cancelled"@[0] == 'c' && "succeeded"@[0] == 's' && "failed"@[0] == 'f');
    assert("running"@[0] == 'r' && "stalled"@.len() == 7);
}

/// Checks that a run whose journal was left was cancelled.
pub fn check_journal_cancelled(cancelled: bool, agent_run_id: &str) -> (result: Result<(), String>)
    ensures
        if cancelled {
            result is Ok
        } else {
            result matches Err(message) && message@
                == "live text recovery did not cancel active agent run: "@ + agent_run_id@
        },
{
    if cancelled {
        Ok(())
    } else {
        Err(concat2("live text recovery did not cancel active agent run: ", agent_run_id))
    }
}

/// What is logged of a journal that could not be recovered; the others are recovered still.
pub fn isolated_journal_text(agent_run_id: &str, error: &str) -> (result: String)
    ensures
        result@ == "live_text_journal_isolated: code=live_text_recovery_failed agentRunId="@
            + agent_run_id@ + " error="@ + limited(error@, 1024),
{
    let head = concat2(
        "live_text_journal_isolated: code=live_text_recovery_failed agentRunId=",
        agent_run_id,
    );
    concat3(head.as_str(), " error=", first_chars(error, 1024).as_str())
}

/// What is logged of a journal that could not be read.
pub fn unreadable_journal_text(
    code: &str,
    path: &str,
    agent_run_id: &Option<String>,
    message: &str,
) -> (result: String)
    ensures
        result@ == "live_text_journal_isolated: code="@ + code@ + " path="@ + path@
            + " agentRunId="@ + (match optional_text(*agent_run_id) {
            Some(id) => id,
            None => "unknown"@,
        }) + " error="@ + message@,
{
    let id = match agent_run_id {
        Some(id) => id.as_str(),
        None => "unknown",
    };
    let head = concat2("live_text_journal_isolated: code=", code);
    let place = concat3(head.as_str(), " path=", path);
    let whose = concat3(place.as_str(), " agentRunId=", id);
    concat3(whose.as_str(), " error=", message)
}

/// What is done for a run that never ended.
#[derive(Clone, Copy, Debug, PartialEq, Eq, Structural)]
pub enum RunRecovery {
    /// The run has its answer, and is ended as succeeded.
    Finish,
    /// The run is cancelled.
    Cancel,
}

/// What is done for a run that never ended.
pub open spec fn run_recovery(run: RunView, assistant: Option<MessageView>) -> Result<
    RunRecovery,
    Seq<char>,
> {
    match assistant {
        None => Ok(RunRecovery::Cancel),
        Some(message) => match message.status {
            None => Err("active agent run assistant has no status: "@ + run.turn),
            Some(status) => if status == "done"@ {
                Ok(RunRecovery::Finish)
            } else if status == "error"@ {
                Ok(RunRecovery::Cancel)
            } else {
                Err("active agent run assistant has unsupported status "@ + status + ": "@ + run.turn)
            },
        },
    }
}

/// Decides what is done for a run that never ended; nothing for one that has.
pub fn recover_run(run: &ProjectedAgentRun, assistant: &Option<ProjectedChatMessage>) -> (result:
    Result<Option<RunRecovery>, String>)
    ensures
        if open_status(run@.status) {
            match run_recovery(run@, optional_message(*assistant)) {
                Ok(recovery) => result == Ok::<Option<RunRecovery>, String>(Some(recovery)),
                Err(error) => result matches Err(message) && message@ == error,
            }
        } else {
            result == Ok::<Option<RunRecovery>, String>(None)
        },
{
    if !is_open(run.status.as_str()) {
        return Ok(None);
    }
    match assistant {
        None => Ok(Some(RunRecovery::Cancel)),
        Some(message) => match &message.status {
            None => Err(concat2("active agent run assistant has no status: ", run.turn_id.as_str())),
            Some(status) => {
                if text_equals(status.as_str(), "done") {
                    Ok(Some(RunRecovery::Finish))
                } else if text_equals(status.as_str(), "error") {
                    Ok(Some(RunRecovery::Cancel))
                } else {
                    let head = concat2(
                        "active agent run assistant has unsupported status ",
                        status.as_str(),
                    );
                    Err(concat3(head.as_str(), ": ", run.turn_id.as_str()))
                }
            },
        },
    }
}

/// Checks that a run that never ended was cancelled.
pub fn check_run_cancelled(cancelled: bool, agent_run_id: &str) -> (result: Result<(), String>)
    ensures
        if cancelled {
            result is Ok
        } else {
            result matches Err(message) && message@
                == "runtime server recovery did not cancel active agent run: "@ + agent_run_id@
        },
{
    if cancelled {
        Ok(())
    } else {
        Err(concat2("runtime server recovery did not cancel active agent run: ", agent_run_id))
    }
}

/// What is done for the runs that never ended, in order, up to the first that cannot be recovered.
pub open spec fn runs_recovery(
    runs: Seq<RunView>,
    assistants: Seq<Option<MessageView>>,
) -> (Seq<(int, RunRecovery)>, Option<Seq<char>>)
    decreases runs.len(),
{
    if runs.len() == 0 {
        (Seq::empty(), None)
    } else {
        let n = runs.len() - 1;
        let before = runs_recovery(runs.subrange(0, n), assistants);
        if before.1 is Some || !open_status(runs[n].status) {
            before
        } else {
            match run_recovery(runs[n], assistants[n]) {
                Ok(recovery) => (before.0.push((n, recovery)), None),
                Err(error) => (before.0, Some(error)),
            }
        }
    }
}

pub open spec fn assistant_views(assistants: Seq<Option<ProjectedChatMessage>>) -> Seq<
    Option<MessageView>,
> {
    Seq::new(assistants.len(), |i: int| optional_message(assistants[i]))
}

pub open spec fn plan_views(plan: Seq<(usize, RunRecovery)>) -> Seq<(int, RunRecovery)> {
    Seq::new(plan.len(), |i: int| (plan[i].0 as int, plan[i].1))
}

proof fn lemma_recovery_stops(
    runs: Seq<RunView>,
    assistants: Seq<Option<MessageView>>,
    n: int,
)
    requires
        0 <= n <= runs.len(),
        runs_recovery(runs.subrange(0, n), assistants).1 is Some,
    ensures
        runs_recovery(runs, assistants) == runs_recovery(runs.subrange(0, n), assistants),
    decreases runs.len() - n,
{
    if n < runs.len() {
        let next = runs.subrange(0, n + 1);
        assert(next.subrange(0, n) =~= runs.subrange(0, n));
        lemma_recovery_stops(runs, assistants, n + 1);
    } else {
        assert(runs.subrange(0, n) =~= runs);
    }
}

/// Decides what is done for the runs that never ended: for each, in order, up to the first that
/// cannot be recovered, whose error ends the recovery.
pub fn recover_open_runs(
    runs: &Vec<ProjectedAgentRun>,
    assistants: &Vec<Option<ProjectedChatMessage>>,
) -> (result: (Vec<(usize, RunRecovery)>, Option<String>))
    requires
        assistants.len() == runs.len(),
    ensures
        ({
            let expected = runs_recovery(run_views(runs@), assistant_views(assistants@));
            plan_views(result.0@) == expected.0 && optional_text(result.1) == expected.1
        }),
{
    let ghost all = run_views(runs@);
    let ghost messages = assistant_views(assistants@);
    let mut plan: Vec<(usize, RunRecovery)> = Vec::new();
    let mut i: usize = 0;
    assert(all.subrange(0, 0) =~= Seq::empty());
    assert(plan_views(plan@) =~= Seq::empty());
    while i < runs.len()
        invariant
            i <= runs.len(),
            assistants.len() == runs.len(),
            all == run_views(runs@),
            messages == assistant_views(assistants@),
            runs_recovery(all.subrange(0, i as int), messages) == (
                plan_views(plan@),
                None::<Seq<char>>,
            ),
        decreases runs.len() - i,
    {
        let ghost before = plan_views(plan@);
        let ghost next = all.subrange(0, i + 1);
        assert(next.subrange(0, i as int) =~= all.subrange(0, i as int));
        assert(next[i as int] == runs@[i as int]@);
        assert(messages[i as int] == optional_message(assistants@[i as int]));
        match recover_run(&runs[i], &assistants[i]) {
            Ok(None) => {},
            Ok(Some(recovery)) => {
                plan.push((i, recovery));
                assert(plan_views(plan@) =~= before.push((i as int, recovery)));
            },
            Err(error) => {
                proof {
                    lemma_recovery_stops(all, messages, i + 1);
                }
                return (plan, Some(error));
            },
        }
        i = i + 1;
    }
    assert(all.subrange(0, all.len() as int) =~= all);
    (plan, None)
}

/// A recovery that meets no error ends every run that was still open.
pub proof fn law_no_run_stays_open(
    runs: Seq<RunView>,
    assistants: Seq<Option<MessageView>>,
    i: int,
)
    requires
        0 <= i < runs.len(),
        open_status(runs[i].status),
        runs_recovery(runs, assistants).1 is None,
    ensures
        exists|k: int|
            0 <= k < runs_recovery(runs, assistants).0.len() && (#[trigger] runs_recovery(
                runs,
                assistants,
            ).0[k]).0 == i,
    decreases runs.len(),
{
    let n = runs.len() - 1;
    let init = runs.subrange(0, n);
    let before = runs_recovery(init, assistants);
    let after = runs_recovery(runs, assistants);
    if i == n {
        assert(after.0[before.0.len() as int].0 == i);
    } else {
        assert(init[i] == runs[i]);
        law_no_run_stays_open(init, assistants, i);
        let k = choose|k: int| 0 <= k < before.0.len() && (#[trigger] before.0[k]).0 == i;
        assert(after.0[k] == before.0[k]);
    }
}

/// Whether a message has a status.
pub open spec fn message_is(message: Option<ProjectedChatMessage>, status: Seq<char>) -> bool {
    message matches Some(message) && (message.status matches Some(given) && given@ == status)
}

/// What becomes of a run whose text is still in a journal. A run that is on its way is finished
/// where its message is done and cancelled where it is not; the text of the journal becomes its
/// message where it has none yet. Nothing is done for a run that has ended with its message. Every
/// other state is refused.
pub proof fn law_journals_are_recovered_by_run_and_message(
    journal: RecoveredJournal,
    run: Option<ProjectedAgentRun>,
    assistant: Option<ProjectedChatMessage>,
    recovery: JournalRecovery,
)
    ensures
        ({
            let found = crate::agent_cancel::optional_run(run);
            let decided = journal_recovery(journal, found, optional_message(assistant));
            let known = run is Some && run->0.session_id@ == journal.session_id@;
            let on = known && (run->0.status@ == "running"@ || run->0.status@ == "stalled"@);
            let over = known && (run->0.status@ == "cancelled"@ || run->0.status@ == "succeeded"@
                || run->0.status@ == "failed"@);
            let said = message_is(assistant, "done"@) || message_is(assistant, "error"@);
            &&& decided is Ok <==> (on && (said || assistant is None)) || (over && said)
            &&& decided == Ok::<RecoveryView, Seq<char>>(recovery@) ==> {
                &&& recovery is Finish <==> on && message_is(assistant, "done"@)
                &&& recovery is Cancel <==> on && (message_is(assistant, "error"@) || (assistant
                    is None && journal.content@.len() == 0))
                &&& recovery is Nothing <==> over
                &&& recovery matches JournalRecovery::RecordAndCancel { turn_id, content, status }
                    ==> on && assistant is None && turn_id@ == journal.turn_id@ && content@
                    == journal.content@ && status@ == "error"@
            }
        }),
{
    lemma_recovery_names();
}

proof fn lemma_recovery_names()
    ensures
        "done"@ != "error"@,
        "running"@ != "cancelled"@ && "running"@ != "succeeded"@ && "running"@ != "failed"@,
        "stalled"@ != "cancelled"@ && "stalled"@ != "succeeded"@ && "stalled"@ != "failed"@,
{
    reveal_strlit("done");
    reveal_strlit("error");
    reveal_strlit("running");
    reveal_strlit("stalled");
    reveal_strlit("cancelled");
    reveal_strlit("succeeded");
    reveal_strlit("failed");
    assert("done"@[0] == 'd' && "error"@[0] == 'e');
    assert("running"@[0] == 'r' && "cancelled"@[0] == 'c' && "succeeded"@[0] == 's' && "failed"@[0]
        == 'f');
    assert("stalled"@[0] == 's' && "stalled"@[1] == 't' && "succeeded"@[1] == 'u');
}

/// The runs that an earlier host has left on their way are recovered in their order, each by its
/// own message: finished where that is done, cancelled where it is not or there is none. No run that
/// has ended is touched.
pub proof fn law_left_runs_are_recovered_by_their_message(
    runs: Seq<ProjectedAgentRun>,
    assistants: Seq<Option<ProjectedChatMessage>>,
)
    requires
        assistants.len() == runs.len(),
    ensures
        ({
            let decided = runs_recovery(run_views(runs), assistant_views(assistants));
            &&& forall|k: int|
                0 <= k < decided.0.len() ==> {
                    let at = (#[trigger] decided.0[k]).0;
                    &&& 0 <= at < runs.len()
                    &&& runs[at].status@ == "running"@ || runs[at].status@ == "stalled"@
                    &&& decided.0[k].1 is Finish <==> message_is(assistants[at], "done"@)
                    &&& decided.0[k].1 is Cancel <==> assistants[at] is None || message_is(
                        assistants[at],
                        "error"@,
                    )
                }
            &&& forall|k: int, l: int|
                0 <= k < l < decided.0.len() ==> (#[trigger] decided.0[k]).0 < (
                #[trigger] decided.0[l]).0
            &&& decided.1 is Some <==> exists|i: int|
                0 <= i < runs.len() && ((#[trigger] runs[i]).status@ == "running"@
                    || runs[i].status@ == "stalled"@) && assistants[i] is Some && !message_is(
                    assistants[i],
                    "done"@,
                ) && !message_is(assistants[i], "error"@)
        }),
    decreases runs.len(),
{
    lemma_recovery_names();
    let all = run_views(runs);
    let views = assistant_views(assistants);
    lemma_recovered_prefix(runs, assistants, runs.len() as int);
    assert(all.subrange(0, all.len() as int) =~= all);
}

proof fn lemma_recovered_prefix(
    runs: Seq<ProjectedAgentRun>,
    assistants: Seq<Option<ProjectedChatMessage>>,
    n: int,
)
    requires
        assistants.len() == runs.len(),
        0 <= n <= runs.len(),
    ensures
        ({
            let decided = runs_recovery(
                run_views(runs).subrange(0, n),
                assistant_views(assistants),
            );
            &&& forall|k: int|
                0 <= k < decided.0.len() ==> {
                    let at = (#[trigger] decided.0[k]).0;
                    &&& 0 <= at < n
                    &&& runs[at].status@ == "running"@ || runs[at].status@ == "stalled"@
                    &&& decided.0[k].1 is Finish <==> message_is(assistants[at], "done"@)
                    &&& decided.0[k].1 is Cancel <==> assistants[at] is None || message_is(
                        assistants[at],
                        "error"@,
                    )
                }
            &&& forall|k: int, l: int|
                0 <= k < l < decided.0.len() ==> (#[trigger] decided.0[k]).0 < (
                #[trigger] decided.0[l]).0
            &&& decided.1 is Some <==> exists|i: int|
                0 <= i < n && ((#[trigger] runs[i]).status@ == "running"@ || runs[i].status@
                    == "stalled"@) && assistants[i] is Some && !message_is(assistants[i], "done"@)
                    && !message_is(assistants[i], "error"@)
        }),
    decreases n,
{
    lemma_recovery_names();
    if n > 0 {
        let m = n - 1;
        lemma_recovered_prefix(runs, assistants, m);
        let all = run_views(runs);
        let views = assistant_views(assistants);
        assert(all.subrange(0, n).subrange(0, m) =~= all.subrange(0, m));
        assert(all.subrange(0, n)[m] == runs[m]@);
        assert(views[m] == optional_message(assistants[m]));
        let before = runs_recovery(all.subrange(0, m), views);
        let decided = runs_recovery(all.subrange(0, n), views);
        assert forall|k: int| 0 <= k < decided.0.len() implies ({
            let at = (#[trigger] decided.0[k]).0;
            &&& 0 <= at < n
            &&& runs[at].status@ == "running"@ || runs[at].status@ == "stalled"@
            &&& decided.0[k].1 is Finish <==> message_is(assistants[at], "done"@)
            &&& decided.0[k].1 is Cancel <==> assistants[at] is None || message_is(
                assistants[at],
                "error"@,
            )
        }) by {
            if k < before.0.len() {
                assert(decided.0[k] == before.0[k]);
            }
        }
        assert forall|k: int, l: int| 0 <= k < l < decided.0.len() implies (
        #[trigger] decided.0[k]).0 < (#[trigger] decided.0[l]).0 by {
            assert(decided.0[k] == before.0[k]);
            if l < before.0.len() {
                assert(decided.0[l] == before.0[l]);
            }
        }
        if before.1 is Some {
            let i = choose|i: int|
                0 <= i < m && ((#[trigger] runs[i]).status@ == "running"@ || runs[i].status@
                    == "stalled"@) && assistants[i] is Some && !message_is(assistants[i], "done"@)
                    && !message_is(assistants[i], "error"@);
            assert(0 <= i < n && runs[i].status@ == runs[i].status@);
        }
    }
}

} // verus!
