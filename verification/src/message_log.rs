//! The session log: which records may be appended, how a stored log is read, and what it projects
//! to.

use crate::json::{field, json_views, text_field, Json, JsonView};
use crate::observation_cas::agrees;
use crate::session_log::{record_views, RecordKind, RecordView, SessionLogRecord};
use crate::text::{
    blank, concat2, concat3, contains_text, copy_optional, decimal, decimal_text,
    law_trimming_takes_off_the_whitespace_around, lists, optional_text, required, required_string,
    text_equals, text_less, text_precedes, texts, trimmed,
};
use crate::text_set::distinct_texts;
use vstd::prelude::*;

verus! {

/// An agent run as the records of its session show it.
#[derive(Debug)]
pub struct ProjectedAgentRun {
    pub agent_run_id: String,
    pub session_id: String,
    pub turn_id: String,
    pub cwd: Option<String>,
    pub status: String,
    pub started_at_ms: i64,
    pub updated_at_ms: i64,
    pub completed_at_ms: Option<i64>,
    pub last_event_at_ms: Option<i64>,
    pub error: Option<String>,
}

pub struct RunView {
    pub id: Seq<char>,
    pub session: Seq<char>,
    pub turn: Seq<char>,
    pub cwd: Option<Seq<char>>,
    pub status: Seq<char>,
    pub started_at: i64,
    pub updated_at: i64,
    pub completed_at: Option<i64>,
    pub last_event_at: Option<i64>,
    pub error: Option<Seq<char>>,
}

impl View for ProjectedAgentRun {
    type V = RunView;

    open spec fn view(&self) -> RunView {
        RunView {
            id: self.agent_run_id@,
            session: self.session_id@,
            turn: self.turn_id@,
            cwd: optional_text(self.cwd),
            status: self.status@,
            started_at: self.started_at_ms,
            updated_at: self.updated_at_ms,
            completed_at: self.completed_at_ms,
            last_event_at: self.last_event_at_ms,
            error: optional_text(self.error),
        }
    }
}

pub open spec fn run_views(runs: Seq<ProjectedAgentRun>) -> Seq<RunView> {
    Seq::new(runs.len(), |i: int| runs[i]@)
}

/// Copies a projected run.
pub fn copy_run(run: &ProjectedAgentRun) -> (result: ProjectedAgentRun)
    ensures
        result@ == run@,
{
    ProjectedAgentRun {
        agent_run_id: run.agent_run_id.clone(),
        session_id: run.session_id.clone(),
        turn_id: run.turn_id.clone(),
        cwd: copy_optional(&run.cwd),
        status: run.status.clone(),
        started_at_ms: run.started_at_ms,
        updated_at_ms: run.updated_at_ms,
        completed_at_ms: run.completed_at_ms,
        last_event_at_ms: run.last_event_at_ms,
        error: copy_optional(&run.error),
    }
}


/// What reading a value outside of the log gave: the value, or the message of an error.
pub open spec fn outcome_view(outcome: Result<String, String>) -> Result<Seq<char>, Seq<char>> {
    match outcome {
        Ok(value) => Ok(value@),
        Err(message) => Err(message@),
    }
}

pub open spec fn outcome_views(outcomes: Seq<Result<String, String>>) -> Seq<
    Result<Seq<char>, Seq<char>>,
> {
    Seq::new(outcomes.len(), |i: int| outcome_view(outcomes[i]))
}

/// Whether one of `runs` has the identity `id`.
pub open spec fn has_run(runs: Seq<RunView>, id: Seq<char>) -> bool {
    exists|i: int| 0 <= i < runs.len() && (#[trigger] runs[i]).id == id
}

/// The index of the run with the identity `id`.
pub open spec fn run_index(runs: Seq<RunView>, id: Seq<char>) -> int {
    choose|i: int| 0 <= i < runs.len() && (#[trigger] runs[i]).id == id
}

/// No two runs have the same identity.
pub open spec fn runs_unique(runs: Seq<RunView>) -> bool {
    forall|i: int, j: int|
        0 <= i < j < runs.len() ==> (#[trigger] runs[i]).id != (#[trigger] runs[j]).id
}

/// The larger of two times.
pub open spec fn later(a: i64, b: i64) -> i64 {
    if a >= b {
        a
    } else {
        b
    }
}

/// A run that begins with `record`.
pub open spec fn started_run(record: RecordView, cwd: Seq<char>) -> RunView {
    RunView {
        id: record.run->0,
        session: record.session,
        turn: record.turn->0,
        cwd: Some(cwd),
        status: "running"@,
        started_at: record.at,
        updated_at: record.at,
        completed_at: None,
        last_event_at: Some(record.at),
        error: None,
    }
}

/// The status of a run that was interrupted.
pub open spec fn interrupted_status(payload: JsonView) -> Result<Seq<char>, Seq<char>> {
    match text_field(payload, "reasonType"@) {
        None => Err("agent_run_interrupted reasonType is required"@),
        Some(reason) => if reason == "cancelled"@ {
            Ok("cancelled"@)
        } else if reason == "stopped"@ || reason == "shutdown"@ || reason
            == "provider_interrupted"@ {
            Ok("stopped"@)
        } else {
            Err("unsupported interruption reason: "@ + reason)
        },
    }
}

/// A run after one of its records.
pub open spec fn run_after(run: RunView, record: RecordView) -> Result<RunView, Seq<char>> {
    let seen = RunView {
        updated_at: later(run.updated_at, record.at),
        last_event_at: Some(
            later(
                match run.last_event_at {
                    Some(at) => at,
                    None => 0,
                },
                record.at,
            ),
        ),
        ..run
    };
    match record.kind {
        RecordKind::AgentRunCompleted => Ok(
            RunView { status: "succeeded"@, completed_at: Some(record.at), ..seen },
        ),
        RecordKind::AgentRunFailed => Ok(
            RunView {
                status: "failed"@,
                error: text_field(record.payload, "message"@),
                completed_at: Some(record.at),
                ..seen
            },
        ),
        RecordKind::AgentRunInterrupted => match interrupted_status(record.payload) {
            Err(message) => Err(message),
            Ok(status) => Ok(
                RunView {
                    status,
                    error: text_field(record.payload, "message"@),
                    completed_at: Some(record.at),
                    ..seen
                },
            ),
        },
        _ => Ok(seen),
    }
}

/// The runs of a log after one more record. `cwd` is the working directory of the record's
/// session, as far as it could be read.
pub open spec fn projected_one(
    runs: Seq<RunView>,
    record: RecordView,
    cwd: Result<Seq<char>, Seq<char>>,
) -> Result<Seq<RunView>, Seq<char>> {
    match record.run {
        None => Ok(runs),
        Some(id) => if record.kind == RecordKind::AgentRunStarted && record.turn is None {
            Err("agent_run_started missing turnId: "@ + record.id)
        } else if record.kind == RecordKind::AgentRunStarted && cwd is Err {
            Err(cwd->Err_0)
        } else {
            let known = if record.kind == RecordKind::AgentRunStarted && !has_run(runs, id) {
                runs.push(started_run(record, cwd->Ok_0))
            } else {
                runs
            };
            if !has_run(known, id) {
                if record.kind == RecordKind::SessionMeta {
                    Ok(known)
                } else {
                    Err("agent_run record appears before agent_run_started: "@ + record.id)
                }
            } else {
                let at = run_index(known, id);
                match run_after(known[at], record) {
                    Err(message) => Err(message),
                    Ok(run) => Ok(known.update(at, run)),
                }
            }
        },
    }
}

/// The runs of a log, in the order in which they first appear.
pub open spec fn projected(
    records: Seq<RecordView>,
    cwds: Seq<Result<Seq<char>, Seq<char>>>,
) -> Result<Seq<RunView>, Seq<char>>
    decreases records.len(),
{
    if records.len() == 0 {
        Ok(Seq::empty())
    } else {
        let n = records.len() - 1;
        match projected(records.subrange(0, n), cwds) {
            Err(message) => Err(message),
            Ok(runs) => projected_one(runs, records[n], cwds[n]),
        }
    }
}

proof fn lemma_projected_error(
    records: Seq<RecordView>,
    cwds: Seq<Result<Seq<char>, Seq<char>>>,
    n: int,
)
    requires
        0 <= n <= records.len(),
        projected(records.subrange(0, n), cwds) is Err,
    ensures
        projected(records, cwds) == projected(records.subrange(0, n), cwds),
    decreases records.len() - n,
{
    if n == records.len() {
        assert(records.subrange(0, n) =~= records);
    } else {
        let next = records.subrange(0, n + 1);
        assert(next.subrange(0, next.len() - 1) =~= records.subrange(0, n));
        lemma_projected_error(records, cwds, n + 1);
    }
}

/// The statuses that an agent run can have in a log.
pub open spec fn known_status(status: Seq<char>) -> bool {
    status == "running"@ || status == "succeeded"@ || status == "failed"@ || status
        == "cancelled"@ || status == "stopped"@
}

/// Whether a run's times and its status fit together: it is running until it is completed, and
/// it is never seen before it started.
pub open spec fn run_consistent(run: RunView) -> bool {
    &&& known_status(run.status)
    &&& run.started_at <= run.updated_at
    &&& run.completed_at is None <==> run.status == "running"@
    &&& run.completed_at matches Some(at) ==> at <= run.updated_at
}

/// Every run that a log projects to has its own identity, and its times and its status fit
/// together.
pub proof fn law_projected_runs_are_consistent(
    records: Seq<RecordView>,
    cwds: Seq<Result<Seq<char>, Seq<char>>>,
)
    ensures
        projected(records, cwds) matches Ok(runs) ==> runs_unique(runs) && forall|i: int|
            0 <= i < runs.len() ==> run_consistent(#[trigger] runs[i]),
    decreases records.len(),
{
    if records.len() > 0 {
        let n = records.len() - 1;
        law_projected_runs_are_consistent(records.subrange(0, n), cwds);
        if let Ok(runs) = projected(records, cwds) {
            let before = projected(records.subrange(0, n), cwds)->Ok_0;
            let record = records[n];
            if record.run is Some {
                let id = record.run->0;
                let known = if record.kind == RecordKind::AgentRunStarted && !has_run(before, id) {
                    before.push(started_run(record, cwds[n]->Ok_0))
                } else {
                    before
                };
                lemma_status_names();
                assert forall|i: int, j: int| 0 <= i < j < known.len() implies (
                #[trigger] known[i]).id != (#[trigger] known[j]).id by {
                    if j < before.len() {
                        assert(before[i].id != before[j].id);
                    } else {
                        assert(before[i].id != id);
                    }
                }
                assert forall|i: int| 0 <= i < known.len() implies run_consistent(
                    #[trigger] known[i],
                ) by {
                    if i < before.len() {
                        assert(known[i] == before[i]);
                    }
                }
                if has_run(known, id) {
                    let at = run_index(known, id);
                    assert(run_consistent(known[at]));
                    let run = run_after(known[at], record)->Ok_0;
                    assert(run_consistent(run));
                    assert(run.id == known[at].id);
                    assert forall|i: int, j: int| 0 <= i < j < runs.len() implies (
                    #[trigger] runs[i]).id != (#[trigger] runs[j]).id by {
                        assert(runs[i].id == known[i].id && runs[j].id == known[j].id);
                    }
                    assert forall|i: int| 0 <= i < runs.len() implies run_consistent(
                        #[trigger] runs[i],
                    ) by {
                        if i != at {
                            assert(runs[i] == known[i]);
                        }
                    }
                }
            }
        }
    }
}

proof fn lemma_status_names()
    ensures
        "running"@ != "succeeded"@,
        "running"@ != "failed"@,
        "running"@ != "cancelled"@,
        "running"@ != "stopped"@,
{
    reveal_strlit("running");
    reveal_strlit("succeeded");
    reveal_strlit("failed");
    reveal_strlit("cancelled");
    reveal_strlit("stopped");
    assert("running"@[0] == 'r');
    assert("succeeded"@[0] == 's');
    assert("failed"@[0] == 'f');
    assert("cancelled"@[0] == 'c');
    assert("stopped"@[0] == 's');
}

fn find_run(runs: &Vec<ProjectedAgentRun>, id: &str) -> (result: Option<usize>)
    requires
        runs_unique(run_views(runs@)),
    ensures
        match result {
            Some(i) => i < runs@.len() && has_run(run_views(runs@), id@) && i == run_index(
                run_views(runs@),
                id@,
            ),
            None => !has_run(run_views(runs@), id@),
        },
{
    let ghost all = run_views(runs@);
    let mut i: usize = 0;
    while i < runs.len()
        invariant
            i <= runs.len(),
            all == run_views(runs@),
            runs_unique(all),
            forall|j: int| 0 <= j < i ==> (#[trigger] all[j]).id != id@,
        decreases runs.len() - i,
    {
        assert(all[i as int] == runs@[i as int]@);
        if text_equals(runs[i].agent_run_id.as_str(), id) {
            proof {
                let k = run_index(all, id@);
                assert(all[k].id == id@);
                if k > i {
                    assert(all[i as int].id != all[k].id);
                }
            }
            return Some(i);
        }
        i = i + 1;
    }
    None
}

fn payload_text(payload: &Json, key: &str) -> (result: Option<String>)
    ensures
        optional_text(result) == text_field(payload@, key@),
{
    match payload.get_text(key) {
        Some(text) => Some(text.clone()),
        None => None,
    }
}

/// A run after one of its records.
pub fn advance_run(run: &ProjectedAgentRun, record: &SessionLogRecord) -> (result: Result<
    ProjectedAgentRun,
    String,
>)
    ensures
        agrees(result, |next: ProjectedAgentRun| next@, run_after(run@, record@)),
{
    let at: i64 = record.created_at_ms;
    let mut next = copy_run(run);
    if next.updated_at_ms < at {
        next.updated_at_ms = at;
    }
    let last: i64 = match run.last_event_at_ms {
        Some(last) => last,
        None => 0,
    };
    next.last_event_at_ms = Some(
        if last >= at {
            last
        } else {
            at
        },
    );
    match record.kind {
        RecordKind::AgentRunCompleted => {
            next.status = "succeeded".to_owned();
            next.completed_at_ms = Some(at);
        },
        RecordKind::AgentRunFailed => {
            next.status = "failed".to_owned();
            next.error = payload_text(&record.payload, "message");
            next.completed_at_ms = Some(at);
        },
        RecordKind::AgentRunInterrupted => {
            let status = match record.payload.get_text("reasonType") {
                None => {
                    return Err("agent_run_interrupted reasonType is required".to_owned());
                },
                Some(reason) => if text_equals(reason.as_str(), "cancelled") {
                    "cancelled"
                } else if text_equals(reason.as_str(), "stopped") || text_equals(
                    reason.as_str(),
                    "shutdown",
                ) || text_equals(reason.as_str(), "provider_interrupted") {
                    "stopped"
                } else {
                    return Err(
                        concat2("unsupported interruption reason: ", reason.as_str()),
                    );
                },
            };
            next.status = status.to_owned();
            next.error = payload_text(&record.payload, "message");
            next.completed_at_ms = Some(at);
        },
        _ => {},
    }
    Ok(next)
}

/// Whether `a` comes before `b` in a list of runs: it started earlier, or at the same time with
/// the smaller identity.
pub open spec fn run_before(a: RunView, b: RunView) -> bool {
    a.started_at < b.started_at || (a.started_at == b.started_at && text_less(a.id, b.id))
}

/// Whether no run stands behind one that it comes before.
pub open spec fn runs_sorted(runs: Seq<RunView>) -> bool {
    forall|i: int, j: int|
        0 <= i < j < runs.len() ==> !run_before(#[trigger] runs[j], #[trigger] runs[i])
}

fn comes_before(a: &ProjectedAgentRun, b: &ProjectedAgentRun) -> (result: bool)
    ensures
        result == run_before(a@, b@),
{
    a.started_at_ms < b.started_at_ms || (a.started_at_ms == b.started_at_ms && text_precedes(
        a.agent_run_id.as_str(),
        b.agent_run_id.as_str(),
    ))
}

proof fn lemma_run_before_transitive(a: RunView, b: RunView, c: RunView)
    requires
        !run_before(b, a),
        !run_before(c, b),
    ensures
        !run_before(c, a),
{
    crate::text::lemma_text_order_total(a.id, b.id);
    crate::text::lemma_text_order_total(b.id, c.id);
    crate::text::lemma_text_order_total(a.id, c.id);
    if run_before(c, a) {
        if c.started_at == a.started_at && a.started_at == b.started_at {
            if a.id == b.id {
            } else if b.id == c.id {
            } else {
                crate::text::lemma_text_order_transitive(a.id, b.id, c.id);
            }
        }
    }
}

/// Sorts runs by the time at which they started, then by their identities.
pub fn sort_runs(runs: &Vec<ProjectedAgentRun>) -> (result: Vec<ProjectedAgentRun>)
    ensures
        runs_sorted(run_views(result@)),
        run_views(result@).to_multiset() == run_views(runs@).to_multiset(),
{
    let ghost all = run_views(runs@);
    let mut sorted: Vec<ProjectedAgentRun> = Vec::new();
    let mut i: usize = 0;
    assert(all.subrange(0, 0) =~= Seq::empty());
    assert(run_views(sorted@) =~= Seq::empty());
    while i < runs.len()
        invariant
            i <= runs.len(),
            all == run_views(runs@),
            runs_sorted(run_views(sorted@)),
            run_views(sorted@).to_multiset() == all.subrange(0, i as int).to_multiset(),
        decreases runs.len() - i,
    {
        let run = copy_run(&runs[i]);
        let ghost before = run_views(sorted@);
        let ghost view = run@;
        let mut at: usize = sorted.len();
        while at > 0 && comes_before(&run, &sorted[at - 1])
            invariant
                at <= sorted.len(),
                before == run_views(sorted@),
                view == run@,
                forall|j: int| at <= j < sorted.len() ==> run_before(view, #[trigger] before[j]),
            decreases at,
        {
            assert(before[at - 1] == sorted@[at - 1]@);
            at = at - 1;
        }
        proof {
            assert(all.subrange(0, i + 1) =~= all.subrange(0, i as int).push(view));
            if at > 0 {
                assert(before[at - 1] == sorted@[at - 1]@);
            }
        }
        sorted.insert(at, run);
        proof {
            let after = run_views(sorted@);
            assert(after =~= before.insert(at as int, view));
            vstd::seq_lib::to_multiset_insert(before, at as int, view);
            vstd::seq_lib::to_multiset_build(all.subrange(0, i as int), view);
            assert forall|a: int, b: int| 0 <= a < b < after.len() implies !run_before(
                #[trigger] after[b],
                #[trigger] after[a],
            ) by {
                let x = if a < at { a } else { a - 1 };
                let y = if b < at { b } else { b - 1 };
                if a != at && b != at {
                    assert(after[a] == before[x] && after[b] == before[y]);
                } else if b == at {
                    assert(after[a] == before[a]);
                    assert(!run_before(view, before[at - 1]));
                    if a < at - 1 {
                        assert(!run_before(before[at - 1], before[a]));
                        lemma_run_before_transitive(before[a], before[at - 1], view);
                    }
                } else {
                    assert(after[b] == before[y]);
                    assert(run_before(view, before[y]));
                    crate::text::lemma_text_order_total(view.id, before[y].id);
                }
            }
        }
        i = i + 1;
    }
    assert(all.subrange(0, all.len() as int) =~= all);
    sorted
}

/// Projects the records of a session to its agent runs, sorted by the time at which they started.
/// `cwds` holds for each record the working directory of its session, as far as it could be read.
pub fn project_agent_runs_from_records(
    records: &Vec<SessionLogRecord>,
    cwds: &Vec<Result<String, String>>,
) -> (result: Result<Vec<ProjectedAgentRun>, String>)
    requires
        cwds@.len() == records@.len(),
    ensures
        match result {
            Ok(runs) => projected(record_views(records@), outcome_views(cwds@)) matches Ok(all)
                && runs_sorted(run_views(runs@)) && run_views(runs@).to_multiset()
                == all.to_multiset(),
            Err(message) => projected(record_views(records@), outcome_views(cwds@)) == Err::<
                Seq<RunView>,
                Seq<char>,
            >(message@),
        },
{
    let ghost all = record_views(records@);
    let ghost dirs = outcome_views(cwds@);
    let mut runs: Vec<ProjectedAgentRun> = Vec::new();
    let mut i: usize = 0;
    assert(all.subrange(0, 0) =~= Seq::empty());
    assert(run_views(runs@) =~= Seq::empty());
    while i < records.len()
        invariant
            i <= records.len(),
            cwds@.len() == records@.len(),
            all == record_views(records@),
            dirs == outcome_views(cwds@),
            runs_unique(run_views(runs@)),
            projected(all.subrange(0, i as int), dirs) == Ok::<Seq<RunView>, Seq<char>>(
                run_views(runs@),
            ),
        decreases records.len() - i,
    {
        let record = &records[i];
        proof {
            let next = all.subrange(0, i + 1);
            assert(next.subrange(0, next.len() - 1) =~= all.subrange(0, i as int));
            assert(next[next.len() - 1] == record@);
            assert(dirs[i as int] == outcome_view(cwds@[i as int]));
            law_projected_runs_are_consistent(next, dirs);
            if projected(next, dirs) is Err {
                lemma_projected_error(all, dirs, i + 1);
            }
        }
        match project_record(runs, record, &cwds[i]) {
            Ok(next) => {
                runs = next;
            },
            Err(message) => {
                return Err(message);
            },
        }
        i = i + 1;
    }
    assert(all.subrange(0, all.len() as int) =~= all);
    Ok(sort_runs(&runs))
}

fn project_record(
    runs: Vec<ProjectedAgentRun>,
    record: &SessionLogRecord,
    cwd: &Result<String, String>,
) -> (result: Result<Vec<ProjectedAgentRun>, String>)
    requires
        runs_unique(run_views(runs@)),
    ensures
        agrees(
            result,
            |next: Vec<ProjectedAgentRun>| run_views(next@),
            projected_one(run_views(runs@), record@, outcome_view(*cwd)),
        ),
{
    let ghost before = run_views(runs@);
    let mut runs = runs;
    let id: &String = match &record.agent_run_id {
        None => {
            return Ok(runs);
        },
        Some(id) => id,
    };
    if record.kind == RecordKind::AgentRunStarted {
        let turn_id: String = match &record.turn_id {
            None => {
                return Err(
                    concat2("agent_run_started missing turnId: ", record.event_id.as_str()),
                );
            },
            Some(turn_id) => turn_id.clone(),
        };
        let cwd: String = match cwd {
            Err(message) => {
                return Err(message.clone());
            },
            Ok(cwd) => cwd.clone(),
        };
        if find_run(&runs, id.as_str()).is_none() {
            let run = ProjectedAgentRun {
                agent_run_id: id.clone(),
                session_id: record.session_id.clone(),
                turn_id,
                cwd: Some(cwd),
                status: "running".to_owned(),
                started_at_ms: record.created_at_ms,
                updated_at_ms: record.created_at_ms,
                completed_at_ms: None,
                last_event_at_ms: Some(record.created_at_ms),
                error: None,
            };
            let ghost view = run@;
            assert(view == started_run(record@, cwd@));
            runs.push(run);
            proof {
                let after = run_views(runs@);
                assert(after =~= before.push(view));
                assert forall|i: int, j: int| 0 <= i < j < after.len() implies (
                #[trigger] after[i]).id != (#[trigger] after[j]).id by {
                    if j < before.len() {
                        assert(before[i].id != before[j].id);
                    } else {
                        assert(before[i].id != id@);
                    }
                }
            }
        }
    }
    let ghost known = run_views(runs@);
    match find_run(&runs, id.as_str()) {
        None => if record.kind == RecordKind::SessionMeta {
            Ok(runs)
        } else {
            Err(
                concat2(
                    "agent_run record appears before agent_run_started: ",
                    record.event_id.as_str(),
                ),
            )
        },
        Some(at) => {
            assert(known[at as int] == runs@[at as int]@);
            match advance_run(&runs[at], record) {
                Err(message) => Err(message),
                Ok(next) => {
                    let ghost view = next@;
                    runs.set(at, next);
                    assert(run_views(runs@) =~= known.update(at as int, view));
                    Ok(runs)
                },
            }
        },
    }
}


/// A page of a list: where it starts and ends, and where the next one starts.
#[derive(Clone, Copy, Debug, PartialEq, Eq)]
pub struct ReplayPage {
    pub start: usize,
    pub end: usize,
    pub next_cursor: Option<u64>,
}

/// The number of items on a page: 200 where none is asked for, and always between 1 and 1000.
pub open spec fn page_limit(limit: Option<nat>) -> nat {
    match limit {
        None => 200,
        Some(n) => if n < 1 {
            1
        } else if n > 1000 {
            1000
        } else {
            n
        },
    }
}

/// The end of the page of `total` items that starts at `start`.
pub open spec fn page_end(total: nat, start: nat, limit: Option<nat>) -> nat {
    if start + page_limit(limit) <= total {
        start + page_limit(limit)
    } else {
        total
    }
}

/// The items of the page at `start` and of the pages that follow it, up to `pages` of them.
pub open spec fn pages_together<T>(
    items: Seq<T>,
    start: nat,
    limit: Option<nat>,
    pages: nat,
) -> Seq<T>
    decreases pages,
{
    let end = page_end(items.len(), start, limit);
    if pages == 0 || start >= items.len() {
        Seq::empty()
    } else {
        items.subrange(start as int, end as int) + pages_together(
            items,
            end,
            limit,
            (pages - 1) as nat,
        )
    }
}

/// Following the cursor from page to page gives every item from the start on, once and in order.
pub proof fn law_pages_cover<T>(items: Seq<T>, start: nat, limit: Option<nat>, pages: nat)
    requires
        start <= items.len(),
        pages >= items.len() - start,
    ensures
        pages_together(items, start, limit, pages) == items.subrange(
            start as int,
            items.len() as int,
        ),
    decreases pages,
{
    let end = page_end(items.len(), start, limit);
    if start < items.len() {
        law_pages_cover(items, end, limit, (pages - 1) as nat);
        assert(items.subrange(start as int, end as int) + items.subrange(
            end as int,
            items.len() as int,
        ) =~= items.subrange(start as int, items.len() as int));
    } else {
        assert(items.subrange(start as int, items.len() as int) =~= Seq::empty());
    }
}

/// The page of `total` items that starts at `cursor`.
pub fn replay_page(total: usize, cursor: Option<u64>, limit: Option<usize>) -> (result: Result<
    ReplayPage,
    String,
>)
    ensures
        ({
            let start = match cursor {
                Some(n) => n as nat,
                None => 0,
            };
            let size = match limit {
                Some(n) => Some(n as nat),
                None => None,
            };
            match result {
                Ok(page) => start <= total && page.start == start && page.end == page_end(
                    total as nat,
                    start,
                    size,
                ) && page.next_cursor == if page.end < total {
                    Some(page.end as u64)
                } else {
                    None
                },
                Err(message) => if start > usize::MAX {
                    message@ == "agent_run replay cursor is too large"@
                } else {
                    start > total && message@ == "agent_run replay cursor is beyond tail: "@
                        + decimal(start)
                },
            }
        }),
{
    let cursor: u64 = match cursor {
        Some(n) => n,
        None => 0,
    };
    if cursor > usize::MAX as u64 {
        return Err("agent_run replay cursor is too large".to_owned());
    }
    let start: usize = cursor as usize;
    if start > total {
        return Err(
            concat2(
                "agent_run replay cursor is beyond tail: ",
                decimal_text(start as u64).as_str(),
            ),
        );
    }
    let size: usize = match limit {
        None => 200,
        Some(n) => if n < 1 {
            1
        } else if n > 1000 {
            1000
        } else {
            n
        },
    };
    let end: usize = if total - start >= size {
        start + size
    } else {
        total
    };
    let next_cursor: Option<u64> = if end < total {
        Some(end as u64)
    } else {
        None
    };
    Ok(ReplayPage { start, end, next_cursor })
}

/// Whether a record belongs to a run and is part of its stream.
pub open spec fn streamed(record: RecordView, run_id: Seq<char>, projects: bool) -> bool {
    record.run == Some(run_id) && projects
}

/// The indices of the first `n` records that are part of the stream of a run, in order: the place
/// in this list is the place in the stream.
pub open spec fn stream_indices(
    records: Seq<RecordView>,
    projects: Seq<bool>,
    run_id: Seq<char>,
    n: nat,
) -> Seq<usize>
    decreases n,
{
    if n == 0 {
        Seq::empty()
    } else {
        let before = stream_indices(records, projects, run_id, (n - 1) as nat);
        if streamed(records[n - 1], run_id, projects[n - 1]) {
            before.push((n - 1) as usize)
        } else {
            before
        }
    }
}

/// The indices of the records that are part of the stream of a run. `projects` says of each
/// record whether its kind is part of a stream.
pub fn agent_run_replay_indices(
    records: &Vec<SessionLogRecord>,
    projects: &Vec<bool>,
    agent_run_id: &str,
) -> (result: Vec<usize>)
    requires
        projects@.len() == records@.len(),
    ensures
        result@ == stream_indices(
            record_views(records@),
            projects@,
            agent_run_id@,
            records@.len(),
        ),
{
    let ghost all = record_views(records@);
    let mut result: Vec<usize> = Vec::new();
    let mut i: usize = 0;
    while i < records.len()
        invariant
            i <= records.len(),
            all == record_views(records@),
            projects@.len() == records@.len(),
            result@ == stream_indices(all, projects@, agent_run_id@, i as nat),
        decreases records.len() - i,
    {
        assert(all[i as int] == records@[i as int]@);
        let own = match &records[i].agent_run_id {
            Some(id) => text_equals(id.as_str(), agent_run_id),
            None => false,
        };
        if own && projects[i] {
            result.push(i);
        }
        i = i + 1;
    }
    result
}

/// The identity of the event that a stream item shows.
pub open spec fn item_event_id(item: JsonView) -> Option<Seq<char>> {
    match field(item, "event"@) {
        Some(event) => text_field(event, "id"@),
        None => None,
    }
}

fn get_event_id(item: &Json) -> (result: Option<&String>)
    ensures
        match result {
            Some(id) => item_event_id(item@) == Some(id@),
            None => item_event_id(item@) == None::<Seq<char>>,
        },
{
    match item.get("event") {
        Some(event) => event.get_text("id"),
        None => None,
    }
}

/// Whether a stream item shows one of the events in `wanted`.
pub open spec fn item_wanted(item: JsonView, wanted: Seq<String>) -> bool {
    match item_event_id(item) {
        Some(id) => lists(wanted, id),
        None => false,
    }
}

/// The items that show one of the events in `wanted`, in order.
pub open spec fn wanted_items(items: Seq<JsonView>, wanted: Seq<String>) -> Seq<JsonView>
    decreases items.len(),
{
    if items.len() == 0 {
        Seq::empty()
    } else {
        let before = wanted_items(items.subrange(0, items.len() - 1), wanted);
        if item_wanted(items[items.len() - 1], wanted) {
            before.push(items[items.len() - 1])
        } else {
            before
        }
    }
}

/// The items that show the events in `event_ids`: as many as there are different identities.
pub fn projected_stream_items(items: &Vec<Json>, event_ids: &Vec<String>) -> (result: Result<
    Vec<Json>,
    String,
>)
    ensures
        ({
            let found = wanted_items(json_views(items@), event_ids@);
            let expected = texts(event_ids@).to_set().len();
            match result {
                Ok(list) => found.len() == expected && json_views(list@) == found,
                Err(message) => found.len() != expected && message@
                    == "committed stream projection count mismatch: expected "@ + decimal(expected)
                    + ", got "@ + decimal(found.len()),
            }
        }),
{
    let ghost all = json_views(items@);
    let expected: usize = distinct_texts(event_ids).len();
    let mut found: Vec<Json> = Vec::new();
    let mut i: usize = 0;
    assert(all.subrange(0, 0) =~= Seq::empty());
    assert(json_views(found@) =~= Seq::empty());
    while i < items.len()
        invariant
            i <= items.len(),
            all == json_views(items@),
            json_views(found@) == wanted_items(all.subrange(0, i as int), event_ids@),
        decreases items.len() - i,
    {
        let ghost before = json_views(found@);
        proof {
            let next = all.subrange(0, i + 1);
            assert(next.subrange(0, next.len() - 1) =~= all.subrange(0, i as int));
            assert(next[next.len() - 1] == items@[i as int]@);
        }
        let wanted = match get_event_id(&items[i]) {
            Some(id) => contains_text(event_ids, id.as_str()),
            None => false,
        };
        if wanted {
            found.push(items[i].copy());
            assert(json_views(found@) =~= before.push(items@[i as int]@));
        }
        i = i + 1;
    }
    assert(all.subrange(0, all.len() as int) =~= all);
    if found.len() != expected {
        return Err(
            concat2(
                concat3(
                    "committed stream projection count mismatch: expected ",
                    decimal_text(expected as u64).as_str(),
                    ", got ",
                ).as_str(),
                decimal_text(found.len() as u64).as_str(),
            ),
        );
    }
    Ok(found)
}

/// Whether a record ends a run.
pub open spec fn terminal_record(record: RecordView, run_id: Seq<char>) -> bool {
    record.run == Some(run_id) && (record.kind == RecordKind::AgentRunCompleted || record.kind
        == RecordKind::AgentRunFailed || record.kind == RecordKind::AgentRunInterrupted)
}

/// The identity of the last of `records` that ends a run.
pub open spec fn last_terminal(records: Seq<RecordView>, run_id: Seq<char>) -> Option<Seq<char>>
    decreases records.len(),
{
    if records.len() == 0 {
        None
    } else if terminal_record(records[records.len() - 1], run_id) {
        Some(records[records.len() - 1].id)
    } else {
        last_terminal(records.subrange(0, records.len() - 1), run_id)
    }
}

/// The first of `items` that shows the event `id`.
pub open spec fn item_for(items: Seq<JsonView>, id: Seq<char>) -> Option<JsonView>
    decreases items.len(),
{
    if items.len() == 0 {
        None
    } else if item_event_id(items[0]) == Some(id) {
        Some(items[0])
    } else {
        item_for(items.subrange(1, items.len() as int), id)
    }
}

/// The stream item that shows how a run ended.
pub open spec fn terminal_item(
    records: Seq<RecordView>,
    items: Seq<JsonView>,
    run_id: Seq<char>,
) -> Result<JsonView, Seq<char>> {
    match last_terminal(records, run_id) {
        None => Err("agent_run has no committed terminal record: "@ + run_id),
        Some(id) => match item_for(items, id) {
            None => Err("terminal session_event projection missing: "@ + run_id),
            Some(item) => if text_field(item, "type"@) == Some("session_event"@) {
                Ok(item)
            } else {
                Err("terminal stream projection is invalid: "@ + run_id)
            },
        },
    }
}

/// The stream item that shows how a run ended.
pub fn terminal_stream_item(
    records: &Vec<SessionLogRecord>,
    items: &Vec<Json>,
    agent_run_id: &str,
) -> (result: Result<Json, String>)
    ensures
        agrees(
            result,
            |item: Json| item@,
            terminal_item(record_views(records@), json_views(items@), agent_run_id@),
        ),
{
    let ghost all = record_views(records@);
    let mut terminal: Option<String> = None;
    let mut i: usize = records.len();
    assert(all.subrange(0, all.len() as int) =~= all);
    while i > 0 && terminal.is_none()
        invariant
            i <= records.len(),
            all == record_views(records@),
            match terminal {
                Some(id) => last_terminal(all, agent_run_id@) == Some(id@),
                None => last_terminal(all, agent_run_id@) == last_terminal(
                    all.subrange(0, i as int),
                    agent_run_id@,
                ),
            },
        decreases i,
    {
        i = i - 1;
        let record = &records[i];
        proof {
            let rest = all.subrange(0, i + 1);
            assert(rest[rest.len() - 1] == record@);
            assert(rest.subrange(0, rest.len() - 1) =~= all.subrange(0, i as int));
        }
        let own = match &record.agent_run_id {
            Some(id) => text_equals(id.as_str(), agent_run_id),
            None => false,
        };
        if own && (record.kind == RecordKind::AgentRunCompleted || record.kind
            == RecordKind::AgentRunFailed || record.kind == RecordKind::AgentRunInterrupted) {
            terminal = Some(record.event_id.clone());
        }
    }
    let id: String = match terminal {
        None => {
            return Err(concat2("agent_run has no committed terminal record: ", agent_run_id));
        },
        Some(id) => id,
    };
    let ghost shown = json_views(items@);
    let mut k: usize = 0;
    assert(shown.subrange(0, shown.len() as int) =~= shown);
    while k < items.len()
        invariant
            k <= items.len(),
            shown == json_views(items@),
            last_terminal(record_views(records@), agent_run_id@) == Some(id@),
            item_for(shown, id@) == item_for(shown.subrange(k as int, shown.len() as int), id@),
        decreases items.len() - k,
    {
        proof {
            let rest = shown.subrange(k as int, shown.len() as int);
            assert(rest[0] == items@[k as int]@);
            assert(rest.subrange(1, rest.len() as int) =~= shown.subrange(
                k + 1,
                shown.len() as int,
            ));
        }
        let found = match get_event_id(&items[k]) {
            Some(event_id) => text_equals(event_id.as_str(), id.as_str()),
            None => false,
        };
        if found {
            let valid = match items[k].get_text("type") {
                Some(kind) => text_equals(kind.as_str(), "session_event"),
                None => false,
            };
            return if valid {
                Ok(items[k].copy())
            } else {
                Err(concat2("terminal stream projection is invalid: ", agent_run_id))
            };
        }
        k = k + 1;
    }
    Err(concat2("terminal session_event projection missing: ", agent_run_id))
}

/// The record that ends a run.
#[derive(Debug)]
pub enum TerminalRecord {
    Completed,
    Failed { message: String },
    Interrupted { reason_type: String, message: String },
}

pub enum TerminalRecordView {
    Completed,
    Failed { message: Seq<char> },
    Interrupted { reason_type: Seq<char>, message: Seq<char> },
}

impl View for TerminalRecord {
    type V = TerminalRecordView;

    open spec fn view(&self) -> TerminalRecordView {
        match self {
            TerminalRecord::Completed => TerminalRecordView::Completed,
            TerminalRecord::Failed { message } => TerminalRecordView::Failed { message: message@ },
            TerminalRecord::Interrupted { reason_type, message } => TerminalRecordView::Interrupted {
                reason_type: reason_type@,
                message: message@,
            },
        }
    }
}

/// The record that ends a run with `status`. `open_call` is a tool call that is not closed yet.
pub open spec fn terminal_record_for(
    status: Seq<char>,
    error: Option<Seq<char>>,
    open_call: Option<Seq<char>>,
) -> Result<TerminalRecordView, Seq<char>> {
    match open_call {
        Some(call) => Err(
            "AgentRun terminal requires every ToolCall to be closed: callId="@ + call,
        ),
        None => if status == "succeeded"@ {
            Ok(TerminalRecordView::Completed)
        } else if status == "failed"@ {
            match required(
                match error {
                    Some(message) => message,
                    None => Seq::empty(),
                },
                "error"@,
            ) {
                Ok(message) => Ok(TerminalRecordView::Failed { message }),
                Err(message) => Err(message),
            }
        } else if status == "cancelled"@ {
            Ok(
                TerminalRecordView::Interrupted {
                    reason_type: "cancelled"@,
                    message: match error {
                        Some(message) => message,
                        None => "AgentRun cancelled"@,
                    },
                },
            )
        } else if status == "stopped"@ {
            Ok(
                TerminalRecordView::Interrupted {
                    reason_type: "stopped"@,
                    message: match error {
                        Some(message) => message,
                        None => "AgentRun stopped"@,
                    },
                },
            )
        } else {
            Err("unsupported terminal agent_run status: "@ + status)
        },
    }
}

/// The record that ends a run with `status`.
pub fn plan_terminal_record(
    status: &str,
    error: &Option<String>,
    open_call: &Option<String>,
) -> (result: Result<TerminalRecord, String>)
    ensures
        agrees(
            result,
            |record: TerminalRecord| record@,
            terminal_record_for(status@, optional_text(*error), optional_text(*open_call)),
        ),
{
    match open_call {
        Some(call) => {
            return Err(
                concat2(
                    "AgentRun terminal requires every ToolCall to be closed: callId=",
                    call.as_str(),
                ),
            );
        },
        None => {},
    }
    if text_equals(status, "succeeded") {
        Ok(TerminalRecord::Completed)
    } else if text_equals(status, "failed") {
        let given: String = match error {
            Some(message) => message.clone(),
            None => String::new(),
        };
        match required_string(given.as_str(), "error") {
            Ok(message) => Ok(TerminalRecord::Failed { message }),
            Err(message) => Err(message),
        }
    } else if text_equals(status, "cancelled") {
        Ok(
            TerminalRecord::Interrupted {
                reason_type: "cancelled".to_owned(),
                message: match error {
                    Some(message) => message.clone(),
                    None => "AgentRun cancelled".to_owned(),
                },
            },
        )
    } else if text_equals(status, "stopped") {
        Ok(
            TerminalRecord::Interrupted {
                reason_type: "stopped".to_owned(),
                message: match error {
                    Some(message) => message.clone(),
                    None => "AgentRun stopped".to_owned(),
                },
            },
        )
    } else {
        Err(concat2("unsupported terminal agent_run status: ", status))
    }
}

/// Accepts a time that can be stored.
pub fn validate_positive_timestamp(value: i64, field: &str) -> (result: Result<(), String>)
    ensures
        match result {
            Ok(()) => value > 0,
            Err(message) => value <= 0 && message@ == field@
                + " must be positive unix milliseconds"@,
        },
{
    if value > 0 {
        Ok(())
    } else {
        Err(concat2(field, " must be positive unix milliseconds"))
    }
}

/// What a request to rewrite the last user input is refused for, or the session that it is for.
pub open spec fn rewrite_session(at_ms: i64, session_id: Seq<char>, reason: Seq<char>) -> Result<
    Seq<char>,
    Seq<char>,
> {
    if at_ms <= 0 {
        Err("rewrite atMs must be positive unix milliseconds"@)
    } else {
        match required(session_id, "sessionId"@) {
            Err(message) => Err(message),
            Ok(session) => if reason == "rewrite_last_user_input"@ {
                Ok(session)
            } else {
                Err("unsupported rewrite reason: "@ + reason)
            },
        }
    }
}

/// Accepts a request to rewrite the last user input, and gives the session that it is for.
pub fn check_rewrite(at_ms: i64, session_id: &str, reason: &str) -> (result: Result<String, String>)
    ensures
        agrees(result, |session: String| session@, rewrite_session(at_ms, session_id@, reason@)),
{
    match validate_positive_timestamp(at_ms, "rewrite atMs") {
        Ok(()) => {},
        Err(message) => {
            proof {
                reveal_strlit("rewrite atMs");
                reveal_strlit(" must be positive unix milliseconds");
                reveal_strlit("rewrite atMs must be positive unix milliseconds");
                assert("rewrite atMs"@ + " must be positive unix milliseconds"@
                    =~= "rewrite atMs must be positive unix milliseconds"@);
            }
            return Err(message);
        },
    }
    match required_string(session_id, "sessionId") {
        Err(message) => Err(message),
        Ok(session) => if text_equals(reason, "rewrite_last_user_input") {
            Ok(session)
        } else {
            Err(concat2("unsupported rewrite reason: ", reason))
        },
    }
}


/// What a run starts with in the log of its session.
#[derive(Debug)]
pub struct RunOpening {
    pub turn_id: String,
    pub content: String,
    pub at_ms: i64,
}

pub struct OpeningView {
    pub turn: Seq<char>,
    pub content: Seq<char>,
    pub at_ms: i64,
}

impl View for RunOpening {
    type V = OpeningView;

    open spec fn view(&self) -> OpeningView {
        OpeningView { turn: self.turn_id@, content: self.content@, at_ms: self.at_ms }
    }
}

/// What a run starts with whose turn and content go by the given names.
pub open spec fn opening(
    turn: Seq<char>,
    turn_name: Seq<char>,
    content: Seq<char>,
    content_name: Seq<char>,
    at_ms: i64,
) -> Result<OpeningView, Seq<char>> {
    match required(turn, turn_name) {
        Err(error) => Err(error),
        Ok(turn) => match required(content, content_name) {
            Err(error) => Err(error),
            Ok(content) => Ok(OpeningView { turn, content, at_ms }),
        },
    }
}

fn open_run(turn_id: &str, turn_name: &str, content: &str, content_name: &str, at_ms: i64) -> (result:
    Result<RunOpening, String>)
    ensures
        agrees(
            result,
            |opening: RunOpening| opening@,
            opening(turn_id@, turn_name@, content@, content_name@, at_ms),
        ),
{
    let turn_id = match required_string(turn_id, turn_name) {
        Ok(turn_id) => turn_id,
        Err(error) => {
            return Err(error);
        },
    };
    match required_string(content, content_name) {
        Ok(content) => Ok(RunOpening { turn_id, content, at_ms }),
        Err(error) => Err(error),
    }
}

/// The time just after another; the last time has none after it.
pub open spec fn just_after(at_ms: i64) -> i64 {
    if at_ms == i64::MAX {
        i64::MAX
    } else {
        (at_ms + 1) as i64
    }
}

/// What a run starts with that takes the place of the last user input: just after that was taken
/// back.
pub fn rewritten_opening(new_turn_id: &str, new_content: &str, at_ms: i64) -> (result: Result<
    RunOpening,
    String,
>)
    ensures
        agrees(
            result,
            |opening: RunOpening| opening@,
            opening(new_turn_id@, "newTurnId"@, new_content@, "newContent"@, just_after(at_ms)),
        ),
{
    let started_at_ms: i64 = if at_ms == i64::MAX {
        i64::MAX
    } else {
        at_ms + 1
    };
    open_run(new_turn_id, "newTurnId", new_content, "newContent", started_at_ms)
}

/// What a run starts with whose session was restored with the given outcome; the identity of the
/// run is asked for before that.
pub open spec fn run_opening(
    run: Seq<char>,
    restored: Result<(), Seq<char>>,
    turn: Seq<char>,
    content: Seq<char>,
    at_ms: i64,
) -> Result<(Seq<char>, OpeningView), Seq<char>> {
    match required(run, "agentRunId"@) {
        Err(error) => Err(error),
        Ok(run) => match restored {
            Err(error) => Err(error),
            Ok(_) => match opening(turn, "turnId"@, content, "content"@, at_ms) {
                Err(error) => Err(error),
                Ok(opening) => Ok((run, opening)),
            },
        },
    }
}

/// The run that is started, and what it starts with.
pub fn append_agent_run_started_with_attachments(
    agent_run_id: &str,
    restored: &Result<(), String>,
    turn_id: &str,
    content: &str,
    at_ms: i64,
) -> (result: Result<(String, RunOpening), String>)
    ensures
        agrees(
            result,
            |started: (String, RunOpening)| (started.0@, started.1@),
            run_opening(
                agent_run_id@,
                match restored {
                    Ok(_) => Ok(()),
                    Err(error) => Err(error@),
                },
                turn_id@,
                content@,
                at_ms,
            ),
        ),
{
    let agent_run_id = match required_string(agent_run_id, "agentRunId") {
        Ok(id) => id,
        Err(error) => {
            return Err(error);
        },
    };
    match restored {
        Ok(_) => {},
        Err(error) => {
            return Err(error.clone());
        },
    }
    match open_run(turn_id, "turnId", content, "content", at_ms) {
        Ok(opening) => Ok((agent_run_id, opening)),
        Err(error) => Err(error),
    }
}

/// Who wrote a message.
#[derive(Clone, Copy, Debug, PartialEq, Eq, Structural)]
pub enum MessageRole {
    User,
    Assistant,
}

/// A message as the events of a session reduce to it.
#[derive(Debug)]
pub struct ReducedMessage {
    pub message_id: String,
    pub role: MessageRole,
    pub turn_id: Option<String>,
    pub text: String,
    pub status: Option<String>,
    pub updated_at_ms: i64,
    pub agent_run_id: Option<String>,
}

pub struct ReducedMessageView {
    pub id: Seq<char>,
    pub role: MessageRole,
    pub turn: Option<Seq<char>>,
    pub text: Seq<char>,
    pub status: Option<Seq<char>>,
    pub updated_at: i64,
    pub run: Option<Seq<char>>,
}

impl View for ReducedMessage {
    type V = ReducedMessageView;

    open spec fn view(&self) -> ReducedMessageView {
        ReducedMessageView {
            id: self.message_id@,
            role: self.role,
            turn: optional_text(self.turn_id),
            text: self.text@,
            status: optional_text(self.status),
            updated_at: self.updated_at_ms,
            run: optional_text(self.agent_run_id),
        }
    }
}

pub open spec fn reduced_views(messages: Seq<ReducedMessage>) -> Seq<ReducedMessageView> {
    Seq::new(messages.len(), |i: int| messages[i]@)
}

/// A message of a session as it is shown.
#[derive(Debug)]
pub struct ProjectedChatMessage {
    pub id: String,
    pub session_id: String,
    pub turn_id: String,
    pub role: String,
    pub content: String,
    pub status: Option<String>,
    pub created_at_ms: i64,
    pub updated_at_ms: i64,
    pub agent_run_id: Option<String>,
}

pub struct MessageView {
    pub id: Seq<char>,
    pub session: Seq<char>,
    pub turn: Seq<char>,
    pub role: Seq<char>,
    pub content: Seq<char>,
    pub status: Option<Seq<char>>,
    pub created_at: i64,
    pub updated_at: i64,
    pub run: Option<Seq<char>>,
}

impl View for ProjectedChatMessage {
    type V = MessageView;

    open spec fn view(&self) -> MessageView {
        MessageView {
            id: self.id@,
            session: self.session_id@,
            turn: self.turn_id@,
            role: self.role@,
            content: self.content@,
            status: optional_text(self.status),
            created_at: self.created_at_ms,
            updated_at: self.updated_at_ms,
            run: optional_text(self.agent_run_id),
        }
    }
}

/// Whether a record holds the message `id`.
pub open spec fn holds_message(record: RecordView, id: Seq<char>) -> bool {
    (record.kind == RecordKind::UserMessage || record.kind == RecordKind::AssistantMessage)
        && text_field(record.payload, "messageId"@) == Some(id)
}

/// The index of the last record that holds the message `id`.
pub open spec fn message_position(records: Seq<RecordView>, id: Seq<char>) -> Option<int>
    decreases records.len(),
{
    if records.len() == 0 {
        None
    } else if holds_message(records[records.len() - 1], id) {
        Some(records.len() - 1)
    } else {
        message_position(records.subrange(0, records.len() - 1), id)
    }
}

/// A message with the place of its record.
pub open spec fn placed_message(
    session: Seq<char>,
    records: Seq<RecordView>,
    message: ReducedMessageView,
) -> Result<(int, MessageView), Seq<char>> {
    match message_position(records, message.id) {
        None => Err("message record missing for "@ + message.id),
        Some(at) => match message.turn {
            None => Err("projected message turnId is required"@),
            Some(turn) => Ok(
                (
                    at,
                    MessageView {
                        id: message.id,
                        session,
                        turn,
                        role: match message.role {
                            MessageRole::User => "user"@,
                            MessageRole::Assistant => "assistant"@,
                        },
                        content: message.text,
                        status: message.status,
                        created_at: records[at].at,
                        updated_at: message.updated_at,
                        run: message.run,
                    },
                ),
            ),
        },
    }
}

/// The messages with the places of their records, or the error of the first without one.
pub open spec fn placed_messages(
    session: Seq<char>,
    records: Seq<RecordView>,
    messages: Seq<ReducedMessageView>,
) -> Result<Seq<(int, MessageView)>, Seq<char>>
    decreases messages.len(),
{
    if messages.len() == 0 {
        Ok(Seq::empty())
    } else {
        let n = messages.len() - 1;
        match placed_messages(session, records, messages.subrange(0, n)) {
            Err(message) => Err(message),
            Ok(placed) => match placed_message(session, records, messages[n]) {
                Err(message) => Err(message),
                Ok(item) => Ok(placed.push(item)),
            },
        }
    }
}

proof fn lemma_placed_error(
    session: Seq<char>,
    records: Seq<RecordView>,
    messages: Seq<ReducedMessageView>,
    n: int,
)
    requires
        0 <= n <= messages.len(),
        placed_messages(session, records, messages.subrange(0, n)) is Err,
    ensures
        placed_messages(session, records, messages) == placed_messages(
            session,
            records,
            messages.subrange(0, n),
        ),
    decreases messages.len() - n,
{
    if n == messages.len() {
        assert(messages.subrange(0, n) =~= messages);
    } else {
        let next = messages.subrange(0, n + 1);
        assert(next.subrange(0, next.len() - 1) =~= messages.subrange(0, n));
        lemma_placed_error(session, records, messages, n + 1);
    }
}

fn find_message_record(records: &Vec<SessionLogRecord>, id: &str) -> (result: Option<usize>)
    ensures
        match result {
            Some(at) => at < records@.len() && message_position(record_views(records@), id@)
                == Some(at as int),
            None => message_position(record_views(records@), id@) == None::<int>,
        },
{
    let ghost all = record_views(records@);
    let mut i: usize = records.len();
    assert(all.subrange(0, all.len() as int) =~= all);
    while i > 0
        invariant
            i <= records.len(),
            all == record_views(records@),
            message_position(all, id@) == message_position(all.subrange(0, i as int), id@),
        decreases i,
    {
        i = i - 1;
        let record = &records[i];
        proof {
            let rest = all.subrange(0, i + 1);
            assert(rest[rest.len() - 1] == record@);
            assert(rest.subrange(0, rest.len() - 1) =~= all.subrange(0, i as int));
        }
        if record.kind == RecordKind::UserMessage || record.kind == RecordKind::AssistantMessage {
            let found = match record.payload.get_text("messageId") {
                Some(message_id) => text_equals(message_id.as_str(), id),
                None => false,
            };
            if found {
                return Some(i);
            }
        }
    }
    None
}

/// The places and messages of a list of pairs.
pub open spec fn placed_views(items: Seq<(usize, ProjectedChatMessage)>) -> Seq<
    (int, MessageView),
> {
    Seq::new(items.len(), |i: int| (items[i].0 as int, items[i].1@))
}

/// Whether the places ascend.
pub open spec fn places_ascend(items: Seq<(int, MessageView)>) -> bool {
    forall|i: int, j: int|
        0 <= i < j < items.len() ==> (#[trigger] items[i]).0 <= (#[trigger] items[j]).0
}

/// The messages of a session, in the order of their records: each pair holds the place of the
/// message's record.
pub fn project_chat_messages_from_records(
    session_id: &str,
    records: &Vec<SessionLogRecord>,
    messages: &Vec<ReducedMessage>,
) -> (result: Result<Vec<(usize, ProjectedChatMessage)>, String>)
    ensures
        match result {
            Ok(list) => placed_messages(
                session_id@,
                record_views(records@),
                reduced_views(messages@),
            ) matches Ok(placed) && places_ascend(placed_views(list@)) && placed_views(
                list@,
            ).to_multiset() == placed.to_multiset(),
            Err(message) => placed_messages(
                session_id@,
                record_views(records@),
                reduced_views(messages@),
            ) == Err::<Seq<(int, MessageView)>, Seq<char>>(message@),
        },
{
    let ghost all = reduced_views(messages@);
    let ghost log = record_views(records@);
    let ghost mut placed = Seq::<(int, MessageView)>::empty();
    let mut sorted: Vec<(usize, ProjectedChatMessage)> = Vec::new();
    let mut i: usize = 0;
    assert(all.subrange(0, 0) =~= Seq::empty());
    assert(placed_views(sorted@) =~= Seq::empty());
    while i < messages.len()
        invariant
            i <= messages.len(),
            all == reduced_views(messages@),
            log == record_views(records@),
            placed_messages(session_id@, log, all.subrange(0, i as int)) == Ok::<
                Seq<(int, MessageView)>,
                Seq<char>,
            >(placed),
            places_ascend(placed_views(sorted@)),
            placed_views(sorted@).to_multiset() == placed.to_multiset(),
        decreases messages.len() - i,
    {
        let message = &messages[i];
        let ghost next = all.subrange(0, i + 1);
        proof {
            assert(next.subrange(0, next.len() - 1) =~= all.subrange(0, i as int));
            assert(next[next.len() - 1] == message@);
            if placed_messages(session_id@, log, next) is Err {
                lemma_placed_error(session_id@, log, all, i + 1);
            }
        }
        let position: usize = match find_message_record(records, message.message_id.as_str()) {
            None => {
                return Err(concat2("message record missing for ", message.message_id.as_str()));
            },
            Some(at) => at,
        };
        let turn_id: String = match &message.turn_id {
            None => {
                return Err("projected message turnId is required".to_owned());
            },
            Some(turn_id) => turn_id.clone(),
        };
        let role = match message.role {
            MessageRole::User => "user",
            MessageRole::Assistant => "assistant",
        };
        let item = ProjectedChatMessage {
            id: message.message_id.clone(),
            session_id: session_id.to_owned(),
            turn_id,
            role: role.to_owned(),
            content: message.text.clone(),
            status: copy_optional(&message.status),
            created_at_ms: records[position].created_at_ms,
            updated_at_ms: message.updated_at_ms,
            agent_run_id: copy_optional(&message.agent_run_id),
        };
        assert(log[position as int] == records@[position as int]@);
        let ghost view = (position as int, item@);
        assert(placed_message(session_id@, log, message@) == Ok::<(int, MessageView), Seq<char>>(
            view,
        ));
        let ghost before = placed_views(sorted@);
        let mut at: usize = sorted.len();
        while at > 0 && position < sorted[at - 1].0
            invariant
                at <= sorted.len(),
                before == placed_views(sorted@),
                forall|j: int| at <= j < sorted.len() ==> position < (#[trigger] before[j]).0,
            decreases at,
        {
            assert(before[at - 1].0 == sorted@[at - 1].0);
            at = at - 1;
        }
        proof {
            if at > 0 {
                assert(before[at - 1].0 == sorted@[at - 1].0);
            }
        }
        sorted.insert(at, (position, item));
        proof {
            let after = placed_views(sorted@);
            assert(after =~= before.insert(at as int, view));
            vstd::seq_lib::to_multiset_insert(before, at as int, view);
            vstd::seq_lib::to_multiset_build(placed, view);
            assert forall|a: int, b: int| 0 <= a < b < after.len() implies (
            #[trigger] after[a]).0 <= (#[trigger] after[b]).0 by {
                let x = if a < at { a } else { a - 1 };
                let y = if b < at { b } else { b - 1 };
                if a != at && b != at {
                    assert(after[a] == before[x] && after[b] == before[y]);
                } else if b == at {
                    assert(after[a] == before[a]);
                    assert(before[at - 1].0 <= position);
                    if a < at - 1 {
                        assert(before[a].0 <= before[at - 1].0);
                    }
                } else {
                    assert(after[b] == before[y]);
                }
            }
            placed = placed.push(view);
        }
        i = i + 1;
    }
    assert(all.subrange(0, all.len() as int) =~= all);
    Ok(sorted)
}

/// The time at which the call `call_id` was recorded first.
pub open spec fn call_recorded_at(records: Seq<RecordView>, call_id: Seq<char>) -> Option<i64>
    decreases records.len(),
{
    if records.len() == 0 {
        None
    } else if records[0].kind == RecordKind::ToolCall && text_field(
        records[0].payload,
        "callId"@,
    ) == Some(call_id) {
        Some(records[0].at)
    } else {
        call_recorded_at(records.subrange(1, records.len() as int), call_id)
    }
}

/// The time at which a call that is not closed was recorded.
pub fn incomplete_call_time(records: &Vec<SessionLogRecord>, call_id: &str) -> (result: Result<
    i64,
    String,
>)
    ensures
        match result {
            Ok(at) => call_recorded_at(record_views(records@), call_id@) == Some(at),
            Err(message) => call_recorded_at(record_views(records@), call_id@) == None::<i64>
                && message@ == "incomplete ToolCall record is missing: callId="@ + call_id@,
        },
{
    let ghost all = record_views(records@);
    let mut i: usize = 0;
    assert(all.subrange(0, all.len() as int) =~= all);
    while i < records.len()
        invariant
            i <= records.len(),
            all == record_views(records@),
            call_recorded_at(all, call_id@) == call_recorded_at(
                all.subrange(i as int, all.len() as int),
                call_id@,
            ),
        decreases records.len() - i,
    {
        let record = &records[i];
        proof {
            let rest = all.subrange(i as int, all.len() as int);
            assert(rest[0] == record@);
            assert(rest.subrange(1, rest.len() as int) =~= all.subrange(i + 1, all.len() as int));
        }
        if record.kind == RecordKind::ToolCall {
            let found = match record.payload.get_text("callId") {
                Some(id) => text_equals(id.as_str(), call_id),
                None => false,
            };
            if found {
                return Ok(record.created_at_ms);
            }
        }
        i = i + 1;
    }
    Err(concat2("incomplete ToolCall record is missing: callId=", call_id))
}

/// Whether a record of the log is that of a message.
pub open spec fn records_message(record: SessionLogRecord, id: Seq<char>) -> bool {
    (record.kind == RecordKind::UserMessage || record.kind == RecordKind::AssistantMessage)
        && text_field(record.payload@, "messageId"@) == Some(id)
}

/// Whether the record at a place is the last one of a message.
pub open spec fn last_records_message(
    records: Seq<SessionLogRecord>,
    id: Seq<char>,
    at: int,
) -> bool {
    &&& 0 <= at < records.len()
    &&& records_message(records[at], id)
    &&& forall|k: int| at < k < records.len() ==> !records_message(#[trigger] records[k], id)
}

/// Whether a pair of a list shows a message: what the message says, whose it is and when it last
/// changed, with the place and the time of the last record of the message.
pub open spec fn shows(
    session: Seq<char>,
    records: Seq<SessionLogRecord>,
    message: ReducedMessage,
    item: (usize, ProjectedChatMessage),
) -> bool {
    &&& last_records_message(records, message.message_id@, item.0 as int)
    &&& item.1.created_at_ms == records[item.0 as int].created_at_ms
    &&& item.1.id@ == message.message_id@
    &&& item.1.session_id@ == session
    &&& message.turn_id matches Some(turn) && item.1.turn_id@ == turn@
    &&& message.role == MessageRole::User ==> item.1.role@ == "user"@
    &&& message.role == MessageRole::Assistant ==> item.1.role@ == "assistant"@
    &&& item.1.content@ == message.text@
    &&& item.1.updated_at_ms == message.updated_at_ms
    &&& match (item.1.status, message.status) {
        (Some(shown), Some(status)) => shown@ == status@,
        (None, None) => true,
        _ => false,
    }
    &&& match (item.1.agent_run_id, message.agent_run_id) {
        (Some(shown), Some(run)) => shown@ == run@,
        (None, None) => true,
        _ => false,
    }
}

proof fn lemma_message_position(records: Seq<SessionLogRecord>, id: Seq<char>)
    ensures
        match message_position(record_views(records), id) {
            Some(at) => last_records_message(records, id, at),
            None => forall|k: int|
                0 <= k < records.len() ==> !records_message(#[trigger] records[k], id),
        },
    decreases records.len(),
{
    if records.len() > 0 {
        let n = records.len() - 1;
        let init = records.subrange(0, n);
        let all = record_views(records);
        lemma_message_position(init, id);
        assert(record_views(init) =~= all.subrange(0, n));
        assert(all[n] == records[n]@);
        assert(records_message(records[n], id) == holds_message(all[n], id));
        match message_position(all, id) {
            Some(at) => {
                assert forall|k: int| at < k < records.len() implies !records_message(
                    #[trigger] records[k],
                    id,
                ) by {
                    if k < n {
                        assert(init[k] == records[k]);
                    }
                }
                if at < n {
                    assert(init[at] == records[at]);
                }
            },
            None => {
                assert forall|k: int| 0 <= k < records.len() implies !records_message(
                    #[trigger] records[k],
                    id,
                ) by {
                    if k < n {
                        assert(init[k] == records[k]);
                    }
                }
            },
        }
    }
}

proof fn lemma_placed(
    session: Seq<char>,
    records: Seq<RecordView>,
    messages: Seq<ReducedMessageView>,
)
    ensures
        placed_messages(session, records, messages) is Ok <==> forall|i: int|
            0 <= i < messages.len() ==> placed_message(session, records, #[trigger] messages[i])
                is Ok,
        placed_messages(session, records, messages) matches Ok(placed) ==> placed.len()
            == messages.len() && forall|i: int|
            0 <= i < messages.len() ==> placed_message(session, records, #[trigger] messages[i])
                == Ok::<(int, MessageView), Seq<char>>(placed[i]),
    decreases messages.len(),
{
    if messages.len() > 0 {
        let n = messages.len() - 1;
        let init = messages.subrange(0, n);
        lemma_placed(session, records, init);
        assert forall|i: int| 0 <= i < n implies #[trigger] init[i] == messages[i] by {}
        assert(forall|i: int| 0 <= i < n ==> #[trigger] messages[i] == init[i]);
        if placed_messages(session, records, messages) is Ok {
            let placed = placed_messages(session, records, messages)->Ok_0;
            assert forall|i: int| 0 <= i < messages.len() implies placed_message(
                session,
                records,
                #[trigger] messages[i],
            ) == Ok::<(int, MessageView), Seq<char>>(placed[i]) by {
                if i < n {
                    assert(messages[i] == init[i]);
                }
            }
        }
    }
}

/// A session shows exactly its messages, each with what it says and in the order of their records:
/// every message is shown by one of the pairs, every pair shows one of the messages, and there are
/// as many of the one as of the other.
pub proof fn law_messages_are_shown_as_they_were_sent(
    session: Seq<char>,
    records: Seq<SessionLogRecord>,
    messages: Seq<ReducedMessage>,
    list: Seq<(usize, ProjectedChatMessage)>,
)
    requires
        placed_messages(session, record_views(records), reduced_views(messages)) is Ok,
        places_ascend(placed_views(list)),
        placed_views(list).to_multiset() == placed_messages(
            session,
            record_views(records),
            reduced_views(messages),
        )->Ok_0.to_multiset(),
    ensures
        list.len() == messages.len(),
        forall|i: int|
            0 <= i < messages.len() ==> exists|j: int|
                0 <= j < list.len() && shows(session, records, #[trigger] messages[i], #[trigger] list[j]),
        forall|j: int|
            0 <= j < list.len() ==> exists|i: int|
                0 <= i < messages.len() && shows(session, records, #[trigger] messages[i], #[trigger] list[j]),
        forall|i: int, j: int|
            0 <= i < j < list.len() ==> (#[trigger] list[i]).0 <= (#[trigger] list[j]).0,
{
    broadcast use vstd::seq_lib::group_to_multiset_ensures;

    let log = record_views(records);
    let all = reduced_views(messages);
    let placed = placed_messages(session, log, all)->Ok_0;
    let views = placed_views(list);
    lemma_placed(session, log, all);
    assert(views.len() == views.to_multiset().len());
    assert(placed.len() == placed.to_multiset().len());
    assert forall|i: int, j: int|
        0 <= i < messages.len() && 0 <= j < list.len() && placed[i] == views[j] implies shows(
        session,
        records,
        #[trigger] messages[i],
        #[trigger] list[j],
    ) by {
        assert(all[i] == messages[i]@);
        assert(placed_message(session, log, all[i]) is Ok);
        lemma_message_position(records, messages[i].message_id@);
        assert(views[j] == (list[j].0 as int, list[j].1@));
        assert(log[list[j].0 as int] == records[list[j].0 as int]@);
    }
    assert forall|i: int| 0 <= i < messages.len() implies exists|j: int|
        0 <= j < list.len() && shows(session, records, #[trigger] messages[i], #[trigger] list[j]) by {
        assert(placed.contains(placed[i]));
        assert(placed.to_multiset().contains(placed[i]));
        assert(views.contains(placed[i]));
        let j = choose|j: int| 0 <= j < views.len() && views[j] == placed[i];
        assert(shows(session, records, messages[i], list[j]));
    }
    assert forall|j: int| 0 <= j < list.len() implies exists|i: int|
        0 <= i < messages.len() && shows(session, records, #[trigger] messages[i], #[trigger] list[j]) by {
        assert(views.contains(views[j]));
        assert(views.to_multiset().contains(views[j]));
        assert(placed.contains(views[j]));
        let i = choose|i: int| 0 <= i < placed.len() && placed[i] == views[j];
        assert(shows(session, records, messages[i], list[j]));
    }
    assert forall|i: int, j: int| 0 <= i < j < list.len() implies (#[trigger] list[i]).0 <= (
    #[trigger] list[j]).0 by {
        assert(views[i].0 <= views[j].0);
    }
}

/// Whether a message has a turn and a record.
pub open spec fn showable(records: Seq<SessionLogRecord>, message: ReducedMessage) -> bool {
    message.turn_id is Some && exists|k: int|
        0 <= k < records.len() && records_message(#[trigger] records[k], message.message_id@)
}

/// The messages of a session can be shown exactly where each of them has a turn and a record, and
/// one that lacks either is reported.
pub proof fn law_messages_are_shown_where_all_are_recorded(
    session: Seq<char>,
    records: Seq<SessionLogRecord>,
    messages: Seq<ReducedMessage>,
)
    ensures
        placed_messages(session, record_views(records), reduced_views(messages)) is Ok <==> forall|
            i: int,
        |
            0 <= i < messages.len() ==> showable(records, #[trigger] messages[i]),
        placed_messages(session, record_views(records), reduced_views(messages)) matches Err(error)
            ==> exists|i: int|
            0 <= i < messages.len() && error == (if forall|k: int|
                0 <= k < records.len() ==> !records_message(
                    #[trigger] records[k],
                    messages[i].message_id@,
                ) {
                "message record missing for "@ + (#[trigger] messages[i]).message_id@
            } else {
                "projected message turnId is required"@
            }),
    decreases messages.len(),
{
    let log = record_views(records);
    let all = reduced_views(messages);
    lemma_placed(session, log, all);
    assert forall|i: int| 0 <= i < messages.len() implies (placed_message(
        session,
        log,
        #[trigger] all[i],
    ) is Ok <==> showable(records, messages[i])) by {
        assert(all[i] == messages[i]@);
        lemma_message_position(records, messages[i].message_id@);
        if let Some(at) = message_position(log, messages[i].message_id@) {
            assert(records_message(records[at], messages[i].message_id@));
        }
    }
    if placed_messages(session, log, all) is Ok {
        assert forall|i: int| 0 <= i < messages.len() implies showable(
            records,
            #[trigger] messages[i],
        ) by {
            assert(placed_message(session, log, all[i]) is Ok);
        }
    } else {
        let i = choose|i: int|
            0 <= i < all.len() && placed_message(session, log, #[trigger] all[i]) is Err;
        assert(!showable(records, messages[i]));
    }
    if messages.len() > 0 {
        let n = messages.len() - 1;
        let init = messages.subrange(0, n);
        assert(reduced_views(init) =~= all.subrange(0, n));
        law_messages_are_shown_where_all_are_recorded(session, records, init);
        if placed_messages(session, log, all) is Err {
            let error = placed_messages(session, log, all)->Err_0;
            if placed_messages(session, log, all.subrange(0, n)) is Err {
                let i = choose|i: int|
                    0 <= i < init.len() && error == (if forall|k: int|
                        0 <= k < records.len() ==> !records_message(
                            #[trigger] records[k],
                            init[i].message_id@,
                        ) {
                        "message record missing for "@ + (#[trigger] init[i]).message_id@
                    } else {
                        "projected message turnId is required"@
                    });
                assert(init[i] == messages[i]);
            } else {
                lemma_message_position(records, messages[n].message_id@);
                assert(all[n] == messages[n]@);
            }
        }
    }
}

/// Whether a record begins a run.
pub open spec fn begins_run(record: RecordView, id: Seq<char>) -> bool {
    record.kind == RecordKind::AgentRunStarted && record.run == Some(id)
}

/// Whether the record at a place is the first that begins a run.
pub open spec fn first_begins_run(records: Seq<RecordView>, n: int, id: Seq<char>, at: int) -> bool {
    &&& 0 <= at < n
    &&& begins_run(records[at], id)
    &&& forall|k: int| 0 <= k < at ==> !begins_run(#[trigger] records[k], id)
}

/// Whether a record ends a run badly.
pub open spec fn breaks_run(record: RecordView, id: Seq<char>) -> bool {
    record.run == Some(id) && (record.kind == RecordKind::AgentRunFailed || record.kind
        == RecordKind::AgentRunInterrupted)
}

/// Whether the record at a place, from `from` on and among the first `n`, is the last that ends a
/// run.
pub open spec fn last_ends(
    records: Seq<RecordView>,
    from: int,
    n: int,
    id: Seq<char>,
    at: int,
) -> bool {
    &&& from <= at < n
    &&& terminal_record(records[at], id)
    &&& forall|k: int| at < k < n ==> !terminal_record(#[trigger] records[k], id)
}

/// Whether the record at a place, from `from` on and among the first `n`, is the last that ends a
/// run badly.
pub open spec fn last_breaks(
    records: Seq<RecordView>,
    from: int,
    n: int,
    id: Seq<char>,
    at: int,
) -> bool {
    &&& from <= at < n
    &&& breaks_run(records[at], id)
    &&& forall|k: int| at < k < n ==> !breaks_run(#[trigger] records[k], id)
}

/// The status that a record gives the run that it ends.
pub open spec fn ended_as(record: RecordView, status: Seq<char>) -> bool {
    match record.kind {
        RecordKind::AgentRunCompleted => status == "succeeded"@,
        RecordKind::AgentRunFailed => status == "failed"@,
        _ => text_field(record.payload, "reasonType"@) matches Some(reason) && {
            ||| reason == "cancelled"@ && status == "cancelled"@
            ||| (reason == "stopped"@ || reason == "shutdown"@ || reason
                == "provider_interrupted"@) && status == "stopped"@
        },
    }
}

/// Whether a run is what the first `n` records tell of it, of which the one at `start` begins it.
#[verifier::opaque]
pub open spec fn run_told(
    records: Seq<RecordView>,
    cwds: Seq<Result<Seq<char>, Seq<char>>>,
    n: int,
    run: RunView,
    start: int,
) -> bool {
    &&& first_begins_run(records, n, run.id, start)
    &&& run.session == records[start].session
    &&& Some(run.turn) == records[start].turn
    &&& cwds[start] matches Ok(cwd) && run.cwd == Some(cwd)
    &&& run.started_at == records[start].at
    &&& exists|k: int|
        start <= k < n && (#[trigger] records[k]).run == Some(run.id) && run.updated_at
            == records[k].at
    &&& forall|k: int|
        start <= k < n && (#[trigger] records[k]).run == Some(run.id) ==> records[k].at
            <= run.updated_at
    &&& run.last_event_at == Some(run.updated_at)
    &&& (forall|k: int| start <= k < n ==> !terminal_record(#[trigger] records[k], run.id))
        ==> run.status == "running"@ && run.completed_at is None
    &&& forall|k: int| #[trigger]
        last_ends(records, start, n, run.id, k) ==> run.completed_at == Some(records[k].at)
            && ended_as(records[k], run.status)
    &&& (forall|k: int| start <= k < n ==> !breaks_run(#[trigger] records[k], run.id))
        ==> run.error is None
    &&& forall|k: int| #[trigger]
        last_breaks(records, start, n, run.id, k) ==> run.error == text_field(
            records[k].payload,
            "message"@,
        )
}

/// Whether a run is what the first `n` records tell of it.
pub open spec fn told(
    records: Seq<RecordView>,
    cwds: Seq<Result<Seq<char>, Seq<char>>>,
    n: int,
    run: RunView,
) -> bool {
    exists|start: int| run_told(records, cwds, n, run, start)
}

proof fn lemma_told_start(
    records: Seq<RecordView>,
    cwds: Seq<Result<Seq<char>, Seq<char>>>,
    n: int,
    run: RunView,
    start: int,
)
    requires
        run_told(records, cwds, n, run, start),
    ensures
        first_begins_run(records, n, run.id, start),
{
    reveal(run_told);
}

proof fn lemma_run_told_on(
    records: Seq<RecordView>,
    cwds: Seq<Result<Seq<char>, Seq<char>>>,
    n: int,
    run: RunView,
    start: int,
)
    requires
        0 <= n < records.len(),
        run_told(records, cwds, n, run, start),
    ensures
        records[n].run != Some(run.id) ==> run_told(records, cwds, n + 1, run, start),
        records[n].run == Some(run.id) ==> (run_after(run, records[n]) matches Ok(next)
            ==> run_told(records, cwds, n + 1, next, start)),
{
    reveal(run_told);
    let id = run.id;
    let record = records[n];
    if record.run != Some(id) {
        assert forall|k: int| #[trigger] last_ends(records, start, n + 1, id, k) implies last_ends(
            records,
            start,
            n,
            id,
            k,
        ) by {}
        assert forall|k: int| #[trigger] last_breaks(records, start, n + 1, id, k) implies last_breaks(
            records,
            start,
            n,
            id,
            k,
        ) by {}
        if forall|k: int| start <= k < n + 1 ==> !terminal_record(#[trigger] records[k], id) {
            assert(forall|k: int| start <= k < n ==> !terminal_record(#[trigger] records[k], id));
        }
        if forall|k: int| start <= k < n + 1 ==> !breaks_run(#[trigger] records[k], id) {
            assert(forall|k: int| start <= k < n ==> !breaks_run(#[trigger] records[k], id));
        }
    } else if run_after(run, record) is Ok {
        let next = run_after(run, record)->Ok_0;
        assert(next.id == id);
        let seen = choose|k: int|
            start <= k < n && (#[trigger] records[k]).run == Some(id) && run.updated_at
                == records[k].at;
        if next.updated_at == record.at {
            assert(start <= n < n + 1 && records[n].run == Some(id));
        } else {
            assert(records[seen].at == next.updated_at);
        }
        assert forall|k: int|
            start <= k < n + 1 && (#[trigger] records[k]).run == Some(id) implies records[k].at
            <= next.updated_at by {
            if k < n {
                assert(records[k].at <= run.updated_at);
            }
        }
        if terminal_record(record, id) {
            assert forall|k: int| #[trigger] last_ends(records, start, n + 1, id, k) implies k == n by {
                if k < n {
                    assert(!terminal_record(records[n], id));
                }
            }
            assert(last_ends(records, start, n + 1, id, n));
        } else {
            assert forall|k: int| #[trigger] last_ends(records, start, n + 1, id, k) implies last_ends(
                records,
                start,
                n,
                id,
                k,
            ) by {}
            if forall|k: int| start <= k < n + 1 ==> !terminal_record(#[trigger] records[k], id) {
                assert(forall|k: int|
                    start <= k < n ==> !terminal_record(#[trigger] records[k], id));
            }
        }
        if breaks_run(record, id) {
            assert forall|k: int| #[trigger] last_breaks(records, start, n + 1, id, k) implies k
                == n by {
                if k < n {
                    assert(!breaks_run(records[n], id));
                }
            }
            assert(last_breaks(records, start, n + 1, id, n));
        } else {
            assert forall|k: int| #[trigger] last_breaks(records, start, n + 1, id, k) implies last_breaks(
                records,
                start,
                n,
                id,
                k,
            ) by {}
            if forall|k: int| start <= k < n + 1 ==> !breaks_run(#[trigger] records[k], id) {
                assert(forall|k: int| start <= k < n ==> !breaks_run(#[trigger] records[k], id));
            }
        }
    }
}

proof fn lemma_run_told_start(
    records: Seq<RecordView>,
    cwds: Seq<Result<Seq<char>, Seq<char>>>,
    n: int,
)
    requires
        0 <= n < records.len(),
        records[n].run is Some,
        records[n].kind == RecordKind::AgentRunStarted,
        records[n].turn is Some,
        cwds[n] is Ok,
        forall|k: int| 0 <= k < n ==> !begins_run(#[trigger] records[k], records[n].run->0),
    ensures
        run_after(started_run(records[n], cwds[n]->Ok_0), records[n]) matches Ok(run) && run_told(
            records,
            cwds,
            n + 1,
            run,
            n,
        ),
{
    reveal(run_told);
    let id = records[n].run->0;
    let run = run_after(started_run(records[n], cwds[n]->Ok_0), records[n])->Ok_0;
    assert(first_begins_run(records, n + 1, id, n));
    assert(records[n].run == Some(run.id));
    assert forall|k: int| #[trigger] last_ends(records, n, n + 1, id, k) implies false by {
        assert(k == n);
    }
    assert forall|k: int| #[trigger] last_breaks(records, n, n + 1, id, k) implies false by {
        assert(k == n);
    }
}

/// Whether a run begins at a place or before it.
pub open spec fn begun(records: Seq<RecordView>, n: int, id: Seq<char>, at: int) -> bool {
    exists|start: int| start <= at && first_begins_run(records, n, id, start)
}

#[verifier::rlimit(60)]
proof fn lemma_runs_told(
    records: Seq<RecordView>,
    cwds: Seq<Result<Seq<char>, Seq<char>>>,
    n: int,
    runs: Seq<RunView>,
)
    requires
        0 <= n <= records.len(),
        projected(records.subrange(0, n), cwds) == Ok::<Seq<RunView>, Seq<char>>(runs),
    ensures
        forall|i: int|
            0 <= i < runs.len() ==> told(records, cwds, n, #[trigger] runs[i]),
        forall|k: int|
            0 <= k < n && (#[trigger] records[k]).run is Some && records[k].kind
                != RecordKind::SessionMeta ==> has_run(runs, records[k].run->0) && begun(
                records,
                n,
                records[k].run->0,
                k,
            ),
    decreases n,
{
    if n > 0 {
        let m = n - 1;
        let prefix = records.subrange(0, n);
        assert(prefix.subrange(0, m) =~= records.subrange(0, m));
        let before = projected(records.subrange(0, m), cwds)->Ok_0;
        let record = records[m];
        lemma_runs_told(records, cwds, m, before);
        law_projected_runs_are_consistent(records.subrange(0, m), cwds);
        assert(projected_one(before, record, cwds[m]) == Ok::<Seq<RunView>, Seq<char>>(runs));
        if record.run is Some && !(record.kind == RecordKind::SessionMeta && !has_run(
            before,
            record.run->0,
        )) {
            let id = record.run->0;
            let fresh = record.kind == RecordKind::AgentRunStarted && !has_run(before, id);
            let known = if fresh {
                before.push(started_run(record, cwds[m]->Ok_0))
            } else {
                before
            };
            if fresh {
                assert(known[before.len() as int].id == id);
                assert(has_run(known, id));
                assert forall|k: int| 0 <= k < m implies !begins_run(#[trigger] records[k], id) by {
                    if begins_run(records[k], id) {
                        assert(has_run(before, id));
                    }
                }
            }
            let at = run_index(known, id);
            assert(0 <= at < known.len() && known[at].id == id);
            if fresh && at < before.len() {
                assert(before[at].id == id);
            }
            assert(runs.len() == known.len());
            assert(runs[at].id == id);
            assert forall|i: int| 0 <= i < runs.len() implies told(
                records,
                cwds,
                n,
                #[trigger] runs[i],
            ) by {
                if fresh && i == before.len() {
                    lemma_run_told_start(records, cwds, m);
                    assert(at == i);
                    assert(run_told(records, cwds, n, runs[i], m));
                } else {
                    assert(known[i] == before[i]);
                    assert(told(records, cwds, m, before[i]));
                    let start = choose|start: int| run_told(records, cwds, m, before[i], start);
                    lemma_run_told_on(records, cwds, m, before[i], start);
                    if i != at {
                        assert(before[i].id != id) by {
                            if !fresh {
                                if i < at {
                                    assert(before[i].id != before[at].id);
                                } else {
                                    assert(before[at].id != before[i].id);
                                }
                            } else if before[i].id == id {
                                assert(has_run(before, id));
                            }
                        }
                        assert(runs[i] == before[i]);
                    }
                    assert(run_told(records, cwds, n, runs[i], start));
                }
            }
            assert forall|k: int|
                0 <= k < n && (#[trigger] records[k]).run is Some && records[k].kind
                    != RecordKind::SessionMeta implies has_run(runs, records[k].run->0) && begun(
                records,
                n,
                records[k].run->0,
                k,
            ) by {
                if k < m {
                    let own = records[k].run->0;
                    let i = run_index(before, own);
                    assert(before[i].id == own);
                    assert(known[i].id == own);
                    assert(runs[i].id == own);
                    assert(begun(records, m, own, k));
                    let start = choose|start: int|
                        start <= k && first_begins_run(records, m, own, start);
                    assert(first_begins_run(records, n, own, start));
                } else if fresh {
                    assert(first_begins_run(records, n, id, m));
                } else {
                    let i = run_index(before, id);
                    assert(before[i].id == id);
                    assert(told(records, cwds, m, before[i]));
                    let start = choose|start: int| run_told(records, cwds, m, before[i], start);
                    lemma_told_start(records, cwds, m, before[i], start);
                    assert(first_begins_run(records, n, id, start));
                }
            }
        } else {
            assert(runs == before);
            assert forall|i: int| 0 <= i < runs.len() implies told(
                records,
                cwds,
                n,
                #[trigger] runs[i],
            ) by {
                assert(told(records, cwds, m, before[i]));
                let start = choose|start: int| run_told(records, cwds, m, before[i], start);
                lemma_run_told_on(records, cwds, m, before[i], start);
                if record.run == Some(before[i].id) {
                    assert(has_run(before, record.run->0));
                }
                assert(run_told(records, cwds, n, runs[i], start));
            }
            assert forall|k: int|
                0 <= k < n && (#[trigger] records[k]).run is Some && records[k].kind
                    != RecordKind::SessionMeta implies has_run(runs, records[k].run->0) && begun(
                records,
                n,
                records[k].run->0,
                k,
            ) by {
                let own = records[k].run->0;
                assert(k < m);
                assert(begun(records, m, own, k));
                let start = choose|start: int|
                    start <= k && first_begins_run(records, m, own, start);
                assert(first_begins_run(records, n, own, start));
            }
        }
    }
}

/// The runs of a log are what its records tell: each began with the first record that begins it,
/// was last seen at the latest time of its records, and is as its last record that ends it says, or
/// running where none does; and each record of a run has its run among them.
pub proof fn law_runs_are_what_their_records_tell(
    records: Seq<SessionLogRecord>,
    cwds: Seq<Result<String, String>>,
    runs: Seq<ProjectedAgentRun>,
)
    requires
        projected(record_views(records), outcome_views(cwds)) is Ok,
        runs_sorted(run_views(runs)),
        run_views(runs).to_multiset() == projected(
            record_views(records),
            outcome_views(cwds),
        )->Ok_0.to_multiset(),
    ensures
        forall|i: int|
            0 <= i < runs.len() ==> told(
                record_views(records),
                outcome_views(cwds),
                records.len() as int,
                (#[trigger] runs[i])@,
            ),
        forall|k: int|
            0 <= k < records.len() && (#[trigger] records[k]).agent_run_id is Some
                && records[k].kind != RecordKind::SessionMeta ==> exists|i: int|
                0 <= i < runs.len() && (#[trigger] runs[i]).agent_run_id@
                    == records[k].agent_run_id->0@,
        forall|i: int, j: int|
            0 <= i < j < runs.len() ==> (#[trigger] runs[i]).started_at_ms <= (
            #[trigger] runs[j]).started_at_ms,
{
    broadcast use vstd::seq_lib::group_to_multiset_ensures;

    let log = record_views(records);
    let dirs = outcome_views(cwds);
    let all = projected(log, dirs)->Ok_0;
    let views = run_views(runs);
    assert(log.subrange(0, log.len() as int) =~= log);
    lemma_runs_told(log, dirs, log.len() as int, all);
    assert forall|i: int| 0 <= i < runs.len() implies told(
        log,
        dirs,
        records.len() as int,
        (#[trigger] runs[i])@,
    ) by {
        assert(views[i] == runs[i]@);
        assert(views.contains(views[i]));
        assert(views.to_multiset().contains(views[i]));
        assert(all.contains(views[i]));
        let j = choose|j: int| 0 <= j < all.len() && all[j] == views[i];
        assert(told(log, dirs, log.len() as int, all[j]));
    }
    assert forall|k: int|
        0 <= k < records.len() && (#[trigger] records[k]).agent_run_id is Some && records[k].kind
            != RecordKind::SessionMeta implies exists|i: int|
        0 <= i < runs.len() && (#[trigger] runs[i]).agent_run_id@
            == records[k].agent_run_id->0@ by {
        assert(log[k] == records[k]@);
        let id = log[k].run->0;
        let j = run_index(all, id);
        assert(all[j].id == id);
        assert(all.contains(all[j]));
        assert(all.to_multiset().contains(all[j]));
        assert(views.contains(all[j]));
        let i = choose|i: int| 0 <= i < views.len() && views[i] == all[j];
        assert(views[i] == runs[i]@);
    }
    assert forall|i: int, j: int| 0 <= i < j < runs.len() implies (#[trigger] runs[i]).started_at_ms
        <= (#[trigger] runs[j]).started_at_ms by {
        assert(!run_before(views[j], views[i]));
    }
}

/// Whether a record fits into its log: one that begins a run names a turn and has a working
/// directory, one of a run stands behind the record that begins it unless it is about the session,
/// and one that interrupts a run gives a known reason.
pub open spec fn record_fits(
    records: Seq<RecordView>,
    cwds: Seq<Result<Seq<char>, Seq<char>>>,
    k: int,
) -> bool {
    records[k].run matches Some(id) ==> {
        &&& records[k].kind == RecordKind::AgentRunStarted ==> records[k].turn is Some && cwds[k]
            is Ok
        &&& records[k].kind != RecordKind::SessionMeta ==> begun(
            records,
            records.len() as int,
            id,
            k,
        )
        &&& records[k].kind == RecordKind::AgentRunInterrupted ==> (text_field(
            records[k].payload,
            "reasonType"@,
        ) matches Some(reason) && (reason == "cancelled"@ || reason == "stopped"@ || reason
            == "shutdown"@ || reason == "provider_interrupted"@))
    }
}

proof fn lemma_has_run(
    records: Seq<RecordView>,
    cwds: Seq<Result<Seq<char>, Seq<char>>>,
    m: int,
    runs: Seq<RunView>,
    id: Seq<char>,
)
    requires
        0 <= m <= records.len(),
        projected(records.subrange(0, m), cwds) == Ok::<Seq<RunView>, Seq<char>>(runs),
    ensures
        has_run(runs, id) <==> exists|start: int|
            first_begins_run(records, records.len() as int, id, start) && start < m,
{
    lemma_runs_told(records, cwds, m, runs);
    if has_run(runs, id) {
        let i = run_index(runs, id);
        assert(told(records, cwds, m, runs[i]));
        let start = choose|start: int| run_told(records, cwds, m, runs[i], start);
        lemma_told_start(records, cwds, m, runs[i], start);
        assert(first_begins_run(records, records.len() as int, id, start));
    }
    if exists|start: int| first_begins_run(records, records.len() as int, id, start) && start < m {
        let start = choose|start: int|
            first_begins_run(records, records.len() as int, id, start) && start < m;
        assert(records[start].run == Some(id));
    }
}

proof fn lemma_log_fits(
    records: Seq<RecordView>,
    cwds: Seq<Result<Seq<char>, Seq<char>>>,
    n: int,
)
    requires
        0 <= n <= records.len(),
    ensures
        projected(records.subrange(0, n), cwds) is Ok <==> forall|k: int|
            0 <= k < n ==> #[trigger] record_fits(records, cwds, k),
    decreases n,
{
    if n > 0 {
        let m = n - 1;
        lemma_log_fits(records, cwds, m);
        let prefix = records.subrange(0, n);
        assert(prefix.subrange(0, m) =~= records.subrange(0, m));
        if projected(records.subrange(0, m), cwds) is Ok {
            let before = projected(records.subrange(0, m), cwds)->Ok_0;
            let record = records[m];
            assert(projected(prefix, cwds) == projected_one(before, record, cwds[m]));
            if record.run is Some {
                let id = record.run->0;
                lemma_has_run(records, cwds, m, before, id);
                let fresh = record.kind == RecordKind::AgentRunStarted && !has_run(before, id);
                let known = if fresh {
                    before.push(started_run(record, cwds[m]->Ok_0))
                } else {
                    before
                };
                if has_run(before, id) {
                    let start = choose|start: int|
                        first_begins_run(records, records.len() as int, id, start) && start < m;
                    assert(begun(records, records.len() as int, id, m));
                }
                if fresh {
                    assert(known[before.len() as int].id == id);
                    assert(has_run(known, id));
                    assert(first_begins_run(records, records.len() as int, id, m)) by {
                        assert forall|k: int| 0 <= k < m implies !begins_run(
                            #[trigger] records[k],
                            id,
                        ) by {
                            if begins_run(records[k], id) {
                                lemma_runs_told(records, cwds, m, before);
                                assert(has_run(before, id));
                            }
                        }
                    }
                    assert(begun(records, records.len() as int, id, m));
                }
                if record.kind != RecordKind::AgentRunStarted && begun(
                    records,
                    records.len() as int,
                    id,
                    m,
                ) {
                    let start = choose|start: int|
                        start <= m && first_begins_run(records, records.len() as int, id, start);
                    assert(start < m);
                }
            }
            assert(projected(prefix, cwds) is Ok <==> record_fits(records, cwds, m));
        }
    }
}

/// A log can be projected exactly where each of its records fits into it.
pub proof fn law_logs_are_projected_where_every_record_fits(
    records: Seq<RecordView>,
    cwds: Seq<Result<Seq<char>, Seq<char>>>,
)
    ensures
        projected(records, cwds) is Ok <==> forall|k: int|
            0 <= k < records.len() ==> #[trigger] record_fits(records, cwds, k),
{
    assert(records.subrange(0, records.len() as int) =~= records);
    lemma_log_fits(records, cwds, records.len() as int);
}

/// A page has 200 items where no number is asked for, as many as are asked for where that is
/// between 1 and 1000, and else the nearest number between these; only the last page has fewer.
pub proof fn law_pages_are_as_long_as_asked(total: nat, start: nat, asked: nat)
    requires
        start <= total,
    ensures
        total - start >= 200 ==> page_end(total, start, None) == start + 200,
        total - start < 200 ==> page_end(total, start, None) == total,
        1 <= asked <= 1000 && total - start >= asked ==> page_end(total, start, Some(asked)) == start
            + asked,
        total - start < asked && total - start < 1000 ==> page_end(total, start, Some(asked))
            == total,
        asked == 0 && start < total ==> page_end(total, start, Some(asked)) == start + 1,
        asked > 1000 && total - start >= 1000 ==> page_end(total, start, Some(asked)) == start
            + 1000,
{
}

/// The stream of a run is made of exactly its records that are part of a stream, each once and in
/// the order of the log.
pub proof fn law_streams_hold_the_records_of_their_run(
    records: Seq<SessionLogRecord>,
    projects: Seq<bool>,
    run_id: Seq<char>,
    n: nat,
)
    requires
        n <= records.len() <= usize::MAX,
    ensures
        ({
            let list = stream_indices(record_views(records), projects, run_id, n);
            &&& forall|i: int| 0 <= i < list.len() ==> (#[trigger] list[i]) < n
            &&& forall|i: int, j: int|
                0 <= i < j < list.len() ==> #[trigger] list[i] < #[trigger] list[j]
            &&& forall|k: usize|
                k < n ==> (#[trigger] list.contains(k) <==> projects[k as int] && (
                records[k as int].agent_run_id matches Some(run) && run@ == run_id))
        }),
    decreases n,
{
    if n > 0 {
        let m = (n - 1) as nat;
        law_streams_hold_the_records_of_their_run(records, projects, run_id, m);
        let log = record_views(records);
        let before = stream_indices(log, projects, run_id, m);
        let list = stream_indices(log, projects, run_id, n);
        assert(log[m as int] == records[m as int]@);
        assert forall|k: usize| k < n implies (#[trigger] list.contains(k) <==> projects[k as int]
            && (records[k as int].agent_run_id matches Some(run) && run@ == run_id)) by {
            if k < m {
                assert(before.contains(k) <==> list.contains(k)) by {
                    if before.contains(k) {
                        let i = choose|i: int| 0 <= i < before.len() && before[i] == k;
                        assert(list[i] == k);
                    }
                    if list.contains(k) {
                        let i = choose|i: int| 0 <= i < list.len() && list[i] == k;
                        assert(i < before.len());
                        assert(before[i] == k);
                    }
                }
            } else {
                if streamed(log[m as int], run_id, projects[m as int]) {
                    assert(list[before.len() as int] == k);
                } else if list.contains(k) {
                    let i = choose|i: int| 0 <= i < list.len() && list[i] == k;
                    assert(before[i] < m);
                }
            }
        }
    }
}

/// Whether a list is the items of another at ascending places.
pub open spec fn taken_at(items: Seq<JsonView>, places: Seq<int>, taken: Seq<JsonView>) -> bool {
    &&& taken.len() == places.len()
    &&& forall|i: int|
        0 <= i < places.len() ==> 0 <= #[trigger] places[i] < items.len() && taken[i]
            == items[places[i]]
    &&& forall|i: int, j: int| 0 <= i < j < places.len() ==> #[trigger] places[i] < #[trigger] places[j]
}

/// Whether a stream item shows the event with an identity.
pub open spec fn shows_event(item: JsonView, id: Seq<char>) -> bool {
    field(item, "event"@) matches Some(event) && text_field(event, "id"@) == Some(id)
}

/// The items that are picked for a list of events are those that show one of them, all of those, in
/// their order.
pub proof fn law_picked_items_show_the_events(items: Seq<JsonView>, wanted: Seq<String>)
    ensures
        exists|places: Seq<int>|
            taken_at(items, places, wanted_items(items, wanted)) && forall|k: int|
                0 <= k < items.len() ==> (#[trigger] places.contains(k) <==> exists|w: int|
                    0 <= w < wanted.len() && shows_event(items[k], (#[trigger] wanted[w])@)),
    decreases items.len(),
{
    if items.len() == 0 {
        let places = Seq::<int>::empty();
        assert(taken_at(items, places, wanted_items(items, wanted)));
    } else {
        let n = items.len() - 1;
        let init = items.subrange(0, n);
        law_picked_items_show_the_events(init, wanted);
        let before = choose|places: Seq<int>|
            taken_at(init, places, wanted_items(init, wanted)) && forall|k: int|
                0 <= k < init.len() ==> (#[trigger] places.contains(k) <==> exists|w: int|
                    0 <= w < wanted.len() && shows_event(init[k], (#[trigger] wanted[w])@));
        let places = if item_wanted(items[n], wanted) {
            before.push(n)
        } else {
            before
        };
        let taken = wanted_items(items, wanted);
        assert forall|i: int| 0 <= i < places.len() implies 0 <= #[trigger] places[i] < items.len()
            && taken[i] == items[places[i]] by {
            if i < before.len() {
                assert(places[i] == before[i]);
                assert(init[before[i]] == items[before[i]]);
            }
        }
        assert(taken_at(items, places, taken));
        assert(item_wanted(items[n], wanted) <==> exists|w: int|
            0 <= w < wanted.len() && shows_event(items[n], (#[trigger] wanted[w])@)) by {
            if item_wanted(items[n], wanted) {
                let id = item_event_id(items[n])->0;
                let w = choose|w: int| 0 <= w < wanted.len() && (#[trigger] wanted[w])@ == id;
                assert(shows_event(items[n], wanted[w]@));
            }
            if exists|w: int|
                0 <= w < wanted.len() && shows_event(items[n], (#[trigger] wanted[w])@) {
                let w = choose|w: int|
                    0 <= w < wanted.len() && shows_event(items[n], (#[trigger] wanted[w])@);
                assert(lists(wanted, wanted[w]@));
            }
        }
        assert forall|k: int| 0 <= k < items.len() implies (#[trigger] places.contains(k)
            <==> exists|w: int|
            0 <= w < wanted.len() && shows_event(items[k], (#[trigger] wanted[w])@)) by {
            if k < n {
                assert(init[k] == items[k]);
                assert(places.contains(k) <==> before.contains(k)) by {
                    if before.contains(k) {
                        let i = choose|i: int| 0 <= i < before.len() && before[i] == k;
                        assert(places[i] == k);
                    }
                    if places.contains(k) {
                        let i = choose|i: int| 0 <= i < places.len() && places[i] == k;
                        assert(before[i] == k);
                    }
                }
            } else {
                if item_wanted(items[n], wanted) {
                    assert(places[before.len() as int] == n);
                } else if places.contains(k) {
                    let i = choose|i: int| 0 <= i < places.len() && places[i] == k;
                    assert(before[i] < n);
                }
            }
        }
    }
}

/// Whether a record of the log ends a run.
pub open spec fn ends_run(record: SessionLogRecord, run_id: Seq<char>) -> bool {
    (record.agent_run_id matches Some(run) && run@ == run_id) && (record.kind
        == RecordKind::AgentRunCompleted || record.kind == RecordKind::AgentRunFailed || record.kind
        == RecordKind::AgentRunInterrupted)
}

/// Whether the record at a place is the last that ends a run.
pub open spec fn last_ends_run(
    records: Seq<SessionLogRecord>,
    run_id: Seq<char>,
    at: int,
) -> bool {
    &&& 0 <= at < records.len()
    &&& ends_run(records[at], run_id)
    &&& forall|k: int| at < k < records.len() ==> !ends_run(#[trigger] records[k], run_id)
}

proof fn lemma_last_terminal(records: Seq<SessionLogRecord>, run_id: Seq<char>)
    ensures
        match last_terminal(record_views(records), run_id) {
            Some(id) => exists|at: int|
                last_ends_run(records, run_id, at) && records[at].event_id@ == id,
            None => forall|k: int| 0 <= k < records.len() ==> !ends_run(#[trigger] records[k], run_id),
        },
    decreases records.len(),
{
    if records.len() > 0 {
        let n = records.len() - 1;
        let init = records.subrange(0, n);
        let all = record_views(records);
        lemma_last_terminal(init, run_id);
        assert(record_views(init) =~= all.subrange(0, n));
        assert(all[n] == records[n]@);
        if ends_run(records[n], run_id) {
            assert(last_ends_run(records, run_id, n));
        } else {
            match last_terminal(all, run_id) {
                Some(id) => {
                    let at = choose|at: int|
                        last_ends_run(init, run_id, at) && init[at].event_id@ == id;
                    assert(init[at] == records[at]);
                    assert forall|k: int| at < k < records.len() implies !ends_run(
                        #[trigger] records[k],
                        run_id,
                    ) by {
                        if k < n {
                            assert(init[k] == records[k]);
                        }
                    }
                    assert(last_ends_run(records, run_id, at));
                },
                None => {
                    assert forall|k: int| 0 <= k < records.len() implies !ends_run(
                        #[trigger] records[k],
                        run_id,
                    ) by {
                        if k < n {
                            assert(init[k] == records[k]);
                        }
                    }
                },
            }
        }
    }
}

/// Whether the item at a place is the first that shows an event.
pub open spec fn first_shows(items: Seq<JsonView>, id: Seq<char>, at: int) -> bool {
    &&& 0 <= at < items.len()
    &&& shows_event(items[at], id)
    &&& forall|k: int| 0 <= k < at ==> !shows_event(#[trigger] items[k], id)
}

proof fn lemma_item_for(items: Seq<JsonView>, id: Seq<char>)
    ensures
        match item_for(items, id) {
            Some(item) => exists|at: int| first_shows(items, id, at) && items[at] == item,
            None => forall|k: int| 0 <= k < items.len() ==> !shows_event(#[trigger] items[k], id),
        },
    decreases items.len(),
{
    if items.len() > 0 {
        let rest = items.subrange(1, items.len() as int);
        lemma_item_for(rest, id);
        if shows_event(items[0], id) {
            assert(first_shows(items, id, 0));
        } else {
            match item_for(rest, id) {
                Some(item) => {
                    let at = choose|at: int| first_shows(rest, id, at) && rest[at] == item;
                    assert(rest[at] == items[at + 1]);
                    assert forall|k: int| 0 <= k < at + 1 implies !shows_event(
                        #[trigger] items[k],
                        id,
                    ) by {
                        if k > 0 {
                            assert(rest[k - 1] == items[k]);
                        }
                    }
                    assert(first_shows(items, id, at + 1));
                },
                None => {
                    assert forall|k: int| 0 <= k < items.len() implies !shows_event(
                        #[trigger] items[k],
                        id,
                    ) by {
                        if k > 0 {
                            assert(rest[k - 1] == items[k]);
                        }
                    }
                },
            }
        }
    }
}

/// What shows how a run ended is the first item for the last record that ends it, an event of the
/// session; there is such an item or the answer is an error.
pub proof fn law_the_end_of_a_run_is_shown_by_its_last_record(
    records: Seq<SessionLogRecord>,
    items: Seq<JsonView>,
    run_id: Seq<char>,
)
    ensures
        terminal_item(record_views(records), items, run_id) matches Ok(item) ==> {
            &&& text_field(item, "type"@) == Some("session_event"@)
            &&& exists|at: int, to: int| #[trigger]
                last_ends_run(records, run_id, at) && #[trigger] first_shows(
                    items,
                    records[at].event_id@,
                    to,
                ) && items[to] == item
        },
        forall|at: int, to: int| #[trigger]
            last_ends_run(records, run_id, at) && #[trigger] first_shows(
                items,
                records[at].event_id@,
                to,
            ) && text_field(items[to], "type"@) == Some("session_event"@) ==> terminal_item(
                record_views(records),
                items,
                run_id,
            ) == Ok::<JsonView, Seq<char>>(items[to]),
{
    let log = record_views(records);
    lemma_last_terminal(records, run_id);
    if last_terminal(log, run_id) is Some {
        lemma_item_for(items, last_terminal(log, run_id)->0);
    }
    assert forall|at: int, to: int| #[trigger]
        last_ends_run(records, run_id, at) && #[trigger] first_shows(
            items,
            records[at].event_id@,
            to,
        ) && text_field(items[to], "type"@) == Some("session_event"@) implies terminal_item(
        log,
        items,
        run_id,
    ) == Ok::<JsonView, Seq<char>>(items[to]) by {
        assert(ends_run(records[at], run_id));
        let id = last_terminal(log, run_id)->0;
        let found = choose|found: int|
            last_ends_run(records, run_id, found) && records[found].event_id@ == id;
        if found < at {
            assert(!ends_run(records[at], run_id));
        }
        if at < found {
            assert(!ends_run(records[found], run_id));
        }
        assert(shows_event(items[to], id));
        let item = item_for(items, id)->0;
        let first = choose|first: int| first_shows(items, id, first) && items[first] == item;
        if first < to {
            assert(!shows_event(items[first], id));
        }
        if to < first {
            assert(!shows_event(items[to], id));
        }
    }
}

/// Whether a record of the log is what was planned to end a run.
pub open spec fn written_as(record: RecordView, planned: TerminalRecord) -> bool {
    match planned {
        TerminalRecord::Completed => record.kind == RecordKind::AgentRunCompleted,
        TerminalRecord::Failed { message } => record.kind == RecordKind::AgentRunFailed
            && text_field(record.payload, "message"@) == Some(message@),
        TerminalRecord::Interrupted { reason_type, message } => record.kind
            == RecordKind::AgentRunInterrupted && text_field(record.payload, "reasonType"@) == Some(
            reason_type@,
        ) && text_field(record.payload, "message"@) == Some(message@),
    }
}

/// A run that is ended with a status has that status once its record is read back, and the message
/// that it was ended with; no run is ended while a call of it is open, with a status that ends
/// nothing, or as failed without a message.
pub proof fn law_runs_end_as_they_were_ended(
    status: Seq<char>,
    error: Option<Seq<char>>,
    open_call: Option<Seq<char>>,
    run: RunView,
    record: RecordView,
    planned: TerminalRecord,
)
    ensures
        terminal_record_for(status, error, open_call) is Ok <==> open_call is None && (status
            == "succeeded"@ || status == "cancelled"@ || status == "stopped"@ || (status
            == "failed"@ && error is Some && !blank(error->0))),
        terminal_record_for(status, error, open_call) == Ok::<TerminalRecordView, Seq<char>>(
            planned@,
        ) && written_as(record, planned) ==> (run_after(run, record) matches Ok(ended) && {
            &&& ended.status == status
            &&& ended.completed_at == Some(record.at)
            &&& status == "failed"@ ==> ended.error == Some(trimmed(error->0))
            &&& (status == "cancelled"@ || status == "stopped"@) && error is Some ==> ended.error
                == error
        }),
        open_call is Some ==> terminal_record_for(status, error, open_call) == Err::<
            TerminalRecordView,
            Seq<char>,
        >("AgentRun terminal requires every ToolCall to be closed: callId="@ + open_call->0),
{
    lemma_status_names();
    reveal_strlit("succeeded");
    reveal_strlit("failed");
    reveal_strlit("cancelled");
    reveal_strlit("stopped");
    assert("succeeded"@.len() == 9 && "failed"@.len() == 6 && "stopped"@.len() == 7);
    assert("cancelled"@[0] == 'c' && "succeeded"@[0] == 's');
    if error is Some {
        law_trimming_takes_off_the_whitespace_around(error->0);
    } else {
        law_trimming_takes_off_the_whitespace_around(Seq::empty());
    }
}

/// The last user input is rewritten exactly at a positive time, for a session that is named, and for
/// the one reason that there is; the run that takes its place begins right after.
pub proof fn law_rewrites_are_asked_for_in_one_way(
    at_ms: i64,
    session_id: Seq<char>,
    reason: Seq<char>,
)
    ensures
        rewrite_session(at_ms, session_id, reason) is Ok <==> at_ms > 0 && !blank(session_id)
            && reason == "rewrite_last_user_input"@,
        rewrite_session(at_ms, session_id, reason) matches Ok(session) ==> session == trimmed(
            session_id,
        ),
        at_ms < i64::MAX ==> just_after(at_ms) == at_ms + 1,
        just_after(at_ms) >= at_ms,
{
    law_trimming_takes_off_the_whitespace_around(session_id);
}

/// A run is opened exactly where it, its turn and its content are named and its session could be
/// restored, and it opens with just these.
pub proof fn law_runs_open_with_what_they_were_given(
    run: Seq<char>,
    restored: Result<(), Seq<char>>,
    turn: Seq<char>,
    content: Seq<char>,
    at_ms: i64,
    opening: RunOpening,
)
    ensures
        run_opening(run, restored, turn, content, at_ms) is Ok <==> !blank(run) && restored is Ok
            && !blank(turn) && !blank(content),
        run_opening(run, restored, turn, content, at_ms) == Ok::<
            (Seq<char>, OpeningView),
            Seq<char>,
        >((trimmed(run), opening@)) ==> opening.turn_id@ == trimmed(turn) && opening.content@
            == trimmed(content) && opening.at_ms == at_ms,
        run_opening(run, restored, turn, content, at_ms) matches Ok(opened) ==> opened.0 == trimmed(
            run,
        ),
        !blank(run) && restored is Err ==> run_opening(run, restored, turn, content, at_ms) == Err::<
            (Seq<char>, OpeningView),
            Seq<char>,
        >(restored->Err_0),
{
    law_trimming_takes_off_the_whitespace_around(run);
    law_trimming_takes_off_the_whitespace_around(turn);
    law_trimming_takes_off_the_whitespace_around(content);
}

/// Whether a record of the log is that of a tool call.
pub open spec fn records_call(record: SessionLogRecord, call_id: Seq<char>) -> bool {
    record.kind == RecordKind::ToolCall && text_field(record.payload@, "callId"@) == Some(call_id)
}

/// Whether the record at a place is the first of a tool call.
pub open spec fn first_records_call(
    records: Seq<SessionLogRecord>,
    call_id: Seq<char>,
    at: int,
) -> bool {
    &&& 0 <= at < records.len()
    &&& records_call(records[at], call_id)
    &&& forall|k: int| 0 <= k < at ==> !records_call(#[trigger] records[k], call_id)
}

proof fn lemma_call_time(records: Seq<SessionLogRecord>, call_id: Seq<char>)
    ensures
        match call_recorded_at(record_views(records), call_id) {
            Some(time) => exists|at: int|
                first_records_call(records, call_id, at) && records[at].created_at_ms == time,
            None => forall|k: int|
                0 <= k < records.len() ==> !records_call(#[trigger] records[k], call_id),
        },
    decreases records.len(),
{
    if records.len() > 0 {
        let rest = records.subrange(1, records.len() as int);
        let all = record_views(records);
        lemma_call_time(rest, call_id);
        assert(record_views(rest) =~= all.subrange(1, all.len() as int));
        assert(all[0] == records[0]@);
        if records_call(records[0], call_id) {
            assert(first_records_call(records, call_id, 0));
        } else {
            match call_recorded_at(all, call_id) {
                Some(time) => {
                    let at = choose|at: int|
                        first_records_call(rest, call_id, at) && rest[at].created_at_ms == time;
                    assert(rest[at] == records[at + 1]);
                    assert forall|k: int| 0 <= k < at + 1 implies !records_call(
                        #[trigger] records[k],
                        call_id,
                    ) by {
                        if k > 0 {
                            assert(rest[k - 1] == records[k]);
                        }
                    }
                    assert(first_records_call(records, call_id, at + 1));
                },
                None => {
                    assert forall|k: int| 0 <= k < records.len() implies !records_call(
                        #[trigger] records[k],
                        call_id,
                    ) by {
                        if k > 0 {
                            assert(rest[k - 1] == records[k]);
                        }
                    }
                },
            }
        }
    }
}

/// The time of a call is that of the first record of it, and there is one exactly where a record of
/// it is.
pub proof fn law_calls_are_timed_by_their_first_record(
    records: Seq<SessionLogRecord>,
    call_id: Seq<char>,
)
    ensures
        call_recorded_at(record_views(records), call_id) is None <==> forall|k: int|
            0 <= k < records.len() ==> !records_call(#[trigger] records[k], call_id),
        forall|at: int| #[trigger]
            first_records_call(records, call_id, at) ==> call_recorded_at(
                record_views(records),
                call_id,
            ) == Some(records[at].created_at_ms),
{
    lemma_call_time(records, call_id);
    assert forall|at: int| #[trigger] first_records_call(records, call_id, at) implies
        call_recorded_at(record_views(records), call_id) == Some(records[at].created_at_ms) by {
        assert(records_call(records[at], call_id));
        let time = call_recorded_at(record_views(records), call_id)->0;
        let found = choose|found: int|
            first_records_call(records, call_id, found) && records[found].created_at_ms == time;
        if found < at {
            assert(!records_call(records[found], call_id));
        }
        if at < found {
            assert(!records_call(records[at], call_id));
        }
    }
}

/// Messages with identities of their own are shown once each.
pub proof fn law_each_message_is_shown_once(
    session: Seq<char>,
    records: Seq<SessionLogRecord>,
    messages: Seq<ReducedMessage>,
    list: Seq<(usize, ProjectedChatMessage)>,
)
    requires
        placed_messages(session, record_views(records), reduced_views(messages)) is Ok,
        places_ascend(placed_views(list)),
        placed_views(list).to_multiset() == placed_messages(
            session,
            record_views(records),
            reduced_views(messages),
        )->Ok_0.to_multiset(),
        forall|i: int, j: int|
            0 <= i < j < messages.len() ==> (#[trigger] messages[i]).message_id@ != (
            #[trigger] messages[j]).message_id@,
    ensures
        forall|i: int, j: int|
            0 <= i < j < list.len() ==> (#[trigger] list[i]).1.id@ != (#[trigger] list[j]).1.id@,
{
    let log = record_views(records);
    let all = reduced_views(messages);
    let placed = placed_messages(session, log, all)->Ok_0;
    let views = placed_views(list);
    lemma_placed(session, log, all);
    assert forall|i: int, j: int| 0 <= i < placed.len() && 0 <= j < placed.len() && i != j implies (
    #[trigger] placed[i]).1.id != (#[trigger] placed[j]).1.id by {
        assert(all[i] == messages[i]@ && all[j] == messages[j]@);
        assert(placed_message(session, log, all[i]) is Ok);
        assert(placed_message(session, log, all[j]) is Ok);
        if i < j {
            assert(messages[i].message_id@ != messages[j].message_id@);
        } else {
            assert(messages[j].message_id@ != messages[i].message_id@);
        }
    }
    assert(placed.no_duplicates());
    placed.lemma_multiset_has_no_duplicates();
    views.lemma_multiset_has_no_duplicates_conv();
    broadcast use vstd::seq_lib::group_to_multiset_ensures;

    assert forall|i: int, j: int| 0 <= i < j < list.len() implies (#[trigger] list[i]).1.id@ != (
    #[trigger] list[j]).1.id@ by {
        assert(views[i] == (list[i].0 as int, list[i].1@));
        assert(views[j] == (list[j].0 as int, list[j].1@));
        assert(views[i] != views[j]);
        assert(views.contains(views[i]) && views.contains(views[j]));
        assert(views.to_multiset().contains(views[i]) && views.to_multiset().contains(views[j]));
        assert(placed.contains(views[i]) && placed.contains(views[j]));
        let a = choose|a: int| 0 <= a < placed.len() && placed[a] == views[i];
        let b = choose|b: int| 0 <= b < placed.len() && placed[b] == views[j];
        assert(a != b);
        assert(placed[a].1.id != placed[b].1.id);
    }
}

} // verus!
