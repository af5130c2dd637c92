//! Requests about agent runs: listing them, watching them, and cancelling them.

use crate::message_log::{copy_run, run_views, ProjectedAgentRun, RunView};
use crate::observation_cas::agrees;
use crate::text::{
    blank, concat2, concat3, copy_optional, law_trimming_takes_off_the_whitespace_around,
    normalize_optional_string, normalized, optional_text, required, required_string, text_equals,
    text_less, text_precedes, trimmed,
};
use crate::text_set::TextSet;
use crate::viewers::{
    attached, detach_transition, is_agent_run_terminal, law_unread_until_attached, marked,
    one_session_each, terminal_status, unbound, viewers_of, RegistryView, ViewerDetachTransition, ViewerRegistry,
};
use vstd::prelude::*;

verus! {

/// An agent run as it is shown to a viewer.
#[derive(Debug)]
pub struct AgentRunSummary {
    pub agent_run_id: String,
    pub session_id: String,
    pub turn_id: String,
    pub agent_run_kind: String,
    pub cwd: Option<String>,
    pub status: String,
    pub unread: bool,
    pub started_at_ms: i64,
    pub updated_at_ms: i64,
    pub completed_at_ms: Option<i64>,
    pub last_event_at_ms: Option<i64>,
    pub error: Option<String>,
}

impl AgentRunSummary {
    /// Whether this summary shows `run`.
    pub open spec fn shows(&self, run: RunView, unread: bool) -> bool {
        &&& self.agent_run_id@ == run.id
        &&& self.session_id@ == run.session
        &&& self.turn_id@ == run.turn
        &&& self.agent_run_kind@ == "agent"@
        &&& optional_text(self.cwd) == run.cwd
        &&& self.status@ == run.status
        &&& self.unread == unread
        &&& self.started_at_ms == run.started_at
        &&& self.updated_at_ms == run.updated_at
        &&& self.completed_at_ms == run.completed_at
        &&& self.last_event_at_ms == run.last_event_at
        &&& optional_text(self.error) == run.error
    }
}

/// The summary of a run that is taken as read.
pub fn into_summary(run: &ProjectedAgentRun) -> (result: AgentRunSummary)
    ensures
        result.shows(run@, false),
{
    AgentRunSummary {
        agent_run_id: run.agent_run_id.clone(),
        session_id: run.session_id.clone(),
        turn_id: run.turn_id.clone(),
        agent_run_kind: "agent".to_owned(),
        cwd: copy_optional(&run.cwd),
        status: run.status.clone(),
        unread: false,
        started_at_ms: run.started_at_ms,
        updated_at_ms: run.updated_at_ms,
        completed_at_ms: run.completed_at_ms,
        last_event_at_ms: run.last_event_at_ms,
        error: copy_optional(&run.error),
    }
}

/// The summary of a run, unread where the registry says so.
pub fn summary_with_viewer_state(registry: &ViewerRegistry, run: &ProjectedAgentRun) -> (result:
    AgentRunSummary)
    requires
        registry.wf(),
    ensures
        result.shows(run@, registry@.unread.contains_key(run@.id)),
{
    let mut summary = into_summary(run);
    summary.unread = registry.is_unread(run.agent_run_id.as_str());
    summary
}

/// Whether a run belongs in a list.
pub open spec fn listed(run: RunView, session: Option<Seq<char>>, include_terminal: bool) -> bool {
    (session is None || session == Some(run.session)) && (include_terminal || !terminal_status(
        run.status,
    ))
}

/// The runs that belong in a list, in order.
pub open spec fn listed_runs(
    runs: Seq<RunView>,
    session: Option<Seq<char>>,
    include_terminal: bool,
) -> Seq<RunView>
    decreases runs.len(),
{
    if runs.len() == 0 {
        Seq::empty()
    } else {
        let before = listed_runs(runs.subrange(0, runs.len() - 1), session, include_terminal);
        if listed(runs[runs.len() - 1], session, include_terminal) {
            before.push(runs[runs.len() - 1])
        } else {
            before
        }
    }
}

proof fn lemma_listed_runs(runs: Seq<RunView>, session: Option<Seq<char>>, include_terminal: bool)
    ensures
        ({
            let shown = listed_runs(runs, session, include_terminal);
            &&& forall|k: int|
                0 <= k < shown.len() ==> runs.contains(#[trigger] shown[k]) && listed(
                    shown[k],
                    session,
                    include_terminal,
                )
            &&& forall|i: int|
                0 <= i < runs.len() && listed(#[trigger] runs[i], session, include_terminal)
                    ==> shown.contains(runs[i])
        }),
    decreases runs.len(),
{
    if runs.len() > 0 {
        let n = runs.len() - 1;
        let init = runs.subrange(0, n);
        lemma_listed_runs(init, session, include_terminal);
        let before = listed_runs(init, session, include_terminal);
        let shown = listed_runs(runs, session, include_terminal);
        assert forall|k: int| 0 <= k < shown.len() implies runs.contains(#[trigger] shown[k])
            && listed(shown[k], session, include_terminal) by {
            if k < before.len() {
                assert(shown[k] == before[k]);
                let i = choose|i: int| 0 <= i < init.len() && init[i] == before[k];
                assert(runs[i] == shown[k]);
            } else {
                assert(runs[n] == shown[k]);
            }
        }
        assert forall|i: int|
            0 <= i < runs.len() && listed(#[trigger] runs[i], session, include_terminal) implies
            shown.contains(runs[i]) by {
            if i < n {
                assert(init[i] == runs[i]);
                let k = choose|k: int| 0 <= k < before.len() && before[k] == runs[i];
                assert(shown[k] == runs[i]);
            } else {
                assert(shown[shown.len() - 1] == runs[n]);
            }
        }
    }
}

/// A list holds exactly the runs of the session that was asked for, and runs that have ended only
/// where they were asked for. Where they were, every run that ended after the last viewer of its
/// session had left is listed as unread; once a viewer is attached to the session again, the same
/// list holds it as read.
pub proof fn law_lists_show_what_ended_unseen(
    view: RegistryView,
    viewer: Seq<char>,
    session: Seq<char>,
    runs: Seq<RunView>,
    left_at: i64,
    next_viewer: Seq<char>,
    next_run: Option<Seq<char>>,
    back_at: i64,
)
    requires
        view.bindings.contains_key(viewer),
        view.bindings[viewer].session == session,
        viewers_of(view.bindings.remove(viewer), session) == Set::<Seq<char>>::empty(),
    ensures
        ({
            let shown = listed_runs(runs, Some(session), true);
            let open = listed_runs(runs, Some(session), false);
            let unseen = marked(unbound(view, viewer, left_at), shown);
            let back = marked(
                attached(unseen, next_viewer, session, next_run, back_at),
                shown,
            );
            &&& forall|r: RunView|
                #[trigger] shown.contains(r) <==> runs.contains(r) && r.session == session
            &&& forall|r: RunView|
                #[trigger] open.contains(r) <==> runs.contains(r) && r.session == session
                    && !terminal_status(r.status)
            &&& forall|k: int|
                0 <= k < shown.len() && terminal_status((#[trigger] shown[k]).status)
                    && shown[k].updated_at >= left_at ==> unseen.unread.contains_key(shown[k].id)
                    && !back.unread.contains_key(shown[k].id)
        }),
{
    let shown = listed_runs(runs, Some(session), true);
    let open = listed_runs(runs, Some(session), false);
    lemma_listed_runs(runs, Some(session), true);
    lemma_listed_runs(runs, Some(session), false);
    assert forall|r: RunView| #[trigger] shown.contains(r) == (runs.contains(r) && r.session
        == session) by {
        if runs.contains(r) {
            let i = choose|i: int| 0 <= i < runs.len() && runs[i] == r;
            assert(listed(runs[i], Some(session), true) == (r.session == session));
        }
        if shown.contains(r) {
            let k = choose|k: int| 0 <= k < shown.len() && shown[k] == r;
            assert(listed(shown[k], Some(session), true));
        }
    }
    assert forall|r: RunView| #[trigger] open.contains(r) == (runs.contains(r) && r.session
        == session && !terminal_status(r.status)) by {
        if runs.contains(r) {
            let i = choose|i: int| 0 <= i < runs.len() && runs[i] == r;
            assert(listed(runs[i], Some(session), false) == (r.session == session
                && !terminal_status(r.status)));
        }
        if open.contains(r) {
            let k = choose|k: int| 0 <= k < open.len() && open[k] == r;
            assert(listed(open[k], Some(session), false));
        }
    }
    assert(one_session_each(shown)) by {
        assert forall|i: int, j: int|
            0 <= i < shown.len() && 0 <= j < shown.len() && (#[trigger] shown[i]).id == (
            #[trigger] shown[j]).id implies shown[i].session == shown[j].session by {
            assert(listed(shown[i], Some(session), true));
            assert(listed(shown[j], Some(session), true));
        }
    }
    law_unread_until_attached(
        view,
        viewer,
        session,
        shown,
        left_at,
        next_viewer,
        next_run,
        back_at,
    );
    assert forall|k: int|
        0 <= k < shown.len() && terminal_status((#[trigger] shown[k]).status)
            && shown[k].updated_at >= left_at implies marked(
        unbound(view, viewer, left_at),
        shown,
    ).unread.contains_key(shown[k].id) by {
        assert(listed(shown[k], Some(session), true));
        assert(shown[k].session == session);
    }
}

/// Whether summaries show runs, one by one, as the registry knows them.
pub open spec fn summaries_show(
    summaries: Seq<AgentRunSummary>,
    runs: Seq<RunView>,
    registry: RegistryView,
) -> bool {
    summaries.len() == runs.len() && forall|i: int|
        0 <= i < runs.len() ==> (#[trigger] summaries[i]).shows(
            runs[i],
            registry.unread.contains_key(runs[i].id),
        )
}

/// Lists the runs of a session, or of all sessions, and marks those that ended unseen as unread.
/// Runs that have ended are left out unless they are asked for.
pub fn list(
    registry: &mut ViewerRegistry,
    runs: &Vec<ProjectedAgentRun>,
    session_id: &Option<String>,
    include_terminal: Option<bool>,
) -> (result: Vec<AgentRunSummary>)
    requires
        old(registry).wf(),
    ensures
        final(registry).wf(),
        ({
            let shown = listed_runs(
                run_views(runs@),
                normalized(optional_text(*session_id)),
                include_terminal == Some(true),
            );
            &&& final(registry)@ == marked(old(registry)@, shown)
            &&& summaries_show(result@, shown, final(registry)@)
        }),
{
    let session = normalize_optional_string(session_id);
    let with_terminal = match include_terminal {
        Some(value) => value,
        None => false,
    };
    let ghost all = run_views(runs@);
    let ghost filter = optional_text(session);
    let mut kept: Vec<ProjectedAgentRun> = Vec::new();
    let mut i: usize = 0;
    assert(all.subrange(0, 0) =~= Seq::empty());
    assert(run_views(kept@) =~= Seq::empty());
    while i < runs.len()
        invariant
            i <= runs.len(),
            all == run_views(runs@),
            filter == optional_text(session),
            run_views(kept@) == listed_runs(all.subrange(0, i as int), filter, with_terminal),
        decreases runs.len() - i,
    {
        let run = &runs[i];
        let ghost before = run_views(kept@);
        proof {
            let next = all.subrange(0, i + 1);
            assert(next.subrange(0, next.len() - 1) =~= all.subrange(0, i as int));
            assert(next[next.len() - 1] == run@);
        }
        let wanted = match &session {
            Some(session) => text_equals(run.session_id.as_str(), session.as_str()),
            None => true,
        };
        if wanted && (with_terminal || !is_agent_run_terminal(run.status.as_str())) {
            kept.push(copy_run(run));
            assert(run_views(kept@) =~= before.push(run@));
        }
        i = i + 1;
    }
    assert(all.subrange(0, all.len() as int) =~= all);
    registry.mark_unread_for_detached_terminal_agent_runs(&kept);
    let ghost shown = run_views(kept@);
    let mut summaries: Vec<AgentRunSummary> = Vec::new();
    let mut k: usize = 0;
    while k < kept.len()
        invariant
            k <= kept.len(),
            shown == run_views(kept@),
            registry.wf(),
            summaries.len() == k,
            forall|j: int|
                0 <= j < k ==> (#[trigger] summaries@[j]).shows(
                    shown[j],
                    registry@.unread.contains_key(shown[j].id),
                ),
        decreases kept.len() - k,
    {
        assert(shown[k as int] == kept@[k as int]@);
        let summary = summary_with_viewer_state(registry, &kept[k]);
        summaries.push(summary);
        k = k + 1;
    }
    summaries
}

/// Whether `a` is newer than `b`: it was updated later, else it started later, else it has the
/// smaller identity.
pub open spec fn newer(a: RunView, b: RunView) -> bool {
    a.updated_at > b.updated_at || (a.updated_at == b.updated_at && (a.started_at > b.started_at
        || (a.started_at == b.started_at && text_less(a.id, b.id))))
}

fn is_newer(a: &ProjectedAgentRun, b: &ProjectedAgentRun) -> (result: bool)
    ensures
        result == newer(a@, b@),
{
    a.updated_at_ms > b.updated_at_ms || (a.updated_at_ms == b.updated_at_ms && (a.started_at_ms
        > b.started_at_ms || (a.started_at_ms == b.started_at_ms && text_precedes(
        a.agent_run_id.as_str(),
        b.agent_run_id.as_str(),
    ))))
}

/// The first run with the identity `id`.
pub open spec fn run_with_id(runs: Seq<RunView>, id: Seq<char>) -> Option<RunView>
    decreases runs.len(),
{
    if runs.len() == 0 {
        None
    } else if runs[0].id == id {
        Some(runs[0])
    } else {
        run_with_id(runs.subrange(1, runs.len() as int), id)
    }
}

/// The newest run of a session.
pub open spec fn newest_run(runs: Seq<RunView>, session: Seq<char>) -> Option<RunView>
    decreases runs.len(),
{
    if runs.len() == 0 {
        None
    } else {
        let best = newest_run(runs.subrange(0, runs.len() - 1), session);
        let run = runs[runs.len() - 1];
        if run.session != session {
            best
        } else {
            match best {
                None => Some(run),
                Some(other) => if newer(other, run) {
                    best
                } else {
                    Some(run)
                },
            }
        }
    }
}

/// The run that a request is about: the one that it names, else the newest of the session that
/// it names.
pub open spec fn requested_run(
    runs: Seq<RunView>,
    run_id: Option<Seq<char>>,
    session: Option<Seq<char>>,
) -> Option<RunView> {
    match normalized(run_id) {
        Some(id) => run_with_id(runs, id),
        None => match normalized(session) {
            Some(s) => newest_run(runs, s),
            None => None,
        },
    }
}

/// The newest run of a session is a run of that session, and none of the session's runs is newer.
pub proof fn law_newest_run(runs: Seq<RunView>, session: Seq<char>)
    ensures
        match newest_run(runs, session) {
            Some(best) => best.session == session && runs.contains(best) && forall|i: int|
                0 <= i < runs.len() && (#[trigger] runs[i]).session == session ==> !newer(
                    runs[i],
                    best,
                ),
            None => forall|i: int|
                0 <= i < runs.len() ==> (#[trigger] runs[i]).session != session,
        },
    decreases runs.len(),
{
    if runs.len() > 0 {
        let n = runs.len() - 1;
        let init = runs.subrange(0, n);
        law_newest_run(init, session);
        let run = runs[n];
        if let Some(other) = newest_run(init, session) {
            let k = choose|k: int| 0 <= k < init.len() && init[k] == other;
            assert(runs[k] == other);
        }
        assert(runs[n] == run);
        if let Some(best) = newest_run(runs, session) {
            assert forall|i: int|
                0 <= i < runs.len() && (#[trigger] runs[i]).session == session implies !newer(
                runs[i],
                best,
            ) by {
                crate::text::lemma_text_order_total(runs[i].id, best.id);
                if i < n {
                    assert(init[i] == runs[i]);
                    let other = newest_run(init, session)->0;
                    if best == run && newer(runs[i], run) {
                        lemma_newer_transitive(runs[i], run, other);
                    }
                }
            }
        }
        assert forall|i: int|
            0 <= i < runs.len() && newest_run(runs, session) is None implies (
        #[trigger] runs[i]).session != session by {
            if i < n {
                assert(init[i] == runs[i]);
            }
        }
    }
}

/// A run that is newer than one that is not older than a third is newer than the third.
proof fn lemma_newer_transitive(a: RunView, b: RunView, c: RunView)
    requires
        newer(a, b),
        !newer(c, b),
    ensures
        newer(a, c),
{
    crate::text::lemma_text_order_total(a.id, b.id);
    crate::text::lemma_text_order_total(b.id, c.id);
    crate::text::lemma_text_order_total(a.id, c.id);
    if a.updated_at == b.updated_at && b.updated_at == c.updated_at && a.started_at == b.started_at
        && b.started_at == c.started_at && b.id != c.id {
        crate::text::lemma_text_order_transitive(a.id, b.id, c.id);
    }
}

/// The run that a request is about.
pub fn find_agent_run(
    runs: &Vec<ProjectedAgentRun>,
    agent_run_id: &Option<String>,
    session_id: &Option<String>,
) -> (result: Option<ProjectedAgentRun>)
    ensures
        match result {
            Some(run) => requested_run(
                run_views(runs@),
                optional_text(*agent_run_id),
                optional_text(*session_id),
            ) == Some(run@),
            None => requested_run(
                run_views(runs@),
                optional_text(*agent_run_id),
                optional_text(*session_id),
            ) == None::<RunView>,
        },
{
    match normalize_optional_string(agent_run_id) {
        Some(id) => project_agent_run(runs, id.as_str()),
        None => match normalize_optional_string(session_id) {
            Some(session) => newest_session_run(runs, session.as_str()),
            None => None,
        },
    }
}

/// The first run with the identity `id`.
pub fn project_agent_run(runs: &Vec<ProjectedAgentRun>, id: &str) -> (result: Option<
    ProjectedAgentRun,
>)
    ensures
        match result {
            Some(run) => run_with_id(run_views(runs@), id@) == Some(run@),
            None => run_with_id(run_views(runs@), id@) == None::<RunView>,
        },
{
    let ghost all = run_views(runs@);
    let mut i: usize = 0;
    assert(all.subrange(0, all.len() as int) =~= all);
    while i < runs.len()
        invariant
            i <= runs.len(),
            all == run_views(runs@),
            run_with_id(all, id@) == run_with_id(all.subrange(i as int, all.len() as int), id@),
        decreases runs.len() - i,
    {
        proof {
            let rest = all.subrange(i as int, all.len() as int);
            assert(rest[0] == runs@[i as int]@);
            assert(rest.subrange(1, rest.len() as int) =~= all.subrange(i + 1, all.len() as int));
        }
        if text_equals(runs[i].agent_run_id.as_str(), id) {
            return Some(copy_run(&runs[i]));
        }
        i = i + 1;
    }
    None
}

fn newest_session_run(runs: &Vec<ProjectedAgentRun>, session: &str) -> (result: Option<
    ProjectedAgentRun,
>)
    ensures
        match result {
            Some(run) => newest_run(run_views(runs@), session@) == Some(run@),
            None => newest_run(run_views(runs@), session@) == None::<RunView>,
        },
{
    let ghost all = run_views(runs@);
    let mut best: Option<usize> = None;
    let mut i: usize = 0;
    assert(all.subrange(0, 0) =~= Seq::empty());
    while i < runs.len()
        invariant
            i <= runs.len(),
            all == run_views(runs@),
            match best {
                Some(at) => at < runs.len() && newest_run(all.subrange(0, i as int), session@)
                    == Some(all[at as int]),
                None => newest_run(all.subrange(0, i as int), session@) == None::<RunView>,
            },
        decreases runs.len() - i,
    {
        proof {
            let next = all.subrange(0, i + 1);
            assert(next.subrange(0, next.len() - 1) =~= all.subrange(0, i as int));
            assert(next[next.len() - 1] == runs@[i as int]@);
            assert(all[i as int] == runs@[i as int]@);
        }
        if text_equals(runs[i].session_id.as_str(), session) {
            best = match best {
                None => Some(i),
                Some(at) => {
                    assert(all[at as int] == runs@[at as int]@);
                    if is_newer(&runs[at], &runs[i]) {
                        Some(at)
                    } else {
                        Some(i)
                    }
                },
            };
        }
        i = i + 1;
    }
    assert(all.subrange(0, all.len() as int) =~= all);
    match best {
        Some(at) => {
            assert(all[at as int] == runs@[at as int]@);
            Some(copy_run(&runs[at]))
        },
        None => None,
    }
}

/// The identity of a viewer, which has to be given.
pub fn required_viewer_id(value: &Option<String>) -> (result: Result<String, String>)
    ensures
        match result {
            Ok(id) => normalized(optional_text(*value)) == Some(id@),
            Err(message) => normalized(optional_text(*value)) == None::<Seq<char>> && message@
                == "viewerId is required"@,
        },
{
    match normalize_optional_string(value) {
        Some(id) => Ok(id),
        None => Err("viewerId is required".to_owned()),
    }
}

/// The answer to a viewer that was attached or detached.
#[derive(Debug)]
pub struct AgentRunViewerResponse {
    pub agent_run: Option<AgentRunSummary>,
    pub viewer_id: String,
    pub transition_reason: String,
    pub attached_viewer_count: usize,
}

/// Whether an answer shows the run that a request is about, where there is one.
pub open spec fn shows_requested(
    summary: Option<AgentRunSummary>,
    run: Option<RunView>,
    registry: RegistryView,
) -> bool {
    match run {
        Some(run) => summary matches Some(s) && s.shows(run, registry.unread.contains_key(run.id)),
        None => summary is None,
    }
}

/// The session that a viewer is attached to: that of the run, else the one that is named.
pub open spec fn attach_session(run: Option<RunView>, session: Option<Seq<char>>) -> Option<
    Seq<char>,
> {
    match run {
        Some(run) => Some(run.session),
        None => normalized(session),
    }
}

/// Attaches a viewer to the run that it names, or to a session.
pub fn attach(
    registry: &mut ViewerRegistry,
    runs: &Vec<ProjectedAgentRun>,
    agent_run_id: &Option<String>,
    session_id: &Option<String>,
    viewer_id: &Option<String>,
    now_ms: i64,
) -> (result: Result<AgentRunViewerResponse, String>)
    requires
        old(registry).wf(),
    ensures
        final(registry).wf(),
        ({
            let viewer = normalized(optional_text(*viewer_id));
            let run = requested_run(
                run_views(runs@),
                optional_text(*agent_run_id),
                optional_text(*session_id),
            );
            let session = attach_session(run, optional_text(*session_id));
            match result {
                Err(message) => final(registry)@ == old(registry)@ && if viewer is None {
                    message@ == "viewerId is required"@
                } else {
                    session is None && message@
                        == "sessionId or agentRunId is required for viewer attach"@
                },
                Ok(response) => viewer is Some && session is Some && final(registry)@ == attached(
                    old(registry)@,
                    viewer->0,
                    session->0,
                    match run {
                        Some(run) => Some(run.id),
                        None => None,
                    },
                    now_ms,
                ) && shows_requested(response.agent_run, run, final(registry)@)
                    && response.viewer_id@ == viewer->0 && response.transition_reason@
                    == "viewer_attached"@ && response.attached_viewer_count == viewers_of(
                    final(registry)@.bindings,
                    session->0,
                ).len(),
            }
        }),
{
    let viewer = match required_viewer_id(viewer_id) {
        Ok(viewer) => viewer,
        Err(message) => {
            return Err(message);
        },
    };
    let run = find_agent_run(runs, agent_run_id, session_id);
    let session: String = match &run {
        Some(run) => run.session_id.clone(),
        None => match normalize_optional_string(session_id) {
            Some(session) => session,
            None => {
                return Err("sessionId or agentRunId is required for viewer attach".to_owned());
            },
        },
    };
    let run_id: Option<String> = match &run {
        Some(run) => Some(run.agent_run_id.clone()),
        None => None,
    };
    let count = registry.attach_viewer_to_session(
        viewer.as_str(),
        session.as_str(),
        &run_id,
        now_ms,
    );
    let summary = match &run {
        Some(run) => Some(summary_with_viewer_state(registry, run)),
        None => None,
    };
    Ok(
        AgentRunViewerResponse {
            agent_run: summary,
            viewer_id: viewer,
            transition_reason: "viewer_attached".to_owned(),
            attached_viewer_count: count,
        },
    )
}

/// The name of what became of a request to detach a viewer.
pub open spec fn transition_name(transition: ViewerDetachTransition) -> Seq<char> {
    match transition {
        ViewerDetachTransition::Detached => "viewer_detached"@,
        ViewerDetachTransition::NotAttached => "viewer_not_attached"@,
        ViewerDetachTransition::BindingChanged => "viewer_binding_changed"@,
    }
}

/// The registry after a request to detach a viewer.
pub open spec fn detached_registry(
    registry: RegistryView,
    viewer: Seq<char>,
    expected: Option<Seq<char>>,
    now: i64,
) -> RegistryView {
    if detach_transition(registry, viewer, expected) == ViewerDetachTransition::Detached {
        unbound(registry, viewer, now)
    } else {
        registry
    }
}

/// Detaches a viewer from the session that it is expected to watch.
pub fn detach(
    registry: &mut ViewerRegistry,
    runs: &Vec<ProjectedAgentRun>,
    agent_run_id: &Option<String>,
    session_id: &Option<String>,
    viewer_id: &Option<String>,
    now_ms: i64,
) -> (result: Result<AgentRunViewerResponse, String>)
    requires
        old(registry).wf(),
    ensures
        final(registry).wf(),
        ({
            let viewer = normalized(optional_text(*viewer_id));
            let run = requested_run(
                run_views(runs@),
                optional_text(*agent_run_id),
                optional_text(*session_id),
            );
            match result {
                Err(message) => viewer is None && message@ == "viewerId is required"@
                    && final(registry)@ == old(registry)@,
                Ok(response) => viewer is Some && final(registry)@ == detached_registry(
                    old(registry)@,
                    viewer->0,
                    optional_text(*session_id),
                    now_ms,
                ) && shows_requested(response.agent_run, run, final(registry)@)
                    && response.viewer_id@ == viewer->0 && response.transition_reason@
                    == transition_name(
                    detach_transition(old(registry)@, viewer->0, optional_text(*session_id)),
                ) && response.attached_viewer_count == match run {
                    Some(run) => viewers_of(final(registry)@.bindings, run.session).len(),
                    None => 0,
                },
            }
        }),
{
    let viewer = match required_viewer_id(viewer_id) {
        Ok(viewer) => viewer,
        Err(message) => {
            return Err(message);
        },
    };
    let run = find_agent_run(runs, agent_run_id, session_id);
    let transition = registry.detach_viewer_binding(viewer.as_str(), session_id, now_ms);
    let summary = match &run {
        Some(run) => Some(summary_with_viewer_state(registry, run)),
        None => None,
    };
    let count: usize = match &run {
        Some(run) => registry.session_viewer_count(run.session_id.as_str()),
        None => 0,
    };
    Ok(
        AgentRunViewerResponse {
            agent_run: summary,
            viewer_id: viewer,
            transition_reason: transition.as_str().to_owned(),
            attached_viewer_count: count,
        },
    )
}

/// The answer to a viewer that went away.
#[derive(Debug)]
pub struct AgentRunDetachViewerResponse {
    pub detached_count: usize,
    pub viewer_id: String,
    pub transition_reason: String,
}

/// Detaches a viewer from whatever it watches.
pub fn detach_viewer(registry: &mut ViewerRegistry, viewer_id: &str, now_ms: i64) -> (result:
    Result<AgentRunDetachViewerResponse, String>)
    requires
        old(registry).wf(),
    ensures
        final(registry).wf(),
        match result {
            Err(message) => trimmed(viewer_id@).len() == 0 && message@ == "viewerId is required"@
                && final(registry)@ == old(registry)@,
            Ok(response) => {
                let viewer = trimmed(viewer_id@);
                let transition = detach_transition(old(registry)@, viewer, None);
                &&& viewer.len() > 0
                &&& final(registry)@ == detached_registry(old(registry)@, viewer, None, now_ms)
                &&& response.viewer_id@ == viewer
                &&& response.transition_reason@ == transition_name(transition)
                &&& response.detached_count == if transition == ViewerDetachTransition::Detached {
                    1usize
                } else {
                    0usize
                }
            },
        },
{
    let viewer = match required_viewer_id(&Some(viewer_id.to_owned())) {
        Ok(viewer) => viewer,
        Err(message) => {
            return Err(message);
        },
    };
    let transition = registry.detach_viewer_binding(viewer.as_str(), &None, now_ms);
    let detached_count: usize = match transition {
        ViewerDetachTransition::Detached => 1,
        _ => 0,
    };
    Ok(
        AgentRunDetachViewerResponse {
            detached_count,
            viewer_id: viewer,
            transition_reason: transition.as_str().to_owned(),
        },
    )
}

/// What a request to cancel a run comes to.
#[derive(Debug)]
pub enum CancelPlan {
    /// There is no such run.
    NotFound,
    /// The run has ended already.
    AlreadyEnded(AgentRunSummary),
    /// The run is ended as cancelled, for the reason given.
    Cancel { run: ProjectedAgentRun, reason: String },
}

/// Decides what a request to cancel a run comes to.
pub fn plan_cancel(
    runs: &Vec<ProjectedAgentRun>,
    agent_run_id: &Option<String>,
    session_id: &Option<String>,
    reason: &Option<String>,
) -> (result: CancelPlan)
    ensures
        match requested_run(
            run_views(runs@),
            optional_text(*agent_run_id),
            optional_text(*session_id),
        ) {
            None => result is NotFound,
            Some(target) => if terminal_status(target.status) {
                result matches CancelPlan::AlreadyEnded(summary) && summary.shows(target, false)
            } else {
                result matches CancelPlan::Cancel { run, reason: given } && run@ == target
                    && given@ == match normalized(optional_text(*reason)) {
                    Some(text) => text,
                    None => "user_interrupt"@,
                }
            },
        },
{
    match find_agent_run(runs, agent_run_id, session_id) {
        None => CancelPlan::NotFound,
        Some(run) => if is_agent_run_terminal(run.status.as_str()) {
            CancelPlan::AlreadyEnded(into_summary(&run))
        } else {
            CancelPlan::Cancel {
                run,
                reason: match normalize_optional_string(reason) {
                    Some(reason) => reason,
                    None => "user_interrupt".to_owned(),
                },
            }
        },
    }
}

/// The answer to a request that only asks for a cancellation: the run, and whether it can still
/// be cancelled.
pub fn request_cancel(
    runs: &Vec<ProjectedAgentRun>,
    agent_run_id: &Option<String>,
    session_id: &Option<String>,
) -> (result: (Option<AgentRunSummary>, bool))
    ensures
        match requested_run(
            run_views(runs@),
            optional_text(*agent_run_id),
            optional_text(*session_id),
        ) {
            None => result.0 is None && !result.1,
            Some(run) => result.0 matches Some(summary) && summary.shows(run, false) && result.1
                == !terminal_status(run.status),
        },
{
    match find_agent_run(runs, agent_run_id, session_id) {
        None => (None, false),
        Some(run) => (
            Some(into_summary(&run)),
            !is_agent_run_terminal(run.status.as_str()),
        ),
    }
}

/// The run that was started, where the log shows it with the expected identity.
pub fn started_agent_run(
    run: &Option<ProjectedAgentRun>,
    agent_run_id: &str,
    session_id: &str,
    turn_id: &str,
) -> (result: Result<AgentRunSummary, String>)
    ensures
        match result {
            Ok(summary) => run matches Some(run) && run@.session == session_id@ && run@.turn
                == turn_id@ && summary.shows(run@, false),
            Err(message) => match run {
                None => message@ == "agent_run_started missing before agent_run transition: "@
                    + agent_run_id@,
                Some(run) => !(run@.session == session_id@ && run@.turn == turn_id@) && message@
                    == "started AgentRun identity mismatch: "@ + agent_run_id@,
            },
        },
{
    match run {
        None => Err(
            concat2("agent_run_started missing before agent_run transition: ", agent_run_id),
        ),
        Some(run) => if text_equals(run.session_id.as_str(), session_id) && text_equals(
            run.turn_id.as_str(),
            turn_id,
        ) {
            Ok(into_summary(run))
        } else {
            Err(concat2("started AgentRun identity mismatch: ", agent_run_id))
        },
    }
}

/// How a run is ended: the run, its status, and the error where there is one.
#[derive(Debug)]
pub struct TerminalUpdate {
    pub agent_run_id: String,
    pub status: &'static str,
    pub error: Option<String>,
}

pub struct TerminalUpdateView {
    pub id: Seq<char>,
    pub status: Seq<char>,
    pub error: Option<Seq<char>>,
}

impl View for TerminalUpdate {
    type V = TerminalUpdateView;

    open spec fn view(&self) -> TerminalUpdateView {
        TerminalUpdateView {
            id: self.agent_run_id@,
            status: self.status@,
            error: optional_text(self.error),
        }
    }
}

/// How a run is ended, where there is such a run.
pub open spec fn ended_with(
    runs: Seq<RunView>,
    id: Seq<char>,
    status: Seq<char>,
    error: Option<Seq<char>>,
) -> Result<TerminalUpdateView, Seq<char>> {
    match required(id, "agentRunId"@) {
        Err(message) => Err(message),
        Ok(id) => match run_with_id(runs, id) {
            None => Err("AgentRun not found: "@ + id),
            Some(_) => Ok(TerminalUpdateView { id, status, error }),
        },
    }
}

/// How a run is ended with a status.
pub fn update_agent_run_terminal(
    runs: &Vec<ProjectedAgentRun>,
    agent_run_id: &str,
    status: &'static str,
    error: Option<String>,
) -> (result: Result<TerminalUpdate, String>)
    ensures
        agrees(
            result,
            |update: TerminalUpdate| update@,
            ended_with(run_views(runs@), agent_run_id@, status@, optional_text(error)),
        ),
{
    let id = match required_string(agent_run_id, "agentRunId") {
        Ok(id) => id,
        Err(message) => {
            return Err(message);
        },
    };
    match project_agent_run(runs, id.as_str()) {
        None => Err(concat2("AgentRun not found: ", id.as_str())),
        Some(_) => Ok(TerminalUpdate { agent_run_id: id, status, error }),
    }
}

/// How a run that has succeeded is ended.
pub fn finish_agent_run(runs: &Vec<ProjectedAgentRun>, agent_run_id: &str) -> (result: Result<
    TerminalUpdate,
    String,
>)
    ensures
        agrees(
            result,
            |update: TerminalUpdate| update@,
            ended_with(run_views(runs@), agent_run_id@, "succeeded"@, None),
        ),
{
    update_agent_run_terminal(runs, agent_run_id, "succeeded", None)
}

/// How a run that has failed is ended.
pub fn fail_agent_run(runs: &Vec<ProjectedAgentRun>, agent_run_id: &str, error: String) -> (result:
    Result<TerminalUpdate, String>)
    ensures
        agrees(
            result,
            |update: TerminalUpdate| update@,
            ended_with(run_views(runs@), agent_run_id@, "failed"@, Some(error@)),
        ),
{
    update_agent_run_terminal(runs, agent_run_id, "failed", Some(error))
}

/// The first run of a session that has not ended.
pub open spec fn active_run(runs: Seq<RunView>, session: Seq<char>) -> Option<RunView>
    decreases runs.len(),
{
    if runs.len() == 0 {
        None
    } else if runs[0].session == session && !terminal_status(runs[0].status) {
        Some(runs[0])
    } else {
        active_run(runs.subrange(1, runs.len() as int), session)
    }
}

/// Whether a session can be deleted: none of its runs is active.
pub open spec fn deletable(runs: Seq<RunView>, session_id: Seq<char>) -> Result<
    Seq<char>,
    Seq<char>,
> {
    match required(session_id, "sessionId"@) {
        Err(message) => Err(message),
        Ok(session) => match active_run(runs, session) {
            None => Ok(session),
            Some(run) => Err(
                "session cannot be deleted while agent_run "@ + run.id + " is "@ + run.status,
            ),
        },
    }
}

/// Accepts a session that can be deleted.
pub fn ensure_session_can_be_deleted(runs: &Vec<ProjectedAgentRun>, session_id: &str) -> (result:
    Result<String, String>)
    ensures
        agrees(result, |session: String| session@, deletable(run_views(runs@), session_id@)),
{
    let session = match required_string(session_id, "sessionId") {
        Ok(session) => session,
        Err(message) => {
            return Err(message);
        },
    };
    let ghost all = run_views(runs@);
    let mut i: usize = 0;
    assert(all.subrange(0, all.len() as int) =~= all);
    while i < runs.len()
        invariant
            i <= runs.len(),
            all == run_views(runs@),
            required(session_id@, "sessionId"@) == Ok::<Seq<char>, Seq<char>>(session@),
            active_run(all, session@) == active_run(
                all.subrange(i as int, all.len() as int),
                session@,
            ),
        decreases runs.len() - i,
    {
        let run = &runs[i];
        proof {
            let rest = all.subrange(i as int, all.len() as int);
            assert(rest[0] == run@);
            assert(rest.subrange(1, rest.len() as int) =~= all.subrange(i + 1, all.len() as int));
        }
        if text_equals(run.session_id.as_str(), session.as_str()) && !is_agent_run_terminal(
            run.status.as_str(),
        ) {
            return Err(
                concat2(
                    concat3(
                        "session cannot be deleted while agent_run ",
                        run.agent_run_id.as_str(),
                        " is ",
                    ).as_str(),
                    run.status.as_str(),
                ),
            );
        }
        i = i + 1;
    }
    Ok(session)
}

/// Whether a session is in use: one of its runs is active, or somebody watches it.
pub open spec fn in_use(
    runs: Seq<RunView>,
    registry: RegistryView,
    session: Seq<char>,
) -> bool {
    (exists|i: int|
        0 <= i < runs.len() && (#[trigger] runs[i]).session == session && !terminal_status(
            runs[i].status,
        )) || viewers_of(registry.bindings, session) != Set::<Seq<char>>::empty()
}

/// The sessions that are in use.
pub fn idle_session_ids(registry: &ViewerRegistry, runs: &Vec<ProjectedAgentRun>) -> (result:
    TextSet)
    requires
        registry.wf(),
    ensures
        result.wf(),
        forall|session: Seq<char>| #[trigger]
            result@.contains(session) <==> in_use(run_views(runs@), registry@, session),
{
    let ghost all = run_views(runs@);
    let mut result = registry.watched_sessions();
    let ghost watched = result@;
    let mut i: usize = 0;
    while i < runs.len()
        invariant
            i <= runs.len(),
            all == run_views(runs@),
            result.wf(),
            watched == Set::new(
                |s: Seq<char>| viewers_of(registry@.bindings, s) != Set::<Seq<char>>::empty(),
            ),
            forall|session: Seq<char>| #[trigger]
                result@.contains(session) <==> (watched.contains(session) || exists|k: int|
                    0 <= k < i && (#[trigger] all[k]).session == session && !terminal_status(
                        all[k].status,
                    )),
        decreases runs.len() - i,
    {
        assert(all[i as int] == runs@[i as int]@);
        if !is_agent_run_terminal(runs[i].status.as_str()) {
            let _ = result.insert(runs[i].session_id.as_str());
        }
        i = i + 1;
    }
    result
}

/// Whether the run at a place is the first with an identity.
pub open spec fn first_with_id(runs: Seq<ProjectedAgentRun>, id: Seq<char>, at: int) -> bool {
    &&& 0 <= at < runs.len()
    &&& runs[at].agent_run_id@ == id
    &&& forall|k: int| 0 <= k < at ==> (#[trigger] runs[k]).agent_run_id@ != id
}

/// Whether no run has an identity.
pub open spec fn none_with_id(runs: Seq<ProjectedAgentRun>, id: Seq<char>) -> bool {
    forall|k: int| 0 <= k < runs.len() ==> (#[trigger] runs[k]).agent_run_id@ != id
}

/// A run is found by its identity: it is the first that has it, and none is found exactly where none
/// has it.
pub proof fn law_runs_are_found_by_identity(runs: Seq<ProjectedAgentRun>, id: Seq<char>)
    ensures
        run_with_id(run_views(runs), id) is None <==> none_with_id(runs, id),
        forall|at: int| #[trigger]
            first_with_id(runs, id, at) ==> run_with_id(run_views(runs), id) == Some(runs[at]@),
        run_with_id(run_views(runs), id) is Some ==> exists|at: int| first_with_id(runs, id, at),
    decreases runs.len(),
{
    let all = run_views(runs);
    if runs.len() > 0 {
        let rest = runs.subrange(1, runs.len() as int);
        law_runs_are_found_by_identity(rest, id);
        assert(run_views(rest) =~= all.subrange(1, all.len() as int));
        assert(all[0] == runs[0]@);
        assert forall|k: int| 0 <= k < rest.len() implies #[trigger] rest[k] == runs[k + 1] by {}
        if runs[0].agent_run_id@ == id {
            assert(first_with_id(runs, id, 0));
            assert(!none_with_id(runs, id));
            assert forall|at: int| #[trigger] first_with_id(runs, id, at) implies run_with_id(all, id)
                == Some(runs[at]@) by {
                if at > 0 {
                    assert(runs[0].agent_run_id@ != id);
                }
            }
        } else {
            assert forall|at: int| #[trigger] first_with_id(runs, id, at) implies run_with_id(all, id)
                == Some(runs[at]@) by {
                assert(rest[at - 1] == runs[at]);
                assert(first_with_id(rest, id, at - 1));
            }
            if run_with_id(all, id) is Some {
                let at = choose|at: int| first_with_id(rest, id, at);
                assert forall|k: int| 0 <= k < at + 1 implies (#[trigger] runs[k]).agent_run_id@
                    != id by {
                    if k > 0 {
                        assert(rest[k - 1] == runs[k]);
                    }
                }
                assert(first_with_id(runs, id, at + 1));
                assert(runs[at + 1].agent_run_id@ == id);
            } else {
                assert forall|k: int| 0 <= k < runs.len() implies (#[trigger] runs[k]).agent_run_id@
                    != id by {
                    if k > 0 {
                        assert(rest[k - 1] == runs[k]);
                    }
                }
            }
        }
    }
}

/// A request about a run is about the run that it names, whatever else it says; one that names none
/// is about a run of its session that changed last, and one that names neither is about none.
pub proof fn law_requests_are_about_the_run_that_they_name(
    runs: Seq<ProjectedAgentRun>,
    run_id: Option<Seq<char>>,
    session: Option<Seq<char>>,
)
    ensures
        ({
            let named = run_id is Some && !blank(run_id->0);
            let placed = session is Some && !blank(session->0);
            let found = requested_run(run_views(runs), run_id, session);
            &&& named ==> (found is None <==> none_with_id(runs, trimmed(run_id->0)))
            &&& named ==> forall|at: int| #[trigger]
                first_with_id(runs, trimmed(run_id->0), at) ==> found == Some(runs[at]@)
            &&& !named && !placed ==> found is None
            &&& !named && placed ==> (found is None <==> forall|k: int|
                0 <= k < runs.len() ==> (#[trigger] runs[k]).session_id@ != trimmed(session->0))
            &&& !named && placed ==> (found matches Some(run) ==> {
                &&& run.session == trimmed(session->0)
                &&& exists|k: int| 0 <= k < runs.len() && (#[trigger] runs[k])@ == run
                &&& forall|k: int|
                    0 <= k < runs.len() && (#[trigger] runs[k]).session_id@ == trimmed(session->0)
                        ==> runs[k].updated_at_ms <= run.updated_at && (runs[k].updated_at_ms
                        == run.updated_at ==> runs[k].started_at_ms <= run.started_at)
            })
        }),
{
    let all = run_views(runs);
    if run_id is Some {
        law_trimming_takes_off_the_whitespace_around(run_id->0);
        law_runs_are_found_by_identity(runs, trimmed(run_id->0));
    }
    if session is Some {
        law_trimming_takes_off_the_whitespace_around(session->0);
        law_newest_run(all, trimmed(session->0));
        assert forall|k: int| 0 <= k < runs.len() implies #[trigger] runs[k]@ == all[k] by {}
        match newest_run(all, trimmed(session->0)) {
            Some(best) => {
                let k = choose|k: int| 0 <= k < all.len() && all[k] == best;
                assert(runs[k]@ == best);
                assert forall|k: int|
                    0 <= k < runs.len() && (#[trigger] runs[k]).session_id@ == trimmed(
                        session->0,
                    ) implies runs[k].updated_at_ms <= best.updated_at && (runs[k].updated_at_ms
                    == best.updated_at ==> runs[k].started_at_ms <= best.started_at) by {
                    assert(all[k] == runs[k]@);
                    assert(!newer(all[k], best));
                }
            },
            None => {
                assert forall|k: int| 0 <= k < runs.len() implies (#[trigger] runs[k]).session_id@
                    != trimmed(session->0) by {
                    assert(all[k] == runs[k]@);
                }
            },
        }
    }
}

/// Whether a run is still on its way.
pub open spec fn on_its_way(run: ProjectedAgentRun) -> bool {
    run.status@ == "running"@ || run.status@ == "stalled"@
}

/// A session may be deleted exactly where it is named and none of its runs is on its way, and the
/// one that stands in the way is named.
pub proof fn law_sessions_are_deleted_when_nothing_runs(
    runs: Seq<ProjectedAgentRun>,
    session: Seq<char>,
)
    ensures
        deletable(run_views(runs), session) is Ok <==> !blank(session) && forall|k: int|
            0 <= k < runs.len() ==> !((#[trigger] runs[k]).session_id@ == trimmed(session)
                && on_its_way(runs[k])),
        deletable(run_views(runs), session) matches Ok(named) ==> named == trimmed(session),
        !blank(session) && deletable(run_views(runs), session) is Err ==> exists|k: int|
            0 <= k < runs.len() && (#[trigger] runs[k]).session_id@ == trimmed(session)
                && on_its_way(runs[k]) && deletable(run_views(runs), session) == Err::<
                Seq<char>,
                Seq<char>,
            >(
                "session cannot be deleted while agent_run "@ + runs[k].agent_run_id@ + " is "@
                    + runs[k].status@,
            ),
{
    law_trimming_takes_off_the_whitespace_around(session);
    lemma_active_run(runs, trimmed(session));
}

proof fn lemma_active_run(runs: Seq<ProjectedAgentRun>, session: Seq<char>)
    ensures
        match active_run(run_views(runs), session) {
            None => forall|k: int|
                0 <= k < runs.len() ==> !((#[trigger] runs[k]).session_id@ == session && on_its_way(
                    runs[k],
                )),
            Some(run) => exists|k: int|
                0 <= k < runs.len() && (#[trigger] runs[k]).session_id@ == session && on_its_way(
                    runs[k],
                ) && run == runs[k]@,
        },
    decreases runs.len(),
{
    let all = run_views(runs);
    if runs.len() > 0 {
        let rest = runs.subrange(1, runs.len() as int);
        lemma_active_run(rest, session);
        assert(run_views(rest) =~= all.subrange(1, all.len() as int));
        assert(all[0] == runs[0]@);
        if !(runs[0].session_id@ == session && on_its_way(runs[0])) {
            match active_run(all, session) {
                None => {
                    assert forall|k: int| 0 <= k < runs.len() implies !((
                    #[trigger] runs[k]).session_id@ == session && on_its_way(runs[k])) by {
                        if k > 0 {
                            assert(rest[k - 1] == runs[k]);
                        }
                    }
                },
                Some(run) => {
                    let k = choose|k: int|
                        0 <= k < rest.len() && (#[trigger] rest[k]).session_id@ == session
                            && on_its_way(rest[k]) && run == rest[k]@;
                    assert(rest[k] == runs[k + 1]);
                },
            }
        }
    }
}

/// A run is ended under the identity that was given, exactly where it is known, with the status and
/// the error that were given.
pub proof fn law_known_runs_are_ended(
    runs: Seq<ProjectedAgentRun>,
    id: Seq<char>,
    status: Seq<char>,
    error: Option<Seq<char>>,
    update: TerminalUpdate,
)
    ensures
        ended_with(run_views(runs), id, status, error) is Ok <==> !blank(id) && !none_with_id(
            runs,
            trimmed(id),
        ),
        ended_with(run_views(runs), id, status, error) == Ok::<TerminalUpdateView, Seq<char>>(
            update@,
        ) ==> update.agent_run_id@ == trimmed(id) && update.status@ == status && optional_text(
            update.error,
        ) == error,
{
    law_trimming_takes_off_the_whitespace_around(id);
    law_runs_are_found_by_identity(runs, trimmed(id));
}

} // verus!
