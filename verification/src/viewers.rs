//! The registry of viewers: who watches which session and agent run, when a session was last left
//! by its viewers, and which finished runs nobody has seen.

use crate::message_log::{run_views, ProjectedAgentRun, RunView};
use crate::text::{
    blank, copy_optional, law_trimming_takes_off_the_whitespace_around, normalized, optional_text,
    text_equals, trim, trimmed,
};
use crate::text_map::TextMap;
use crate::text_set::TextSet;
use vstd::prelude::*;

verus! {

/// What a viewer watches.
#[derive(Debug)]
pub struct ViewerBinding {
    pub session_id: String,
    pub agent_run_id: Option<String>,
}

pub struct BindingView {
    pub session: Seq<char>,
    pub run: Option<Seq<char>>,
}

impl View for ViewerBinding {
    type V = BindingView;

    open spec fn view(&self) -> BindingView {
        BindingView { session: self.session_id@, run: optional_text(self.agent_run_id) }
    }
}

/// What became of a request to detach a viewer.
#[derive(Clone, Copy, Debug, PartialEq, Eq, Structural)]
pub enum ViewerDetachTransition {
    Detached,
    NotAttached,
    BindingChanged,
}

impl ViewerDetachTransition {
    pub fn as_str(self) -> (result: &'static str)
        ensures
            result@ == match self {
                ViewerDetachTransition::Detached => "viewer_detached"@,
                ViewerDetachTransition::NotAttached => "viewer_not_attached"@,
                ViewerDetachTransition::BindingChanged => "viewer_binding_changed"@,
            },
    {
        match self {
            ViewerDetachTransition::Detached => "viewer_detached",
            ViewerDetachTransition::NotAttached => "viewer_not_attached",
            ViewerDetachTransition::BindingChanged => "viewer_binding_changed",
        }
    }
}

/// The viewers that watch each session and run, besides what the bindings themselves say.
#[derive(Debug)]
pub struct ViewerRegistry {
    viewers_by_id: TextMap<ViewerBinding>,
    session_viewers: TextMap<TextSet>,
    agent_run_viewers: TextMap<TextSet>,
    detached_session_at_ms: TextMap<i64>,
    unread_agent_run_ids: TextSet,
    unread_agent_run_session_ids: TextMap<String>,
}

/// What the registry knows: the binding of each viewer, the time at which each session without
/// viewers was left, and the session of each unread run.
pub struct RegistryView {
    pub bindings: Map<Seq<char>, BindingView>,
    pub detached: Map<Seq<char>, i64>,
    pub unread: Map<Seq<char>, Seq<char>>,
}

/// The viewers of a session.
pub open spec fn viewers_of(bindings: Map<Seq<char>, BindingView>, session: Seq<char>) -> Set<
    Seq<char>,
> {
    Set::new(|v: Seq<char>| bindings.contains_key(v) && bindings[v].session == session)
}

/// What a binding is filed under: its run where `by_run`, its session otherwise.
spec fn filed_under(binding: BindingView, by_run: bool) -> Option<Seq<char>> {
    if by_run {
        binding.run
    } else {
        Some(binding.session)
    }
}

spec fn members(
    bindings: Map<Seq<char>, BindingView>,
    by_run: bool,
    key: Seq<char>,
) -> Set<Seq<char>> {
    Set::new(
        |v: Seq<char>| bindings.contains_key(v) && filed_under(bindings[v], by_run) == Some(key),
    )
}

/// The viewers under each session or run that has any.
spec fn groups_of(bindings: Map<Seq<char>, BindingView>, by_run: bool) -> Map<
    Seq<char>,
    Set<Seq<char>>,
> {
    Map::new(
        |key: Seq<char>| members(bindings, by_run, key) != Set::<Seq<char>>::empty(),
        |key: Seq<char>| members(bindings, by_run, key),
    )
}

spec fn groups(index: TextMap<TextSet>) -> Map<Seq<char>, Set<Seq<char>>> {
    Map::new(|key: Seq<char>| index@.contains_key(key), |key: Seq<char>| index@[key]@)
}

spec fn index_wf(index: TextMap<TextSet>) -> bool {
    index.wf() && forall|key: Seq<char>| #[trigger]
        index@.contains_key(key) ==> index@[key].wf()
}

spec fn with_member(
    all: Map<Seq<char>, Set<Seq<char>>>,
    key: Seq<char>,
    viewer: Seq<char>,
) -> Map<Seq<char>, Set<Seq<char>>> {
    if all.contains_key(key) {
        all.insert(key, all[key].insert(viewer))
    } else {
        all.insert(key, Set::<Seq<char>>::empty().insert(viewer))
    }
}

spec fn without_member(
    all: Map<Seq<char>, Set<Seq<char>>>,
    key: Seq<char>,
    viewer: Seq<char>,
) -> Map<Seq<char>, Set<Seq<char>>> {
    if !all.contains_key(key) {
        all
    } else if all[key].remove(viewer) == Set::<Seq<char>>::empty() {
        all.remove(key)
    } else {
        all.insert(key, all[key].remove(viewer))
    }
}

fn add_member(index: &mut TextMap<TextSet>, key: &str, viewer: &str)
    requires
        index_wf(*old(index)),
    ensures
        index_wf(*final(index)),
        groups(*final(index)) == with_member(groups(*old(index)), key@, viewer@),
{
    let ghost before = groups(*index);
    let mut set = match index.remove(key) {
        Some(set) => set,
        None => TextSet::new(),
    };
    let _ = set.insert(viewer);
    index.insert(key, set);
    assert(groups(*index) =~= with_member(before, key@, viewer@));
}

fn drop_member(index: &mut TextMap<TextSet>, key: &str, viewer: &str)
    requires
        index_wf(*old(index)),
    ensures
        index_wf(*final(index)),
        groups(*final(index)) == without_member(groups(*old(index)), key@, viewer@),
{
    let ghost before = groups(*index);
    match index.remove(key) {
        Some(set) => {
            let mut set = set;
            let _ = set.remove(viewer);
            if set.is_empty() {
                assert(groups(*index) =~= before.remove(key@));
            } else {
                index.insert(key, set);
                assert(groups(*index) =~= before.insert(key@, set@));
            }
        },
        None => {
            assert(groups(*index) =~= before);
        },
    }
}

proof fn lemma_unbind(bindings: Map<Seq<char>, BindingView>, by_run: bool, viewer: Seq<char>)
    requires
        bindings.contains_key(viewer),
    ensures
        groups_of(bindings.remove(viewer), by_run) == match filed_under(bindings[viewer], by_run) {
            Some(key) => without_member(groups_of(bindings, by_run), key, viewer),
            None => groups_of(bindings, by_run),
        },
{
    let after = bindings.remove(viewer);
    let filed = filed_under(bindings[viewer], by_run);
    assert forall|key: Seq<char>| members(after, by_run, key) == if filed == Some(key) {
        members(bindings, by_run, key).remove(viewer)
    } else {
        members(bindings, by_run, key)
    } by {
        assert(members(after, by_run, key) =~= if filed == Some(key) {
            members(bindings, by_run, key).remove(viewer)
        } else {
            members(bindings, by_run, key)
        });
    }
    match filed {
        Some(key) => {
            assert(members(bindings, by_run, key).contains(viewer));
            assert(groups_of(after, by_run) =~= without_member(
                groups_of(bindings, by_run),
                key,
                viewer,
            ));
        },
        None => {
            assert(groups_of(after, by_run) =~= groups_of(bindings, by_run));
        },
    }
}

proof fn lemma_bind(
    bindings: Map<Seq<char>, BindingView>,
    by_run: bool,
    viewer: Seq<char>,
    binding: BindingView,
)
    requires
        !bindings.contains_key(viewer),
    ensures
        groups_of(bindings.insert(viewer, binding), by_run) == match filed_under(binding, by_run) {
            Some(key) => with_member(groups_of(bindings, by_run), key, viewer),
            None => groups_of(bindings, by_run),
        },
{
    let after = bindings.insert(viewer, binding);
    let filed = filed_under(binding, by_run);
    assert forall|key: Seq<char>| members(after, by_run, key) == if filed == Some(key) {
        members(bindings, by_run, key).insert(viewer)
    } else {
        members(bindings, by_run, key)
    } by {
        assert(members(after, by_run, key) =~= if filed == Some(key) {
            members(bindings, by_run, key).insert(viewer)
        } else {
            members(bindings, by_run, key)
        });
    }
    match filed {
        Some(key) => {
            assert(members(after, by_run, key).contains(viewer));
            assert(groups_of(after, by_run) =~= with_member(
                groups_of(bindings, by_run),
                key,
                viewer,
            ));
        },
        None => {
            assert(groups_of(after, by_run) =~= groups_of(bindings, by_run));
        },
    }
}

/// Takes the binding of a viewer out. A session that loses its last viewer is left at `now`.
pub open spec fn unbound(view: RegistryView, viewer: Seq<char>, now: i64) -> RegistryView {
    if view.bindings.contains_key(viewer) {
        let session = view.bindings[viewer].session;
        let bindings = view.bindings.remove(viewer);
        RegistryView {
            bindings,
            detached: if viewers_of(bindings, session) == Set::<Seq<char>>::empty() {
                view.detached.insert(session, now)
            } else {
                view.detached
            },
            unread: view.unread,
        }
    } else {
        view
    }
}

/// The unread runs of other sessions.
pub open spec fn unread_elsewhere(unread: Map<Seq<char>, Seq<char>>, session: Seq<char>) -> Map<
    Seq<char>,
    Seq<char>,
> {
    Map::new(
        |run: Seq<char>| unread.contains_key(run) && unread[run] != session,
        |run: Seq<char>| unread[run],
    )
}

/// Binds a viewer to a session, and to a run where one is given. The session is no longer left
/// and its runs are no longer unread.
pub open spec fn attached(
    view: RegistryView,
    viewer: Seq<char>,
    session: Seq<char>,
    run: Option<Seq<char>>,
    now: i64,
) -> RegistryView {
    let free = unbound(view, viewer, now);
    RegistryView {
        bindings: free.bindings.insert(viewer, BindingView { session, run }),
        detached: free.detached.remove(session),
        unread: unread_elsewhere(free.unread, session),
    }
}

/// What becomes of a request to detach a viewer from the session it is expected to watch.
pub open spec fn detach_transition(
    view: RegistryView,
    viewer: Seq<char>,
    expected: Option<Seq<char>>,
) -> ViewerDetachTransition {
    if !view.bindings.contains_key(viewer) {
        ViewerDetachTransition::NotAttached
    } else if normalized(expected) is Some && normalized(expected)
        != Some(view.bindings[viewer].session) {
        ViewerDetachTransition::BindingChanged
    } else {
        ViewerDetachTransition::Detached
    }
}

/// Drops everything that the registry knows of a session.
pub open spec fn forgotten(view: RegistryView, session: Seq<char>) -> RegistryView {
    RegistryView {
        bindings: Map::new(
            |v: Seq<char>| view.bindings.contains_key(v) && view.bindings[v].session != session,
            |v: Seq<char>| view.bindings[v],
        ),
        detached: view.detached.remove(session),
        unread: unread_elsewhere(view.unread, session),
    }
}

/// Whether an agent run has ended.
pub open spec fn terminal_status(status: Seq<char>) -> bool {
    status != "running"@ && status != "stalled"@
}

/// Whether an agent run has ended.
pub fn is_agent_run_terminal(status: &str) -> (result: bool)
    ensures
        result == terminal_status(status@),
{
    !text_equals(status, "running") && !text_equals(status, "stalled")
}

/// Whether a run ended after the last viewer of its session had left.
pub open spec fn ended_unseen(view: RegistryView, run: RunView) -> bool {
    &&& terminal_status(run.status)
    &&& viewers_of(view.bindings, run.session) == Set::<Seq<char>>::empty()
    &&& view.detached.contains_key(run.session)
    &&& run.updated_at >= view.detached[run.session]
}

/// Marks the runs that ended unseen as unread.
pub open spec fn marked(view: RegistryView, runs: Seq<RunView>) -> RegistryView
    decreases runs.len(),
{
    if runs.len() == 0 {
        view
    } else {
        let before = marked(view, runs.subrange(0, runs.len() - 1));
        let run = runs[runs.len() - 1];
        if ended_unseen(before, run) {
            RegistryView { unread: before.unread.insert(run.id, run.session), ..before }
        } else {
            before
        }
    }
}

impl ViewerRegistry {
    pub closed spec fn view(&self) -> RegistryView {
        RegistryView {
            bindings: self.viewers_by_id@.map_values(|b: ViewerBinding| b@),
            detached: self.detached_session_at_ms@,
            unread: self.unread_agent_run_session_ids@.map_values(|s: String| s@),
        }
    }

    /// The indexes hold exactly what the bindings say.
    pub closed spec fn wf(&self) -> bool {
        &&& self.viewers_by_id.wf()
        &&& index_wf(self.session_viewers)
        &&& index_wf(self.agent_run_viewers)
        &&& self.detached_session_at_ms.wf()
        &&& self.unread_agent_run_ids.wf()
        &&& self.unread_agent_run_session_ids.wf()
        &&& groups(self.session_viewers) == groups_of(self.view().bindings, false)
        &&& groups(self.agent_run_viewers) == groups_of(self.view().bindings, true)
        &&& self.unread_agent_run_ids@ == self.unread_agent_run_session_ids@.dom()
    }

    pub fn new() -> (result: ViewerRegistry)
        ensures
            result.wf(),
            result@.bindings == Map::<Seq<char>, BindingView>::empty(),
            result@.detached == Map::<Seq<char>, i64>::empty(),
            result@.unread == Map::<Seq<char>, Seq<char>>::empty(),
    {
        let result = ViewerRegistry {
            viewers_by_id: TextMap::new(),
            session_viewers: TextMap::new(),
            agent_run_viewers: TextMap::new(),
            detached_session_at_ms: TextMap::new(),
            unread_agent_run_ids: TextSet::new(),
            unread_agent_run_session_ids: TextMap::new(),
        };
        proof {
            assert(result@.bindings =~= Map::<Seq<char>, BindingView>::empty());
            assert(result@.unread =~= Map::<Seq<char>, Seq<char>>::empty());
            assert forall|by_run: bool, key: Seq<char>| #[trigger]
                members(result@.bindings, by_run, key) == Set::<Seq<char>>::empty() by {
                assert(members(result@.bindings, by_run, key) =~= Set::<Seq<char>>::empty());
            }
            assert(groups(result.session_viewers) =~= groups_of(result@.bindings, false));
            assert(groups(result.agent_run_viewers) =~= groups_of(result@.bindings, true));
            assert(result.unread_agent_run_ids@ =~= result.unread_agent_run_session_ids@.dom());
        }
        result
    }

    proof fn lemma_session_group(&self, session: Seq<char>)
        requires
            self.wf(),
        ensures
            viewers_of(self@.bindings, session) == if self.session_viewers@.contains_key(session) {
                self.session_viewers@[session]@
            } else {
                Set::<Seq<char>>::empty()
            },
    {
        let all = groups(self.session_viewers);
        assert(members(self@.bindings, false, session) =~= viewers_of(self@.bindings, session));
        assert(all.contains_key(session) == self.session_viewers@.contains_key(session));
        if all.contains_key(session) {
            assert(all[session] == self.session_viewers@[session]@);
        }
        assert(all.contains_key(session) == groups_of(self@.bindings, false).contains_key(session));
    }

    /// The number of viewers of a session.
    pub fn session_viewer_count(&self, session_id: &str) -> (result: usize)
        requires
            self.wf(),
        ensures
            result == viewers_of(self@.bindings, session_id@).len(),
            viewers_of(self@.bindings, session_id@).finite(),
    {
        proof {
            self.lemma_session_group(session_id@);
        }
        match self.session_viewers.get(session_id) {
            Some(viewers) => viewers.len(),
            None => 0,
        }
    }

    /// Whether a run is unread.
    pub fn is_unread(&self, agent_run_id: &str) -> (result: bool)
        requires
            self.wf(),
        ensures
            result == self@.unread.contains_key(agent_run_id@),
    {
        self.unread_agent_run_ids.contains(agent_run_id)
    }

    /// The sessions that have a viewer.
    pub fn watched_sessions(&self) -> (result: TextSet)
        requires
            self.wf(),
        ensures
            result.wf(),
            result@ == Set::new(
                |s: Seq<char>| viewers_of(self@.bindings, s) != Set::<Seq<char>>::empty(),
            ),
    {
        let ghost keys = self.session_viewers.keys();
        let ghost watched = Set::new(
            |s: Seq<char>| viewers_of(self@.bindings, s) != Set::<Seq<char>>::empty(),
        );
        let mut result = TextSet::new();
        let mut i: usize = 0;
        assert(keys.subrange(0, 0).to_set() =~= Set::<Seq<char>>::empty());
        while i < self.session_viewers.len()
            invariant
                self.wf(),
                keys == self.session_viewers.keys(),
                i <= keys.len(),
                result.wf(),
                result@ == keys.subrange(0, i as int).to_set(),
            decreases keys.len() - i,
        {
            let (session, _) = self.session_viewers.entry_at(i);
            let _ = result.insert(session.as_str());
            proof {
                let a = keys.subrange(0, i as int);
                let b = keys.subrange(0, i + 1);
                assert(b =~= a.push(session@));
                assert forall|t: Seq<char>| b.to_set().contains(t) == a.to_set().insert(
                    session@,
                ).contains(t) by {
                    if b.contains(t) {
                        let k = choose|k: int| 0 <= k < b.len() && b[k] == t;
                        if k < i {
                            assert(a[k] == t);
                        }
                    }
                    if a.contains(t) {
                        let k = choose|k: int| 0 <= k < a.len() && a[k] == t;
                        assert(b[k] == t);
                    }
                    assert(b[i as int] == session@);
                }
                assert(result@ =~= b.to_set());
            }
            i = i + 1;
        }
        proof {
            assert(keys.subrange(0, keys.len() as int) =~= keys);
            self.session_viewers.lemma_keys();
            assert forall|s: Seq<char>| result@.contains(s) == watched.contains(s) by {
                self.lemma_session_group(s);
                assert(groups(self.session_viewers).contains_key(s) == groups_of(
                    self@.bindings,
                    false,
                ).contains_key(s));
                assert(members(self@.bindings, false, s) =~= viewers_of(self@.bindings, s));
            }
            assert(result@ =~= watched);
        }
        result
    }

    fn unbind(&mut self, viewer_id: &str) -> (result: Option<ViewerBinding>)
        requires
            old(self).wf(),
        ensures
            final(self).wf(),
            final(self)@.bindings == old(self)@.bindings.remove(viewer_id@),
            final(self)@.detached == old(self)@.detached,
            final(self)@.unread == old(self)@.unread,
            match result {
                Some(binding) => old(self)@.bindings.contains_key(viewer_id@)
                    && old(self)@.bindings[viewer_id@] == binding@,
                None => !old(self)@.bindings.contains_key(viewer_id@),
            },
    {
        let ghost before = self@.bindings;
        match self.viewers_by_id.remove(viewer_id) {
            None => {
                assert(self@.bindings =~= before.remove(viewer_id@));
                assert(before.remove(viewer_id@) =~= before);
                None
            },
            Some(binding) => {
                assert(before.contains_key(viewer_id@) && before[viewer_id@] == binding@);
                proof {
                    lemma_unbind(before, false, viewer_id@);
                    lemma_unbind(before, true, viewer_id@);
                }
                drop_member(&mut self.session_viewers, binding.session_id.as_str(), viewer_id);
                match &binding.agent_run_id {
                    Some(agent_run_id) => {
                        drop_member(&mut self.agent_run_viewers, agent_run_id.as_str(), viewer_id);
                    },
                    None => {},
                }
                assert(self@.bindings =~= before.remove(viewer_id@));
                Some(binding)
            },
        }
    }

    /// Notes that a session was left, where it has no viewers.
    fn note_left(&mut self, session_id: &str, now_ms: i64)
        requires
            old(self).wf(),
        ensures
            final(self).wf(),
            final(self)@.bindings == old(self)@.bindings,
            final(self)@.unread == old(self)@.unread,
            final(self)@.detached == if viewers_of(old(self)@.bindings, session_id@) == Set::<
                Seq<char>,
            >::empty() {
                old(self)@.detached.insert(session_id@, now_ms)
            } else {
                old(self)@.detached
            },
    {
        proof {
            self.lemma_session_group(session_id@);
        }
        let left = match self.session_viewers.get(session_id) {
            Some(viewers) => viewers.is_empty(),
            None => true,
        };
        if left {
            self.detached_session_at_ms.insert(session_id, now_ms);
        }
    }

    /// Detaches a viewer from the session that it is expected to watch.
    pub fn detach_viewer_binding(
        &mut self,
        viewer_id: &str,
        expected_session_id: &Option<String>,
        now_ms: i64,
    ) -> (result: ViewerDetachTransition)
        requires
            old(self).wf(),
        ensures
            final(self).wf(),
            result == detach_transition(
                old(self)@,
                viewer_id@,
                optional_text(*expected_session_id),
            ),
            final(self)@ == if result == ViewerDetachTransition::Detached {
                unbound(old(self)@, viewer_id@, now_ms)
            } else {
                old(self)@
            },
    {
        let bound: Option<String> = match self.viewers_by_id.get(viewer_id) {
            Some(binding) => {
                assert(self@.bindings[viewer_id@] == binding@);
                Some(binding.session_id.clone())
            },
            None => None,
        };
        let session_id = match bound {
            None => {
                return ViewerDetachTransition::NotAttached;
            },
            Some(session_id) => session_id,
        };
        match expected_session_id {
            Some(expected) => {
                let expected = trim(expected.as_str());
                if !expected.is_empty() && !text_equals(expected, session_id.as_str()) {
                    return ViewerDetachTransition::BindingChanged;
                }
            },
            None => {},
        }
        let _ = self.unbind(viewer_id);
        self.note_left(session_id.as_str(), now_ms);
        ViewerDetachTransition::Detached
    }

    /// Marks the runs of a session as read.
    pub fn clear_unread_for_session(&mut self, session_id: &str)
        requires
            old(self).wf(),
        ensures
            final(self).wf(),
            final(self)@.bindings == old(self)@.bindings,
            final(self)@.detached == old(self)@.detached,
            final(self)@.unread == unread_elsewhere(old(self)@.unread, session_id@),
    {
        let ghost unread = self@.unread;
        let ghost keys = self.unread_agent_run_session_ids.keys();
        let mut ids = TextSet::new();
        let mut sessions: TextMap<String> = TextMap::new();
        let mut i: usize = 0;
        proof {
            self.unread_agent_run_session_ids.lemma_keys();
            assert(ids@ =~= sessions@.dom());
        }
        while i < self.unread_agent_run_session_ids.len()
            invariant
                self.unread_agent_run_session_ids.wf(),
                keys == self.unread_agent_run_session_ids.keys(),
                unread == self.unread_agent_run_session_ids@.map_values(|s: String| s@),
                i <= keys.len(),
                ids.wf(),
                sessions.wf(),
                ids@ == sessions@.dom(),
                forall|run: Seq<char>| #[trigger]
                    sessions@.contains_key(run) <==> (keys.subrange(0, i as int).contains(run)
                        && unread[run] != session_id@),
                forall|run: Seq<char>| #[trigger]
                    sessions@.contains_key(run) ==> sessions@[run]@ == unread[run],
            decreases keys.len() - i,
        {
            let (run, owner) = self.unread_agent_run_session_ids.entry_at(i);
            proof {
                assert(unread[run@] == owner@);
                assert(keys.subrange(0, i + 1) =~= keys.subrange(0, i as int).push(run@));
                assert forall|r: Seq<char>| keys.subrange(0, i + 1).contains(r) == (
                keys.subrange(0, i as int).contains(r) || r == run@) by {
                    let a = keys.subrange(0, i as int);
                    let b = keys.subrange(0, i + 1);
                    if a.contains(r) {
                        let k = choose|k: int| 0 <= k < a.len() && a[k] == r;
                        assert(b[k] == r);
                    }
                    if b.contains(r) {
                        let k = choose|k: int| 0 <= k < b.len() && b[k] == r;
                        if k < i {
                            assert(a[k] == r);
                        }
                    }
                    assert(b[i as int] == run@);
                }
            }
            if !text_equals(owner.as_str(), session_id) {
                sessions.insert(run.as_str(), owner.clone());
                let _ = ids.insert(run.as_str());
                assert(ids@ =~= sessions@.dom());
            }
            i = i + 1;
        }
        proof {
            self.unread_agent_run_session_ids.lemma_keys();
            assert(keys.subrange(0, keys.len() as int) =~= keys);
        }
        self.unread_agent_run_ids = ids;
        self.unread_agent_run_session_ids = sessions;
        assert(self@.unread =~= unread_elsewhere(unread, session_id@));
    }

    /// Attaches a viewer to a session and gives the number of viewers that the session has.
    pub fn attach_viewer_to_session(
        &mut self,
        viewer_id: &str,
        session_id: &str,
        agent_run_id: &Option<String>,
        now_ms: i64,
    ) -> (result: usize)
        requires
            old(self).wf(),
        ensures
            final(self).wf(),
            final(self)@ == attached(
                old(self)@,
                viewer_id@,
                session_id@,
                optional_text(*agent_run_id),
                now_ms,
            ),
            result == viewers_of(final(self)@.bindings, session_id@).len(),
    {
        let ghost start = self@;
        match self.unbind(viewer_id) {
            Some(previous) => {
                self.note_left(previous.session_id.as_str(), now_ms);
            },
            None => {
                assert(start.bindings.remove(viewer_id@) =~= start.bindings);
            },
        }
        let ghost free = self@;
        assert(free == unbound(start, viewer_id@, now_ms));
        let binding = ViewerBinding {
            session_id: session_id.to_owned(),
            agent_run_id: copy_optional(agent_run_id),
        };
        let ghost bound = binding@;
        proof {
            lemma_bind(free.bindings, false, viewer_id@, bound);
            lemma_bind(free.bindings, true, viewer_id@, bound);
        }
        add_member(&mut self.session_viewers, session_id, viewer_id);
        match agent_run_id {
            Some(run) => {
                add_member(&mut self.agent_run_viewers, run.as_str(), viewer_id);
            },
            None => {},
        }
        self.viewers_by_id.insert(viewer_id, binding);
        assert(self@.bindings =~= free.bindings.insert(viewer_id@, bound));
        let _ = self.detached_session_at_ms.remove(session_id);
        self.clear_unread_for_session(session_id);
        self.session_viewer_count(session_id)
    }

    /// Forgets a session: its viewers, when it was left, and its unread runs.
    pub fn forget_session(&mut self, session_id: &str)
        requires
            old(self).wf(),
        ensures
            final(self).wf(),
            final(self)@ == forgotten(old(self)@, session_id@),
    {
        let ghost start = self@;
        proof {
            self.lemma_session_group(session_id@);
            if self.session_viewers@.contains_key(session_id@) {
                self.session_viewers@[session_id@].lemma_finite();
            }
        }
        loop
            invariant
                self.wf(),
                self@.detached == start.detached,
                self@.unread == start.unread,
                forall|v: Seq<char>| #[trigger]
                    self@.bindings.contains_key(v) ==> start.bindings.contains_key(v)
                        && self@.bindings[v] == start.bindings[v],
                forall|v: Seq<char>| #[trigger]
                    start.bindings.contains_key(v) && start.bindings[v].session != session_id@
                        ==> self@.bindings.contains_key(v),
                viewers_of(self@.bindings, session_id@).finite(),
            ensures
                viewers_of(self@.bindings, session_id@) == Set::<Seq<char>>::empty(),
            decreases viewers_of(self@.bindings, session_id@).len(),
        {
            proof {
                self.lemma_session_group(session_id@);
            }
            let viewer: Option<String> = match self.session_viewers.get(session_id) {
                Some(viewers) => {
                    proof {
                        let all = groups(self.session_viewers);
                        assert(all.contains_key(session_id@));
                        assert(groups_of(self@.bindings, false).contains_key(session_id@));
                        assert(all[session_id@] == members(self@.bindings, false, session_id@));
                        assert(all[session_id@] == viewers@);
                    }
                    Some(viewers.first().clone())
                },
                None => None,
            };
            match viewer {
                None => {
                    break;
                },
                Some(viewer) => {
                    let ghost before = self@.bindings;
                    let _ = self.unbind(viewer.as_str());
                    assert(viewers_of(self@.bindings, session_id@) =~= viewers_of(
                        before,
                        session_id@,
                    ).remove(viewer@));
                },
            }
        }
        proof {
            assert forall|v: Seq<char>| #[trigger] self@.bindings.contains_key(v) implies
                self@.bindings[v].session != session_id@ by {
                if self@.bindings[v].session == session_id@ {
                    assert(viewers_of(self@.bindings, session_id@).contains(v));
                }
            }
            assert(self@.bindings =~= forgotten(start, session_id@).bindings);
        }
        let _ = self.detached_session_at_ms.remove(session_id);
        self.clear_unread_for_session(session_id);
    }

    /// Marks the runs that ended after the last viewer of their session had left as unread.
    pub fn mark_unread_for_detached_terminal_agent_runs(&mut self, runs: &Vec<ProjectedAgentRun>)
        requires
            old(self).wf(),
        ensures
            final(self).wf(),
            final(self)@ == marked(old(self)@, run_views(runs@)),
    {
        let ghost start = self@;
        let ghost all = run_views(runs@);
        let mut i: usize = 0;
        assert(all.subrange(0, 0) =~= Seq::empty());
        while i < runs.len()
            invariant
                i <= runs.len(),
                all == run_views(runs@),
                self.wf(),
                self@ == marked(start, all.subrange(0, i as int)),
            decreases runs.len() - i,
        {
            let run = &runs[i];
            proof {
                let next = all.subrange(0, i + 1);
                assert(next.subrange(0, next.len() - 1) =~= all.subrange(0, i as int));
                assert(next[next.len() - 1] == run@);
                self.lemma_session_group(run.session_id@);
            }
            let ghost before = self@;
            let watched = match self.session_viewers.get(run.session_id.as_str()) {
                Some(viewers) => !viewers.is_empty(),
                None => false,
            };
            if is_agent_run_terminal(run.status.as_str()) && !watched {
                let left_at: Option<i64> = match self.detached_session_at_ms.get(
                    run.session_id.as_str(),
                ) {
                    Some(at) => Some(*at),
                    None => None,
                };
                match left_at {
                    Some(at) => {
                        if run.updated_at_ms >= at {
                            let _ = self.unread_agent_run_ids.insert(run.agent_run_id.as_str());
                            self.unread_agent_run_session_ids.insert(
                                run.agent_run_id.as_str(),
                                run.session_id.clone(),
                            );
                            assert(self.unread_agent_run_ids@
                                =~= self.unread_agent_run_session_ids@.dom());
                            assert(self@.unread =~= before.unread.insert(
                                run.agent_run_id@,
                                run.session_id@,
                            ));
                        }
                    },
                    None => {},
                }
            }
            i = i + 1;
        }
        assert(all.subrange(0, all.len() as int) =~= all);
    }
}

/// After a viewer is attached it watches that session and no other, the session is not left, and
/// none of the session's runs is unread. What other viewers watch does not change.
pub proof fn law_attach(
    view: RegistryView,
    viewer: Seq<char>,
    session: Seq<char>,
    run: Option<Seq<char>>,
    now: i64,
)
    ensures
        ({
            let after = attached(view, viewer, session, run, now);
            &&& viewers_of(after.bindings, session).contains(viewer)
            &&& forall|other: Seq<char>|
                other != session ==> !#[trigger] viewers_of(after.bindings, other).contains(viewer)
            &&& !after.detached.contains_key(session)
            &&& forall|r: Seq<char>| #[trigger]
                after.unread.contains_key(r) ==> after.unread[r] != session
            &&& forall|v: Seq<char>|
                v != viewer ==> after.bindings.contains_key(v) == (
                #[trigger] view.bindings.contains_key(v)) && (view.bindings.contains_key(v)
                    ==> after.bindings[v] == view.bindings[v])
        }),
{
}

/// A viewer that was detached is not attached: detaching it again changes nothing.
pub proof fn law_detach_once(
    view: RegistryView,
    viewer: Seq<char>,
    now: i64,
    expected: Option<Seq<char>>,
)
    ensures
        detach_transition(unbound(view, viewer, now), viewer, expected)
            == ViewerDetachTransition::NotAttached,
{
}

/// Whether no two runs with the same identity belong to different sessions.
pub open spec fn one_session_each(runs: Seq<RunView>) -> bool {
    forall|i: int, j: int|
        0 <= i < runs.len() && 0 <= j < runs.len() && (#[trigger] runs[i]).id == (
        #[trigger] runs[j]).id ==> runs[i].session == runs[j].session
}

/// Marking runs changes what is unread and nothing else: unread are afterwards the runs that were,
/// and those of the list that ended unseen. A run that has not ended, whose session has a viewer or
/// was not left, or that ended before the session was left, is not marked.
pub proof fn law_only_unseen_are_marked(view: RegistryView, runs: Seq<RunView>)
    ensures
        marked(view, runs).bindings == view.bindings,
        marked(view, runs).detached == view.detached,
        forall|r: Seq<char>| #[trigger]
            marked(view, runs).unread.contains_key(r) <==> view.unread.contains_key(r) || exists|
                i: int,
            |
                0 <= i < runs.len() && (#[trigger] runs[i]).id == r && ended_unseen(view, runs[i]),
        one_session_each(runs) ==> forall|i: int|
            0 <= i < runs.len() && ended_unseen(view, #[trigger] runs[i]) ==> marked(
                view,
                runs,
            ).unread.contains_key(runs[i].id) && marked(view, runs).unread[runs[i].id]
                == runs[i].session,
        forall|r: Seq<char>|
            view.unread.contains_key(r) && (forall|i: int|
                0 <= i < runs.len() ==> (#[trigger] runs[i]).id != r) ==> #[trigger] marked(
                view,
                runs,
            ).unread[r] == view.unread[r],
    decreases runs.len(),
{
    if runs.len() > 0 {
        let n = runs.len() - 1;
        let init = runs.subrange(0, n);
        let run = runs[n];
        let before = marked(view, init);
        let after = marked(view, runs);
        law_only_unseen_are_marked(view, init);
        assert(ended_unseen(before, run) == ended_unseen(view, run));
        assert forall|r: Seq<char>| #[trigger] after.unread.contains_key(r) implies
            view.unread.contains_key(r) || exists|i: int|
            0 <= i < runs.len() && (#[trigger] runs[i]).id == r && ended_unseen(view, runs[i]) by {
            if before.unread.contains_key(r) {
                if !view.unread.contains_key(r) {
                    let i = choose|i: int|
                        0 <= i < init.len() && (#[trigger] init[i]).id == r && ended_unseen(
                            view,
                            init[i],
                        );
                    assert(runs[i] == init[i]);
                }
            } else {
                assert(runs[n].id == r);
            }
        }
        assert forall|r: Seq<char>|
            view.unread.contains_key(r) || (exists|i: int|
                0 <= i < runs.len() && (#[trigger] runs[i]).id == r && ended_unseen(
                    view,
                    runs[i],
                )) implies #[trigger] after.unread.contains_key(r) by {
            if !view.unread.contains_key(r) {
                let i = choose|i: int|
                    0 <= i < runs.len() && (#[trigger] runs[i]).id == r && ended_unseen(
                        view,
                        runs[i],
                    );
                if i < n {
                    assert(init[i] == runs[i]);
                }
            }
            assert(view.unread.contains_key(r) ==> before.unread.contains_key(r));
        }
        if one_session_each(runs) {
            assert(one_session_each(init)) by {
                assert forall|i: int, j: int|
                    0 <= i < init.len() && 0 <= j < init.len() && (#[trigger] init[i]).id == (
                    #[trigger] init[j]).id implies init[i].session == init[j].session by {
                    assert(init[i] == runs[i] && init[j] == runs[j]);
                }
            }
            assert forall|i: int| 0 <= i < runs.len() && ended_unseen(
                view,
                #[trigger] runs[i],
            ) implies after.unread.contains_key(runs[i].id) && after.unread[runs[i].id]
                == runs[i].session by {
                if i < n {
                    assert(init[i] == runs[i]);
                    if runs[n].id == runs[i].id {
                        assert(runs[n].session == runs[i].session);
                    }
                }
            }
        }
        assert forall|r: Seq<char>|
            view.unread.contains_key(r) && (forall|i: int|
                0 <= i < runs.len() ==> (#[trigger] runs[i]).id != r) implies #[trigger] after.unread[r]
            == view.unread[r] by {
            assert forall|i: int| 0 <= i < init.len() implies (#[trigger] init[i]).id != r by {
                assert(init[i] == runs[i]);
            }
            assert(runs[n].id != r);
            assert(before.unread[r] == view.unread[r]);
        }
    }
}

/// Every run of a list that ends after the last viewer of its session has detached is unread, and
/// attaching a viewer to the session again makes it read: marking the list once more does not make
/// it unread.
pub proof fn law_unread_until_attached(
    view: RegistryView,
    viewer: Seq<char>,
    session: Seq<char>,
    runs: Seq<RunView>,
    left_at: i64,
    next_viewer: Seq<char>,
    next_run: Option<Seq<char>>,
    back_at: i64,
)
    requires
        view.bindings.contains_key(viewer),
        view.bindings[viewer].session == session,
        viewers_of(view.bindings.remove(viewer), session) == Set::<Seq<char>>::empty(),
        one_session_each(runs),
    ensures
        ({
            let unseen = marked(unbound(view, viewer, left_at), runs);
            let back = attached(unseen, next_viewer, session, next_run, back_at);
            forall|i: int|
                0 <= i < runs.len() && (#[trigger] runs[i]).session == session && terminal_status(
                    runs[i].status,
                ) && runs[i].updated_at >= left_at ==> unseen.unread.contains_key(runs[i].id)
                    && !back.unread.contains_key(runs[i].id) && !marked(
                    back,
                    runs,
                ).unread.contains_key(runs[i].id)
        }),
{
    let left = unbound(view, viewer, left_at);
    let unseen = marked(left, runs);
    let back = attached(unseen, next_viewer, session, next_run, back_at);
    law_only_unseen_are_marked(left, runs);
    law_only_unseen_are_marked(back, runs);
    assert(viewers_of(back.bindings, session).contains(next_viewer));
    assert forall|i: int|
        0 <= i < runs.len() && (#[trigger] runs[i]).session == session && terminal_status(
            runs[i].status,
        ) && runs[i].updated_at >= left_at implies unseen.unread.contains_key(runs[i].id)
        && !back.unread.contains_key(runs[i].id) && !marked(back, runs).unread.contains_key(
        runs[i].id,
    ) by {
        assert(ended_unseen(left, runs[i]));
        if marked(back, runs).unread.contains_key(runs[i].id) {
            let j = choose|j: int|
                0 <= j < runs.len() && (#[trigger] runs[j]).id == runs[i].id && ended_unseen(
                    back,
                    runs[j],
                );
            assert(runs[j].session == runs[i].session);
        }
    }
}

/// A session that is forgotten has no viewers, was not left, and has no unread runs.
pub proof fn law_forgotten(view: RegistryView, session: Seq<char>)
    ensures
        ({
            let after = forgotten(view, session);
            &&& viewers_of(after.bindings, session) == Set::<Seq<char>>::empty()
            &&& !after.detached.contains_key(session)
            &&& forall|r: Seq<char>| #[trigger]
                after.unread.contains_key(r) ==> after.unread[r] != session
        }),
{
    assert(viewers_of(forgotten(view, session).bindings, session) =~= Set::<Seq<char>>::empty());
}

/// A viewer is detached exactly where it is attached and the session that is expected, if one is, is
/// the one that it watches.
pub proof fn law_viewers_are_detached_where_they_are(
    view: RegistryView,
    viewer: Seq<char>,
    expected: Option<Seq<char>>,
)
    ensures
        ({
            let named = expected is Some && !blank(expected->0);
            let transition = detach_transition(view, viewer, expected);
            &&& transition is NotAttached <==> !view.bindings.contains_key(viewer)
            &&& transition is BindingChanged <==> view.bindings.contains_key(viewer) && named
                && trimmed(expected->0) != view.bindings[viewer].session
            &&& transition is Detached <==> view.bindings.contains_key(viewer) && (!named || trimmed(
                expected->0,
            ) == view.bindings[viewer].session)
        }),
{
    if expected is Some {
        law_trimming_takes_off_the_whitespace_around(expected->0);
    }
}

/// A viewer that leaves takes only its own binding with it; the time is noted for its session exactly
/// where it was the last that watched it, and for no other session.
pub proof fn law_leaving_is_noted_for_the_last_viewer(
    view: RegistryView,
    viewer: Seq<char>,
    now: i64,
    other: Seq<char>,
)
    ensures
        ({
            let after = unbound(view, viewer, now);
            &&& after.unread == view.unread
            &&& !after.bindings.contains_key(viewer)
            &&& other != viewer ==> (after.bindings.contains_key(other) <==> view.bindings.contains_key(
                other,
            )) && (view.bindings.contains_key(other) ==> after.bindings[other]
                == view.bindings[other])
            &&& view.bindings.contains_key(viewer) ==> {
                let session = view.bindings[viewer].session;
                let watched = exists|v: Seq<char>|
                    v != viewer && #[trigger] view.bindings.contains_key(v)
                        && view.bindings[v].session == session;
                &&& !watched ==> after.detached == view.detached.insert(session, now)
                &&& watched ==> after.detached == view.detached
            }
            &&& !view.bindings.contains_key(viewer) ==> after.detached == view.detached
        }),
{
    if view.bindings.contains_key(viewer) {
        let session = view.bindings[viewer].session;
        let left = view.bindings.remove(viewer);
        if exists|v: Seq<char>|
            v != viewer && #[trigger] view.bindings.contains_key(v) && view.bindings[v].session
                == session {
            let v = choose|v: Seq<char>|
                v != viewer && #[trigger] view.bindings.contains_key(v) && view.bindings[v].session
                    == session;
            assert(left.contains_key(v));
            assert(viewers_of(left, session).contains(v));
            assert(!Set::<Seq<char>>::empty().contains(v));
        } else {
            assert(viewers_of(left, session) =~= Set::<Seq<char>>::empty()) by {
                assert forall|v: Seq<char>| !viewers_of(left, session).contains(v) by {
                    if viewers_of(left, session).contains(v) {
                        assert(view.bindings.contains_key(v));
                    }
                }
            }
        }
    }
}

/// A run has ended unseen exactly where it is neither running nor stalled, nobody watches its session,
/// and it changed since the last viewer left.
pub proof fn law_runs_end_unseen_after_the_last_viewer(view: RegistryView, run: ProjectedAgentRun)
    ensures
        ended_unseen(view, run@) <==> {
            &&& run.status@ != "running"@
            &&& run.status@ != "stalled"@
            &&& forall|v: Seq<char>| #[trigger]
                view.bindings.contains_key(v) ==> view.bindings[v].session != run.session_id@
            &&& view.detached.contains_key(run.session_id@)
            &&& run.updated_at_ms >= view.detached[run.session_id@]
        },
{
    let watching = viewers_of(view.bindings, run.session_id@);
    if watching == Set::<Seq<char>>::empty() {
        assert forall|v: Seq<char>| #[trigger] view.bindings.contains_key(v) implies view.bindings[v].session
            != run.session_id@ by {
            if view.bindings[v].session == run.session_id@ {
                assert(watching.contains(v));
            }
        }
    }
    if forall|v: Seq<char>| #[trigger]
        view.bindings.contains_key(v) ==> view.bindings[v].session != run.session_id@ {
        assert(watching =~= Set::<Seq<char>>::empty());
    }
}

/// A session that is forgotten takes its own viewers and runs with it, and nothing of another.
pub proof fn law_only_the_session_is_forgotten(
    view: RegistryView,
    session: Seq<char>,
    viewer: Seq<char>,
    run: Seq<char>,
    other: Seq<char>,
)
    ensures
        ({
            let after = forgotten(view, session);
            &&& after.bindings.contains_key(viewer) <==> view.bindings.contains_key(viewer)
                && view.bindings[viewer].session != session
            &&& after.bindings.contains_key(viewer) ==> after.bindings[viewer]
                == view.bindings[viewer]
            &&& after.unread.contains_key(run) <==> view.unread.contains_key(run)
                && view.unread[run] != session
            &&& after.unread.contains_key(run) ==> after.unread[run] == view.unread[run]
            &&& other != session && view.detached.contains_key(other) ==> after.detached.contains_key(
                other,
            ) && after.detached[other] == view.detached[other]
        }),
{
}

} // verus!
