//! What a run tells of itself while it is running: the updates of its session, the sessions of the
//! agents that it starts, and the changes that it is about to make to files.

use crate::json::{field, json_views, object3, text_field, text_json, Json, JsonView};
use crate::observation_cas::{agrees, optional_json};
use crate::text::{
    blank, concat2, concat3, law_trimming_takes_off_the_whitespace_around, normalized,
    optional_text, text_equals, trim, trimmed,
};
use vstd::prelude::*;

verus! {

/// The update that hands on a payload of a run.
pub open spec fn update_json(session: Seq<char>, run: Seq<char>, payload: JsonView) -> JsonView {
    JsonView::Object(
        seq![
            ("sessionId"@, JsonView::Text(session)),
            ("agentRunId"@, JsonView::Text(run)),
            ("payload"@, payload),
        ],
    )
}

/// The update that hands on a payload of a run.
pub fn session_update(session_id: &str, agent_run_id: &str, payload: Json) -> (result: Json)
    ensures
        result@ == update_json(session_id@, agent_run_id@, payload@),
{
    let result = object3(
        "sessionId",
        text_json(session_id),
        "agentRunId",
        text_json(agent_run_id),
        "payload",
        payload,
    );
    assert(result@->Object_0 =~= update_json(session_id@, agent_run_id@, payload@)->Object_0);
    result
}

/// Whether a payload is an event of a run or of its session.
pub open spec fn is_event(payload: JsonView) -> bool {
    text_field(payload, "type"@) == Some("runtime_event"@) || text_field(payload, "type"@) == Some(
        "session_event"@,
    )
}

/// The last event among payloads.
pub open spec fn last_event(payloads: Seq<JsonView>) -> Option<JsonView>
    decreases payloads.len(),
{
    if payloads.len() == 0 {
        None
    } else if is_event(payloads[payloads.len() - 1]) {
        Some(payloads[payloads.len() - 1])
    } else {
        last_event(payloads.subrange(0, payloads.len() - 1))
    }
}

/// The updates that hand on payloads, in order.
pub open spec fn updates(session: Seq<char>, run: Seq<char>, payloads: Seq<JsonView>) -> Seq<
    JsonView,
> {
    Seq::new(payloads.len(), |i: int| update_json(session, run, payloads[i]))
}

fn find_last_event(payloads: &Vec<Json>) -> (result: Option<usize>)
    ensures
        match result {
            Some(at) => at < payloads.len() && last_event(json_views(payloads@)) == Some(
                payloads@[at as int]@,
            ),
            None => last_event(json_views(payloads@)) == None::<JsonView>,
        },
{
    let ghost all = json_views(payloads@);
    let mut i: usize = payloads.len();
    assert(all.subrange(0, all.len() as int) =~= all);
    while i > 0
        invariant
            i <= payloads.len(),
            all == json_views(payloads@),
            last_event(all.subrange(0, i as int)) == last_event(all),
        decreases i,
    {
        let ghost here = all.subrange(0, i as int);
        assert(here.subrange(0, i - 1) =~= all.subrange(0, i - 1));
        assert(here[i - 1] == payloads@[i - 1]@);
        i = i - 1;
        let event = match payloads[i].get_text("type") {
            Some(kind) => text_equals(kind.as_str(), "runtime_event") || text_equals(
                kind.as_str(),
                "session_event",
            ),
            None => false,
        };
        if event {
            return Some(i);
        }
    }
    None
}

/// The updates that hand on the payloads of a run, and the last event among them, which there has
/// to be.
pub fn emit_annotated_agent_run_payloads(
    session_id: &str,
    agent_run_id: &str,
    payloads: &Vec<Json>,
) -> (result: Result<(Vec<Json>, Json), String>)
    ensures
        match last_event(json_views(payloads@)) {
            Some(event) => result matches Ok(told) && json_views(told.0@) == updates(
                session_id@,
                agent_run_id@,
                json_views(payloads@),
            ) && told.1@ == event,
            None => result matches Err(message) && message@
                == "stream projection returned no event for agentRunId="@ + agent_run_id@,
        },
{
    let event = match find_last_event(payloads) {
        Some(at) => payloads[at].copy(),
        None => {
            return Err(
                concat2("stream projection returned no event for agentRunId=", agent_run_id),
            );
        },
    };
    let mut told: Vec<Json> = Vec::new();
    let mut i: usize = 0;
    while i < payloads.len()
        invariant
            i <= payloads.len(),
            told.len() == i,
            forall|j: int|
                0 <= j < i ==> (#[trigger] told@[j])@ == update_json(
                    session_id@,
                    agent_run_id@,
                    payloads@[j]@,
                ),
        decreases payloads.len() - i,
    {
        told.push(session_update(session_id, agent_run_id, payloads[i].copy()));
        i = i + 1;
    }
    assert(json_views(told@) =~= updates(session_id@, agent_run_id@, json_views(payloads@)));
    Ok((told, event))
}

/// The turn that an update of a background job belongs to: the one that its event names, else the
/// job itself.
pub open spec fn update_turn(payload: JsonView, job: Seq<char>) -> Seq<char> {
    match field(payload, "event"@) {
        Some(event) => match normalized(text_field(event, "turnId"@)) {
            Some(turn) => turn,
            None => job,
        },
        None => job,
    }
}

/// The turn that an update of a background job belongs to.
pub fn background_turn_id(payload: &Json, runtime_job_id: &str) -> (result: String)
    ensures
        result@ == update_turn(payload@, runtime_job_id@),
{
    match payload.get("event") {
        Some(event) => match event.get_text("turnId") {
            Some(turn) => {
                let turn = trim(turn.as_str());
                if turn.is_empty() {
                    runtime_job_id.to_owned()
                } else {
                    turn.to_owned()
                }
            },
            None => runtime_job_id.to_owned(),
        },
        None => runtime_job_id.to_owned(),
    }
}

/// An agent that was started in a session of its own.
#[derive(Debug)]
pub struct SpawnedAgent {
    pub parent_session_id: String,
    pub child_session_id: String,
    pub runtime_job_id: String,
}

/// Whether the run of an agent that was started still has to be entered in its session: the first
/// run of that session has to be it.
pub open spec fn spawned_run(
    agent: SpawnedAgent,
    parent: Seq<char>,
    first_run: Option<Seq<char>>,
) -> Result<bool, Seq<char>> {
    if agent.parent_session_id@ != parent {
        Err(
            "SubagentSpawned sessionId mismatch: expected="@ + parent + " actual="@
                + agent.parent_session_id@,
        )
    } else {
        match first_run {
            None => Ok(true),
            Some(run) => if run == agent.runtime_job_id@ {
                Ok(false)
            } else {
                Err(
                    "AgentRun session mismatch: sessionId="@ + agent.child_session_id@
                        + " expected="@ + agent.runtime_job_id@ + " actual="@ + run,
                )
            },
        }
    }
}

/// Decides whether the run of an agent that was started still has to be entered in its session.
pub fn materialize_spawned_agent_session(
    agent: &SpawnedAgent,
    parent_session_id: &str,
    first_run: &Option<String>,
) -> (result: Result<bool, String>)
    ensures
        agrees(
            result,
            |enter: bool| enter,
            spawned_run(*agent, parent_session_id@, optional_text(*first_run)),
        ),
{
    if !text_equals(agent.parent_session_id.as_str(), parent_session_id) {
        let head = concat2("SubagentSpawned sessionId mismatch: expected=", parent_session_id);
        return Err(concat3(head.as_str(), " actual=", agent.parent_session_id.as_str()));
    }
    match first_run {
        None => Ok(true),
        Some(run) => if text_equals(run.as_str(), agent.runtime_job_id.as_str()) {
            Ok(false)
        } else {
            let head = concat2(
                "AgentRun session mismatch: sessionId=",
                agent.child_session_id.as_str(),
            );
            let expected = concat3(head.as_str(), " expected=", agent.runtime_job_id.as_str());
            Err(concat3(expected.as_str(), " actual=", run.as_str()))
        },
    }
}

/// A change that a tool is about to make to a file.
#[derive(Debug)]
pub struct FileMutation {
    pub tool_name: String,
    pub tool_call_id: String,
    pub operation: String,
    pub path: String,
    pub target_path: Option<String>,
    pub previous_file_hash: Option<String>,
    pub read_snapshot_hash: Option<String>,
    pub file_hash: Option<String>,
    pub bytes_written: Option<u64>,
    pub added_lines: Option<u64>,
    pub removed_lines: Option<u64>,
    pub session_id: Option<String>,
    pub execution_owner: Option<String>,
}

/// The JSON value of an optional number.
pub open spec fn optional_number(value: Option<u64>) -> JsonView {
    match value {
        Some(n) => JsonView::Unsigned(n),
        None => JsonView::Null,
    }
}

fn number_json(value: Option<u64>) -> (result: Json)
    ensures
        result@ == optional_number(value),
{
    match value {
        Some(n) => Json::Unsigned(n),
        None => Json::Null,
    }
}

fn optional_text_json(value: &Option<String>) -> (result: Json)
    ensures
        result@ == optional_json(optional_text(*value)),
{
    match value {
        Some(text) => text_json(text.as_str()),
        None => Json::Null,
    }
}

/// The fact that is recorded of a change before it is made.
pub open spec fn mutation_fact(change: FileMutation) -> JsonView {
    JsonView::Object(
        seq![
            ("schema"@, JsonView::Text("file_mutation_pre_apply_fact_v1"@)),
            ("toolName"@, JsonView::Text(change.tool_name@)),
            ("toolCallId"@, JsonView::Text(change.tool_call_id@)),
            ("operation"@, JsonView::Text(change.operation@)),
            ("path"@, JsonView::Text(change.path@)),
            ("targetPath"@, optional_json(optional_text(change.target_path))),
            ("previousFileHash"@, optional_json(optional_text(change.previous_file_hash))),
            ("readSnapshotHash"@, optional_json(optional_text(change.read_snapshot_hash))),
            ("fileHash"@, optional_json(optional_text(change.file_hash))),
            ("bytesWritten"@, optional_number(change.bytes_written)),
            ("addedLines"@, optional_number(change.added_lines)),
            ("removedLines"@, optional_number(change.removed_lines)),
            ("sessionId"@, optional_json(optional_text(change.session_id))),
            ("executionOwner"@, optional_json(optional_text(change.execution_owner))),
        ],
    )
}

/// The fact that is recorded of a change before it is made.
pub fn commit_file_mutation(change: &FileMutation) -> (result: Json)
    ensures
        result@ == mutation_fact(*change),
{
    let mut entries: Vec<(String, Json)> = Vec::new();
    entries.push(("schema".to_owned(), text_json("file_mutation_pre_apply_fact_v1")));
    entries.push(("toolName".to_owned(), text_json(change.tool_name.as_str())));
    entries.push(("toolCallId".to_owned(), text_json(change.tool_call_id.as_str())));
    entries.push(("operation".to_owned(), text_json(change.operation.as_str())));
    entries.push(("path".to_owned(), text_json(change.path.as_str())));
    entries.push(("targetPath".to_owned(), optional_text_json(&change.target_path)));
    entries.push(("previousFileHash".to_owned(), optional_text_json(&change.previous_file_hash)));
    entries.push(("readSnapshotHash".to_owned(), optional_text_json(&change.read_snapshot_hash)));
    entries.push(("fileHash".to_owned(), optional_text_json(&change.file_hash)));
    entries.push(("bytesWritten".to_owned(), number_json(change.bytes_written)));
    entries.push(("addedLines".to_owned(), number_json(change.added_lines)));
    entries.push(("removedLines".to_owned(), number_json(change.removed_lines)));
    entries.push(("sessionId".to_owned(), optional_text_json(&change.session_id)));
    entries.push(("executionOwner".to_owned(), optional_text_json(&change.execution_owner)));
    let result = Json::Object(entries);
    assert(result@->Object_0 =~= mutation_fact(*change)->Object_0);
    result
}

/// Every payload of a run is told as it is, in its order, with the session and the run that it is of.
pub proof fn law_payloads_are_told_of_their_run(
    session: Seq<char>,
    run: Seq<char>,
    payloads: Seq<JsonView>,
    i: int,
)
    requires
        0 <= i < payloads.len(),
    ensures
        updates(session, run, payloads).len() == payloads.len(),
        ({
            let entries = updates(session, run, payloads)[i]->Object_0;
            &&& updates(session, run, payloads)[i] is Object
            &&& entries.contains(("sessionId"@, JsonView::Text(session)))
            &&& entries.contains(("agentRunId"@, JsonView::Text(run)))
            &&& entries.contains(("payload"@, payloads[i]))
        }),
{
    let entries = updates(session, run, payloads)[i]->Object_0;
    assert(entries[0] == ("sessionId"@, JsonView::Text(session)));
    assert(entries[1] == ("agentRunId"@, JsonView::Text(run)));
    assert(entries[2] == ("payload"@, payloads[i]));
}

/// Whether a payload is that of an event.
pub open spec fn tells_event(payload: JsonView) -> bool {
    text_field(payload, "type"@) == Some("runtime_event"@) || text_field(payload, "type"@) == Some(
        "session_event"@,
    )
}

/// The last event of a run is the last of its payloads that tells one, and there is none exactly where
/// none does.
pub proof fn law_the_last_event_is_found(payloads: Seq<JsonView>)
    ensures
        last_event(payloads) is None <==> forall|i: int|
            0 <= i < payloads.len() ==> !tells_event(#[trigger] payloads[i]),
        last_event(payloads) matches Some(event) ==> exists|i: int|
            0 <= i < payloads.len() && tells_event(#[trigger] payloads[i]) && payloads[i] == event
                && forall|k: int| i < k < payloads.len() ==> !tells_event(#[trigger] payloads[k]),
    decreases payloads.len(),
{
    if payloads.len() > 0 {
        let n = payloads.len() - 1;
        let init = payloads.subrange(0, n);
        law_the_last_event_is_found(init);
        assert forall|k: int| 0 <= k < n implies #[trigger] init[k] == payloads[k] by {}
        if tells_event(payloads[n]) {
            assert(payloads[n] == last_event(payloads)->0);
        } else {
            match last_event(init) {
                Some(event) => {
                    let i = choose|i: int|
                        0 <= i < init.len() && tells_event(#[trigger] init[i]) && init[i] == event
                            && forall|k: int| i < k < init.len() ==> !tells_event(#[trigger] init[k]);
                    assert(init[i] == payloads[i]);
                    assert forall|k: int| i < k < payloads.len() implies !tells_event(
                        #[trigger] payloads[k],
                    ) by {
                        if k < n {
                            assert(init[k] == payloads[k]);
                        }
                    }
                },
                None => {
                    assert forall|k: int| 0 <= k < payloads.len() implies !tells_event(
                        #[trigger] payloads[k],
                    ) by {
                        if k < n {
                            assert(init[k] == payloads[k]);
                        }
                    }
                },
            }
        }
    }
}

/// An update is of the turn that its event names, and of its job where it names none.
pub proof fn law_updates_are_of_their_turn(payload: JsonView, job: Seq<char>, turn: Seq<char>)
    ensures
        (field(payload, "event"@) matches Some(event) && text_field(event, "turnId"@) == Some(turn)
            && !blank(turn)) ==> update_turn(payload, job) == trimmed(turn),
        (field(payload, "event"@) matches Some(event) ==> (text_field(event, "turnId"@) matches Some(
            given,
        ) ==> blank(given))) ==> update_turn(payload, job) == job,
{
    law_trimming_takes_off_the_whitespace_around(turn);
    if let Some(event) = field(payload, "event"@) {
        if let Some(given) = text_field(event, "turnId"@) {
            law_trimming_takes_off_the_whitespace_around(given);
        }
    }
}

/// An agent that a run has spawned is taken exactly where it belongs to the session of the run and its
/// own session has no run or just the one that it was spawned for; it is new where there is none.
pub proof fn law_spawned_agents_belong_to_their_parent(
    agent: SpawnedAgent,
    parent: Seq<char>,
    first_run: Option<Seq<char>>,
)
    ensures
        spawned_run(agent, parent, first_run) is Ok <==> agent.parent_session_id@ == parent && (
        first_run is None || first_run->0 == agent.runtime_job_id@),
        spawned_run(agent, parent, first_run) matches Ok(new) ==> (new <==> first_run is None),
{
}

/// Whether an object has an entry with a text or none.
pub open spec fn has_text(value: JsonView, key: Seq<char>, text: Option<String>) -> bool {
    value->Object_0.contains(
        (
            key,
            match text {
                Some(text) => JsonView::Text(text@),
                None => JsonView::Null,
            },
        ),
    )
}

/// Whether an object has an entry with a number or none.
pub open spec fn has_number(value: JsonView, key: Seq<char>, number: Option<u64>) -> bool {
    value->Object_0.contains(
        (
            key,
            match number {
                Some(number) => JsonView::Unsigned(number),
                None => JsonView::Null,
            },
        ),
    )
}

/// What is told of a change of a file before it is made is all that is known of it, each under its
/// name.
pub proof fn law_changes_of_files_are_told_in_full(change: FileMutation)
    ensures
        ({
            let fact = mutation_fact(change);
            &&& fact is Object
            &&& fact->Object_0.len() == 14
            &&& fact->Object_0.contains(
                ("schema"@, JsonView::Text("file_mutation_pre_apply_fact_v1"@)),
            )
            &&& has_text(fact, "toolName"@, Some(change.tool_name))
            &&& has_text(fact, "toolCallId"@, Some(change.tool_call_id))
            &&& has_text(fact, "operation"@, Some(change.operation))
            &&& has_text(fact, "path"@, Some(change.path))
            &&& has_text(fact, "targetPath"@, change.target_path)
            &&& has_text(fact, "previousFileHash"@, change.previous_file_hash)
            &&& has_text(fact, "readSnapshotHash"@, change.read_snapshot_hash)
            &&& has_text(fact, "fileHash"@, change.file_hash)
            &&& has_number(fact, "bytesWritten"@, change.bytes_written)
            &&& has_number(fact, "addedLines"@, change.added_lines)
            &&& has_number(fact, "removedLines"@, change.removed_lines)
            &&& has_text(fact, "sessionId"@, change.session_id)
            &&& has_text(fact, "executionOwner"@, change.execution_owner)
        }),
{
    let entries = mutation_fact(change)->Object_0;
    assert(entries.contains(entries[0]) && entries.contains(entries[1]) && entries.contains(
        entries[2],
    ) && entries.contains(entries[3]) && entries.contains(entries[4]));
    assert(entries.contains(entries[5]) && entries.contains(entries[6]) && entries.contains(
        entries[7],
    ) && entries.contains(entries[8]) && entries.contains(entries[9]));
    assert(entries.contains(entries[10]) && entries.contains(entries[11]) && entries.contains(
        entries[12],
    ) && entries.contains(entries[13]));
}

} // verus!
