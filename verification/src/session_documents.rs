//! The documents that sessions are kept in: how one is made and taken away, which directories
//! beside them are still needed, and what is checked before and after records are added.

use crate::agent_cancel::optional_run;
use crate::json::{field, text_field, Json, JsonView};
use crate::message_log::{
    agent_run_replay_indices, call_recorded_at, copy_run, incomplete_call_time, page_end,
    run_views, runs_sorted, sort_runs, stream_indices, streamed, ProjectedAgentRun, ProjectedChatMessage,
    RunView,
};
use crate::observation_cas::agrees;
use crate::observation_store::{file_session_id, is_file_session_id};
use crate::session_log::{record_views, RecordView, SessionLogRecord};
use crate::text::{
    chars_of, concat2, concat3, decimal, decimal_text, optional_text, required, required_string,
    text_equals,
};
use vstd::prelude::*;

verus! {

/// Why a document was not made.
#[derive(Debug)]
pub enum CreateSessionDocumentError {
    AlreadyExists,
    Other(String),
}

impl CreateSessionDocumentError {
    pub open spec fn text(&self) -> Seq<char> {
        match self {
            CreateSessionDocumentError::AlreadyExists => "session log already exists"@,
            CreateSessionDocumentError::Other(error) => error@,
        }
    }

    /// The error as a message.
    pub fn into_string(self) -> (result: String)
        ensures
            result@ == self.text(),
    {
        match self {
            CreateSessionDocumentError::AlreadyExists => "session log already exists".to_owned(),
            CreateSessionDocumentError::Other(error) => error,
        }
    }
}

/// What became of the attempt to make a file.
#[derive(Debug)]
pub enum CreateAttempt {
    Created,
    AlreadyExists,
    Failed(String),
}

/// What became of the attempt to make a document: the file is made, its lines are written, and
/// where that fails the file is taken away again. `path` is the path as it is shown.
pub fn create_session_document(
    path: &str,
    attempt: &CreateAttempt,
    written: &Result<(), String>,
    cleaned: &Result<(), String>,
) -> (result: Result<(), CreateSessionDocumentError>)
    ensures
        match (attempt, written, cleaned) {
            (CreateAttempt::AlreadyExists, _, _) => result matches Err(error) && error
                is AlreadyExists,
            (CreateAttempt::Failed(failure), _, _) => result matches Err(error) && error is Other
                && error.text() == "create session log failed for "@ + path@ + ": "@ + failure@,
            (CreateAttempt::Created, Ok(_), _) => result is Ok,
            (CreateAttempt::Created, Err(failure), Ok(_)) => result matches Err(error) && error
                is Other && error.text() == "write session document failed for "@ + path@ + ": "@
                + failure@,
            (CreateAttempt::Created, Err(failure), Err(cleanup)) => result matches Err(error)
                && error is Other && error.text() == "write session document failed for "@ + path@
                + ": "@ + failure@ + "; cleanup incomplete Session log failed for "@ + path@
                + ": "@ + cleanup@,
        },
{
    match attempt {
        CreateAttempt::AlreadyExists => {
            return Err(CreateSessionDocumentError::AlreadyExists);
        },
        CreateAttempt::Failed(failure) => {
            let head = concat2("create session log failed for ", path);
            return Err(
                CreateSessionDocumentError::Other(concat3(head.as_str(), ": ", failure.as_str())),
            );
        },
        CreateAttempt::Created => {},
    }
    let failure = match written {
        Ok(_) => {
            return Ok(());
        },
        Err(failure) => failure,
    };
    let head = concat2("write session document failed for ", path);
    let error = concat3(head.as_str(), ": ", failure.as_str());
    match cleaned {
        Ok(_) => Err(CreateSessionDocumentError::Other(error)),
        Err(cleanup) => {
            let both = concat3(
                error.as_str(),
                "; cleanup incomplete Session log failed for ",
                path,
            );
            Err(
                CreateSessionDocumentError::Other(concat3(both.as_str(), ": ", cleanup.as_str())),
            )
        },
    }
}

/// What became of the attempt to take something away.
#[derive(Debug)]
pub enum RemoveAttempt {
    Removed,
    NotFound,
    Failed(String),
}

/// Whether the directory above has to be synchronised once something was taken away; that it was
/// not there is no failure. `what` is the beginning of the message of a failure.
pub fn check_removed(what: &str, path: &str, attempt: &RemoveAttempt) -> (result: Result<
    bool,
    String,
>)
    ensures
        match attempt {
            RemoveAttempt::Removed => result == Ok::<bool, String>(true),
            RemoveAttempt::NotFound => result == Ok::<bool, String>(false),
            RemoveAttempt::Failed(failure) => result matches Err(message) && message@ == what@
                + path@ + ": "@ + failure@,
        },
{
    match attempt {
        RemoveAttempt::Removed => Ok(true),
        RemoveAttempt::NotFound => Ok(false),
        RemoveAttempt::Failed(failure) => Err(
            concat3(concat2(what, path).as_str(), ": ", failure.as_str()),
        ),
    }
}

/// What an entry of a directory is.
#[derive(Clone, Copy, Debug, PartialEq, Eq, Structural)]
pub enum EntryKind {
    Link,
    Directory,
    Other,
}

pub const CONTENT_DIRECTORY_EXTENSION: &'static str = "observations";

/// The place of the last dot of a name.
pub open spec fn last_dot(name: Seq<char>) -> Option<int>
    decreases name.len(),
{
    if name.len() == 0 {
        None
    } else if name[name.len() - 1] == '.' {
        Some(name.len() - 1)
    } else {
        last_dot(name.subrange(0, name.len() - 1))
    }
}

/// The stem and the extension of a name; a name that begins with its only dot has none.
pub open spec fn stem_and_extension(name: Seq<char>) -> Option<(Seq<char>, Seq<char>)> {
    match last_dot(name) {
        Some(at) => if at == 0 {
            None
        } else {
            Some((name.subrange(0, at), name.subrange(at + 1, name.len() as int)))
        },
        None => None,
    }
}

/// The stem and the extension of a name.
pub fn split_extension(name: &str) -> (result: Option<(&str, &str)>)
    ensures
        match result {
            Some((stem, extension)) => stem_and_extension(name@) == Some((stem@, extension@)),
            None => stem_and_extension(name@) == None::<(Seq<char>, Seq<char>)>,
        },
{
    let chars = chars_of(name);
    let total: usize = chars.len();
    let mut i: usize = total;
    assert(name@.subrange(0, name@.len() as int) =~= name@);
    while i > 0
        invariant
            i <= total,
            total == chars.len(),
            chars@ == name@,
            last_dot(name@.subrange(0, i as int)) == last_dot(name@),
        decreases i,
    {
        let ghost here = name@.subrange(0, i as int);
        assert(here.subrange(0, i - 1) =~= name@.subrange(0, i - 1));
        i = i - 1;
        if chars[i] == '.' {
            if i == 0 {
                return None;
            }
            return Some((name.substring_char(0, i), name.substring_char(i + 1, total)));
        }
    }
    None
}

/// The session that an entry of a day holds the observations of, if it holds any.
pub open spec fn observations_session(kind: EntryKind, name: Seq<char>) -> Result<
    Option<Seq<char>>,
    Seq<char>,
> {
    match kind {
        EntryKind::Link => Err("Session observation GC refuses symbolic links"@),
        EntryKind::Other => Ok(None),
        EntryKind::Directory => match stem_and_extension(name) {
            Some((stem, extension)) => if extension == CONTENT_DIRECTORY_EXTENSION@
                && file_session_id(stem) {
                Ok(Some(stem))
            } else {
                Ok(None)
            },
            None => Ok(None),
        },
    }
}

/// The session that an entry of a day holds the observations of, if it holds any.
pub fn content_entry_session(kind: EntryKind, name: &str) -> (result: Result<
    Option<String>,
    String,
>)
    ensures
        agrees(
            result,
            |session: Option<String>| optional_text(session),
            observations_session(kind, name@),
        ),
{
    match kind {
        EntryKind::Link => Err("Session observation GC refuses symbolic links".to_owned()),
        EntryKind::Other => Ok(None),
        EntryKind::Directory => match split_extension(name) {
            Some((stem, extension)) => if text_equals(extension, CONTENT_DIRECTORY_EXTENSION)
                && is_file_session_id(stem) {
                Ok(Some(stem.to_owned()))
            } else {
                Ok(None)
            },
            None => Ok(None),
        },
    }
}

/// What stands where the log of a session would be.
#[derive(Clone, Copy, Debug, PartialEq, Eq, Structural)]
pub enum LogPresence {
    Absent,
    Present,
    Link,
}

/// What is done with the observations of a session.
#[derive(Clone, Copy, Debug, PartialEq, Eq, Structural)]
pub enum ContentFate {
    /// The session is there: what it does not refer to is taken away.
    Clean,
    /// The session is gone: all of it is taken away.
    Remove,
}

/// Decides what is done with the observations of a session.
pub fn content_directory_fate(log: LogPresence) -> (result: Result<ContentFate, String>)
    ensures
        match log {
            LogPresence::Absent => result == Ok::<ContentFate, String>(ContentFate::Remove),
            LogPresence::Present => result == Ok::<ContentFate, String>(ContentFate::Clean),
            LogPresence::Link => result matches Err(message) && message@
                == "Session observation GC refuses symbolic links"@,
        },
{
    match log {
        LogPresence::Absent => Ok(ContentFate::Remove),
        LogPresence::Present => Ok(ContentFate::Clean),
        LogPresence::Link => Err("Session observation GC refuses symbolic links".to_owned()),
    }
}

/// The name of the temporary file through which a stored file is installed.
pub fn install_temporary_name(digest_hex: &str, process: u32, counter: u64) -> (result: String)
    ensures
        result@ == "."@ + digest_hex@ + "."@ + decimal(process as nat) + "."@ + decimal(
            counter as nat,
        ) + ".tmp"@,
{
    let mut name = concat3(".", digest_hex, ".");
    name.append(decimal_text(process as u64).as_str());
    name.append(".");
    name.append(decimal_text(counter).as_str());
    name.append(".tmp");
    name
}

/// Whether the directory has to be synchronised once a stored file was installed; that it was
/// there already is no failure, for stored files with one name hold the same.
pub fn check_installed(path: &str, renamed: &Result<(), String>, already_there: bool) -> (result:
    Result<bool, String>)
    ensures
        match renamed {
            Ok(_) => result == Ok::<bool, String>(true),
            Err(failure) => if already_there {
                result == Ok::<bool, String>(false)
            } else {
                result matches Err(message) && message@
                    == "install model observation content failed for "@ + path@ + ": "@ + failure@
            },
        },
{
    match renamed {
        Ok(_) => Ok(true),
        Err(failure) => if already_there {
            Ok(false)
        } else {
            let head = concat2("install model observation content failed for ", path);
            Err(concat3(head.as_str(), ": ", failure.as_str()))
        },
    }
}

/// The places of the records of a run.
pub open spec fn run_record_places(records: Seq<RecordView>, run: Seq<char>) -> Seq<int>
    decreases records.len(),
{
    if records.len() == 0 {
        Seq::empty()
    } else {
        let n = records.len() - 1;
        let before = run_record_places(records.subrange(0, n), run);
        if records[n].run == Some(run) {
            before.push(n)
        } else {
            before
        }
    }
}

/// The places of the records of a run; the record at each is numbered by its place in this list.
pub fn agent_run_session_records(records: &Vec<SessionLogRecord>, agent_run_id: &str) -> (result:
    Vec<usize>)
    ensures
        Seq::new(result@.len(), |k: int| result@[k] as int) == run_record_places(
            record_views(records@),
            agent_run_id@,
        ),
{
    let ghost all = record_views(records@);
    let mut result: Vec<usize> = Vec::new();
    let mut i: usize = 0;
    assert(all.subrange(0, 0) =~= Seq::empty());
    assert(Seq::new(result@.len(), |k: int| result@[k] as int) =~= Seq::empty());
    while i < records.len()
        invariant
            i <= records.len(),
            all == record_views(records@),
            Seq::new(result@.len(), |k: int| result@[k] as int) == run_record_places(
                all.subrange(0, i as int),
                agent_run_id@,
            ),
        decreases records.len() - i,
    {
        let ghost before = Seq::new(result@.len(), |k: int| result@[k] as int);
        let ghost next = all.subrange(0, i + 1);
        assert(next.subrange(0, i as int) =~= all.subrange(0, i as int));
        assert(next[i as int] == records@[i as int]@);
        let own = match &records[i].agent_run_id {
            Some(run) => text_equals(run.as_str(), agent_run_id),
            None => false,
        };
        if own {
            result.push(i);
            assert(Seq::new(result@.len(), |k: int| result@[k] as int) =~= before.push(i as int));
        }
        i = i + 1;
    }
    assert(all.subrange(0, all.len() as int) =~= all);
    result
}

/// The place of the first message with an identity, or the number of messages.
pub open spec fn message_place(messages: Seq<ProjectedChatMessage>, id: Seq<char>) -> nat
    decreases messages.len(),
{
    if messages.len() == 0 || messages[0].id@ == id {
        0
    } else {
        1 + message_place(messages.subrange(1, messages.len() as int), id)
    }
}

/// The message of a turn by its role, as it is found after it was recorded.
pub open spec fn recorded_message(
    messages: Seq<ProjectedChatMessage>,
    turn: Seq<char>,
    role: Seq<char>,
) -> Result<nat, Seq<char>> {
    let place = message_place(messages, "message:"@ + turn + ":"@ + role);
    if place < messages.len() {
        Ok(place)
    } else {
        Err("projected "@ + role + " message missing after append: "@ + turn)
    }
}

/// The place of the message of a turn by its role, as it is found after it was recorded.
pub fn find_recorded_message(
    messages: &Vec<ProjectedChatMessage>,
    turn_id: &str,
    role: &str,
) -> (result: Result<usize, String>)
    ensures
        match result {
            Ok(at) => recorded_message(messages@, turn_id@, role@) == Ok::<nat, Seq<char>>(
                at as nat,
            ),
            Err(message) => recorded_message(messages@, turn_id@, role@) == Err::<nat, Seq<char>>(
                message@,
            ),
        },
{
    let head = concat2("message:", turn_id);
    let id = concat3(head.as_str(), ":", role);
    let mut i: usize = 0;
    assert(messages@.subrange(0, messages@.len() as int) =~= messages@);
    while i < messages.len()
        invariant
            i <= messages.len(),
            message_place(messages@, id@) == i + message_place(
                messages@.subrange(i as int, messages@.len() as int),
                id@,
            ),
            id@ == "message:"@ + turn_id@ + ":"@ + role@,
        decreases messages.len() - i,
    {
        let ghost rest = messages@.subrange(i as int, messages@.len() as int);
        assert(rest[0] == messages@[i as int]);
        assert(rest.subrange(1, rest.len() as int) =~= messages@.subrange(
            i + 1,
            messages@.len() as int,
        ));
        if text_equals(messages[i].id.as_str(), id.as_str()) {
            return Ok(i);
        }
        i = i + 1;
    }
    let what = concat3("projected ", role, " message missing after append: ");
    Err(concat2(what.as_str(), turn_id))
}

/// The place of the first message that the assistant wrote in a run, or the number of messages.
pub open spec fn assistant_place(messages: Seq<ProjectedChatMessage>, run: Seq<char>) -> nat
    decreases messages.len(),
{
    if messages.len() == 0 || (messages[0].role@ == "assistant"@ && optional_text(
        messages[0].agent_run_id,
    ) == Some(run)) {
        0
    } else {
        1 + assistant_place(messages.subrange(1, messages.len() as int), run)
    }
}

/// The place of the first message that the assistant wrote in a run, if there is one.
pub fn project_agent_run_assistant(
    messages: &Vec<ProjectedChatMessage>,
    agent_run_id: &str,
) -> (result: Result<Option<usize>, String>)
    ensures
        match required(agent_run_id@, "agentRunId"@) {
            Err(error) => result matches Err(message) && message@ == error,
            Ok(run) => {
                let place = assistant_place(messages@, run);
                if place < messages.len() {
                    result matches Ok(Some(at)) && at == place
                } else {
                    result == Ok::<Option<usize>, String>(None)
                }
            },
        },
{
    let run = match required_string(agent_run_id, "agentRunId") {
        Ok(run) => run,
        Err(error) => {
            return Err(error);
        },
    };
    let mut i: usize = 0;
    assert(messages@.subrange(0, messages@.len() as int) =~= messages@);
    while i < messages.len()
        invariant
            i <= messages.len(),
            required(agent_run_id@, "agentRunId"@) == Ok::<Seq<char>, Seq<char>>(run@),
            assistant_place(messages@, run@) == i + assistant_place(
                messages@.subrange(i as int, messages@.len() as int),
                run@,
            ),
        decreases messages.len() - i,
    {
        let ghost rest = messages@.subrange(i as int, messages@.len() as int);
        assert(rest[0] == messages@[i as int]);
        assert(rest.subrange(1, rest.len() as int) =~= messages@.subrange(
            i + 1,
            messages@.len() as int,
        ));
        let own = match &messages[i].agent_run_id {
            Some(id) => text_equals(id.as_str(), run.as_str()),
            None => false,
        };
        if own && text_equals(messages[i].role.as_str(), "assistant") {
            return Ok(Some(i));
        }
        i = i + 1;
    }
    Ok(None)
}

/// Checks that a run that goes on was started in its session.
pub fn append_agent_turn_running(
    run: &Option<ProjectedAgentRun>,
    session_id: &str,
    agent_run_id: &str,
) -> (result: Result<(), String>)
    ensures
        if run is Some && run->0@.session == session_id@ {
            result is Ok
        } else {
            result matches Err(message) && message@
                == "agent_run_started missing before running agent_run transition: "@
                + agent_run_id@
        },
{
    match run {
        Some(run) => {
            if text_equals(run.session_id.as_str(), session_id) {
                return Ok(());
            }
        },
        None => {},
    }
    Err(
        concat2(
            "agent_run_started missing before running agent_run transition: ",
            agent_run_id,
        ),
    )
}

/// What is wrong with recording a change of a file before it is made.
pub open spec fn file_fact_error(
    fact: JsonView,
    run: Option<RunView>,
    session: Seq<char>,
    turn: Seq<char>,
    run_id: Seq<char>,
) -> Option<Seq<char>> {
    if text_field(fact, "schema"@) != Some("file_mutation_pre_apply_fact_v1"@) {
        Some("file mutation pre-apply append requires file_mutation_pre_apply_fact_v1"@)
    } else {
        match run {
            None => Some("agent_run_started missing before file mutation fact: "@ + run_id),
            Some(run) => if run.session == session && run.turn == turn {
                None
            } else {
                Some("file mutation AgentRun identity mismatch: "@ + run_id)
            },
        }
    }
}

/// Checks that a change of a file can be recorded before it is made.
pub fn append_file_mutation_pre_apply_fact(
    fact: &Json,
    run: &Option<ProjectedAgentRun>,
    session_id: &str,
    turn_id: &str,
    agent_run_id: &str,
) -> (result: Result<(), String>)
    ensures
        match file_fact_error(
            fact@,
            optional_run(*run),
            session_id@,
            turn_id@,
            agent_run_id@,
        ) {
            None => result is Ok,
            Some(error) => result matches Err(message) && message@ == error,
        },
{
    let known = match fact.get_text("schema") {
        Some(schema) => text_equals(schema.as_str(), "file_mutation_pre_apply_fact_v1"),
        None => false,
    };
    if !known {
        return Err(
            "file mutation pre-apply append requires file_mutation_pre_apply_fact_v1".to_owned(),
        );
    }
    match run {
        None => Err(
            concat2("agent_run_started missing before file mutation fact: ", agent_run_id),
        ),
        Some(run) => if text_equals(run.session_id.as_str(), session_id) && text_equals(
            run.turn_id.as_str(),
            turn_id,
        ) {
            Ok(())
        } else {
            Err(concat2("file mutation AgentRun identity mismatch: ", agent_run_id))
        },
    }
}

/// How many records a message that takes the place of another takes away.
pub fn tombstoned_count(tombstone: &Json) -> (result: Result<usize, String>)
    ensures
        match field(tombstone@, "targetEventIds"@) {
            Some(JsonView::List(targets)) => result matches Ok(count) && count == targets.len(),
            _ => result matches Err(message) && message@
                == "rewrite tombstone targetEventIds missing"@,
        },
{
    match tombstone.get("targetEventIds") {
        Some(Json::List(targets)) => Ok(targets.len()),
        _ => Err("rewrite tombstone targetEventIds missing".to_owned()),
    }
}

/// The runs of all logs that could be read, in the order of the logs.
pub open spec fn readable_runs(logs: Seq<Result<Vec<ProjectedAgentRun>, String>>) -> Seq<RunView>
    decreases logs.len(),
{
    if logs.len() == 0 {
        Seq::empty()
    } else {
        let n = logs.len() - 1;
        let before = readable_runs(logs.subrange(0, n));
        match logs[n] {
            Ok(runs) => before + run_views(runs@),
            Err(_) => before,
        }
    }
}

fn append_runs(runs: &mut Vec<ProjectedAgentRun>, more: &Vec<ProjectedAgentRun>)
    ensures
        run_views(final(runs)@) == run_views(old(runs)@) + run_views(more@),
{
    let ghost before = run_views(runs@);
    let mut i: usize = 0;
    assert(run_views(more@).subrange(0, 0) =~= Seq::empty());
    assert(run_views(runs@) =~= before + run_views(more@).subrange(0, 0));
    while i < more.len()
        invariant
            i <= more.len(),
            run_views(runs@) == before + run_views(more@).subrange(0, i as int),
        decreases more.len() - i,
    {
        let ghost now = run_views(runs@);
        runs.push(copy_run(&more[i]));
        assert(run_views(runs@) =~= now.push(more@[i as int]@));
        assert(before + run_views(more@).subrange(0, i + 1) =~= (before + run_views(
            more@,
        ).subrange(0, i as int)).push(more@[i as int]@));
        i = i + 1;
    }
    assert(run_views(more@).subrange(0, more@.len() as int) =~= run_views(more@));
}

/// All runs of the logs that could be read, sorted: a log that could not be read hides none of the
/// others.
pub fn project_agent_runs(logs: &Vec<Result<Vec<ProjectedAgentRun>, String>>) -> (result: Vec<
    ProjectedAgentRun,
>)
    ensures
        runs_sorted(run_views(result@)),
        run_views(result@).to_multiset() == readable_runs(logs@).to_multiset(),
{
    let mut all: Vec<ProjectedAgentRun> = Vec::new();
    let mut i: usize = 0;
    assert(logs@.subrange(0, 0) =~= Seq::empty());
    assert(run_views(all@) =~= Seq::empty());
    while i < logs.len()
        invariant
            i <= logs.len(),
            run_views(all@) == readable_runs(logs@.subrange(0, i as int)),
        decreases logs.len() - i,
    {
        let ghost next = logs@.subrange(0, i + 1);
        assert(next.subrange(0, i as int) =~= logs@.subrange(0, i as int));
        match &logs[i] {
            Ok(runs) => {
                append_runs(&mut all, runs);
            },
            Err(_) => {},
        }
        i = i + 1;
    }
    assert(logs@.subrange(0, logs@.len() as int) =~= logs@);
    sort_runs(&all)
}

/// A call of a tool, as the records of its session show it.
#[derive(Debug)]
pub struct ProjectedToolCall {
    pub call_id: String,
    pub agent_run_id: String,
    /// Whether its result is recorded.
    pub closed: bool,
}

pub struct ToolCallView {
    pub id: Seq<char>,
    pub run: Seq<char>,
    pub closed: bool,
}

impl View for ProjectedToolCall {
    type V = ToolCallView;

    open spec fn view(&self) -> ToolCallView {
        ToolCallView { id: self.call_id@, run: self.agent_run_id@, closed: self.closed }
    }
}

pub open spec fn call_views(calls: Seq<ProjectedToolCall>) -> Seq<ToolCallView> {
    Seq::new(calls.len(), |i: int| calls[i]@)
}

/// Whether a call is one of a run and has no result.
pub open spec fn incomplete_call(call: ToolCallView, run_id: Seq<char>) -> bool {
    call.run == run_id && !call.closed
}

/// The places of the first `n` calls that are not closed in a run, each with the time at which it
/// was recorded. A call that has no record is an error.
pub open spec fn incomplete_calls(
    records: Seq<RecordView>,
    calls: Seq<ToolCallView>,
    run_id: Seq<char>,
    n: nat,
) -> Result<Seq<(usize, i64)>, Seq<char>>
    decreases n,
{
    if n == 0 {
        Ok(Seq::empty())
    } else {
        match incomplete_calls(records, calls, run_id, (n - 1) as nat) {
            Err(message) => Err(message),
            Ok(before) => if !incomplete_call(calls[n - 1], run_id) {
                Ok(before)
            } else {
                match call_recorded_at(records, calls[n - 1].id) {
                    Some(at) => Ok(before.push(((n - 1) as usize, at))),
                    None => Err(
                        "incomplete ToolCall record is missing: callId="@ + calls[n - 1].id,
                    ),
                }
            },
        }
    }
}

proof fn lemma_incomplete_error(
    records: Seq<RecordView>,
    calls: Seq<ToolCallView>,
    run_id: Seq<char>,
    m: nat,
    n: nat,
)
    requires
        m <= n,
        incomplete_calls(records, calls, run_id, m) is Err,
    ensures
        incomplete_calls(records, calls, run_id, n) == incomplete_calls(records, calls, run_id, m),
    decreases n,
{
    if m < n {
        lemma_incomplete_error(records, calls, run_id, m, (n - 1) as nat);
    }
}

/// The places of the calls that are not closed in a run, each with the time at which it was
/// recorded.
pub fn project_incomplete_tool_calls(
    records: &Vec<SessionLogRecord>,
    calls: &Vec<ProjectedToolCall>,
    agent_run_id: &str,
) -> (result: Result<Vec<(usize, i64)>, String>)
    ensures
        agrees(
            result,
            |found: Vec<(usize, i64)>| found@,
            incomplete_calls(
                record_views(records@),
                call_views(calls@),
                agent_run_id@,
                calls@.len(),
            ),
        ),
{
    let ghost log = record_views(records@);
    let ghost all = call_views(calls@);
    let mut found: Vec<(usize, i64)> = Vec::new();
    let mut i: usize = 0;
    while i < calls.len()
        invariant
            i <= calls.len(),
            log == record_views(records@),
            all == call_views(calls@),
            incomplete_calls(log, all, agent_run_id@, i as nat) == Ok::<
                Seq<(usize, i64)>,
                Seq<char>,
            >(found@),
        decreases calls.len() - i,
    {
        let call = &calls[i];
        assert(all[i as int] == call@);
        if !call.closed && text_equals(call.agent_run_id.as_str(), agent_run_id) {
            match incomplete_call_time(records, call.call_id.as_str()) {
                Ok(at) => {
                    found.push((i, at));
                },
                Err(message) => {
                    proof {
                        lemma_incomplete_error(
                            log,
                            all,
                            agent_run_id@,
                            (i + 1) as nat,
                            calls@.len(),
                        );
                    }
                    return Err(message);
                },
            }
        }
        i = i + 1;
    }
    Ok(found)
}

/// Of the calls of a run exactly those are found that have no result, each once and in order. Once
/// each of them has a result, none is found any more.
pub proof fn law_closing_leaves_no_call(
    records: Seq<RecordView>,
    calls: Seq<ToolCallView>,
    run_id: Seq<char>,
    later_records: Seq<RecordView>,
    later: Seq<ToolCallView>,
    n: nat,
)
    requires
        n <= calls.len(),
        calls.len() <= usize::MAX,
        later.len() == calls.len(),
        forall|i: int|
            0 <= i < calls.len() ==> #[trigger] later[i] == (ToolCallView {
                closed: calls[i].closed || incomplete_call(calls[i], run_id),
                ..calls[i]
            }),
    ensures
        incomplete_calls(records, calls, run_id, n) matches Ok(found) ==> ({
            &&& forall|k: int|
                0 <= k < found.len() ==> (#[trigger] found[k]).0 < n && incomplete_call(
                    calls[found[k].0 as int],
                    run_id,
                )
            &&& forall|k: int, m: int|
                0 <= k < m < found.len() ==> (#[trigger] found[k]).0 < (#[trigger] found[m]).0
            &&& forall|i: int|
                0 <= i < n && incomplete_call(#[trigger] calls[i], run_id) ==> exists|k: int|
                    0 <= k < found.len() && (#[trigger] found[k]).0 == i
        }),
        incomplete_calls(later_records, later, run_id, n) == Ok::<Seq<(usize, i64)>, Seq<char>>(
            Seq::empty(),
        ),
    decreases n,
{
    if n > 0 {
        let last = n - 1;
        law_closing_leaves_no_call(records, calls, run_id, later_records, later, last as nat);
        assert(later[last].closed || !incomplete_call(calls[last], run_id));
        if let Ok(found) = incomplete_calls(records, calls, run_id, n) {
            let before = incomplete_calls(records, calls, run_id, last as nat)->Ok_0;
            assert forall|i: int|
                0 <= i < n && incomplete_call(#[trigger] calls[i], run_id) implies exists|k: int|
                0 <= k < found.len() && (#[trigger] found[k]).0 == i by {
                if i < last {
                    let k = choose|k: int| 0 <= k < before.len() && (#[trigger] before[k]).0 == i;
                    assert(found[k].0 == i);
                } else {
                    assert(found[before.len() as int].0 == i);
                }
            }
        }
    }
}

/// The stream of a run: the places of its records, and the cursor behind them.
#[derive(Debug)]
pub struct AgentRunReplay {
    pub agent_run_id: String,
    pub items: Vec<usize>,
    pub next_cursor: u64,
}

pub struct ReplayView {
    pub run: Seq<char>,
    pub items: Seq<usize>,
    pub cursor: nat,
}

impl View for AgentRunReplay {
    type V = ReplayView;

    open spec fn view(&self) -> ReplayView {
        ReplayView {
            run: self.agent_run_id@,
            items: self.items@,
            cursor: self.next_cursor as nat,
        }
    }
}

pub open spec fn replay_views(replays: Seq<AgentRunReplay>) -> Seq<ReplayView> {
    Seq::new(replays.len(), |i: int| replays[i]@)
}

/// The stream of a run in the records of its session.
pub open spec fn replayed(records: Seq<RecordView>, projects: Seq<bool>, run_id: Seq<char>) ->
    ReplayView {
    let items = stream_indices(records, projects, run_id, records.len());
    ReplayView { run: run_id, items, cursor: items.len() }
}

/// The streams of the runs of a session, in the order of the runs. `projects` says of each record
/// whether its kind is part of a stream.
pub fn project_session_log(
    records: &Vec<SessionLogRecord>,
    projects: &Vec<bool>,
    runs: &Vec<ProjectedAgentRun>,
) -> (result: Vec<AgentRunReplay>)
    requires
        projects.len() == records.len(),
    ensures
        replay_views(result@) == Seq::new(
            runs@.len(),
            |i: int| replayed(record_views(records@), projects@, runs@[i].agent_run_id@),
        ),
{
    let mut replays: Vec<AgentRunReplay> = Vec::new();
    let mut i: usize = 0;
    while i < runs.len()
        invariant
            i <= runs.len(),
            projects.len() == records.len(),
            replays.len() == i,
            forall|j: int|
                0 <= j < i ==> (#[trigger] replays@[j])@ == replayed(
                    record_views(records@),
                    projects@,
                    runs@[j].agent_run_id@,
                ),
        decreases runs.len() - i,
    {
        let id = runs[i].agent_run_id.as_str();
        let items = agent_run_replay_indices(records, projects, id);
        let next_cursor: u64 = items.len() as u64;
        replays.push(AgentRunReplay { agent_run_id: id.to_owned(), items, next_cursor });
        i = i + 1;
    }
    replays
}

/// The stream of a run holds exactly the records of the run that are part of a stream, and the
/// page at its cursor is empty: whoever reads on from there has missed nothing.
pub proof fn law_streams_are_complete(
    records: Seq<RecordView>,
    projects: Seq<bool>,
    run_id: Seq<char>,
    place: int,
    limit: Option<nat>,
)
    requires
        projects.len() == records.len(),
        0 <= place < records.len() <= usize::MAX,
    ensures
        ({
            let replay = replayed(records, projects, run_id);
            &&& replay.items.contains(place as usize) == streamed(
                records[place],
                run_id,
                projects[place],
            )
            &&& page_end(replay.items.len(), replay.cursor, limit) == replay.cursor
        }),
{
    lemma_streamed_place(records, projects, run_id, place, records.len());
}

proof fn lemma_streamed_place(
    records: Seq<RecordView>,
    projects: Seq<bool>,
    run_id: Seq<char>,
    place: int,
    n: nat,
)
    requires
        0 <= place < records.len() <= usize::MAX,
        n <= records.len(),
        projects.len() == records.len(),
    ensures
        stream_indices(records, projects, run_id, n).contains(place as usize) == (place < n
            && streamed(records[place], run_id, projects[place])),
    decreases n,
{
    if n > 0 {
        let all = stream_indices(records, projects, run_id, n);
        let before = stream_indices(records, projects, run_id, (n - 1) as nat);
        lemma_streamed_place(records, projects, run_id, place, (n - 1) as nat);
        if streamed(records[n - 1], run_id, projects[n - 1]) {
            assert(all == before.push((n - 1) as usize));
            assert(all[all.len() - 1] == n - 1);
            if before.contains(place as usize) {
                let at = choose|at: int| 0 <= at < before.len() && before[at] == place as usize;
                assert(all[at] == before[at]);
            }
            if all.contains(place as usize) && place != n - 1 {
                let at = choose|at: int| 0 <= at < all.len() && all[at] == place as usize;
                assert(before[at] == all[at]);
            }
        }
    }
}

/// The name of a file falls into a stem and an extension at its last full stop, unless that is its
/// first character; a name without a full stop has no extension.
pub proof fn law_names_fall_at_the_last_full_stop(stem: Seq<char>, extension: Seq<char>)
    requires
        forall|i: int| 0 <= i < extension.len() ==> (#[trigger] extension[i]) != '.',
    ensures
        stem.len() > 0 ==> stem_and_extension(stem + seq!['.'] + extension) == Some(
            (stem, extension),
        ),
        stem_and_extension(seq!['.'] + extension) is None,
        stem_and_extension(extension) is None,
{
    let name = stem + seq!['.'] + extension;
    lemma_last_dot(name, stem.len() as int);
    assert(name.subrange(0, stem.len() as int) =~= stem);
    assert(name.subrange(stem.len() as int + 1, name.len() as int) =~= extension);
    lemma_last_dot(seq!['.'] + extension, 0);
    lemma_no_dot(extension);
}

proof fn lemma_last_dot(name: Seq<char>, at: int)
    requires
        0 <= at < name.len(),
        name[at] == '.',
        forall|i: int| at < i < name.len() ==> (#[trigger] name[i]) != '.',
    ensures
        last_dot(name) == Some(at),
    decreases name.len(),
{
    if at < name.len() - 1 {
        let init = name.subrange(0, name.len() - 1);
        assert(name[name.len() - 1] != '.');
        assert forall|i: int| at < i < init.len() implies (#[trigger] init[i]) != '.' by {
            assert(init[i] == name[i]);
        }
        lemma_last_dot(init, at);
    }
}

proof fn lemma_no_dot(name: Seq<char>)
    requires
        forall|i: int| 0 <= i < name.len() ==> (#[trigger] name[i]) != '.',
    ensures
        last_dot(name) is None,
    decreases name.len(),
{
    if name.len() > 0 {
        let init = name.subrange(0, name.len() - 1);
        assert(name[name.len() - 1] != '.');
        assert forall|i: int| 0 <= i < init.len() implies (#[trigger] init[i]) != '.' by {
            assert(init[i] == name[i]);
        }
        lemma_no_dot(init);
    }
}

/// The records of a run are those that name it, all of them, in their order.
pub proof fn law_runs_have_their_records(records: Seq<SessionLogRecord>, run: Seq<char>)
    ensures
        ({
            let places = run_record_places(record_views(records), run);
            &&& forall|i: int, j: int|
                0 <= i < j < places.len() ==> #[trigger] places[i] < #[trigger] places[j]
            &&& forall|k: int|
                0 <= k < records.len() ==> (#[trigger] places.contains(k) <==> (
                records[k].agent_run_id matches Some(id) && id@ == run))
            &&& forall|i: int| 0 <= i < places.len() ==> 0 <= #[trigger] places[i] < records.len()
        }),
    decreases records.len(),
{
    let all = record_views(records);
    if records.len() > 0 {
        let n = records.len() - 1;
        let init = records.subrange(0, n);
        law_runs_have_their_records(init, run);
        assert(record_views(init) =~= all.subrange(0, n));
        assert(all[n] == records[n]@);
        let before = run_record_places(all.subrange(0, n), run);
        let places = run_record_places(all, run);
        assert forall|k: int| 0 <= k < records.len() implies (#[trigger] places.contains(k) <==> (
        records[k].agent_run_id matches Some(id) && id@ == run)) by {
            if k < n {
                assert(init[k] == records[k]);
                assert(before.contains(k) <==> places.contains(k)) by {
                    if before.contains(k) {
                        let i = choose|i: int| 0 <= i < before.len() && before[i] == k;
                        assert(places[i] == k);
                    }
                    if places.contains(k) {
                        let i = choose|i: int| 0 <= i < places.len() && places[i] == k;
                        assert(before[i] == k);
                    }
                }
            } else {
                if all[n].run == Some(run) {
                    assert(places[before.len() as int] == n);
                } else if places.contains(k) {
                    let i = choose|i: int| 0 <= i < places.len() && places[i] == k;
                    assert(before[i] < n);
                }
            }
        }
    }
}

/// Whether the message at a place is the first with an identity.
pub open spec fn first_message(messages: Seq<ProjectedChatMessage>, id: Seq<char>, at: int) -> bool {
    &&& 0 <= at < messages.len()
    &&& messages[at].id@ == id
    &&& forall|k: int| 0 <= k < at ==> (#[trigger] messages[k]).id@ != id
}

/// The message of a turn and a role is the first with the identity that these determine, and it is
/// missed exactly where no message has it.
pub proof fn law_turns_have_their_message(
    messages: Seq<ProjectedChatMessage>,
    turn: Seq<char>,
    role: Seq<char>,
)
    ensures
        recorded_message(messages, turn, role) matches Ok(at) ==> first_message(
            messages,
            "message:"@ + turn + ":"@ + role,
            at as int,
        ),
        recorded_message(messages, turn, role) is Err <==> forall|k: int|
            0 <= k < messages.len() ==> (#[trigger] messages[k]).id@ != "message:"@ + turn + ":"@
                + role,
{
    lemma_message_place(messages, "message:"@ + turn + ":"@ + role);
}

proof fn lemma_message_place(messages: Seq<ProjectedChatMessage>, id: Seq<char>)
    ensures
        message_place(messages, id) < messages.len() ==> first_message(
            messages,
            id,
            message_place(messages, id) as int,
        ),
        message_place(messages, id) >= messages.len() <==> forall|k: int|
            0 <= k < messages.len() ==> (#[trigger] messages[k]).id@ != id,
    decreases messages.len(),
{
    if messages.len() > 0 && messages[0].id@ != id {
        let rest = messages.subrange(1, messages.len() as int);
        lemma_message_place(rest, id);
        let place = message_place(rest, id) as int;
        assert forall|k: int| 0 <= k < rest.len() implies #[trigger] rest[k] == messages[k + 1] by {}
        if place < rest.len() {
            assert(rest[place] == messages[place + 1]);
            assert forall|k: int| 0 <= k < place + 1 implies (#[trigger] messages[k]).id@ != id by {
                if k > 0 {
                    assert(rest[k - 1] == messages[k]);
                }
            }
            assert(messages[place + 1].id@ == id);
        } else {
            assert forall|k: int| 0 <= k < messages.len() implies (#[trigger] messages[k]).id@
                != id by {
                if k > 0 {
                    assert(rest[k - 1] == messages[k]);
                }
            }
        }
    }
}

/// Whether a message is what the assistant said in a run.
pub open spec fn said_in(message: ProjectedChatMessage, run: Seq<char>) -> bool {
    message.role@ == "assistant"@ && (message.agent_run_id matches Some(id) && id@ == run)
}

/// The message of a run is the first that the assistant said in it, and there is none exactly where
/// the assistant said nothing in it.
pub proof fn law_runs_have_their_message(messages: Seq<ProjectedChatMessage>, run: Seq<char>)
    ensures
        ({
            let place = assistant_place(messages, run);
            &&& place < messages.len() ==> said_in(messages[place as int], run)
            &&& forall|k: int|
                0 <= k < place && k < messages.len() ==> !said_in(#[trigger] messages[k], run)
            &&& place <= messages.len()
        }),
    decreases messages.len(),
{
    if messages.len() > 0 && !said_in(messages[0], run) {
        let rest = messages.subrange(1, messages.len() as int);
        law_runs_have_their_message(rest, run);
        let place = assistant_place(messages, run);
        assert forall|k: int| 0 <= k < place && k < messages.len() implies !said_in(
            #[trigger] messages[k],
            run,
        ) by {
            if k > 0 {
                assert(rest[k - 1] == messages[k]);
            }
        }
        if place < messages.len() {
            assert(rest[place - 1] == messages[place as int]);
        }
    }
}

/// What is told of a change of a file before it is made is recorded exactly where it has the known
/// form and its run is known in the same session and turn.
pub proof fn law_file_facts_belong_to_their_run(
    fact: JsonView,
    run: Option<ProjectedAgentRun>,
    session: Seq<char>,
    turn: Seq<char>,
    id: Seq<char>,
)
    ensures
        file_fact_error(fact, optional_run(run), session, turn, id) is None <==> text_field(
            fact,
            "schema"@,
        ) == Some("file_mutation_pre_apply_fact_v1"@) && (run matches Some(run)
            && run.session_id@ == session && run.turn_id@ == turn),
{
}

/// Whether a call of a run is open.
pub open spec fn open_call(call: ProjectedToolCall, run: Seq<char>) -> bool {
    call.agent_run_id@ == run && !call.closed
}

/// The calls that a run has left open are listed exactly where each of them is recorded, all of them
/// in their order, each with the time of its record.
pub proof fn law_open_calls_are_listed_with_their_time(
    records: Seq<RecordView>,
    calls: Seq<ProjectedToolCall>,
    run: Seq<char>,
    n: nat,
)
    requires
        n <= calls.len() <= usize::MAX,
    ensures
        ({
            let found = incomplete_calls(records, call_views(calls), run, n);
            &&& found is Ok <==> forall|i: int|
                0 <= i < n && open_call(#[trigger] calls[i], run) ==> call_recorded_at(
                    records,
                    calls[i].call_id@,
                ) is Some
            &&& found matches Ok(list) ==> {
                &&& forall|k: int|
                    0 <= k < list.len() ==> (#[trigger] list[k]).0 < n && open_call(
                        calls[list[k].0 as int],
                        run,
                    ) && call_recorded_at(records, calls[list[k].0 as int].call_id@) == Some(
                        list[k].1,
                    )
                &&& forall|k: int, l: int|
                    0 <= k < l < list.len() ==> (#[trigger] list[k]).0 < (#[trigger] list[l]).0
                &&& forall|i: int|
                    0 <= i < n && open_call(#[trigger] calls[i], run) ==> lists_call(list, i)
            }
        }),
    decreases n,
{
    if n > 0 {
        let m = (n - 1) as nat;
        law_open_calls_are_listed_with_their_time(records, calls, run, m);
        let views = call_views(calls);
        assert(views[m as int] == calls[m as int]@);
        let before = incomplete_calls(records, views, run, m);
        let found = incomplete_calls(records, views, run, n);
        if before is Ok && found is Ok {
            let old_list = before->Ok_0;
            let list = found->Ok_0;
            assert forall|i: int| 0 <= i < n && open_call(#[trigger] calls[i], run) implies lists_call(
                list,
                i,
            ) by {
                if i < m {
                    assert(lists_call(old_list, i));
                    let k = choose|k: int| 0 <= k < old_list.len() && (#[trigger] old_list[k]).0 == i;
                    assert(list[k].0 == i);
                } else {
                    assert(list[old_list.len() as int].0 == i);
                }
            }
            assert forall|k: int| 0 <= k < list.len() implies (#[trigger] list[k]).0 < n
                && open_call(calls[list[k].0 as int], run) && call_recorded_at(
                records,
                calls[list[k].0 as int].call_id@,
            ) == Some(list[k].1) by {
                if k < old_list.len() {
                    assert(list[k] == old_list[k]);
                }
            }
            assert forall|k: int, l: int| 0 <= k < l < list.len() implies (#[trigger] list[k]).0 < (
            #[trigger] list[l]).0 by {
                assert(list[k] == old_list[k]);
                if l < old_list.len() {
                    assert(list[l] == old_list[l]);
                }
            }
        }
    }
}

/// Whether a call is listed.
pub open spec fn lists_call(list: Seq<(usize, i64)>, i: int) -> bool {
    exists|k: int| 0 <= k < list.len() && (#[trigger] list[k]).0 == i
}

/// A directory holds the observations of a session exactly where it is named after a session that
/// can have files and has the extension for them; links are refused.
pub proof fn law_observation_directories_are_told_by_name(session: Seq<char>)
    requires
        file_session_id(session),
    ensures
        observations_session(
            EntryKind::Directory,
            session + seq!['.'] + "observations"@,
        ) == Ok::<Option<Seq<char>>, Seq<char>>(Some(session)),
        observations_session(
            EntryKind::Other,
            session + seq!['.'] + "observations"@,
        ) == Ok::<Option<Seq<char>>, Seq<char>>(None),
        observations_session(
            EntryKind::Link,
            session + seq!['.'] + "observations"@,
        ) is Err,
{
    reveal_strlit("observations");
    assert forall|i: int| 0 <= i < "observations"@.len() implies (#[trigger] "observations"@[i])
        != '.' by {}
    law_names_fall_at_the_last_full_stop(session, "observations"@);
}

} // verus!
