//! The records of a session log: which may be appended to it, and how a stored log is read back.

use crate::json::{
    json_parsed, json_views, lemma_same_json, parse_json, same_json, unambiguous, Json, JsonView,
};
use crate::observation_cas::agrees;
use crate::text::{
    blank, concat2, concat3, copy_optional, decimal, decimal_text,
    law_trimming_takes_off_the_whitespace_around, lines, lines_of, optional_text, same_optional,
    strip_suffix, text_equals, texts, trim, trimmed,
};
use vstd::prelude::*;

verus! {

/// What a record of a session log tells.
#[derive(Clone, Copy, Debug, PartialEq, Eq, Structural)]
pub enum RecordKind {
    SessionMeta,
    AgentRunStarted,
    AgentRunCompleted,
    AgentRunFailed,
    AgentRunInterrupted,
    UserMessage,
    AssistantMessage,
    ToolCall,
    Other,
}

/// A record of a session log.
#[derive(Debug)]
pub struct SessionLogRecord {
    pub event_id: String,
    pub kind: RecordKind,
    pub session_id: String,
    pub turn_id: Option<String>,
    pub agent_run_id: Option<String>,
    pub created_at_ms: i64,
    pub payload: Json,
}

pub struct RecordView {
    pub id: Seq<char>,
    pub kind: RecordKind,
    pub session: Seq<char>,
    pub turn: Option<Seq<char>>,
    pub run: Option<Seq<char>>,
    pub at: i64,
    pub payload: JsonView,
}

impl View for SessionLogRecord {
    type V = RecordView;

    open spec fn view(&self) -> RecordView {
        RecordView {
            id: self.event_id@,
            kind: self.kind,
            session: self.session_id@,
            turn: optional_text(self.turn_id),
            run: optional_text(self.agent_run_id),
            at: self.created_at_ms,
            payload: self.payload@,
        }
    }
}

pub open spec fn record_views(records: Seq<SessionLogRecord>) -> Seq<RecordView> {
    Seq::new(records.len(), |i: int| records[i]@)
}

/// Whether two records are the same. The order in which the objects of a payload hold their
/// entries does not count.
pub open spec fn records_agree(a: RecordView, b: RecordView) -> bool {
    a.id == b.id && a.kind == b.kind && a.session == b.session && a.turn == b.turn && a.run
        == b.run && a.at == b.at && same_json(a.payload, b.payload)
}

/// Whether two records are the same.
pub fn same_record(a: &SessionLogRecord, b: &SessionLogRecord) -> (result: bool)
    ensures
        result == records_agree(a@, b@),
{
    text_equals(a.event_id.as_str(), b.event_id.as_str()) && a.kind == b.kind && text_equals(
        a.session_id.as_str(),
        b.session_id.as_str(),
    ) && same_optional(&a.turn_id, &b.turn_id) && same_optional(&a.agent_run_id, &b.agent_run_id)
        && a.created_at_ms == b.created_at_ms && a.payload.equals(&b.payload)
}

/// Copies a record.
pub fn copy_record(record: &SessionLogRecord) -> (result: SessionLogRecord)
    ensures
        result@ == record@,
{
    SessionLogRecord {
        event_id: record.event_id.clone(),
        kind: record.kind,
        session_id: record.session_id.clone(),
        turn_id: copy_optional(&record.turn_id),
        agent_run_id: copy_optional(&record.agent_run_id),
        created_at_ms: record.created_at_ms,
        payload: record.payload.copy(),
    }
}

/// The last of `records` with the identity `id`.
pub open spec fn find_record(records: Seq<RecordView>, id: Seq<char>) -> Option<RecordView>
    decreases records.len(),
{
    if records.len() == 0 {
        None
    } else if records[records.len() - 1].id == id {
        Some(records[records.len() - 1])
    } else {
        find_record(records.subrange(0, records.len() - 1), id)
    }
}

/// Whether one of `records` has the identity `id`.
pub open spec fn has_record(records: Seq<RecordView>, id: Seq<char>) -> bool {
    exists|i: int| 0 <= i < records.len() && (#[trigger] records[i]).id == id
}

/// A record is found exactly where one has the identity.
pub proof fn lemma_find_record(records: Seq<RecordView>, id: Seq<char>)
    ensures
        find_record(records, id) is Some <==> has_record(records, id),
        find_record(records, id) matches Some(r) ==> r.id == id && records.contains(r),
    decreases records.len(),
{
    if records.len() > 0 {
        let n = records.len() - 1;
        if records[n].id != id {
            let init = records.subrange(0, n);
            lemma_find_record(init, id);
            if has_record(init, id) {
                let i = choose|i: int| 0 <= i < init.len() && (#[trigger] init[i]).id == id;
                assert(records[i].id == id);
            }
            if has_record(records, id) {
                let i = choose|i: int| 0 <= i < records.len() && (#[trigger] records[i]).id == id;
                assert(init[i].id == id);
            }
            if let Some(r) = find_record(init, id) {
                let i = choose|i: int| 0 <= i < init.len() && init[i] == r;
                assert(records[i] == r);
            }
        } else {
            assert(records[n].id == id);
        }
    }
}

fn lookup_record<'a>(records: &'a Vec<SessionLogRecord>, id: &str) -> (result: Option<
    &'a SessionLogRecord,
>)
    ensures
        match result {
            Some(record) => find_record(record_views(records@), id@) == Some(record@),
            None => find_record(record_views(records@), id@) == None::<RecordView>,
        },
{
    let ghost all = record_views(records@);
    let mut i: usize = records.len();
    assert(all.subrange(0, all.len() as int) =~= all);
    while i > 0
        invariant
            i <= records.len(),
            all == record_views(records@),
            find_record(all, id@) == find_record(all.subrange(0, i as int), id@),
        decreases i,
    {
        i = i - 1;
        proof {
            let rest = all.subrange(0, i + 1);
            assert(rest[rest.len() - 1] == records@[i as int]@);
            assert(rest.subrange(0, rest.len() - 1) =~= all.subrange(0, i as int));
        }
        if text_equals(records[i].event_id.as_str(), id) {
            return Some(&records[i]);
        }
    }
    None
}

/// What a record of a batch adds to the records that the batch appends so far: `shape_error` is
/// the error of a record of invalid shape. A record that is stored already adds nothing.
pub open spec fn appended_one(
    existing: Seq<RecordView>,
    session: Seq<char>,
    pending: Seq<RecordView>,
    record: RecordView,
    shape_error: Option<Seq<char>>,
) -> Result<Seq<RecordView>, Seq<char>> {
    match shape_error {
        Some(message) => Err(message),
        None => if record.session != session {
            Err("session record belongs to another sessionId: "@ + record.id)
        } else {
            match find_record(existing, record.id) {
                Some(committed) => if records_agree(committed, record) {
                    Ok(pending)
                } else {
                    Err("session record eventId conflict: "@ + record.id)
                },
                None => if has_record(pending, record.id) {
                    Err("session record batch duplicate eventId: "@ + record.id)
                } else {
                    Ok(pending.push(record))
                },
            }
        },
    }
}

/// The records that a batch appends to a log of `existing` records.
pub open spec fn appended(
    existing: Seq<RecordView>,
    session: Seq<char>,
    records: Seq<RecordView>,
    shape_errors: Seq<Option<Seq<char>>>,
) -> Result<Seq<RecordView>, Seq<char>>
    decreases records.len(),
{
    if records.len() == 0 {
        Ok(Seq::empty())
    } else {
        let n = records.len() - 1;
        match appended(existing, session, records.subrange(0, n), shape_errors) {
            Err(message) => Err(message),
            Ok(pending) => appended_one(existing, session, pending, records[n], shape_errors[n]),
        }
    }
}

proof fn lemma_appended_error(
    existing: Seq<RecordView>,
    session: Seq<char>,
    records: Seq<RecordView>,
    shape_errors: Seq<Option<Seq<char>>>,
    n: int,
)
    requires
        0 <= n <= records.len(),
        appended(existing, session, records.subrange(0, n), shape_errors) is Err,
    ensures
        appended(existing, session, records, shape_errors) == appended(
            existing,
            session,
            records.subrange(0, n),
            shape_errors,
        ),
    decreases records.len() - n,
{
    if n == records.len() {
        assert(records.subrange(0, n) =~= records);
    } else {
        let next = records.subrange(0, n + 1);
        assert(next.subrange(0, next.len() - 1) =~= records.subrange(0, n));
        lemma_appended_error(existing, session, records, shape_errors, n + 1);
    }
}

/// The contents of a list of optional strings.
pub open spec fn optional_texts(items: Seq<Option<String>>) -> Seq<Option<Seq<char>>> {
    Seq::new(items.len(), |i: int| optional_text(items[i]))
}

/// The records that a batch appends to a log of `existing` records.
pub fn plan_append(
    session_id: &str,
    existing: &Vec<SessionLogRecord>,
    records: &Vec<SessionLogRecord>,
    shape_errors: &Vec<Option<String>>,
) -> (result: Result<Vec<SessionLogRecord>, String>)
    requires
        shape_errors@.len() == records@.len(),
    ensures
        agrees(
            result,
            |pending: Vec<SessionLogRecord>| record_views(pending@),
            appended(
                record_views(existing@),
                session_id@,
                record_views(records@),
                optional_texts(shape_errors@),
            ),
        ),
{
    let ghost stored = record_views(existing@);
    let ghost all = record_views(records@);
    let ghost shapes = optional_texts(shape_errors@);
    let mut pending: Vec<SessionLogRecord> = Vec::new();
    let mut i: usize = 0;
    assert(all.subrange(0, 0) =~= Seq::empty());
    assert(record_views(pending@) =~= Seq::empty());
    while i < records.len()
        invariant
            i <= records.len(),
            shape_errors@.len() == records@.len(),
            stored == record_views(existing@),
            all == record_views(records@),
            shapes == optional_texts(shape_errors@),
            appended(stored, session_id@, all.subrange(0, i as int), shapes) == Ok::<
                Seq<RecordView>,
                Seq<char>,
            >(record_views(pending@)),
        decreases records.len() - i,
    {
        let record = &records[i];
        let ghost before = record_views(pending@);
        proof {
            let next = all.subrange(0, i + 1);
            assert(next.subrange(0, next.len() - 1) =~= all.subrange(0, i as int));
            assert(next[next.len() - 1] == record@);
            assert(shapes[i as int] == optional_text(shape_errors@[i as int]));
            if appended(stored, session_id@, next, shapes) is Err {
                lemma_appended_error(stored, session_id@, all, shapes, i + 1);
            }
            lemma_find_record(before, record@.id);
        }
        match &shape_errors[i] {
            Some(message) => {
                return Err(message.clone());
            },
            None => {},
        }
        if !text_equals(record.session_id.as_str(), session_id) {
            return Err(
                concat2(
                    "session record belongs to another sessionId: ",
                    record.event_id.as_str(),
                ),
            );
        }
        let stored_already = match lookup_record(existing, record.event_id.as_str()) {
            Some(committed) => {
                if !same_record(committed, record) {
                    return Err(
                        concat2("session record eventId conflict: ", record.event_id.as_str()),
                    );
                }
                true
            },
            None => false,
        };
        if !stored_already {
            if lookup_record(&pending, record.event_id.as_str()).is_some() {
                return Err(
                    concat2("session record batch duplicate eventId: ", record.event_id.as_str()),
                );
            }
            pending.push(copy_record(record));
            assert(record_views(pending@) =~= before.push(record@));
        }
        i = i + 1;
    }
    assert(all.subrange(0, all.len() as int) =~= all);
    Ok(pending)
}

/// No two records have the same identity.
pub open spec fn identities_unique(records: Seq<RecordView>) -> bool {
    forall|i: int, j: int|
        0 <= i < j < records.len() ==> (#[trigger] records[i]).id != (#[trigger] records[j]).id
}

/// What a batch appends belongs to the session and keeps the identities in the log unique.
pub proof fn law_append_keeps_identities_unique(
    existing: Seq<RecordView>,
    session: Seq<char>,
    records: Seq<RecordView>,
    shape_errors: Seq<Option<Seq<char>>>,
)
    requires
        identities_unique(existing),
    ensures
        appended(existing, session, records, shape_errors) matches Ok(pending)
            ==> identities_unique(existing + pending) && forall|i: int|
            0 <= i < pending.len() ==> (#[trigger] pending[i]).session == session,
    decreases records.len(),
{
    if records.len() > 0 {
        let n = records.len() - 1;
        let init = records.subrange(0, n);
        law_append_keeps_identities_unique(existing, session, init, shape_errors);
        if let Ok(pending) = appended(existing, session, records, shape_errors) {
            let before = appended(existing, session, init, shape_errors)->Ok_0;
            let record = records[n];
            lemma_find_record(existing, record.id);
            if pending != before {
                let all = existing + pending;
                let old_all = existing + before;
                assert(all =~= old_all.push(record));
                assert forall|i: int, j: int| 0 <= i < j < all.len() implies (
                #[trigger] all[i]).id != (#[trigger] all[j]).id by {
                    if j < old_all.len() {
                        assert(old_all[i].id != old_all[j].id);
                    } else if i < existing.len() {
                        assert(existing[i].id != record.id);
                    } else {
                        assert(before[i - existing.len()].id != record.id);
                    }
                }
            }
        }
    } else {
        assert(existing + Seq::<RecordView>::empty() =~= existing);
    }
}

/// Whether the log holds a record that is the same as `record`.
pub open spec fn recorded(log: Seq<RecordView>, record: RecordView) -> bool {
    exists|k: int| 0 <= k < log.len() && records_agree(#[trigger] log[k], record)
}

/// Every record of a batch that was appended is in the log afterwards.
proof fn lemma_appended_present(
    existing: Seq<RecordView>,
    session: Seq<char>,
    records: Seq<RecordView>,
    shape_errors: Seq<Option<Seq<char>>>,
    i: int,
)
    requires
        0 <= i < records.len(),
        unambiguous(records[i].payload),
        appended(existing, session, records, shape_errors) is Ok,
    ensures
        ({
            let pending = appended(existing, session, records, shape_errors)->Ok_0;
            &&& recorded(existing + pending, records[i])
            &&& records[i].session == session
            &&& shape_errors[i] is None
        }),
    decreases records.len(),
{
    let n = records.len() - 1;
    let init = records.subrange(0, n);
    let before = appended(existing, session, init, shape_errors)->Ok_0;
    let pending = appended(existing, session, records, shape_errors)->Ok_0;
    if i < n {
        lemma_appended_present(existing, session, init, shape_errors, i);
        assert(init[i] == records[i]);
        let old_all = existing + before;
        let k = choose|k: int|
            0 <= k < old_all.len() && records_agree(#[trigger] old_all[k], records[i]);
        assert((existing + pending)[k] == old_all[k]);
    } else {
        let record = records[n];
        lemma_find_record(existing, record.id);
        if let Some(committed) = find_record(existing, record.id) {
            let k = choose|k: int| 0 <= k < existing.len() && existing[k] == committed;
            assert((existing + pending)[k] == committed);
        } else {
            lemma_same_json(record.payload);
            assert((existing + pending)[(existing.len() + before.len()) as int] == record);
        }
    }
}

proof fn lemma_unique_found(records: Seq<RecordView>, record: RecordView)
    requires
        identities_unique(records),
        recorded(records, record),
    ensures
        find_record(records, record.id) is Some,
        records_agree(find_record(records, record.id)->0, record),
{
    lemma_find_record(records, record.id);
    let k = choose|k: int|
        0 <= k < records.len() && records_agree(#[trigger] records[k], record);
    assert(has_record(records, record.id));
    let found = find_record(records, record.id)->0;
    let m = choose|m: int| 0 <= m < records.len() && records[m] == found;
    if k < m {
        assert(records[k].id != records[m].id);
    }
    if m < k {
        assert(records[m].id != records[k].id);
    }
}

/// Appending a batch a second time appends nothing. No payload of the batch has a key of an object
/// twice, as none that was read from text has.
pub proof fn law_append_is_idempotent(
    existing: Seq<RecordView>,
    session: Seq<char>,
    records: Seq<RecordView>,
    shape_errors: Seq<Option<Seq<char>>>,
)
    requires
        identities_unique(existing),
        shape_errors.len() == records.len(),
        forall|i: int| 0 <= i < records.len() ==> unambiguous((#[trigger] records[i]).payload),
    ensures
        appended(existing, session, records, shape_errors) matches Ok(pending) ==> appended(
            existing + pending,
            session,
            records,
            shape_errors,
        ) == Ok::<Seq<RecordView>, Seq<char>>(Seq::empty()),
{
    if let Ok(pending) = appended(existing, session, records, shape_errors) {
        law_append_keeps_identities_unique(existing, session, records, shape_errors);
        assert forall|i: int| 0 <= i < records.len() implies recorded(
            existing + pending,
            #[trigger] records[i],
        ) && records[i].session == session && shape_errors[i] is None by {
            lemma_appended_present(existing, session, records, shape_errors, i);
        }
        lemma_all_stored(existing + pending, session, records, shape_errors);
    }
}

proof fn lemma_all_stored(
    log: Seq<RecordView>,
    session: Seq<char>,
    records: Seq<RecordView>,
    shape_errors: Seq<Option<Seq<char>>>,
)
    requires
        identities_unique(log),
        forall|i: int|
            0 <= i < records.len() ==> recorded(log, #[trigger] records[i]) && records[i].session
                == session && shape_errors[i] is None,
    ensures
        appended(log, session, records, shape_errors) == Ok::<Seq<RecordView>, Seq<char>>(
            Seq::empty(),
        ),
    decreases records.len(),
{
    if records.len() > 0 {
        let n = records.len() - 1;
        let init = records.subrange(0, n);
        assert forall|i: int| 0 <= i < init.len() implies recorded(log, #[trigger] init[i])
            && init[i].session == session && shape_errors[i] is None by {
            assert(init[i] == records[i]);
        }
        lemma_all_stored(log, session, init, shape_errors);
        lemma_unique_found(log, records[n]);
    }
}

/// A record with its place in the log, counted from one.
#[derive(Debug)]
pub struct SequencedRecord {
    pub sequence: u64,
    pub record: SessionLogRecord,
}

pub struct SequencedView {
    pub sequence: nat,
    pub record: RecordView,
}

impl View for SequencedRecord {
    type V = SequencedView;

    open spec fn view(&self) -> SequencedView {
        SequencedView { sequence: self.sequence as nat, record: self.record@ }
    }
}

pub open spec fn sequenced_views(records: Seq<SequencedRecord>) -> Seq<SequencedView> {
    Seq::new(records.len(), |i: int| records[i]@)
}

/// `records` with their places in a log, after `offset` records.
pub open spec fn numbered(records: Seq<RecordView>, offset: nat) -> Seq<SequencedView> {
    Seq::new(
        records.len(),
        |i: int| SequencedView { sequence: (offset + i + 1) as nat, record: records[i] },
    )
}

/// Gives the records that are appended to a log of `existing` records their places.
pub fn sequence_records(existing: usize, pending: Vec<SessionLogRecord>) -> (result: Vec<
    SequencedRecord,
>)
    requires
        existing + pending@.len() < u64::MAX,
    ensures
        sequenced_views(result@) == numbered(record_views(pending@), existing as nat),
{
    let ghost all = record_views(pending@);
    let mut result: Vec<SequencedRecord> = Vec::new();
    let mut i: usize = 0;
    while i < pending.len()
        invariant
            i <= pending.len(),
            all == record_views(pending@),
            existing + pending@.len() < u64::MAX,
            result.len() == i,
            forall|j: int|
                0 <= j < i ==> (#[trigger] result@[j])@ == numbered(all, existing as nat)[j],
        decreases pending.len() - i,
    {
        let sequence: u64 = existing as u64 + i as u64 + 1;
        result.push(SequencedRecord { sequence, record: copy_record(&pending[i]) });
        i = i + 1;
    }
    assert(sequenced_views(result@) =~= numbered(all, existing as nat));
    result
}

/// The records of a stored log after `sequenced` has been read, or the error of the first record
/// that is out of place, belongs to another session or occurs twice.
pub open spec fn accepted(
    sequenced: Seq<SequencedView>,
    expected_session: Option<Seq<char>>,
) -> Result<Seq<RecordView>, Seq<char>>
    decreases sequenced.len(),
{
    if sequenced.len() == 0 {
        Ok(Seq::empty())
    } else {
        let n = sequenced.len() - 1;
        match accepted(sequenced.subrange(0, n), expected_session) {
            Err(message) => Err(message),
            Ok(records) => {
                let item = sequenced[n];
                if item.sequence != n + 1 {
                    Err(
                        "session record sequence gap: expected "@ + decimal((n + 1) as nat)
                            + ", got "@ + decimal(item.sequence),
                    )
                } else if expected_session is Some && expected_session
                    != Some(item.record.session) {
                    Err("session log cross-session record: "@ + item.record.id)
                } else if has_record(records, item.record.id) {
                    Err("session log duplicate eventId: "@ + item.record.id)
                } else {
                    Ok(records.push(item.record))
                }
            },
        }
    }
}

proof fn lemma_accepted_error(
    sequenced: Seq<SequencedView>,
    expected_session: Option<Seq<char>>,
    n: int,
)
    requires
        0 <= n <= sequenced.len(),
        accepted(sequenced.subrange(0, n), expected_session) is Err,
    ensures
        accepted(sequenced, expected_session) == accepted(
            sequenced.subrange(0, n),
            expected_session,
        ),
    decreases sequenced.len() - n,
{
    if n == sequenced.len() {
        assert(sequenced.subrange(0, n) =~= sequenced);
    } else {
        let next = sequenced.subrange(0, n + 1);
        assert(next.subrange(0, next.len() - 1) =~= sequenced.subrange(0, n));
        lemma_accepted_error(sequenced, expected_session, n + 1);
    }
}

/// A log whose records have unique identities and belong to the expected session is read back as
/// those records, when they are stored in their places.
pub proof fn law_numbered_log_is_accepted(
    records: Seq<RecordView>,
    expected_session: Option<Seq<char>>,
)
    requires
        identities_unique(records),
        expected_session matches Some(session) ==> forall|i: int|
            0 <= i < records.len() ==> (#[trigger] records[i]).session == session,
    ensures
        accepted(numbered(records, 0), expected_session) == Ok::<Seq<RecordView>, Seq<char>>(
            records,
        ),
    decreases records.len(),
{
    let all = numbered(records, 0);
    if records.len() == 0 {
        assert(records =~= Seq::empty());
    } else {
        let n = records.len() - 1;
        let init = records.subrange(0, n);
        law_numbered_log_is_accepted(init, expected_session);
        assert(all.subrange(0, n) =~= numbered(init, 0));
        assert(!has_record(init, records[n].id)) by {
            if has_record(init, records[n].id) {
                let i = choose|i: int|
                    0 <= i < init.len() && (#[trigger] init[i]).id == records[n].id;
                assert(records[i].id != records[n].id);
            }
        }
        assert(init.push(records[n]) =~= records);
    }
}

/// A log that is accepted stays accepted when a batch is appended to it in its places, and the
/// records that are read then are the records that were there and the records of the batch.
pub proof fn law_append_reads_back(
    existing: Seq<RecordView>,
    session: Seq<char>,
    records: Seq<RecordView>,
    shape_errors: Seq<Option<Seq<char>>>,
)
    requires
        identities_unique(existing),
        forall|i: int| 0 <= i < existing.len() ==> (#[trigger] existing[i]).session == session,
    ensures
        appended(existing, session, records, shape_errors) matches Ok(pending) ==> accepted(
            numbered(existing, 0) + numbered(pending, existing.len()),
            Some(session),
        ) == Ok::<Seq<RecordView>, Seq<char>>(existing + pending),
{
    if let Ok(pending) = appended(existing, session, records, shape_errors) {
        law_append_keeps_identities_unique(existing, session, records, shape_errors);
        let all = existing + pending;
        assert forall|i: int| 0 <= i < all.len() implies (#[trigger] all[i]).session == session by {
            if i >= existing.len() {
                assert(pending[i - existing.len()].session == session);
            }
        }
        law_numbered_log_is_accepted(all, Some(session));
        assert(numbered(existing, 0) + numbered(pending, existing.len()) =~= numbered(all, 0));
    }
}

/// Accepts the records of a stored log.
pub fn accept_records(
    sequenced: &Vec<SequencedRecord>,
    expected_session_id: &Option<String>,
) -> (result: Result<Vec<SessionLogRecord>, String>)
    ensures
        agrees(
            result,
            |records: Vec<SessionLogRecord>| record_views(records@),
            accepted(sequenced_views(sequenced@), optional_text(*expected_session_id)),
        ),
{
    let ghost all = sequenced_views(sequenced@);
    let ghost expected = optional_text(*expected_session_id);
    let mut records: Vec<SessionLogRecord> = Vec::new();
    let mut i: usize = 0;
    assert(all.subrange(0, 0) =~= Seq::empty());
    assert(record_views(records@) =~= Seq::empty());
    while i < sequenced.len()
        invariant
            i <= sequenced.len(),
            all == sequenced_views(sequenced@),
            expected == optional_text(*expected_session_id),
            accepted(all.subrange(0, i as int), expected) == Ok::<Seq<RecordView>, Seq<char>>(
                record_views(records@),
            ),
        decreases sequenced.len() - i,
    {
        let item = &sequenced[i];
        let ghost before = record_views(records@);
        proof {
            let next = all.subrange(0, i + 1);
            assert(next.subrange(0, next.len() - 1) =~= all.subrange(0, i as int));
            assert(next[next.len() - 1] == item@);
            if accepted(next, expected) is Err {
                lemma_accepted_error(all, expected, i + 1);
            }
            lemma_find_record(before, item@.record.id);
        }
        if item.sequence != (i + 1) as u64 {
            return Err(
                concat2(
                    concat3(
                        "session record sequence gap: expected ",
                        decimal_text((i + 1) as u64).as_str(),
                        ", got ",
                    ).as_str(),
                    decimal_text(item.sequence).as_str(),
                ),
            );
        }
        match expected_session_id {
            Some(session) => {
                if !text_equals(item.record.session_id.as_str(), session.as_str()) {
                    return Err(
                        concat2(
                            "session log cross-session record: ",
                            item.record.event_id.as_str(),
                        ),
                    );
                }
            },
            None => {},
        }
        if lookup_record(&records, item.record.event_id.as_str()).is_some() {
            return Err(
                concat2("session log duplicate eventId: ", item.record.event_id.as_str()),
            );
        }
        records.push(copy_record(&item.record));
        assert(record_views(records@) =~= before.push(item@.record));
        i = i + 1;
    }
    assert(all.subrange(0, all.len() as int) =~= all);
    Ok(records)
}

/// Accepts the text of a stored log, which has a manifest and ends with a complete line. `path`
/// is the path as it is shown.
pub fn check_log_contents(contents: &str, path: &str) -> (result: Result<(), String>)
    ensures
        match result {
            Ok(()) => contents@.len() > 0 && contents@[contents@.len() - 1] == '\n',
            Err(message) => if contents@.len() == 0 {
                message@ == "session log manifest is missing: "@ + path@
            } else {
                contents@[contents@.len() - 1] != '\n' && message@
                    == "session log has a truncated final line: "@ + path@
            },
        },
{
    if contents.is_empty() {
        return Err(concat2("session log manifest is missing: ", path));
    }
    let complete = strip_suffix(contents, "\n").is_some();
    proof {
        reveal_strlit("\n");
        assert("\n"@ =~= seq!['\n']);
        let n = contents@.len() as int;
        assert(contents@.subrange(n - 1, n) =~= seq![contents@[n - 1]]);
        if contents@[n - 1] != '\n' {
            assert(contents@.subrange(n - 1, n)[0] != "\n"@[0]);
        }
    }
    if !complete {
        return Err(concat2("session log has a truncated final line: ", path));
    }
    Ok(())
}

/// The value of a line of a stored log, which stands at `index`.
pub open spec fn line_value(path: Seq<char>, index: nat, line: Seq<char>) -> Result<
    JsonView,
    Seq<char>,
> {
    if trimmed(line).len() == 0 {
        Err("session log contains blank line: "@ + path + ":"@ + decimal(index + 1))
    } else {
        match json_parsed(line) {
            Ok(value) => Ok(value),
            Err(message) => Err(
                "decode session log line "@ + decimal(index + 1) + " failed: "@ + message,
            ),
        }
    }
}

/// Reads a line of a stored log, which stands at `index`.
pub fn decode_log_line(path: &str, index: usize, line: &str) -> (result: Result<Json, String>)
    requires
        index < usize::MAX,
    ensures
        agrees(result, |value: Json| value@, line_value(path@, index as nat, line@)),
{
    let place = decimal_text((index + 1) as u64);
    if trim(line).is_empty() {
        return Err(
            concat2(
                concat3("session log contains blank line: ", path, ":").as_str(),
                place.as_str(),
            ),
        );
    }
    match parse_json(line) {
        Ok(value) => Ok(value),
        Err(message) => Err(
            concat2(
                concat3("decode session log line ", place.as_str(), " failed: ").as_str(),
                message.as_str(),
            ),
        ),
    }
}

/// The value of the first line of a stored log, which names the session.
pub open spec fn log_manifest(path: Seq<char>, contents: Seq<char>) -> Result<JsonView, Seq<char>> {
    if contents.len() == 0 {
        Err("session log manifest is missing: "@ + path)
    } else if contents[contents.len() - 1] != '\n' {
        Err("session log has a truncated final line: "@ + path)
    } else {
        line_value(path, 0, lines(contents)[0])
    }
}

proof fn lemma_lines_of_text(s: Seq<char>)
    requires
        s.len() > 0,
    ensures
        lines(s).len() > 0,
{
    if s.contains('\n') {
        s.index_of_first_ensures('\n');
    }
}

/// Reads the first line of a stored log, which has to be complete. `path` is the path as it is
/// shown.
pub fn read_log_manifest(path: &str, contents: &str) -> (result: Result<Json, String>)
    ensures
        agrees(result, |value: Json| value@, log_manifest(path@, contents@)),
{
    match check_log_contents(contents, path) {
        Ok(()) => {},
        Err(message) => {
            return Err(message);
        },
    }
    let all = lines_of(contents);
    proof {
        lemma_lines_of_text(contents@);
        assert(texts(all@)[0] == all@[0]@);
    }
    decode_log_line(path, 0, all[0].as_str())
}

/// The values of the first `n` lines of a stored log but its first, in order.
pub open spec fn log_wires(path: Seq<char>, lines: Seq<Seq<char>>, n: nat) -> Result<
    Seq<JsonView>,
    Seq<char>,
>
    decreases n,
{
    if n <= 1 {
        Ok(Seq::empty())
    } else {
        match log_wires(path, lines, (n - 1) as nat) {
            Err(message) => Err(message),
            Ok(before) => match line_value(path, (n - 1) as nat, lines[n - 1]) {
                Err(message) => Err(message),
                Ok(value) => Ok(before.push(value)),
            },
        }
    }
}

proof fn lemma_log_wires_error(path: Seq<char>, lines: Seq<Seq<char>>, m: nat, n: nat)
    requires
        m <= n,
        log_wires(path, lines, m) is Err,
    ensures
        log_wires(path, lines, n) == log_wires(path, lines, m),
    decreases n,
{
    if m < n {
        lemma_log_wires_error(path, lines, m, (n - 1) as nat);
    }
}

/// Reads the events of a stored log, which stand on the lines behind its first.
pub fn read_log_wires(path: &str, contents: &str) -> (result: Result<Vec<Json>, String>)
    ensures
        agrees(
            result,
            |wires: Vec<Json>| json_views(wires@),
            log_wires(path@, lines(contents@), lines(contents@).len()),
        ),
{
    let all = lines_of(contents);
    let ghost rows = lines(contents@);
    let mut wires: Vec<Json> = Vec::new();
    assert(json_views(wires@) =~= Seq::empty());
    if all.len() == 0 {
        return Ok(wires);
    }
    let mut i: usize = 1;
    while i < all.len()
        invariant
            1 <= i <= all.len(),
            rows == texts(all@),
            rows == lines(contents@),
            log_wires(path@, rows, i as nat) == Ok::<Seq<JsonView>, Seq<char>>(json_views(wires@)),
        decreases all.len() - i,
    {
        let ghost before = json_views(wires@);
        assert(rows[i as int] == all@[i as int]@);
        match decode_log_line(path, i, all[i].as_str()) {
            Ok(wire) => {
                wires.push(wire);
                assert(json_views(wires@) =~= before.push(wire@));
            },
            Err(message) => {
                proof {
                    lemma_log_wires_error(path@, rows, (i + 1) as nat, rows.len());
                }
                return Err(message);
            },
        }
        i = i + 1;
    }
    Ok(wires)
}

/// Accepts the manifest of a log that is expected to belong to a session.
pub fn check_manifest_session(session_id: &str, expected_session_id: &Option<String>) -> (result:
    Result<(), String>)
    ensures
        match result {
            Ok(()) => *expected_session_id is None || optional_text(*expected_session_id) == Some(
                session_id@,
            ),
            Err(message) => *expected_session_id is Some && optional_text(*expected_session_id)
                != Some(session_id@) && message@ == "session manifest sessionId mismatch"@,
        },
{
    match expected_session_id {
        Some(expected) => {
            if !text_equals(expected.as_str(), session_id) {
                return Err("session manifest sessionId mismatch".to_owned());
            }
        },
        None => {},
    }
    Ok(())
}

/// The identities of the metadata record at `sequence`: of the record itself, and of the event.
pub fn metadata_identities(session_id: &str, sequence: u64) -> (result: (String, String))
    ensures
        result.0@ == "session:"@ + session_id@ + ":meta:"@ + decimal(sequence as nat),
        result.1@ == "evt:session_meta:"@ + session_id@ + ":"@ + decimal(sequence as nat),
{
    let place = decimal_text(sequence);
    (
        concat2(concat3("session:", session_id, ":meta:").as_str(), place.as_str()),
        concat2(concat3("evt:session_meta:", session_id, ":").as_str(), place.as_str()),
    )
}

pub const FIRST_METADATA_SEQUENCE: u64 = 1;

/// The record of the metadata of a session at `sequence`: of no turn and no run. The first record of
/// a log is one.
pub fn session_metadata_record(
    session_id: &str,
    metadata: Json,
    sequence: u64,
    created_at_ms: i64,
) -> (result: SessionLogRecord)
    ensures
        result@ == (RecordView {
            id: "evt:session_meta:"@ + session_id@ + ":"@ + decimal(sequence as nat),
            kind: RecordKind::SessionMeta,
            session: session_id@,
            turn: None,
            run: None,
            at: created_at_ms,
            payload: metadata@,
        }),
{
    SessionLogRecord {
        event_id: metadata_identities(session_id, sequence).1,
        kind: RecordKind::SessionMeta,
        session_id: session_id.to_owned(),
        turn_id: None,
        agent_run_id: None,
        created_at_ms,
        payload: metadata,
    }
}

/// Two records are taken to be the same exactly where they agree in everything that they say: who
/// they are, what they tell of which session, turn and run, when, and with which payload.
pub proof fn law_records_agree_in_everything(a: SessionLogRecord, b: SessionLogRecord)
    ensures
        records_agree(a@, b@) <==> {
            &&& a.event_id@ == b.event_id@
            &&& a.kind == b.kind
            &&& a.session_id@ == b.session_id@
            &&& optional_text(a.turn_id) == optional_text(b.turn_id)
            &&& optional_text(a.agent_run_id) == optional_text(b.agent_run_id)
            &&& a.created_at_ms == b.created_at_ms
            &&& same_json(a.payload@, b.payload@)
        },
{
}

/// Whether the record at a place is the last with an identity.
pub open spec fn last_with_identity(log: Seq<RecordView>, id: Seq<char>, at: int) -> bool {
    &&& 0 <= at < log.len()
    &&& log[at].id == id
    &&& forall|k: int| at < k < log.len() ==> (#[trigger] log[k]).id != id
}

proof fn lemma_last_with_identity(log: Seq<RecordView>, id: Seq<char>)
    ensures
        match find_record(log, id) {
            Some(record) => exists|at: int| last_with_identity(log, id, at) && log[at] == record,
            None => !has_record(log, id),
        },
    decreases log.len(),
{
    if log.len() > 0 {
        let n = log.len() - 1;
        let init = log.subrange(0, n);
        lemma_last_with_identity(init, id);
        if log[n].id == id {
            assert(last_with_identity(log, id, n));
        } else {
            match find_record(init, id) {
                Some(record) => {
                    let at = choose|at: int| last_with_identity(init, id, at) && init[at] == record;
                    assert(init[at] == log[at]);
                    assert forall|k: int| at < k < log.len() implies (#[trigger] log[k]).id != id by {
                        if k < n {
                            assert(init[k] == log[k]);
                        }
                    }
                    assert(last_with_identity(log, id, at));
                },
                None => {
                    if has_record(log, id) {
                        let k = choose|k: int| 0 <= k < log.len() && (#[trigger] log[k]).id == id;
                        assert(init[k] == log[k]);
                        assert(has_record(init, id));
                    }
                },
            }
        }
    }
}

/// Whether a record of a batch may be appended: it is well-formed and of the session, and where the
/// log has its identity already it is the record that is there, else no record before it in the
/// batch has its identity.
pub open spec fn may_be_appended(
    existing: Seq<RecordView>,
    session: Seq<char>,
    records: Seq<RecordView>,
    shape_errors: Seq<Option<Seq<char>>>,
    i: int,
) -> bool {
    &&& shape_errors[i] is None
    &&& records[i].session == session
    &&& has_record(existing, records[i].id) ==> exists|k: int|
        last_with_identity(existing, records[i].id, k) && records_agree(existing[k], records[i])
    &&& !has_record(existing, records[i].id) ==> forall|j: int|
        0 <= j < i ==> (#[trigger] records[j]).id != records[i].id
}

/// Whether records are those of a batch at ascending places, just the ones that a log lacks.
pub open spec fn are_the_new_ones(
    existing: Seq<RecordView>,
    records: Seq<RecordView>,
    places: Seq<int>,
    pending: Seq<RecordView>,
) -> bool {
    &&& pending.len() == places.len()
    &&& forall|p: int|
        0 <= p < places.len() ==> 0 <= #[trigger] places[p] < records.len() && pending[p]
            == records[places[p]]
    &&& forall|p: int, q: int| 0 <= p < q < places.len() ==> #[trigger] places[p] < #[trigger] places[q]
    &&& forall|i: int|
        0 <= i < records.len() ==> (!has_record(existing, (#[trigger] records[i]).id)
            <==> places.contains(i))
}

/// Whether records are the ones of a batch that a log lacks, in their order.
pub open spec fn lacked(
    existing: Seq<RecordView>,
    records: Seq<RecordView>,
    pending: Seq<RecordView>,
) -> bool {
    exists|places: Seq<int>| are_the_new_ones(existing, records, places, pending)
}

/// A batch is appended exactly where each of its records may be, and what is appended is the
/// records that the log lacks, in their order.
pub proof fn law_batches_add_what_the_log_lacks(
    existing: Seq<RecordView>,
    session: Seq<char>,
    records: Seq<RecordView>,
    shape_errors: Seq<Option<Seq<char>>>,
)
    ensures
        appended(existing, session, records, shape_errors) is Ok <==> forall|i: int|
            0 <= i < records.len() ==> #[trigger] may_be_appended(
                existing,
                session,
                records,
                shape_errors,
                i,
            ),
        appended(existing, session, records, shape_errors) matches Ok(pending) ==> lacked(
            existing,
            records,
            pending,
        ),
    decreases records.len(),
{
    if records.len() == 0 {
        assert(are_the_new_ones(existing, records, Seq::empty(), Seq::empty()));
        assert(lacked(existing, records, Seq::empty()));
    } else {
        let n = records.len() - 1;
        let init = records.subrange(0, n);
        let record = records[n];
        law_batches_add_what_the_log_lacks(existing, session, init, shape_errors);
        lemma_last_with_identity(existing, record.id);
        assert forall|i: int| 0 <= i < n implies (may_be_appended(
            existing,
            session,
            init,
            shape_errors,
            i,
        ) <==> #[trigger] may_be_appended(existing, session, records, shape_errors, i)) by {
            assert(init[i] == records[i]);
            assert(forall|j: int| 0 <= j < i ==> #[trigger] init[j] == records[j]);
            assert(forall|j: int| 0 <= j < i ==> #[trigger] records[j] == init[j]);
        }
        if appended(existing, session, init, shape_errors) is Ok {
            let before = appended(existing, session, init, shape_errors)->Ok_0;
            let old_places = choose|places: Seq<int>|
                are_the_new_ones(existing, init, places, before);
            assert(!has_record(existing, record.id) ==> (has_record(before, record.id) <==> exists|
                j: int,
            |
                0 <= j < n && (#[trigger] records[j]).id == record.id)) by {
                if !has_record(existing, record.id) {
                    if has_record(before, record.id) {
                        let p = choose|p: int|
                            0 <= p < before.len() && (#[trigger] before[p]).id == record.id;
                        let j = old_places[p];
                        assert(before[p] == init[j]);
                        assert(records[j].id == record.id);
                    }
                    if exists|j: int| 0 <= j < n && (#[trigger] records[j]).id == record.id {
                        let j = choose|j: int|
                            0 <= j < n && (#[trigger] records[j]).id == record.id;
                        assert(init[j] == records[j]);
                        assert(old_places.contains(j));
                        let p = choose|p: int| 0 <= p < old_places.len() && old_places[p] == j;
                        assert(old_places[p] == j);
                        assert(before[p].id == record.id);
                    }
                }
            }
            assert(has_record(existing, record.id) ==> ((exists|k: int|
                last_with_identity(existing, record.id, k) && records_agree(existing[k], record))
                <==> records_agree(find_record(existing, record.id)->0, record))) by {
                if has_record(existing, record.id) {
                    let at = choose|at: int|
                        last_with_identity(existing, record.id, at) && existing[at] == find_record(
                            existing,
                            record.id,
                        )->0;
                    assert forall|k: int| #[trigger]
                        last_with_identity(existing, record.id, k) implies k == at by {
                        if k < at {
                            assert(existing[at].id != record.id);
                        }
                        if at < k {
                            assert(existing[k].id != record.id);
                        }
                    }
                }
            }
            if find_record(existing, record.id) is Some {
                let at = choose|at: int|
                    last_with_identity(existing, record.id, at) && existing[at] == find_record(
                        existing,
                        record.id,
                    )->0;
                assert(existing[at].id == record.id);
                assert(has_record(existing, record.id));
            }
            assert(appended(existing, session, records, shape_errors) is Ok <==> may_be_appended(
                existing,
                session,
                records,
                shape_errors,
                n,
            ));
            if appended(existing, session, records, shape_errors) is Ok {
                let pending = appended(existing, session, records, shape_errors)->Ok_0;
                let places = if has_record(existing, record.id) {
                    old_places
                } else {
                    old_places.push(n)
                };
                assert forall|p: int| 0 <= p < places.len() implies 0 <= #[trigger] places[p]
                    < records.len() && pending[p] == records[places[p]] by {
                    if p < old_places.len() {
                        assert(places[p] == old_places[p]);
                        assert(init[old_places[p]] == records[old_places[p]]);
                    }
                }
                assert forall|i: int| 0 <= i < records.len() implies (!has_record(
                    existing,
                    (#[trigger] records[i]).id,
                ) <==> places.contains(i)) by {
                    if i < n {
                        assert(init[i] == records[i]);
                        if old_places.contains(i) {
                            let p = choose|p: int| 0 <= p < old_places.len() && old_places[p] == i;
                            assert(places[p] == i);
                        }
                        if places.contains(i) {
                            let p = choose|p: int| 0 <= p < places.len() && places[p] == i;
                            assert(old_places[p] == i);
                        }
                    } else {
                        if !has_record(existing, record.id) {
                            assert(places[old_places.len() as int] == n);
                        } else if places.contains(i) {
                            let p = choose|p: int| 0 <= p < places.len() && places[p] == i;
                            assert(old_places[p] < n);
                        }
                    }
                }
                assert(are_the_new_ones(existing, records, places, pending));
                assert(lacked(existing, records, pending));
            }
        } else {
            let i = choose|i: int|
                0 <= i < init.len() && !#[trigger] may_be_appended(
                    existing,
                    session,
                    init,
                    shape_errors,
                    i,
                );
            assert(!may_be_appended(existing, session, records, shape_errors, i));
        }
    }
}

/// A stored log is read exactly where its records are numbered from 1 on without a gap, belong to
/// the session that is expected, if any, and have identities of their own; it is read as it stands.
pub proof fn law_stored_logs_are_read_as_they_stand(
    sequenced: Seq<SequencedRecord>,
    expected_session: Option<Seq<char>>,
)
    ensures
        accepted(sequenced_views(sequenced), expected_session) is Ok <==> {
            &&& forall|i: int|
                0 <= i < sequenced.len() ==> (#[trigger] sequenced[i]).sequence == i + 1 && (
                expected_session matches Some(session) ==> sequenced[i].record.session_id@
                    == session)
            &&& forall|i: int, j: int|
                0 <= i < j < sequenced.len() ==> (#[trigger] sequenced[i]).record.event_id@ != (
                #[trigger] sequenced[j]).record.event_id@
        },
        accepted(sequenced_views(sequenced), expected_session) matches Ok(records) ==> records.len()
            == sequenced.len() && forall|i: int|
            0 <= i < records.len() ==> #[trigger] records[i] == sequenced[i].record@,
    decreases sequenced.len(),
{
    let all = sequenced_views(sequenced);
    if sequenced.len() > 0 {
        let n = sequenced.len() - 1;
        let init = sequenced.subrange(0, n);
        law_stored_logs_are_read_as_they_stand(init, expected_session);
        assert(sequenced_views(init) =~= all.subrange(0, n));
        assert(all[n] == sequenced[n]@);
        assert forall|i: int| 0 <= i < n implies #[trigger] init[i] == sequenced[i] by {}
        assert(forall|i: int| 0 <= i < n ==> #[trigger] sequenced[i] == init[i]);
        let sound = {
            &&& forall|i: int|
                0 <= i < sequenced.len() ==> (#[trigger] sequenced[i]).sequence == i + 1 && (
                expected_session matches Some(session) ==> sequenced[i].record.session_id@
                    == session)
            &&& forall|i: int, j: int|
                0 <= i < j < sequenced.len() ==> (#[trigger] sequenced[i]).record.event_id@ != (
                #[trigger] sequenced[j]).record.event_id@
        };
        let before = accepted(all.subrange(0, n), expected_session);
        if before is Ok {
            let records = before->Ok_0;
            let id = sequenced[n].record.event_id@;
            if has_record(records, id) {
                let k = choose|k: int| 0 <= k < records.len() && (#[trigger] records[k]).id == id;
                assert(records[k] == init[k].record@);
                assert(sequenced[k].record.event_id@ == sequenced[n].record.event_id@);
                assert(!sound);
            } else {
                assert forall|i: int| 0 <= i < n implies (#[trigger] sequenced[i]).record.event_id@
                    != id by {
                    assert(records[i] == init[i].record@);
                    if sequenced[i].record.event_id@ == id {
                        assert(records[i].id == id);
                    }
                }
            }
        } else if sound {
            assert forall|i: int| 0 <= i < init.len() implies (#[trigger] init[i]).sequence == i + 1
                && (expected_session matches Some(session) ==> init[i].record.session_id@
                == session) by {
                assert(init[i] == sequenced[i]);
            }
            assert forall|i: int, j: int| 0 <= i < j < init.len() implies (
            #[trigger] init[i]).record.event_id@ != (#[trigger] init[j]).record.event_id@ by {
                assert(init[i] == sequenced[i] && init[j] == sequenced[j]);
            }
        }
    }
}

/// Whether a line of a stored log holds a value: it is not blank and is JSON.
pub open spec fn line_holds(line: Seq<char>, value: JsonView) -> bool {
    !blank(line) && json_parsed(line) == Ok::<JsonView, Seq<char>>(value)
}

/// The manifest of a stored log is the value of its first line, and the records are the values of
/// the lines that follow, one for each; a log is read exactly where all of them hold a value and the
/// last line is ended.
pub proof fn law_logs_are_read_line_by_line(path: Seq<char>, contents: Seq<char>, n: nat)
    ensures
        log_manifest(path, contents) is Ok ==> contents.len() > 0 && contents[contents.len() - 1]
            == '\n' && line_holds(lines(contents)[0], log_manifest(path, contents)->Ok_0),
        forall|value: JsonView|
            contents.len() > 0 && contents[contents.len() - 1] == '\n' && #[trigger] line_holds(
                lines(contents)[0],
                value,
            ) ==> log_manifest(path, contents) == Ok::<JsonView, Seq<char>>(value),
        log_wires(path, lines(contents), n) matches Ok(values) ==> values.len() == (if n > 1 {
            n - 1
        } else {
            0
        }) && forall|i: int|
            0 <= i < values.len() ==> line_holds(lines(contents)[i + 1], #[trigger] values[i]),
        log_wires(path, lines(contents), n) is Ok <==> forall|i: int|
            1 <= i < n ==> !blank(#[trigger] lines(contents)[i]) && json_parsed(lines(contents)[i])
                is Ok,
    decreases n,
{
    let all = lines(contents);
    law_trimming_takes_off_the_whitespace_around(all[0]);
    if n > 1 {
        law_logs_are_read_line_by_line(path, contents, (n - 1) as nat);
        law_trimming_takes_off_the_whitespace_around(all[n - 1]);
        if log_wires(path, all, n) is Ok {
            let values = log_wires(path, all, n)->Ok_0;
            let before = log_wires(path, all, (n - 1) as nat)->Ok_0;
            assert forall|i: int| 0 <= i < values.len() implies line_holds(
                all[i + 1],
                #[trigger] values[i],
            ) by {
                if i < before.len() {
                    assert(values[i] == before[i]);
                }
            }
        }
    }
}

} // verus!
