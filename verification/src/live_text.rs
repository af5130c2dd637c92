//! The text that a model writes while it is running: how its pieces are gathered, written to a
//! journal and handed on, so that an interruption loses none of it.

use crate::json::{
    field, json_views, lemma_with_entry_other, lemma_with_entry_read, text_field, text_json,
    with_field, Json, JsonView,
};
use crate::observation_cas::agrees;
use crate::text::{
    blank, concat2, law_trimming_takes_off_the_whitespace_around, required, required_string,
    text_equals, trimmed,
};
use vstd::prelude::*;

verus! {

pub const LIVE_TEXT_FLUSH_INTERVAL_MS: u64 = 75;

/// A change of the text.
#[derive(Debug)]
pub enum LiveTextOperation {
    Append(String),
    Replace(String),
}

pub enum OperationView {
    Append(Seq<char>),
    Replace(Seq<char>),
}

impl View for LiveTextOperation {
    type V = OperationView;

    open spec fn view(&self) -> OperationView {
        match self {
            LiveTextOperation::Append(text) => OperationView::Append(text@),
            LiveTextOperation::Replace(text) => OperationView::Replace(text@),
        }
    }
}

/// What a list of changes says.
pub open spec fn operation_views(list: Seq<LiveTextOperation>) -> Seq<OperationView> {
    Seq::new(list.len(), |i: int| list[i]@)
}

/// The text after a change.
pub open spec fn changed(text: Seq<char>, operation: OperationView) -> Seq<char> {
    match operation {
        OperationView::Append(more) => text + more,
        OperationView::Replace(new) => new,
    }
}

/// The text after changes, in order.
pub open spec fn replayed(text: Seq<char>, operations: Seq<OperationView>) -> Seq<char>
    decreases operations.len(),
{
    if operations.len() == 0 {
        text
    } else {
        let n = operations.len() - 1;
        changed(replayed(text, operations.subrange(0, n)), operations[n])
    }
}

/// The type of the event in a payload.
pub open spec fn event_type(payload: JsonView) -> Option<Seq<char>> {
    match field(payload, "event"@) {
        Some(event) => text_field(event, "type"@),
        None => None,
    }
}

/// The change that a payload tells of.
pub open spec fn operation_of(payload: JsonView) -> Result<OperationView, Seq<char>> {
    match field(payload, "event"@) {
        None => Err("live text payload is missing event"@),
        Some(event) => match text_field(event, "type"@) {
            None => Err("live text payload is missing event.type"@),
            Some(kind) => match field(event, "payload"@) {
                None => Err("live text payload is missing event.payload"@),
                Some(body) => if kind == "ModelTextDelta"@ {
                    match text_field(body, "delta"@) {
                        Some(text) => Ok(OperationView::Append(text)),
                        None => Err("ModelTextDelta is missing payload.delta"@),
                    }
                } else if kind == "ModelTextReplace"@ {
                    match text_field(body, "content"@) {
                        Some(text) => Ok(OperationView::Replace(text)),
                        None => Err("ModelTextReplace is missing payload.content"@),
                    }
                } else {
                    Err("unsupported live text event type: "@ + kind)
                },
            },
        },
    }
}

/// The type of the event in a payload.
fn get_event_type(payload: &Json) -> (result: Option<&String>)
    ensures
        match result {
            Some(text) => event_type(payload@) == Some(text@),
            None => event_type(payload@) == None::<Seq<char>>,
        },
{
    match payload.get("event") {
        Some(event) => event.get_text("type"),
        None => None,
    }
}

/// Whether a payload tells that the model has written more.
pub fn is_model_text_delta_payload(payload: &Json) -> (result: bool)
    ensures
        result == (event_type(payload@) == Some("ModelTextDelta"@)),
{
    match get_event_type(payload) {
        Some(text) => text_equals(text.as_str(), "ModelTextDelta"),
        None => false,
    }
}

/// Whether a payload tells of a change of the text.
pub fn is_live_text_payload(payload: &Json) -> (result: bool)
    ensures
        result == (event_type(payload@) == Some("ModelTextDelta"@) || event_type(payload@) == Some(
            "ModelTextReplace"@,
        )),
{
    match get_event_type(payload) {
        Some(text) => text_equals(text.as_str(), "ModelTextDelta") || text_equals(
            text.as_str(),
            "ModelTextReplace",
        ),
        None => false,
    }
}

/// The change that a payload tells of.
pub fn live_text_operation_from_payload(payload: &Json) -> (result: Result<
    LiveTextOperation,
    String,
>)
    ensures
        agrees(result, |operation: LiveTextOperation| operation@, operation_of(payload@)),
{
    let event = match payload.get("event") {
        Some(event) => event,
        None => {
            return Err("live text payload is missing event".to_owned());
        },
    };
    let kind = match event.get_text("type") {
        Some(kind) => kind,
        None => {
            return Err("live text payload is missing event.type".to_owned());
        },
    };
    let body = match event.get("payload") {
        Some(body) => body,
        None => {
            return Err("live text payload is missing event.payload".to_owned());
        },
    };
    if text_equals(kind.as_str(), "ModelTextDelta") {
        match body.get_text("delta") {
            Some(text) => Ok(LiveTextOperation::Append(text.clone())),
            None => Err("ModelTextDelta is missing payload.delta".to_owned()),
        }
    } else if text_equals(kind.as_str(), "ModelTextReplace") {
        match body.get_text("content") {
            Some(text) => Ok(LiveTextOperation::Replace(text.clone())),
            None => Err("ModelTextReplace is missing payload.content".to_owned()),
        }
    } else {
        Err(concat2("unsupported live text event type: ", kind.as_str()))
    }
}

/// A payload with another text that the model has written.
pub open spec fn with_delta(payload: JsonView, text: Seq<char>) -> JsonView {
    let event = field(payload, "event"@)->0;
    let body = field(event, "payload"@)->0;
    with_field(
        payload,
        "event"@,
        with_field(event, "payload"@, with_field(body, "delta"@, JsonView::Text(text))),
    )
}

/// How far the gathering of the text has come.
pub struct LiveTextView {
    pub session_id: Seq<char>,
    pub turn_id: Seq<char>,
    pub agent_run_id: Seq<char>,
    /// The changes that are not in the journal yet.
    pub operations: Seq<OperationView>,
    /// The payloads that were not handed on yet.
    pub payloads: Seq<JsonView>,
    pub content: Seq<char>,
    pub last_flush: Option<u64>,
}

/// Whether every payload that was not handed on tells of a change, and there is none without a
/// change that is not in the journal.
pub open spec fn gathered(view: LiveTextView) -> bool {
    &&& forall|i: int|
        0 <= i < view.payloads.len() ==> operation_of(#[trigger] view.payloads[i]) is Ok
    &&& view.operations.len() == 0 ==> view.payloads.len() == 0
}

/// The changes that are not in the journal after one more: text that is added is joined to text
/// that was added before, and a replacement makes all others moot.
pub open spec fn joined_operations(
    operations: Seq<OperationView>,
    operation: OperationView,
) -> Seq<OperationView> {
    match operation {
        OperationView::Append(text) => if operations.len() > 0 && operations[operations.len()
            - 1] is Append {
            operations.update(
                operations.len() - 1,
                OperationView::Append(operations[operations.len() - 1]->Append_0 + text),
            )
        } else {
            operations.push(operation)
        },
        OperationView::Replace(_) => seq![operation],
    }
}

/// The payloads that were not handed on after one more.
pub open spec fn joined_payloads(
    payloads: Seq<JsonView>,
    payload: JsonView,
    operation: OperationView,
) -> Seq<JsonView> {
    match operation {
        OperationView::Append(text) => if payloads.len() > 0 && event_type(
            payloads[payloads.len() - 1],
        ) == Some("ModelTextDelta"@) {
            let last = payloads[payloads.len() - 1];
            payloads.update(
                payloads.len() - 1,
                with_delta(last, operation_of(last)->Ok_0->Append_0 + text),
            )
        } else {
            payloads.push(payload)
        },
        OperationView::Replace(_) => seq![payload],
    }
}

/// The gathering after one more payload.
pub open spec fn pushed(view: LiveTextView, payload: JsonView) -> Result<LiveTextView, Seq<char>> {
    match operation_of(payload) {
        Err(error) => Err(error),
        Ok(operation) => Ok(
            LiveTextView {
                operations: joined_operations(view.operations, operation),
                payloads: joined_payloads(view.payloads, payload, operation),
                content: changed(view.content, operation),
                ..view
            },
        ),
    }
}

/// The changes that payloads tell of.
pub open spec fn operations_of(payloads: Seq<JsonView>) -> Seq<OperationView> {
    Seq::new(payloads.len(), |i: int| operation_of(payloads[i])->Ok_0)
}

proof fn lemma_with_delta(payload: JsonView, text: Seq<char>)
    requires
        operation_of(payload) is Ok,
        operation_of(payload)->Ok_0 is Append,
    ensures
        operation_of(with_delta(payload, text)) == Ok::<OperationView, Seq<char>>(
            OperationView::Append(text),
        ),
{
    reveal_strlit("event");
    reveal_strlit("type");
    reveal_strlit("payload");
    reveal_strlit("delta");
    reveal_strlit("ModelTextDelta");
    reveal_strlit("ModelTextReplace");
    let event = field(payload, "event"@)->0;
    let body = field(event, "payload"@)->0;
    let new_body = with_field(body, "delta"@, JsonView::Text(text));
    let new_event = with_field(event, "payload"@, new_body);
    lemma_with_entry_read(body->Object_0, "delta"@, JsonView::Text(text));
    lemma_with_entry_read(event->Object_0, "payload"@, new_body);
    lemma_with_entry_other(event->Object_0, "payload"@, new_body, "type"@);
    lemma_with_entry_read(payload->Object_0, "event"@, new_event);
}

proof fn lemma_delta_appends(payload: JsonView)
    requires
        operation_of(payload) is Ok,
    ensures
        event_type(payload) == Some("ModelTextDelta"@) <==> operation_of(payload)->Ok_0 is Append,
{
    reveal_strlit("ModelTextDelta");
    reveal_strlit("ModelTextReplace");
}

/// Gathering loses nothing: whatever text the changes start from, the changes that are not in the
/// journal make of it what they and the new change would have made of it, and so do the payloads
/// that were not handed on; and the text is changed at once.
pub proof fn law_gathering_is_lossless(view: LiveTextView, payload: JsonView, text: Seq<char>)
    requires
        gathered(view),
        operation_of(payload) is Ok,
    ensures
        ({
            let operation = operation_of(payload)->Ok_0;
            let after = pushed(view, payload)->Ok_0;
            &&& gathered(after)
            &&& replayed(text, after.operations) == changed(
                replayed(text, view.operations),
                operation,
            )
            &&& replayed(text, operations_of(after.payloads)) == changed(
                replayed(text, operations_of(view.payloads)),
                operation,
            )
            &&& after.content == changed(view.content, operation)
        }),
{
    let operation = operation_of(payload)->Ok_0;
    let after = pushed(view, payload)->Ok_0;
    lemma_joined(view.operations, operation, text);
    match operation {
        OperationView::Append(more) => {
            if view.payloads.len() > 0 && event_type(view.payloads[view.payloads.len() - 1])
                == Some("ModelTextDelta"@) {
                let last = view.payloads[view.payloads.len() - 1];
                lemma_delta_appends(last);
                let joined = operation_of(last)->Ok_0->Append_0 + more;
                lemma_with_delta(last, joined);
                assert(operations_of(after.payloads) =~= joined_operations(
                    operations_of(view.payloads),
                    operation,
                ));
                assert forall|i: int| 0 <= i < after.payloads.len() implies operation_of(
                    #[trigger] after.payloads[i],
                ) is Ok by {
                    if i < after.payloads.len() - 1 {
                        assert(after.payloads[i] == view.payloads[i]);
                    }
                }
                lemma_joined(operations_of(view.payloads), operation, text);
            } else {
                let before = operations_of(view.payloads);
                let now = operations_of(after.payloads);
                assert(now =~= before.push(operation));
                assert(now.subrange(0, now.len() - 1) =~= before);
                assert forall|i: int| 0 <= i < after.payloads.len() implies operation_of(
                    #[trigger] after.payloads[i],
                ) is Ok by {
                    if i < after.payloads.len() - 1 {
                        assert(after.payloads[i] == view.payloads[i]);
                    }
                }
            }
        },
        OperationView::Replace(_) => {
            let now = operations_of(after.payloads);
            assert(now =~= seq![operation]);
            assert(now.subrange(0, 0) =~= Seq::empty());
        },
    }
}

proof fn lemma_joined(operations: Seq<OperationView>, operation: OperationView, text: Seq<char>)
    ensures
        replayed(text, joined_operations(operations, operation)) == changed(
            replayed(text, operations),
            operation,
        ),
{
    let after = joined_operations(operations, operation);
    match operation {
        OperationView::Append(more) => {
            let n = operations.len() - 1;
            if operations.len() > 0 && operations[n] is Append {
                assert(after.subrange(0, n) =~= operations.subrange(0, n));
                let base = replayed(text, operations.subrange(0, n));
                let last = operations[n]->Append_0;
                assert(base + (last + more) =~= (base + last) + more);
            } else {
                assert(after.subrange(0, after.len() - 1) =~= operations);
            }
        },
        OperationView::Replace(_) => {
            assert(after.subrange(0, 0) =~= Seq::empty());
            assert(after.len() == 1);
        },
    }
}

/// Replaying what is in the journal and then what is not gives the same as replaying all of it.
pub proof fn law_journal_replays(
    text: Seq<char>,
    journal: Seq<OperationView>,
    pending: Seq<OperationView>,
)
    ensures
        replayed(text, journal + pending) == replayed(replayed(text, journal), pending),
    decreases pending.len(),
{
    if pending.len() == 0 {
        assert(journal + pending =~= journal);
    } else {
        let n = pending.len() - 1;
        let all = journal + pending;
        law_journal_replays(text, journal, pending.subrange(0, n));
        assert(all.subrange(0, all.len() - 1) =~= journal + pending.subrange(0, n));
        assert(all[all.len() - 1] == pending[n]);
    }
}

/// The gathering of the text of one run.
#[derive(Debug)]
pub struct LiveTextAccumulator {
    pub session_id: String,
    pub turn_id: String,
    pub agent_run_id: String,
    pub pending_operations: Vec<LiveTextOperation>,
    pub pending_payloads: Vec<Json>,
    pub content: String,
    /// When the journal was last written, in milliseconds.
    pub last_flush: Option<u64>,
}

impl LiveTextAccumulator {
    pub open spec fn view(&self) -> LiveTextView {
        LiveTextView {
            session_id: self.session_id@,
            turn_id: self.turn_id@,
            agent_run_id: self.agent_run_id@,
            operations: operation_views(self.pending_operations@),
            payloads: json_views(self.pending_payloads@),
            content: self.content@,
            last_flush: self.last_flush,
        }
    }

    pub fn new(session_id: String, turn_id: String, agent_run_id: String) -> (result:
        LiveTextAccumulator)
        ensures
            result.view() == (LiveTextView {
                session_id: session_id@,
                turn_id: turn_id@,
                agent_run_id: agent_run_id@,
                operations: Seq::empty(),
                payloads: Seq::empty(),
                content: Seq::empty(),
                last_flush: None,
            }),
            gathered(result.view()),
    {
        let result = LiveTextAccumulator {
            session_id,
            turn_id,
            agent_run_id,
            pending_operations: Vec::new(),
            pending_payloads: Vec::new(),
            content: String::new(),
            last_flush: None,
        };
        assert(operation_views(result.pending_operations@) =~= Seq::empty());
        assert(json_views(result.pending_payloads@) =~= Seq::empty());
        result
    }

    /// Takes one more payload.
    pub fn push(&mut self, payload: Json) -> (result: Result<(), String>)
        requires
            gathered(old(self).view()),
        ensures
            gathered(final(self).view()),
            match result {
                Ok(_) => pushed(old(self).view(), payload@) == Ok::<LiveTextView, Seq<char>>(
                    final(self).view(),
                ),
                Err(message) => *final(self) == *old(self) && pushed(old(self).view(), payload@)
                    == Err::<LiveTextView, Seq<char>>(message@),
            },
    {
        let ghost before = self.view();
        let operation = match live_text_operation_from_payload(&payload) {
            Ok(operation) => operation,
            Err(error) => {
                return Err(error);
            },
        };
        proof {
            law_gathering_is_lossless(before, payload@, Seq::empty());
        }
        match operation {
            LiveTextOperation::Append(text) => {
                self.content.append(text.as_str());
                self.join_operation(text.as_str());
                self.join_payload(payload, text.as_str());
            },
            LiveTextOperation::Replace(text) => {
                self.content = text.clone();
                let mut operations: Vec<LiveTextOperation> = Vec::new();
                operations.push(LiveTextOperation::Replace(text));
                assert(operation_views(operations@) =~= seq![OperationView::Replace(text@)]);
                let mut payloads: Vec<Json> = Vec::new();
                let ghost payload_view = payload@;
                payloads.push(payload);
                assert(json_views(payloads@) =~= seq![payload_view]);
                self.pending_operations = operations;
                self.pending_payloads = payloads;
            },
        }
        Ok(())
    }

    fn join_operation(&mut self, text: &str)
        ensures
            operation_views(final(self).pending_operations@) == joined_operations(
                operation_views(old(self).pending_operations@),
                OperationView::Append(text@),
            ),
            final(self).pending_payloads == old(self).pending_payloads,
            final(self).content == old(self).content,
            final(self).turn_id == old(self).turn_id,
            final(self).last_flush == old(self).last_flush,
            final(self).session_id == old(self).session_id,
            final(self).agent_run_id == old(self).agent_run_id,
    {
        let ghost before = operation_views(self.pending_operations@);
        let n: usize = self.pending_operations.len();
        let joined: Option<String> = if n > 0 {
            match &self.pending_operations[n - 1] {
                LiveTextOperation::Append(pending) => Some(concat2(pending.as_str(), text)),
                LiveTextOperation::Replace(_) => None,
            }
        } else {
            None
        };
        match joined {
            Some(all) => {
                assert(before[n - 1] == self.pending_operations@[n - 1]@);
                self.pending_operations.set(n - 1, LiveTextOperation::Append(all));
                assert(operation_views(self.pending_operations@) =~= before.update(
                    n - 1,
                    OperationView::Append(all@),
                ));
            },
            None => {
                proof {
                    if n > 0 {
                        assert(before[n - 1] == self.pending_operations@[n - 1]@);
                    }
                }
                self.pending_operations.push(LiveTextOperation::Append(text.to_owned()));
                assert(operation_views(self.pending_operations@) =~= before.push(
                    OperationView::Append(text@),
                ));
            },
        }
    }

    fn join_payload(&mut self, payload: Json, text: &str)
        requires
            forall|i: int|
                0 <= i < old(self).pending_payloads@.len() ==> operation_of(
                    (#[trigger] json_views(old(self).pending_payloads@)[i]),
                ) is Ok,
        ensures
            json_views(final(self).pending_payloads@) == joined_payloads(
                json_views(old(self).pending_payloads@),
                payload@,
                OperationView::Append(text@),
            ),
            final(self).pending_operations == old(self).pending_operations,
            final(self).content == old(self).content,
            final(self).turn_id == old(self).turn_id,
            final(self).last_flush == old(self).last_flush,
            final(self).session_id == old(self).session_id,
            final(self).agent_run_id == old(self).agent_run_id,
    {
        let ghost before = json_views(self.pending_payloads@);
        let ghost payload_view = payload@;
        let n: usize = self.pending_payloads.len();
        let merged: Option<Json> = if n > 0 {
            assert(before[n - 1] == self.pending_payloads@[n - 1]@);
            merge_delta(&self.pending_payloads[n - 1], text)
        } else {
            None
        };
        match merged {
            Some(last) => {
                let ghost last_view = last@;
                self.pending_payloads.set(n - 1, last);
                assert(json_views(self.pending_payloads@) =~= before.update(n - 1, last_view));
            },
            None => {
                self.pending_payloads.push(payload);
                assert(json_views(self.pending_payloads@) =~= before.push(payload_view));
            },
        }
    }

    /// Whether the journal is due to be written.
    pub fn flush_due(&self, now: u64) -> (result: bool)
        ensures
            result == (match self.last_flush {
                None => true,
                Some(at) => now - at >= LIVE_TEXT_FLUSH_INTERVAL_MS,
            }),
    {
        match self.last_flush {
            None => true,
            Some(at) => now >= at && now - at >= LIVE_TEXT_FLUSH_INTERVAL_MS,
        }
    }

    /// Whether there are changes that are not in the journal.
    pub fn has_pending(&self) -> (result: bool)
        ensures
            result == (self.view().operations.len() > 0),
    {
        self.pending_operations.len() > 0
    }

    /// Takes the payloads that are handed on once the changes are in the journal.
    pub fn flushed(&mut self, now: u64) -> (result: Vec<Json>)
        requires
            gathered(old(self).view()),
        ensures
            gathered(final(self).view()),
            json_views(result@) == old(self).view().payloads,
            final(self).view() == (LiveTextView {
                operations: Seq::empty(),
                payloads: Seq::empty(),
                last_flush: if old(self).view().operations.len() > 0 {
                    Some(now)
                } else {
                    old(self).view().last_flush
                },
                ..old(self).view()
            }),
    {
        if self.pending_operations.len() == 0 {
            assert(operation_views(self.pending_operations@) =~= Seq::empty());
            assert(json_views(self.pending_payloads@) =~= Seq::empty());
            let none: Vec<Json> = Vec::new();
            assert(json_views(none@) =~= Seq::empty());
            return none;
        }
        let mut payloads: Vec<Json> = Vec::new();
        std::mem::swap(&mut payloads, &mut self.pending_payloads);
        self.pending_operations = Vec::new();
        self.last_flush = Some(now);
        assert(operation_views(self.pending_operations@) =~= Seq::empty());
        assert(json_views(self.pending_payloads@) =~= Seq::empty());
        payloads
    }

    /// What the start of a request to the model means: nothing where it is the turn's own, and
    /// else the turn that begins once the journal was written and closed.
    pub fn model_request(&self, turn_id: &str, initial_content: &str) -> (result: Result<
        Option<String>,
        String,
    >)
        ensures
            agrees(
                result,
                |turn: Option<String>| crate::text::optional_text(turn),
                model_request_turn(self.view(), turn_id@, initial_content@),
            ),
    {
        let turn_id = match required_string(turn_id, "turnId") {
            Ok(turn_id) => turn_id,
            Err(error) => {
                return Err(error);
            },
        };
        if text_equals(self.turn_id.as_str(), turn_id.as_str()) {
            if !text_equals(self.content.as_str(), initial_content) {
                return Err("duplicate model request start changed initialContent".to_owned());
            }
            return Ok(None);
        }
        Ok(Some(turn_id))
    }

    /// Begins a turn with the text that it is to go on from.
    pub fn begin_turn(&mut self, turn_id: String, initial_content: &str)
        requires
            gathered(old(self).view()),
            old(self).view().operations.len() == 0,
        ensures
            gathered(final(self).view()),
            final(self).view() == begun(old(self).view(), turn_id@, initial_content@),
    {
        self.turn_id = turn_id;
        self.content = initial_content.to_owned();
        let mut operations: Vec<LiveTextOperation> = Vec::new();
        if !initial_content.is_empty() {
            operations.push(LiveTextOperation::Replace(initial_content.to_owned()));
            assert(operation_views(operations@) =~= seq![OperationView::Replace(initial_content@)]);
        } else {
            assert(operation_views(operations@) =~= Seq::empty());
        }
        self.pending_operations = operations;
        self.last_flush = None;
        assert(json_views(self.pending_payloads@) =~= Seq::empty());
    }
}

/// What the start of a request to the model means.
pub open spec fn model_request_turn(
    view: LiveTextView,
    turn_id: Seq<char>,
    initial_content: Seq<char>,
) -> Result<Option<Seq<char>>, Seq<char>> {
    match required(turn_id, "turnId"@) {
        Err(error) => Err(error),
        Ok(turn_id) => if view.turn_id == turn_id {
            if view.content != initial_content {
                Err("duplicate model request start changed initialContent"@)
            } else {
                Ok(None)
            }
        } else {
            Ok(Some(turn_id))
        },
    }
}

/// The gathering of a run at the beginning of a turn.
pub open spec fn begun(
    view: LiveTextView,
    turn_id: Seq<char>,
    initial_content: Seq<char>,
) -> LiveTextView {
    LiveTextView {
        turn_id,
        operations: if initial_content.len() > 0 {
            seq![OperationView::Replace(initial_content)]
        } else {
            Seq::empty()
        },
        payloads: Seq::empty(),
        content: initial_content,
        last_flush: None,
        ..view
    }
}

/// A turn's changes, replayed from nothing, give its text: at its beginning, and then after every
/// payload, whatever of them is in the journal.
pub proof fn law_turn_replays_to_content(
    turn_id: Seq<char>,
    initial_content: Seq<char>,
    view: LiveTextView,
    journal: Seq<OperationView>,
    payload: JsonView,
)
    requires
        gathered(view),
        operation_of(payload) is Ok,
        replayed(Seq::empty(), journal + view.operations) == view.content,
    ensures
        replayed(Seq::empty(), begun(view, turn_id, initial_content).operations) == initial_content,
        ({
            let after = pushed(view, payload)->Ok_0;
            replayed(Seq::empty(), journal + after.operations) == after.content
        }),
        replayed(Seq::empty(), (journal + view.operations) + Seq::<OperationView>::empty())
            == view.content,
{
    let start = begun(view, turn_id, initial_content).operations;
    if initial_content.len() > 0 {
        assert(start.subrange(0, 0) =~= Seq::empty());
    } else {
        assert(initial_content =~= Seq::empty());
    }
    let after = pushed(view, payload)->Ok_0;
    let base = replayed(Seq::empty(), journal);
    law_journal_replays(Seq::empty(), journal, view.operations);
    law_journal_replays(Seq::empty(), journal, after.operations);
    law_gathering_is_lossless(view, payload, base);
    assert((journal + view.operations) + Seq::<OperationView>::empty() =~= journal
        + view.operations);
}

/// A payload that tells that the model has written more, with `text` added to what it tells; or
/// nothing for any other payload.
fn merge_delta(last: &Json, text: &str) -> (result: Option<Json>)
    requires
        operation_of(last@) is Ok,
    ensures
        match result {
            Some(merged) => event_type(last@) == Some("ModelTextDelta"@) && merged@ == with_delta(
                last@,
                operation_of(last@)->Ok_0->Append_0 + text@,
            ),
            None => event_type(last@) != Some("ModelTextDelta"@),
        },
{
    if !is_model_text_delta_payload(last) {
        return None;
    }
    match last.get("event") {
        Some(event) => match event.get("payload") {
            Some(body) => match body.get_text("delta") {
                Some(pending) => {
                    let joined = concat2(pending.as_str(), text);
                    let new_body = body.replacing("delta", text_json(joined.as_str()));
                    let new_event = event.replacing("payload", new_body);
                    Some(last.replacing("event", new_event))
                },
                None => None,
            },
            None => None,
        },
        None => None,
    }
}

/// A payload changes the text exactly where its event is a delta with the text that is added, or a
/// replacement with the text that takes the place of all.
pub proof fn law_payloads_change_the_text_as_they_say(payload: JsonView, operation: LiveTextOperation)
    ensures
        operation_of(payload) is Ok <==> (field(payload, "event"@) matches Some(event) && (field(
            event,
            "payload"@,
        ) matches Some(body) && ((text_field(event, "type"@) == Some("ModelTextDelta"@)
            && text_field(body, "delta"@) is Some) || (text_field(event, "type"@) == Some(
            "ModelTextReplace"@,
        ) && text_field(body, "content"@) is Some)))),
        operation_of(payload) == Ok::<OperationView, Seq<char>>(operation@) ==> match operation {
            LiveTextOperation::Append(text) => text_field(
                field(field(payload, "event"@)->0, "payload"@)->0,
                "delta"@,
            ) == Some(text@) && text_field(field(payload, "event"@)->0, "type"@) == Some(
                "ModelTextDelta"@,
            ),
            LiveTextOperation::Replace(text) => text_field(
                field(field(payload, "event"@)->0, "payload"@)->0,
                "content"@,
            ) == Some(text@) && text_field(field(payload, "event"@)->0, "type"@) == Some(
                "ModelTextReplace"@,
            ),
        },
{
    reveal_strlit("ModelTextDelta");
    reveal_strlit("ModelTextReplace");
    assert("ModelTextDelta"@[9] == 'D' && "ModelTextReplace"@[9] == 'R');
}

/// What the text of a turn is after its changes: what was added stands behind what was there, and a
/// replacement leaves nothing of it.
pub proof fn law_text_grows_or_is_replaced(text: Seq<char>, operations: Seq<OperationView>, more: Seq<char>)
    ensures
        replayed(text, Seq::empty()) == text,
        replayed(text, operations.push(OperationView::Append(more))) == replayed(text, operations)
            + more,
        replayed(text, operations.push(OperationView::Replace(more))) == more,
{
    let added = operations.push(OperationView::Append(more));
    let replaced = operations.push(OperationView::Replace(more));
    assert(added.subrange(0, added.len() - 1) =~= operations);
    assert(replaced.subrange(0, replaced.len() - 1) =~= operations);
}

/// A request of another turn begins its text anew, in the turn that it names; a request of the turn
/// that is under way changes nothing, and is refused where it goes on from another text.
pub proof fn law_requests_begin_their_turn(
    view: LiveTextView,
    turn: Seq<char>,
    initial: Seq<char>,
)
    ensures
        model_request_turn(view, turn, initial) == Ok::<Option<Seq<char>>, Seq<char>>(None) <==> !blank(
            turn,
        ) && view.turn_id == trimmed(turn) && view.content == initial,
        !blank(turn) && view.turn_id != trimmed(turn) ==> model_request_turn(view, turn, initial)
            == Ok::<Option<Seq<char>>, Seq<char>>(Some(trimmed(turn))),
        model_request_turn(view, turn, initial) is Err <==> blank(turn) || (view.turn_id == trimmed(
            turn,
        ) && view.content != initial),
        begun(view, turn, initial).content == initial,
        begun(view, turn, initial).turn_id == turn,
        begun(view, turn, initial).session_id == view.session_id,
        begun(view, turn, initial).agent_run_id == view.agent_run_id,
        begun(view, turn, initial).payloads.len() == 0,
        begun(view, turn, initial).last_flush is None,
{
    law_trimming_takes_off_the_whitespace_around(turn);
}

} // verus!
