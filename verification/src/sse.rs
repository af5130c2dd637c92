//! Decoding of server-sent events from the byte chunks of a model response.

use crate::json::{json_text, object1, write_json, Json, JsonView};
use crate::text::{
    after_prefix, begins_with, concat2, join, joined, law_joined_texts_are_separated,
    law_texts_split_at_the_first_mark, split_at_first, split_once, starts_with, strip_prefix,
    text_equals, texts,
};
use vstd::prelude::*;
use vstd::utf8::{
    char_is_scalar, char_u32_cast, decode_utf8, encode_scalar, encode_utf8, encode_utf8_decode_utf8,
    encode_utf8_valid_utf8, has_width_1_encoding, has_width_2_encoding, has_width_3_encoding,
    last_continuation_byte, leading_byte_width_1, leading_byte_width_2, leading_byte_width_3,
    leading_byte_width_4, second_last_continuation_byte, third_last_continuation_byte, valid_utf8,
};

verus! {

/// What a stream of server-sent events tells its reader.
#[derive(Debug)]
pub enum SseEvent {
    /// The provider keeps the connection alive.
    Waiting,
    /// The data of a complete event.
    Data(String),
}

pub enum SseEventView {
    Waiting,
    Data(Seq<char>),
}

impl View for SseEvent {
    type V = SseEventView;

    open spec fn view(&self) -> SseEventView {
        match self {
            SseEvent::Waiting => SseEventView::Waiting,
            SseEvent::Data(data) => SseEventView::Data(data@),
        }
    }
}

pub open spec fn event_views(events: Seq<SseEvent>) -> Seq<SseEventView> {
    Seq::new(events.len(), |i: int| events[i]@)
}

/// The chunk that an event is handed on as; `waiting_type` is the type of the chunk for a
/// provider that keeps the connection alive.
pub open spec fn event_chunk(event: SseEventView, waiting_type: Seq<char>) -> Seq<char> {
    match event {
        SseEventView::Waiting => json_text(
            JsonView::Object(seq![("type"@, JsonView::Text(waiting_type))]),
        ),
        SseEventView::Data(data) => data,
    }
}

impl SseEvent {
    /// The chunk that the event is handed on as.
    pub fn chunk(self, waiting_type: &str) -> (result: String)
        ensures
            result@ == event_chunk(self@, waiting_type@),
    {
        match self {
            SseEvent::Waiting => write_json(
                &object1("type", Json::Text(waiting_type.to_owned())),
            ),
            SseEvent::Data(data) => data,
        }
    }
}

/// The message of the error that `std::str::from_utf8` gives for bytes that are not UTF-8.
pub uninterp spec fn utf8_error(bytes: Seq<u8>) -> Seq<char>;

/// Reads bytes as text with `std::str::from_utf8`: the text where the bytes are UTF-8, and the
/// message of its error, named by `utf8_error`, where they are not.
#[verifier::external_body]
pub(crate) fn utf8_text(bytes: &[u8]) -> (result: Result<String, String>)
    ensures
        match result {
            Ok(text) => valid_utf8(bytes@) && text@ == decode_utf8(bytes@),
            Err(message) => !valid_utf8(bytes@) && message@ == utf8_error(bytes@),
        },
{
    match std::str::from_utf8(bytes) {
        Ok(text) => Ok(text.to_owned()),
        Err(error) => Err(error.to_string()),
    }
}

/// Whether a byte ends a line.
pub open spec fn line_break(byte: u8) -> bool {
    byte == 13 || byte == 10
}

/// The index of the first byte that ends a line, or the number of bytes where none does.
pub open spec fn first_break(bytes: Seq<u8>) -> int
    decreases bytes.len(),
{
    if bytes.len() == 0 || line_break(bytes[0]) {
        0
    } else {
        1 + first_break(bytes.subrange(1, bytes.len() as int))
    }
}

proof fn lemma_first_break(bytes: Seq<u8>, at: int)
    requires
        0 <= at <= bytes.len(),
        at < bytes.len() ==> line_break(bytes[at]),
        forall|j: int| 0 <= j < at ==> !line_break(#[trigger] bytes[j]),
    ensures
        first_break(bytes) == at,
    decreases bytes.len(),
{
    if bytes.len() > 0 && at > 0 {
        let rest = bytes.subrange(1, bytes.len() as int);
        assert(!line_break(bytes[0]));
        assert forall|j: int| 0 <= j < at - 1 implies !line_break(#[trigger] rest[j]) by {
            assert(!line_break(bytes[j + 1]));
        }
        lemma_first_break(rest, at - 1);
    }
}

proof fn lemma_break_found(bytes: Seq<u8>)
    ensures
        0 <= first_break(bytes) <= bytes.len(),
        first_break(bytes) < bytes.len() ==> line_break(bytes[first_break(bytes)]),
        forall|j: int| 0 <= j < first_break(bytes) ==> !line_break(#[trigger] bytes[j]),
    decreases bytes.len(),
{
    if bytes.len() > 0 && !line_break(bytes[0]) {
        let rest = bytes.subrange(1, bytes.len() as int);
        lemma_break_found(rest);
        assert forall|j: int| 0 <= j < first_break(bytes) implies !line_break(
            #[trigger] bytes[j],
        ) by {
            if j > 0 {
                assert(!line_break(rest[j - 1]));
            }
        }
    }
}

/// The effect of one line on the data of the event that is being read: the data lines after it
/// and what it tells the reader.
pub open spec fn line_effect(line: Seq<u8>, lines: Seq<Seq<char>>) -> Result<
    (Seq<Seq<char>>, Seq<SseEventView>),
    Seq<char>,
> {
    if !valid_utf8(line) {
        Err("SSE event contains invalid UTF-8: "@ + utf8_error(line))
    } else {
        let text = decode_utf8(line);
        if text.len() == 0 {
            let data = joined(lines, "\n"@);
            Ok(
                (
                    Seq::empty(),
                    if data.len() == 0 || data == "[DONE]"@ {
                        Seq::empty()
                    } else {
                        seq![SseEventView::Data(data)]
                    },
                ),
            )
        } else if begins_with(text, ":"@) {
            Ok((lines, seq![SseEventView::Waiting]))
        } else {
            let (name, value) = match split_at_first(text, ':') {
                Some(parts) => parts,
                None => (text, Seq::empty()),
            };
            if name == "data"@ {
                Ok(
                    (
                        lines.push(
                            match after_prefix(value, " "@) {
                                Some(rest) => rest,
                                None => value,
                            },
                        ),
                        Seq::empty(),
                    ),
                )
            } else {
                Ok((lines, Seq::empty()))
            }
        }
    }
}

/// The state of a decoder after it has read complete lines, what it told the reader on the way,
/// and the error that stopped it.
pub struct DrainView {
    pub pending: Seq<u8>,
    pub lines: Seq<Seq<char>>,
    pub events: Seq<SseEventView>,
    pub error: Option<Seq<char>>,
}

/// The number of bytes that end the line at `at`: two for a carriage return and a line feed.
pub open spec fn break_length(bytes: Seq<u8>, at: int) -> int {
    if bytes[at] == 13 && at + 1 < bytes.len() && bytes[at + 1] == 10 {
        2
    } else {
        1
    }
}

/// Whether a complete line stands at the front of `pending`. A carriage return at the very end
/// may be half of a line end, unless the stream has ended.
pub open spec fn line_is_complete(pending: Seq<u8>, end_of_stream: bool) -> bool {
    let at = first_break(pending);
    at < pending.len() && (end_of_stream || !(pending[at] == 13 && at + 1 == pending.len()))
}

/// Reads the complete lines at the front of `pending`.
pub open spec fn drained(
    pending: Seq<u8>,
    lines: Seq<Seq<char>>,
    end_of_stream: bool,
) -> DrainView
    decreases pending.len(),
    via drained_decreases
{
    let at = first_break(pending);
    if !line_is_complete(pending, end_of_stream) {
        DrainView { pending, lines, events: Seq::empty(), error: None }
    } else {
        let rest = pending.subrange(at + break_length(pending, at), pending.len() as int);
        match line_effect(pending.subrange(0, at), lines) {
            Err(message) => DrainView {
                pending: rest,
                lines,
                events: Seq::empty(),
                error: Some(message),
            },
            Ok((next_lines, events)) => {
                let after = drained(rest, next_lines, end_of_stream);
                DrainView { events: events + after.events, ..after }
            },
        }
    }
}

#[via_fn]
proof fn drained_decreases(pending: Seq<u8>, lines: Seq<Seq<char>>, end_of_stream: bool) {
    lemma_break_found(pending);
}

/// Reads a chunk: the bytes that are pending and the chunk's, as far as lines are complete.
pub open spec fn pushed(pending: Seq<u8>, lines: Seq<Seq<char>>, chunk: Seq<u8>) -> DrainView {
    drained(pending + chunk, lines, false)
}

/// Splitting a chunk in two changes nothing: reading the parts one after the other tells the
/// reader the same and leaves the same state, or stops at the same line with the same error.
pub proof fn law_chunks_are_lossless(
    pending: Seq<u8>,
    lines: Seq<Seq<char>>,
    first: Seq<u8>,
    second: Seq<u8>,
)
    ensures
        ({
            let whole = pushed(pending, lines, first + second);
            let one = pushed(pending, lines, first);
            if one.error is Some {
                whole.error == one.error && whole.events == one.events && whole.lines == one.lines
            } else {
                let two = pushed(one.pending, one.lines, second);
                whole == DrainView { events: one.events + two.events, ..two }
            }
        }),
{
    assert(pending + (first + second) =~= (pending + first) + second);
    lemma_drain_extended(pending + first, lines, second);
}

proof fn lemma_drain_extended(pending: Seq<u8>, lines: Seq<Seq<char>>, more: Seq<u8>)
    ensures
        ({
            let whole = drained(pending + more, lines, false);
            let one = drained(pending, lines, false);
            if one.error is Some {
                whole.error == one.error && whole.events == one.events && whole.lines == one.lines
            } else {
                let two = drained(one.pending + more, one.lines, false);
                whole == DrainView { events: one.events + two.events, ..two }
            }
        }),
    decreases pending.len(),
{
    lemma_break_found(pending);
    let at = first_break(pending);
    let all = pending + more;
    if line_is_complete(pending, false) {
        assert forall|j: int| 0 <= j < at implies !line_break(#[trigger] all[j]) by {
            assert(!line_break(pending[j]));
        }
        lemma_first_break(all, at);
        let width = break_length(pending, at);
        assert(break_length(all, at) == width);
        let rest = pending.subrange(at + width, pending.len() as int);
        assert(all.subrange(0, at) =~= pending.subrange(0, at));
        assert(all.subrange(at + width, all.len() as int) =~= rest + more);
        assert(line_is_complete(all, false));
        match line_effect(pending.subrange(0, at), lines) {
            Err(message) => {},
            Ok((next_lines, events)) => {
                lemma_drain_extended(rest, next_lines, more);
                let inner = drained(rest, next_lines, false);
                if inner.error is None {
                    let two = drained(inner.pending + more, inner.lines, false);
                    assert(events + (inner.events + two.events) =~= (events + inner.events)
                        + two.events);
                }
            },
        }
    } else {
        let two = drained(all, lines, false);
        assert(Seq::<SseEventView>::empty() + two.events =~= two.events);
    }
}

/// The bytes of several chunks in a row.
pub open spec fn chunks_together(chunks: Seq<Seq<u8>>) -> Seq<u8>
    decreases chunks.len(),
{
    if chunks.len() == 0 {
        Seq::empty()
    } else {
        chunks_together(chunks.subrange(0, chunks.len() - 1)) + chunks[chunks.len() - 1]
    }
}

/// Reads several chunks one after the other, until one of them gives an error.
pub open spec fn pushed_all(chunks: Seq<Seq<u8>>) -> DrainView
    decreases chunks.len(),
{
    if chunks.len() == 0 {
        drained(Seq::empty(), Seq::empty(), false)
    } else {
        let before = pushed_all(chunks.subrange(0, chunks.len() - 1));
        if before.error is Some {
            before
        } else {
            let after = pushed(before.pending, before.lines, chunks[chunks.len() - 1]);
            DrainView { events: before.events + after.events, ..after }
        }
    }
}

/// However a stream is cut into chunks, its reader is told the same, and the same error stops it.
pub proof fn law_any_chunking_is_lossless(chunks: Seq<Seq<u8>>)
    ensures
        ({
            let whole = pushed(Seq::empty(), Seq::empty(), chunks_together(chunks));
            let parts = pushed_all(chunks);
            &&& whole.events == parts.events
            &&& whole.error == parts.error
            &&& parts.error is None ==> whole == parts
        }),
    decreases chunks.len(),
{
    let none = Seq::<u8>::empty();
    let no_lines = Seq::<Seq<char>>::empty();
    if chunks.len() == 0 {
        assert(none + chunks_together(chunks) =~= none);
    } else {
        let init = chunks.subrange(0, chunks.len() - 1);
        let last = chunks[chunks.len() - 1];
        law_any_chunking_is_lossless(init);
        law_chunks_are_lossless(none, no_lines, chunks_together(init), last);
    }
}

/// A decoder of server-sent events: the bytes of the line that is not complete yet, and the data
/// lines of the event that is not complete yet.
#[derive(Debug)]
pub struct SseDecoder {
    pub pending: Vec<u8>,
    pub data_lines: Vec<String>,
}

impl Default for SseDecoder {
    fn default() -> (result: SseDecoder)
        ensures
            result.pending@ == Seq::<u8>::empty(),
            texts(result.data_lines@) == Seq::<Seq<char>>::empty(),
    {
        let result = SseDecoder { pending: Vec::new(), data_lines: Vec::new() };
        assert(texts(result.data_lines@) =~= Seq::<Seq<char>>::empty());
        result
    }
}

impl SseDecoder {
    /// Whether a call that began with `before` and `events` pending left what `outcome` says.
    pub open spec fn reached(
        &self,
        outcome: DrainView,
        events_before: Seq<SseEventView>,
        events_after: Seq<SseEventView>,
        result: Result<(), String>,
    ) -> bool {
        &&& self.pending@ == outcome.pending
        &&& texts(self.data_lines@) == outcome.lines
        &&& events_after == events_before + outcome.events
        &&& match result {
            Ok(()) => outcome.error is None,
            Err(message) => outcome.error == Some(message@),
        }
    }

    /// Reads a chunk of bytes and appends what it tells the reader to `events`.
    pub fn push(&mut self, bytes: &[u8], events: &mut Vec<SseEvent>) -> (result: Result<(), String>)
        ensures
            final(self).reached(
                pushed(old(self).pending@, texts(old(self).data_lines@), bytes@),
                event_views(old(events)@),
                event_views(final(events)@),
                result,
            ),
    {
        let mut i: usize = 0;
        let ghost before = self.pending@;
        while i < bytes.len()
            invariant
                i <= bytes.len(),
                self.pending@ == before + bytes@.subrange(0, i as int),
                self.data_lines == old(self).data_lines,
            decreases bytes.len() - i,
        {
            self.pending.push(bytes[i]);
            i = i + 1;
            assert(self.pending@ =~= before + bytes@.subrange(0, i as int));
        }
        assert(bytes@.subrange(0, bytes@.len() as int) =~= bytes@);
        assert(self.pending@ =~= before + bytes@);
        self.drain(false, events)
    }

    /// Ends the stream. What is left must be complete.
    pub fn finish(&mut self, events: &mut Vec<SseEvent>) -> (result: Result<(), String>)
        ensures
            ({
                let outcome = drained(old(self).pending@, texts(old(self).data_lines@), true);
                &&& final(self).pending@ == outcome.pending
                &&& texts(final(self).data_lines@) == outcome.lines
                &&& event_views(final(events)@) == event_views(old(events)@) + outcome.events
                &&& match result {
                    Ok(()) => outcome.error is None && outcome.pending.len() == 0
                        && outcome.lines.len() == 0,
                    Err(message) => if outcome.error is Some {
                        outcome.error == Some(message@)
                    } else {
                        (outcome.pending.len() > 0 || outcome.lines.len() > 0) && message@
                            == "SSE stream ended with an incomplete event"@
                    },
                }
            }),
    {
        match self.drain(true, events) {
            Err(message) => Err(message),
            Ok(()) => if self.pending.len() == 0 && self.data_lines.len() == 0 {
                Ok(())
            } else {
                Err("SSE stream ended with an incomplete event".to_owned())
            },
        }
    }

    /// Reads the complete lines at the front of the pending bytes.
    pub fn drain(&mut self, end_of_stream: bool, events: &mut Vec<SseEvent>) -> (result: Result<
        (),
        String,
    >)
        ensures
            final(self).reached(
                drained(old(self).pending@, texts(old(self).data_lines@), end_of_stream),
                event_views(old(events)@),
                event_views(final(events)@),
                result,
            ),
    {
        let ghost start_events = event_views(events@);
        let ghost whole = drained(self.pending@, texts(self.data_lines@), end_of_stream);
        assert(start_events + Seq::<SseEventView>::empty() =~= start_events);
        assert(Seq::<SseEventView>::empty() + whole.events =~= whole.events);
        let ghost mut told = Seq::<SseEventView>::empty();
        loop
            invariant
                event_views(events@) == start_events + told,
                ({
                    let rest = drained(self.pending@, texts(self.data_lines@), end_of_stream);
                    whole == DrainView { events: told + rest.events, ..rest }
                }),
                start_events == event_views(old(events)@),
                whole == drained(old(self).pending@, texts(old(self).data_lines@), end_of_stream),
            decreases self.pending.len(),
        {
            let n: usize = self.pending.len();
            let mut index: usize = 0;
            while index < n && self.pending[index] != 13 && self.pending[index] != 10
                invariant
                    index <= n,
                    n == self.pending.len(),
                    forall|j: int| 0 <= j < index ==> !line_break(#[trigger] self.pending@[j]),
                decreases n - index,
            {
                index = index + 1;
            }
            proof {
                lemma_first_break(self.pending@, index as int);
            }
            if index == n || (self.pending[index] == 13 && index + 1 == n && !end_of_stream) {
                assert(told + Seq::<SseEventView>::empty() =~= told);
                return Ok(());
            }
            let width: usize = if self.pending[index] == 13 && index + 1 < n && self.pending[index
                + 1] == 10 {
                2
            } else {
                1
            };
            let ghost pending = self.pending@;
            let rest = self.pending.split_off(index + width);
            let mut line: Vec<u8> = Vec::new();
            std::mem::swap(&mut line, &mut self.pending);
            line.truncate(index);
            assert(line@ =~= pending.subrange(0, index as int));
            self.pending = rest;
            let ghost lines = texts(self.data_lines@);
            match self.process_line(line.as_slice(), events) {
                Err(message) => {
                    assert(told + Seq::<SseEventView>::empty() =~= told);
                    return Err(message);
                },
                Ok(()) => {
                    proof {
                        let (next_lines, added) = line_effect(line@, lines)->Ok_0;
                        let after = drained(self.pending@, next_lines, end_of_stream);
                        assert(start_events + (told + added) =~= (start_events + told) + added);
                        assert(told + (added + after.events) =~= (told + added) + after.events);
                        told = told + added;
                    }
                },
            }
        }
    }

    /// Takes one line in.
    pub fn process_line(&mut self, line: &[u8], events: &mut Vec<SseEvent>) -> (result: Result<
        (),
        String,
    >)
        ensures
            final(self).pending == old(self).pending,
            match line_effect(line@, texts(old(self).data_lines@)) {
                Err(message) => result matches Err(m) && m@ == message && final(self).data_lines
                    == old(self).data_lines && final(events)@ == old(events)@,
                Ok((lines, added)) => result is Ok && texts(final(self).data_lines@) == lines
                    && event_views(final(events)@) == event_views(old(events)@) + added,
            },
    {
        let ghost lines = texts(self.data_lines@);
        let ghost before = event_views(events@);
        assert(before + Seq::<SseEventView>::empty() =~= before);
        let text = match utf8_text(line) {
            Ok(text) => text,
            Err(message) => {
                return Err(concat2("SSE event contains invalid UTF-8: ", message.as_str()));
            },
        };
        proof {
            reveal_strlit("");
            assert(""@ =~= Seq::<char>::empty());
        }
        assert(text@.len() == 0 ==> text@ =~= ""@);
        if text_equals(text.as_str(), "") {
            let data = join(&self.data_lines, "\n");
            self.data_lines = Vec::new();
            assert(texts(self.data_lines@) =~= Seq::<Seq<char>>::empty());
            assert(data@.len() == 0 ==> data@ =~= ""@);
            if !text_equals(data.as_str(), "") && !text_equals(data.as_str(), "[DONE]") {
                let ghost event = SseEventView::Data(data@);
                events.push(SseEvent::Data(data));
                assert(event_views(events@) =~= before + seq![event]);
            }
            return Ok(());
        }
        if starts_with(text.as_str(), ":") {
            events.push(SseEvent::Waiting);
            assert(event_views(events@) =~= before + seq![SseEventView::Waiting]);
            return Ok(());
        }
        let (name, value) = match split_once(text.as_str(), ':') {
            Some((name, value)) => (name, value),
            None => (text.as_str(), ""),
        };
        if text_equals(name, "data") {
            let kept = match strip_prefix(value, " ") {
                Some(rest) => rest,
                None => value,
            };
            self.data_lines.push(kept.to_owned());
            assert(texts(self.data_lines@) =~= lines.push(kept@));
        }
        Ok(())
    }
}

/// Whether a text holds no character that ends a line.
pub open spec fn on_one_line(text: Seq<char>) -> bool {
    forall|i: int| 0 <= i < text.len() ==> (#[trigger] text[i]) != '\n' && text[i] != '\r'
}

/// Whether a text can be the name of a field: it says something, on one line and without a colon.
pub open spec fn names_field(name: Seq<char>) -> bool {
    name.len() > 0 && on_one_line(name) && forall|i: int|
        0 <= i < name.len() ==> (#[trigger] name[i]) != ':'
}

proof fn lemma_wide_bytes(c: u32)
    by (bit_vector)
    ensures
        c <= 0x7f ==> leading_byte_width_1(c) == c,
        leading_byte_width_2(c) >= 0x80,
        leading_byte_width_3(c) >= 0x80,
        leading_byte_width_4(c) >= 0x80,
        last_continuation_byte(c) >= 0x80,
        second_last_continuation_byte(c) >= 0x80,
        third_last_continuation_byte(c) >= 0x80,
{
}

proof fn lemma_encoded_on_one_line(text: Seq<char>)
    requires
        on_one_line(text),
    ensures
        forall|i: int| 0 <= i < encode_utf8(text).len() ==> !line_break(#[trigger] encode_utf8(text)[i]),
    decreases text.len(),
{
    if text.len() > 0 {
        let rest = text.drop_first();
        let c = text[0] as u32;
        assert forall|i: int| 0 <= i < rest.len() implies (#[trigger] rest[i]) != '\n' && rest[i]
            != '\r' by {
            assert(rest[i] == text[i + 1]);
        }
        lemma_encoded_on_one_line(rest);
        lemma_wide_bytes(c);
        char_is_scalar(text[0]);
        let first = encode_scalar(c);
        assert(text[0] != '\n' && text[0] != '\r');
        char_u32_cast(text[0], c);
        assert(c != 10 && c != 13);
        assert forall|i: int| 0 <= i < first.len() implies !line_break(#[trigger] first[i]) by {}
        let whole = encode_utf8(text);
        assert(whole == first + encode_utf8(rest));
        assert forall|i: int| 0 <= i < whole.len() implies !line_break(#[trigger] whole[i]) by {
            if i >= first.len() {
                assert(whole[i] == encode_utf8(rest)[i - first.len()]);
            } else {
                assert(whole[i] == first[i]);
            }
        }
    }
}

/// What a line means. Only a field of the name data adds a line to the data of an event, without
/// the one space that may stand behind the colon; a field of any other name changes nothing, with
/// or without a value. A line that begins with a colon keeps the connection alive. An empty line
/// ends the event and hands on its data lines in their order, unless there is nothing in them or
/// only the mark of the end.
pub proof fn law_lines_are_read_by_their_field(
    name: Seq<char>,
    value: Seq<char>,
    lines: Seq<Seq<char>>,
)
    ensures
        names_field(name) && name != "data"@ ==> line_effect(
            encode_utf8(name + seq![':'] + value),
            lines,
        ) == Ok::<_, Seq<char>>((lines, Seq::<SseEventView>::empty())),
        names_field(name) && name != "data"@ ==> line_effect(encode_utf8(name), lines) == Ok::<
            _,
            Seq<char>,
        >((lines, Seq::<SseEventView>::empty())),
        line_effect(encode_utf8("data"@ + seq![':'] + (seq![' '] + value)), lines) == Ok::<
            _,
            Seq<char>,
        >((lines.push(value), Seq::<SseEventView>::empty())),
        value.len() == 0 || value[0] != ' ' ==> line_effect(
            encode_utf8("data"@ + seq![':'] + value),
            lines,
        ) == Ok::<_, Seq<char>>((lines.push(value), Seq::<SseEventView>::empty())),
        line_effect(encode_utf8("data"@), lines) == Ok::<_, Seq<char>>(
            (lines.push(Seq::empty()), Seq::<SseEventView>::empty()),
        ),
        line_effect(encode_utf8(seq![':'] + value), lines) == Ok::<_, Seq<char>>(
            (lines, seq![SseEventView::Waiting]),
        ),
        line_effect(Seq::empty(), lines) == Ok::<_, Seq<char>>(
            (
                Seq::<Seq<char>>::empty(),
                if joined(lines, "\n"@) == Seq::<char>::empty() || joined(lines, "\n"@) == "[DONE]"@ {
                    Seq::empty()
                } else {
                    seq![SseEventView::Data(joined(lines, "\n"@))]
                },
            ),
        ),
{
    reveal_strlit("data");
    reveal_strlit(":");
    reveal_strlit(" ");
    let colon = seq![':'];
    lemma_line_text(name + colon + value);
    lemma_line_text(name);
    lemma_line_text("data"@ + colon + (seq![' '] + value));
    lemma_line_text("data"@ + colon + value);
    lemma_line_text("data"@);
    lemma_line_text(colon + value);
    lemma_line_text(Seq::empty());
    assert(encode_utf8(Seq::empty()) =~= Seq::<u8>::empty());
    if names_field(name) {
        law_texts_split_at_the_first_mark(name, ':', value);
        assert((name + colon + value)[0] == name[0]);
        assert(!begins_with(name + colon + value, ":"@)) by {
            if begins_with(name + colon + value, ":"@) {
                assert((name + colon + value).subrange(0, 1)[0] == ":"@[0]);
            }
        }
        assert(!begins_with(name, ":"@)) by {
            if begins_with(name, ":"@) {
                assert(name.subrange(0, 1)[0] == ":"@[0]);
            }
        }
    }
    let data = "data"@;
    assert(data =~= seq!['d', 'a', 't', 'a']);
    law_texts_split_at_the_first_mark(data, ':', seq![' '] + value);
    law_texts_split_at_the_first_mark(data, ':', value);
    assert forall|rest: Seq<char>| !begins_with(#[trigger] (data + rest), ":"@) by {
        if begins_with(data + rest, ":"@) {
            assert((data + rest).subrange(0, 1)[0] == ":"@[0]);
            assert((data + rest)[0] == 'd');
        }
    }
    assert(data + colon + (seq![' '] + value) =~= data + (colon + (seq![' '] + value)));
    assert(data + colon + value =~= data + (colon + value));
    assert(data + Seq::<char>::empty() =~= data);
    let spaced = seq![' '] + value;
    assert(spaced.subrange(0, 1) =~= " "@);
    assert(spaced.subrange(1, spaced.len() as int) =~= value);
    if value.len() == 0 || value[0] != ' ' {
        assert(!begins_with(value, " "@)) by {
            if begins_with(value, " "@) {
                assert(value.subrange(0, 1)[0] == " "@[0]);
            }
        }
    }
    assert(!begins_with(Seq::<char>::empty(), " "@));
    assert((colon + value).subrange(0, 1) =~= ":"@);
    if joined(lines, "\n"@).len() == 0 {
        assert(joined(lines, "\n"@) =~= Seq::<char>::empty());
    }
}

proof fn lemma_line_text(text: Seq<char>)
    ensures
        valid_utf8(encode_utf8(text)),
        decode_utf8(encode_utf8(text)) == text,
{
    encode_utf8_valid_utf8(text);
    encode_utf8_decode_utf8(text);
}

/// Reading a line whole: what is read of a line with its end, and of what follows, is what the line
/// means and what is read of what follows then. A line ends with a line feed, with a carriage return
/// and a line feed, or with a carriage return that something else follows.
pub proof fn law_lines_are_read_one_by_one(
    line: Seq<u8>,
    ending: Seq<u8>,
    rest: Seq<u8>,
    lines: Seq<Seq<char>>,
    end_of_stream: bool,
)
    requires
        forall|i: int| 0 <= i < line.len() ==> (#[trigger] line[i]) != 10 && line[i] != 13,
        ending == seq![10u8] || ending == seq![13u8, 10u8] || (ending == seq![13u8] && rest.len() > 0
            && rest[0] != 10),
    ensures
        drained(line + ending + rest, lines, end_of_stream) == match line_effect(line, lines) {
            Err(message) => DrainView {
                pending: rest,
                lines,
                events: Seq::empty(),
                error: Some(message),
            },
            Ok((next, events)) => DrainView {
                events: events + drained(rest, next, end_of_stream).events,
                ..drained(rest, next, end_of_stream)
            },
        },
{
    let all = line + ending + rest;
    let at = line.len() as int;
    assert(all[at] == ending[0]);
    assert forall|j: int| 0 <= j < at implies !line_break(#[trigger] all[j]) by {
        assert(all[j] == line[j]);
    }
    lemma_first_break(all, at);
    if ending.len() == 2 {
        assert(all[at + 1] == ending[1]);
    } else if ending == seq![13u8] {
        assert(all[at + 1] == rest[0]);
    }
    assert(break_length(all, at) == ending.len());
    assert(all.subrange(0, at) =~= line);
    assert(all.subrange(at + ending.len(), all.len() as int) =~= rest);
}

/// Bytes without the end of a line tell the reader nothing yet: they are kept for the rest of the
/// line.
pub proof fn law_unfinished_lines_are_kept(
    line: Seq<u8>,
    lines: Seq<Seq<char>>,
    end_of_stream: bool,
)
    requires
        forall|i: int| 0 <= i < line.len() ==> (#[trigger] line[i]) != 10 && line[i] != 13,
    ensures
        drained(line, lines, end_of_stream) == (DrainView {
            pending: line,
            lines,
            events: Seq::empty(),
            error: None,
        }),
        drained(line + seq![13u8], lines, false) == (DrainView {
            pending: line + seq![13u8],
            lines,
            events: Seq::empty(),
            error: None,
        }),
{
    lemma_first_break(line, line.len() as int);
    let more = line + seq![13u8];
    assert forall|j: int| 0 <= j < line.len() implies !line_break(#[trigger] more[j]) by {
        assert(more[j] == line[j]);
    }
    lemma_first_break(more, line.len() as int);
}

/// The bytes of fields, each on a line of its own.
pub open spec fn written_fields(fields: Seq<(Seq<char>, Seq<char>)>) -> Seq<u8>
    decreases fields.len(),
{
    if fields.len() == 0 {
        Seq::empty()
    } else {
        encode_utf8(fields[0].0 + seq![':'] + (seq![' '] + fields[0].1)) + seq![10u8]
            + written_fields(fields.subrange(1, fields.len() as int))
    }
}

/// The values of the fields of the name data, in their order.
pub open spec fn data_values(fields: Seq<(Seq<char>, Seq<char>)>) -> Seq<Seq<char>>
    decreases fields.len(),
{
    if fields.len() == 0 {
        Seq::empty()
    } else {
        let rest = data_values(fields.subrange(1, fields.len() as int));
        if fields[0].0 == "data"@ {
            seq![fields[0].1] + rest
        } else {
            rest
        }
    }
}

proof fn lemma_fields_read(
    fields: Seq<(Seq<char>, Seq<char>)>,
    lines: Seq<Seq<char>>,
    rest: Seq<u8>,
)
    requires
        forall|i: int|
            0 <= i < fields.len() ==> names_field((#[trigger] fields[i]).0) && on_one_line(
                fields[i].1,
            ),
    ensures
        drained(written_fields(fields) + rest, lines, false) == drained(
            rest,
            lines + data_values(fields),
            false,
        ),
    decreases fields.len(),
{
    if fields.len() == 0 {
        assert(written_fields(fields) + rest =~= rest);
        assert(lines + data_values(fields) =~= lines);
    } else {
        let (name, value) = fields[0];
        let tail = fields.subrange(1, fields.len() as int);
        let text = name + seq![':'] + (seq![' '] + value);
        let line = encode_utf8(text);
        assert(names_field(fields[0].0) && on_one_line(fields[0].1));
        assert forall|i: int| 0 <= i < text.len() implies (#[trigger] text[i]) != '\n' && text[i]
            != '\r' by {
            if i < name.len() {
                assert(text[i] == name[i]);
            } else if i >= name.len() + 2 {
                assert(text[i] == value[i - name.len() - 2]);
            }
        }
        lemma_encoded_on_one_line(text);
        assert forall|i: int| 0 <= i < line.len() implies (#[trigger] line[i]) != 10 && line[i]
            != 13 by {
            assert(!line_break(line[i]));
        }
        let more = written_fields(tail) + rest;
        assert(written_fields(fields) + rest =~= line + seq![10u8] + more);
        law_lines_are_read_one_by_one(line, seq![10u8], more, lines, false);
        law_lines_are_read_by_their_field(name, seq![' '] + value, lines);
        law_lines_are_read_by_their_field(name, value, lines);
        let next = if name == "data"@ {
            lines.push(value)
        } else {
            lines
        };
        assert forall|i: int| 0 <= i < tail.len() implies names_field((#[trigger] tail[i]).0)
            && on_one_line(tail[i].1) by {
            assert(tail[i] == fields[i + 1]);
        }
        lemma_fields_read(tail, next, rest);
        assert(next + data_values(tail) =~= lines + data_values(fields));
        let after = drained(more, next, false);
        assert(Seq::<SseEventView>::empty() + after.events =~= after.events);
    }
}

/// An event that is written as fields and an empty line gives its reader the values of its data
/// fields, joined by line feeds, whatever other fields it has, and leaves nothing behind. It gives
/// nothing where that is empty or the mark of the end.
pub proof fn law_events_give_back_their_data(fields: Seq<(Seq<char>, Seq<char>)>, rest: Seq<u8>)
    requires
        forall|i: int|
            0 <= i < fields.len() ==> names_field((#[trigger] fields[i]).0) && on_one_line(
                fields[i].1,
            ),
    ensures
        ({
            let data = joined(data_values(fields), "\n"@);
            let told = if data == Seq::<char>::empty() || data == "[DONE]"@ {
                Seq::empty()
            } else {
                seq![SseEventView::Data(data)]
            };
            let after = pushed(Seq::empty(), Seq::empty(), rest);
            pushed(Seq::empty(), Seq::empty(), written_fields(fields) + seq![10u8] + rest)
                == DrainView { events: told + after.events, ..after }
        }),
{
    let none = Seq::<u8>::empty();
    let no_lines = Seq::<Seq<char>>::empty();
    let whole = written_fields(fields) + seq![10u8] + rest;
    let values = data_values(fields);
    assert(none + whole =~= written_fields(fields) + (seq![10u8] + rest));
    assert(none + rest =~= rest);
    lemma_fields_read(fields, no_lines, seq![10u8] + rest);
    assert(no_lines + values =~= values);
    assert(none + seq![10u8] + rest =~= seq![10u8] + rest);
    law_lines_are_read_one_by_one(none, seq![10u8], rest, values, false);
    law_lines_are_read_by_their_field(Seq::empty(), Seq::empty(), values);
}

} // verus!
