//! Requests to model providers: how long they may take, and how their headers and failures are
//! told.

use crate::text::{ascii_lowercase, concat3, decimal, decimal_text, lowered, texts};
use crate::text_map::TextMap;
use vstd::prelude::*;

verus! {

/// A time in milliseconds that is not zero.
pub open spec fn at_least_one(ms: u64) -> u64 {
    if ms == 0 {
        1
    } else {
        ms
    }
}

/// A time in milliseconds that is not zero.
pub fn effective_timeout_ms(ms: u64) -> (result: u64)
    ensures
        result == at_least_one(ms),
{
    if ms == 0 {
        1
    } else {
        ms
    }
}

/// Whether a response tells of an error, so that its body is no stream of events.
pub fn is_error_status(status: u16) -> (result: bool)
    ensures
        result == (status >= 400),
{
    status >= 400
}

/// A failure with what caused it, from the nearest cause on.
pub open spec fn with_causes(
    context: Seq<char>,
    error: Seq<char>,
    causes: Seq<Seq<char>>,
) -> Seq<char>
    decreases causes.len(),
{
    if causes.len() == 0 {
        context + ": "@ + error
    } else {
        with_causes(context, error, causes.subrange(0, causes.len() - 1)) + "; caused by: "@
            + causes[causes.len() - 1]
    }
}

/// A failure with what caused it, from the nearest cause on.
pub fn format_reqwest_error(context: &str, error: &str, causes: &Vec<String>) -> (result: String)
    ensures
        result@ == with_causes(context@, error@, texts(causes@)),
{
    let ghost all = texts(causes@);
    let mut message = concat3(context, ": ", error);
    let mut i: usize = 0;
    assert(all.subrange(0, 0) =~= Seq::empty());
    while i < causes.len()
        invariant
            i <= causes.len(),
            all == texts(causes@),
            message@ == with_causes(context@, error@, all.subrange(0, i as int)),
        decreases causes.len() - i,
    {
        proof {
            let next = all.subrange(0, i + 1);
            assert(next.subrange(0, i as int) =~= all.subrange(0, i as int));
            assert(next[i as int] == causes@[i as int]@);
        }
        message.append("; caused by: ");
        message.append(causes[i].as_str());
        i = i + 1;
    }
    assert(all.subrange(0, all.len() as int) =~= all);
    message
}

/// The steps of a request at which its time can be over.
#[derive(Clone, Copy, Debug, PartialEq, Eq, Structural)]
pub enum TimedStep {
    Headers,
    ErrorBody,
    Chunk,
}

/// What is told where the time of a step of a request is over.
pub fn timeout_message(step: TimedStep, timeout_ms: u64) -> (result: String)
    ensures
        result@ == match step {
            TimedStep::Headers => "http send timed out while waiting for SSE headers after "@
                + decimal(at_least_one(timeout_ms) as nat) + "ms"@,
            TimedStep::ErrorBody => "read SSE error body idle timeout after "@ + decimal(
                at_least_one(timeout_ms) as nat,
            ) + "ms"@,
            TimedStep::Chunk => "read SSE chunk idle timeout after "@ + decimal(
                at_least_one(timeout_ms) as nat,
            ) + "ms"@,
        },
{
    let number = decimal_text(effective_timeout_ms(timeout_ms));
    match step {
        TimedStep::Headers => concat3(
            "http send timed out while waiting for SSE headers after ",
            number.as_str(),
            "ms",
        ),
        TimedStep::ErrorBody => concat3(
            "read SSE error body idle timeout after ",
            number.as_str(),
            "ms",
        ),
        TimedStep::Chunk => concat3("read SSE chunk idle timeout after ", number.as_str(), "ms"),
    }
}

/// The value that the last of `headers` with the given name has, where it is text.
pub open spec fn header_value(headers: Seq<(String, Option<String>)>, name: Seq<char>) -> Option<
    Seq<char>,
>
    decreases headers.len(),
{
    if headers.len() == 0 {
        None
    } else {
        let n = headers.len() - 1;
        match headers[n].1 {
            Some(value) => if lowered(headers[n].0@) == name {
                Some(value@)
            } else {
                header_value(headers.subrange(0, n), name)
            },
            None => header_value(headers.subrange(0, n), name),
        }
    }
}

/// The value under a key of a map of texts.
pub open spec fn value_of(map: TextMap<String>, key: Seq<char>) -> Option<Seq<char>> {
    if map@.contains_key(key) {
        Some(map@[key]@)
    } else {
        None
    }
}

/// The headers of a response whose values are text, under their names in lower case.
pub fn response_headers(headers: &Vec<(String, Option<String>)>) -> (result: TextMap<String>)
    ensures
        result.wf(),
        forall|name: Seq<char>| #[trigger]
            value_of(result, name) == header_value(headers@, name),
{
    let mut map: TextMap<String> = TextMap::new();
    let mut i: usize = 0;
    assert(headers@.subrange(0, 0) =~= Seq::empty());
    while i < headers.len()
        invariant
            i <= headers.len(),
            map.wf(),
            forall|name: Seq<char>| #[trigger]
                value_of(map, name) == header_value(headers@.subrange(0, i as int), name),
        decreases headers.len() - i,
    {
        let ghost before = map;
        proof {
            let next = headers@.subrange(0, i + 1);
            assert(next.subrange(0, i as int) =~= headers@.subrange(0, i as int));
            assert(next[i as int] == headers@[i as int]);
        }
        match &headers[i].1 {
            Some(value) => {
                let name = ascii_lowercase(headers[i].0.as_str());
                map.insert(name.as_str(), value.clone());
            },
            None => {},
        }
        proof {
            let next = headers@.subrange(0, i + 1);
            assert forall|name: Seq<char>| #[trigger]
                value_of(map, name) == header_value(next, name) by {
                assert(value_of(before, name) == header_value(
                    headers@.subrange(0, i as int),
                    name,
                ));
            }
        }
        i = i + 1;
    }
    assert(headers@.subrange(0, headers@.len() as int) =~= headers@);
    map
}

/// A timeout is never nothing.
pub proof fn law_timeouts_are_positive(ms: u64)
    ensures
        at_least_one(ms) >= 1,
        ms > 0 ==> at_least_one(ms) == ms,
        at_least_one(0) == 1,
{
}

/// An error is told behind its context, with each of its causes behind it in their order.
pub proof fn law_causes_are_told_in_order(
    context: Seq<char>,
    error: Seq<char>,
    causes: Seq<Seq<char>>,
    cause: Seq<char>,
)
    ensures
        with_causes(context, error, Seq::empty()) == context + ": "@ + error,
        with_causes(context, error, causes.push(cause)) == with_causes(context, error, causes)
            + "; caused by: "@ + cause,
{
    let more = causes.push(cause);
    assert(more.subrange(0, more.len() - 1) =~= causes);
}

/// A header is found by its name in lower case, and has the value that it was given last; one whose
/// value is no text counts as not given.
pub proof fn law_headers_are_found_in_lower_case(
    headers: Seq<(String, Option<String>)>,
    name: Seq<char>,
    header: (String, Option<String>),
)
    ensures
        header_value(Seq::empty(), name) is None,
        lowered(header.0@) == name && header.1 is Some ==> header_value(headers.push(header), name)
            == Some(header.1->0@),
        lowered(header.0@) != name || header.1 is None ==> header_value(headers.push(header), name)
            == header_value(headers, name),
{
    let more = headers.push(header);
    assert(more.subrange(0, more.len() - 1) =~= headers);
}

} // verus!
