//! The events of a session's log with their observations restored, and what is promised of storing
//! and restoring them together.

use crate::json::{
    field, json_parsed, json_text, json_views, lemma_with_entry_back, lemma_with_entry_other,
    lemma_with_entry_read, text_field, Json, JsonView,
};
use crate::observation_cas::{
    agrees, built, content_digest, content_views, reference_views, ContentView, ObservationContent,
    ObservationReference, ReferenceView,
};
use crate::observation_store::{
    compacted, compaction_start, content_of, find_content, hydrate_wire, is_model_request,
    law_chain_resolves, law_restore_undoes_store, model_request, names_digest, observations_of,
    observed, prepared, reads_back,
    reference_of, resolved, restore_observations, restored, stored_chain, stored_for,
    stored_manifest, wire_observations, with_contents, with_observations, CompactionView,
};
use vstd::prelude::*;

verus! {

pub open spec fn reference_lists(lists: Seq<Vec<ObservationReference>>) -> Seq<Seq<ReferenceView>> {
    Seq::new(lists.len(), |i: int| reference_views(lists[i]@))
}

/// How many of the events are model requests.
pub open spec fn requests_in(wires: Seq<JsonView>) -> nat
    decreases wires.len(),
{
    if wires.len() == 0 {
        0
    } else {
        requests_in(wires.subrange(0, wires.len() - 1)) + if model_request(wires[wires.len() - 1]) {
            1nat
        } else {
            0
        }
    }
}

/// The events with the observations of the model requests among them restored: `references` holds
/// what each request saw, in order.
pub open spec fn hydrated(
    wires: Seq<JsonView>,
    references: Seq<Seq<ReferenceView>>,
    contents: Seq<ContentView>,
) -> Result<Seq<JsonView>, Seq<char>>
    decreases wires.len(),
{
    if wires.len() == 0 {
        Ok(Seq::empty())
    } else {
        let init = wires.subrange(0, wires.len() - 1);
        let wire = wires[wires.len() - 1];
        match hydrated(init, references, contents) {
            Err(message) => Err(message),
            Ok(before) => if !model_request(wire) {
                Ok(before.push(wire))
            } else if requests_in(init) >= references.len() {
                Err("stored model observation manifest is missing"@)
            } else {
                match restored(references[requests_in(init) as int], contents) {
                    Err(message) => Err(message),
                    Ok(observations) => if wire_observations(wire) is None {
                        Err("stored model request observations are missing"@)
                    } else {
                        Ok(before.push(with_observations(wire, JsonView::List(observations))))
                    },
                }
            },
        }
    }
}

proof fn lemma_hydrated_error(
    wires: Seq<JsonView>,
    references: Seq<Seq<ReferenceView>>,
    contents: Seq<ContentView>,
    n: int,
)
    requires
        0 <= n <= wires.len(),
        hydrated(wires.subrange(0, n), references, contents) is Err,
    ensures
        hydrated(wires, references, contents) == hydrated(
            wires.subrange(0, n),
            references,
            contents,
        ),
    decreases wires.len() - n,
{
    if n == wires.len() {
        assert(wires.subrange(0, n) =~= wires);
    } else {
        let next = wires.subrange(0, n + 1);
        assert(next.subrange(0, next.len() - 1) =~= wires.subrange(0, n));
        lemma_hydrated_error(wires, references, contents, n + 1);
    }
}

/// Restores the observations of the model requests among the events of a log. `references` holds
/// what each request saw, in order, and `contents` what was read of what they saw.
pub fn hydrate_wires(
    wires: &Vec<Json>,
    references: &Vec<Vec<ObservationReference>>,
    contents: &Vec<ObservationContent>,
) -> (result: Result<Vec<Json>, String>)
    ensures
        agrees(
            result,
            |all: Vec<Json>| json_views(all@),
            hydrated(json_views(wires@), reference_lists(references@), content_views(contents@)),
        ),
{
    let ghost all = json_views(wires@);
    let ghost lists = reference_lists(references@);
    let ghost stored = content_views(contents@);
    let mut done: Vec<Json> = Vec::new();
    let mut seen: usize = 0;
    let mut i: usize = 0;
    assert(all.subrange(0, 0) =~= Seq::empty());
    assert(json_views(done@) =~= Seq::empty());
    while i < wires.len()
        invariant
            i <= wires.len(),
            seen <= i,
            all == json_views(wires@),
            lists == reference_lists(references@),
            stored == content_views(contents@),
            seen == requests_in(all.subrange(0, i as int)),
            hydrated(all.subrange(0, i as int), lists, stored) == Ok::<Seq<JsonView>, Seq<char>>(
                json_views(done@),
            ),
        decreases wires.len() - i,
    {
        proof {
            let next = all.subrange(0, i + 1);
            assert(next.subrange(0, next.len() - 1) =~= all.subrange(0, i as int));
            assert(next[next.len() - 1] == wires@[i as int]@);
        }
        let ghost before = json_views(done@);
        let wire = &wires[i];
        if !is_model_request(wire) {
            done.push(wire.copy());
            assert(json_views(done@) =~= before.push(wire@));
        } else {
            if seen >= references.len() {
                proof {
                    lemma_hydrated_error(all, lists, stored, i + 1);
                }
                return Err("stored model observation manifest is missing".to_owned());
            }
            let observations = match restore_observations(&references[seen], contents) {
                Ok(observations) => observations,
                Err(message) => {
                    proof {
                        lemma_hydrated_error(all, lists, stored, i + 1);
                    }
                    return Err(message);
                },
            };
            match hydrate_wire(wire, observations) {
                Ok(value) => {
                    let ghost view = value@;
                    done.push(value);
                    assert(json_views(done@) =~= before.push(view));
                },
                Err(message) => {
                    proof {
                        lemma_hydrated_error(all, lists, stored, i + 1);
                    }
                    return Err(message);
                },
            }
            seen = seen + 1;
        }
        i = i + 1;
    }
    assert(all.subrange(0, all.len() as int) =~= all);
    Ok(done)
}

/// What each model request among the events of a batch saw, in order.
pub open spec fn seen_by(
    start: CompactionView,
    wires: Seq<JsonView>,
    session_id: Seq<char>,
) -> Seq<Seq<ReferenceView>>
    decreases wires.len(),
{
    if wires.len() == 0 {
        Seq::empty()
    } else {
        let before = seen_by(start, wires.subrange(0, wires.len() - 1), session_id);
        if model_request(wires[wires.len() - 1]) {
            before.push(compacted(start, wires, session_id)->Ok_0.references)
        } else {
            before
        }
    }
}

proof fn lemma_seen_count(start: CompactionView, wires: Seq<JsonView>, session_id: Seq<char>)
    ensures
        seen_by(start, wires, session_id).len() == requests_in(wires),
    decreases wires.len(),
{
    if wires.len() > 0 {
        lemma_seen_count(start, wires.subrange(0, wires.len() - 1), session_id);
    }
}

/// Whether each of the observations reads back from its text and is found among `contents`.
pub open spec fn observations_held(
    observations: Seq<JsonView>,
    contents: Seq<ContentView>,
) -> bool {
    forall|j: int|
        0 <= j < observations.len() ==> observation_held(#[trigger] observations[j], contents)
}

/// Whether an observation reads back from its text and is found among `contents`.
pub open spec fn observation_held(observation: JsonView, contents: Seq<ContentView>) -> bool {
    content_of(observation) matches Ok(content) && json_parsed(content.text) == Ok::<
        JsonView,
        Seq<char>,
    >(observation) && find_content(contents, content.digest) == Some(content)
}

/// Whether the observations of all model requests among the events read back from their texts and
/// are found among `contents`.
pub open spec fn log_held(wires: Seq<JsonView>, contents: Seq<ContentView>) -> bool {
    forall|i: int|
        0 <= i < wires.len() && model_request(#[trigger] wires[i]) ==> observations_held(
            observations_of(wires[i]),
            contents,
        )
}

proof fn lemma_prepared_references(observations: Seq<JsonView>, parent: Seq<ReferenceView>)
    requires
        prepared(observations, parent) is Ok,
    ensures
        ({
            let references = prepared(observations, parent)->Ok_0.1;
            &&& references.len() == observations.len()
            &&& forall|j: int|
                #![trigger observations[j]]
                #![trigger references[j]]
                0 <= j < observations.len() ==> content_of(observations[j]) is Ok && references[j]
                    == reference_of(content_of(observations[j])->Ok_0)
        }),
    decreases observations.len(),
{
    if observations.len() > 0 {
        let init = observations.subrange(0, observations.len() - 1);
        lemma_prepared_references(init, parent);
        let before = prepared(init, parent)->Ok_0.1;
        let references = prepared(observations, parent)->Ok_0.1;
        assert forall|j: int|
            #![trigger observations[j]]
            #![trigger references[j]]
            0 <= j < observations.len() implies content_of(observations[j]) is Ok && references[j]
            == reference_of(content_of(observations[j])->Ok_0) by {
            if j < init.len() {
                assert(init[j] == observations[j]);
                assert(references[j] == before[j]);
            }
        }
    }
}

proof fn lemma_restored_request(
    observations: Seq<JsonView>,
    parent: Seq<ReferenceView>,
    contents: Seq<ContentView>,
)
    requires
        prepared(observations, parent) is Ok,
        observations_held(observations, contents),
    ensures
        restored(prepared(observations, parent)->Ok_0.1, contents) == Ok::<
            Seq<JsonView>,
            Seq<char>,
        >(observations),
{
    lemma_prepared_references(observations, parent);
    let references = prepared(observations, parent)->Ok_0.1;
    let made = Seq::new(observations.len(), |j: int| content_of(observations[j])->Ok_0);
    assert(stored_for(observations, made, contents)) by {
        assert forall|j: int| 0 <= j < made.len() implies content_of(observations[j]) == Ok::<
            ContentView,
            Seq<char>,
        >(#[trigger] made[j]) && json_parsed(made[j].text) == Ok::<JsonView, Seq<char>>(
            observations[j],
        ) && find_content(contents, made[j].digest) == Some(made[j]) by {
            assert(observation_held(observations[j], contents));
        }
    }
    law_restore_undoes_store(observations, made, contents);
    assert(references =~= Seq::new(made.len(), |j: int| reference_of(made[j]))) by {
        assert forall|j: int| 0 <= j < references.len() implies references[j] == reference_of(
            made[j],
        ) by {
            assert(content_of(observations[j]) is Ok);
        }
    }
}

proof fn lemma_observations_back(wire: JsonView, between: JsonView)
    requires
        model_request(wire),
        wire_observations(wire) is Some,
    ensures
        model_request(with_observations(wire, between)),
        text_field(with_observations(wire, between), "sessionId"@) == text_field(
            wire,
            "sessionId"@,
        ),
        wire_observations(with_observations(wire, between)) == Some(between),
        with_observations(with_observations(wire, between), wire_observations(wire)->0) == wire,
{
    reveal_strlit("type");
    reveal_strlit("payload");
    reveal_strlit("sessionId");
    let payload = field(wire, "payload"@)->0;
    let entries = wire->Object_0;
    let inner = payload->Object_0;
    let original = wire_observations(wire)->0;
    assert("type"@.len() != "payload"@.len());
    assert("sessionId"@.len() != "payload"@.len());
    lemma_with_entry_read(inner, "observations"@, between);
    lemma_with_entry_back(inner, "observations"@, between, original);
    let changed = crate::json::with_field(payload, "observations"@, between);
    lemma_with_entry_read(entries, "payload"@, changed);
    lemma_with_entry_back(entries, "payload"@, changed, payload);
    lemma_with_entry_other(entries, "payload"@, changed, "type"@);
    lemma_with_entry_other(entries, "payload"@, changed, "sessionId"@);
}

proof fn lemma_more_references(
    wires: Seq<JsonView>,
    references: Seq<Seq<ReferenceView>>,
    more: Seq<Seq<ReferenceView>>,
    contents: Seq<ContentView>,
)
    requires
        requests_in(wires) <= references.len(),
    ensures
        hydrated(wires, references + more, contents) == hydrated(wires, references, contents),
    decreases wires.len(),
{
    if wires.len() > 0 {
        let init = wires.subrange(0, wires.len() - 1);
        lemma_more_references(init, references, more, contents);
        let k = requests_in(init) as int;
        if model_request(wires[wires.len() - 1]) {
            assert((references + more)[k] == references[k]);
        }
    }
}

/// Restoring the events that were stored for a batch gives the events of the batch, where each
/// observation reads back from its text and its content can be read: nothing of a batch is lost
/// or changed by storing it.
pub proof fn law_hydration_undoes_storage(
    start: CompactionView,
    wires: Seq<JsonView>,
    session_id: Seq<char>,
    contents: Seq<ContentView>,
)
    requires
        start.wires.len() == 0,
        compacted(start, wires, session_id) is Ok,
        log_held(wires, contents),
    ensures
        ({
            let stored = compacted(start, wires, session_id)->Ok_0.wires;
            &&& hydrated(stored, seen_by(start, wires, session_id), contents) == Ok::<
                Seq<JsonView>,
                Seq<char>,
            >(wires)
            &&& requests_in(stored) == requests_in(wires)
        }),
    decreases wires.len(),
{
    let state = compacted(start, wires, session_id)->Ok_0;
    let seen = seen_by(start, wires, session_id);
    lemma_seen_count(start, wires, session_id);
    if wires.len() == 0 {
        assert(wires =~= Seq::empty());
    } else {
        let init = wires.subrange(0, wires.len() - 1);
        let wire = wires[wires.len() - 1];
        let before = compacted(start, init, session_id)->Ok_0;
        assert(log_held(init, contents)) by {
            assert forall|i: int| 0 <= i < init.len() && model_request(
                #[trigger] init[i],
            ) implies observations_held(observations_of(init[i]), contents) by {
                assert(init[i] == wires[i]);
            }
        }
        law_hydration_undoes_storage(start, init, session_id, contents);
        let earlier = seen_by(start, init, session_id);
        lemma_seen_count(start, init, session_id);
        assert(init.push(wire) =~= wires);
        assert(state.wires.subrange(0, state.wires.len() - 1) =~= before.wires);
        if model_request(wire) {
            let observations = observations_of(wire);
            assert(observations_held(observations, contents));
            lemma_restored_request(observations, before.references, contents);
            let manifest = built(
                before.parent,
                before.references,
                prepared(observations, before.references)->Ok_0.1,
            );
            lemma_observations_back(
                wire,
                JsonView::Object(seq![("manifestDigest"@, JsonView::Text(manifest.digest))]),
            );
            lemma_more_references(before.wires, earlier, seq![state.references], contents);
            assert(earlier + seq![state.references] =~= seen);
            assert(seen[requests_in(before.wires) as int] == state.references);
        } else {
            assert(seen == earlier);
        }
    }
}

/// Whether different observations of the events have different digests.
pub open spec fn told_apart(wires: Seq<JsonView>) -> bool {
    forall|a: JsonView, b: JsonView|
        #![trigger observed(wires, a), observed(wires, b)]
        observed(wires, a) && observed(wires, b) && content_digest(json_text(a)) == content_digest(
            json_text(b),
        ) ==> a == b
}

proof fn lemma_find_pushed(contents: Seq<ContentView>, addition: ContentView, digest: Seq<char>)
    ensures
        find_content(contents, digest) is Some ==> find_content(contents.push(addition), digest)
            == find_content(contents, digest),
        find_content(contents, digest) is None ==> find_content(contents.push(addition), digest)
            == if addition.digest == digest {
            Some(addition)
        } else {
            None
        },
    decreases contents.len(),
{
    let after = contents.push(addition);
    if contents.len() == 0 {
        assert(after[0] == addition);
        let rest = after.subrange(1, after.len() as int);
        assert(rest.len() == 0);
        assert(find_content(rest, digest) is None);
    } else if contents[0].digest != digest {
        let rest = contents.subrange(1, contents.len() as int);
        lemma_find_pushed(rest, addition, digest);
        assert(after.subrange(1, after.len() as int) =~= rest.push(addition));
        assert(after[0] == contents[0]);
    } else {
        assert(after[0] == contents[0]);
    }
}

/// Contents that were added are found, and contents that were found before still are.
proof fn lemma_added_contents(
    contents: Seq<ContentView>,
    additions: Seq<ContentView>,
    content: ContentView,
)
    requires
        with_contents(contents, additions) is Ok,
    ensures
        find_content(contents, content.digest) == Some(content) || additions.contains(content)
            ==> find_content(with_contents(contents, additions)->Ok_0, content.digest) == Some(
            content,
        ),
    decreases additions.len(),
{
    if additions.len() > 0 {
        let init = additions.subrange(0, additions.len() - 1);
        let last = additions[additions.len() - 1];
        let current = with_contents(contents, init)->Ok_0;
        lemma_added_contents(contents, init, content);
        lemma_find_pushed(current, last, content.digest);
        if additions.contains(content) && !init.contains(content) {
            let k = choose|k: int| 0 <= k < additions.len() && additions[k] == content;
            if k < init.len() {
                assert(init[k] == content);
            }
            assert(content == last);
        }
    }
}

/// The content of each observation of a request is stored with the request, unless the parent
/// names its digest.
proof fn lemma_prepared_contents(
    wires: Seq<JsonView>,
    observations: Seq<JsonView>,
    parent: Seq<ReferenceView>,
    j: int,
)
    requires
        prepared(observations, parent) is Ok,
        told_apart(wires),
        forall|k: int| 0 <= k < observations.len() ==> observed(wires, #[trigger] observations[k]),
        0 <= j < observations.len(),
    ensures
        content_of(observations[j]) is Ok,
        names_digest(parent, content_of(observations[j])->Ok_0.digest) || prepared(
            observations,
            parent,
        )->Ok_0.0.contains(content_of(observations[j])->Ok_0),
    decreases observations.len(),
{
    let n = observations.len() - 1;
    let init = observations.subrange(0, n);
    lemma_prepared_references(observations, parent);
    lemma_prepared_references(init, parent);
    let (before, earlier) = prepared(init, parent)->Ok_0;
    let (contents, references) = prepared(observations, parent)->Ok_0;
    assert forall|k: int| 0 <= k < init.len() implies observed(wires, #[trigger] init[k]) by {
        assert(init[k] == observations[k]);
    }
    let content = content_of(observations[j])->Ok_0;
    if j < n {
        assert(init[j] == observations[j]);
        lemma_prepared_contents(wires, init, parent, j);
        if before.contains(content) {
            let k = choose|k: int| 0 <= k < before.len() && before[k] == content;
            assert(contents[k] == content);
        }
    } else if names_digest(earlier, content.digest) {
        let k = choose|k: int|
            0 <= k < earlier.len() && (#[trigger] earlier[k]).digest == content.digest;
        assert(init[k] == observations[k]);
        assert(observed(wires, init[k]));
        assert(observed(wires, observations[j]));
        assert(init[k] == observations[j]);
        lemma_prepared_contents(wires, init, parent, k);
        if before.contains(content) {
            let m = choose|m: int| 0 <= m < before.len() && before[m] == content;
            assert(contents[m] == content);
        }
    } else if !names_digest(parent, content.digest) {
        assert(contents[contents.len() - 1] == content);
    }
}

/// Whether what is named by references is what observations of the events are stored as.
pub open spec fn names_observed(references: Seq<ReferenceView>, wires: Seq<JsonView>) -> bool {
    forall|r: int|
        0 <= r < references.len() ==> digest_observed(wires, (#[trigger] references[r]).digest)
}

/// Whether an observation of the events is stored under `digest`.
pub open spec fn digest_observed(wires: Seq<JsonView>, digest: Seq<char>) -> bool {
    exists|a: JsonView| #[trigger]
        observed(wires, a) && content_of(a) is Ok && content_of(a)->Ok_0.digest == digest
}

proof fn lemma_contents_stored(whole: Seq<JsonView>, wires: Seq<JsonView>, session_id: Seq<char>)
    requires
        compacted(compaction_start(None, Seq::empty()), wires, session_id) is Ok,
        told_apart(whole),
        wires.len() <= whole.len(),
        wires == whole.subrange(0, wires.len() as int),
    ensures
        ({
            let state = compacted(
                compaction_start(None, Seq::empty()),
                wires,
                session_id,
            )->Ok_0;
            &&& names_observed(state.references, wires)
            &&& forall|a: JsonView| #[trigger]
                observed(wires, a) ==> content_of(a) is Ok && find_content(
                    state.contents,
                    content_of(a)->Ok_0.digest,
                ) == Some(content_of(a)->Ok_0)
        }),
    decreases wires.len(),
{
    let start = compaction_start(None, Seq::empty());
    let state = compacted(start, wires, session_id)->Ok_0;
    if wires.len() == 0 {
        assert(state.references.len() == 0);
    } else {
        let n = wires.len() - 1;
        let init = wires.subrange(0, n);
        let wire = wires[n];
        assert(init =~= whole.subrange(0, n));
        lemma_contents_stored(whole, init, session_id);
        let before = compacted(start, init, session_id)->Ok_0;
        assert forall|a: JsonView| observed(init, a) implies observed(wires, a) by {
            let (i, j) = choose|i: int, j: int|
                #![trigger observations_of(init[i])[j]]
                0 <= i < init.len() && model_request(init[i]) && 0 <= j < observations_of(
                    init[i],
                ).len() && observations_of(init[i])[j] == a;
            assert(wires[i] == init[i]);
            assert(observations_of(wires[i])[j] == a);
        }
        assert forall|a: JsonView| observed(wires, a) implies observed(whole, a) by {
            let (i, j) = choose|i: int, j: int|
                #![trigger observations_of(wires[i])[j]]
                0 <= i < wires.len() && model_request(wires[i]) && 0 <= j < observations_of(
                    wires[i],
                ).len() && observations_of(wires[i])[j] == a;
            assert(whole[i] == wires[i]);
            assert(observations_of(whole[i])[j] == a);
        }
        if !model_request(wire) {
            assert forall|a: JsonView| observed(wires, a) implies observed(init, a) by {
                let (i, j) = choose|i: int, j: int|
                    #![trigger observations_of(wires[i])[j]]
                    0 <= i < wires.len() && model_request(wires[i]) && 0 <= j < observations_of(
                        wires[i],
                    ).len() && observations_of(wires[i])[j] == a;
                assert(init[i] == wires[i]);
                assert(observations_of(init[i])[j] == a);
            }
            assert(names_observed(state.references, wires)) by {
                assert forall|r: int| 0 <= r < state.references.len() implies digest_observed(
                    wires,
                    (#[trigger] state.references[r]).digest,
                ) by {
                    assert(digest_observed(init, before.references[r].digest));
                    let a = choose|a: JsonView| #[trigger]
                        observed(init, a) && content_of(a) is Ok && content_of(a)->Ok_0.digest
                            == before.references[r].digest;
                    assert(observed(wires, a));
                }
            }
        } else {
            lemma_request_stored(whole, wires, session_id, before);
        }
    }
}

proof fn lemma_request_stored(
    whole: Seq<JsonView>,
    wires: Seq<JsonView>,
    session_id: Seq<char>,
    before: CompactionView,
)
    requires
        wires.len() > 0,
        compacted(compaction_start(None, Seq::empty()), wires, session_id) is Ok,
        compacted(
            compaction_start(None, Seq::empty()),
            wires.subrange(0, wires.len() - 1),
            session_id,
        ) == Ok::<CompactionView, Seq<char>>(before),
        model_request(wires[wires.len() - 1]),
        told_apart(whole),
        forall|a: JsonView| #[trigger]
            observed(wires.subrange(0, wires.len() - 1), a) ==> observed(wires, a),
        forall|a: JsonView| #[trigger] observed(wires, a) ==> observed(whole, a),
        names_observed(before.references, wires.subrange(0, wires.len() - 1)),
        forall|a: JsonView| #[trigger]
            observed(wires.subrange(0, wires.len() - 1), a) ==> content_of(a) is Ok
                && find_content(before.contents, content_of(a)->Ok_0.digest) == Some(
                content_of(a)->Ok_0,
            ),
    ensures
        ({
            let state = compacted(
                compaction_start(None, Seq::empty()),
                wires,
                session_id,
            )->Ok_0;
            &&& names_observed(state.references, wires)
            &&& forall|a: JsonView| #[trigger]
                observed(wires, a) ==> content_of(a) is Ok && find_content(
                    state.contents,
                    content_of(a)->Ok_0.digest,
                ) == Some(content_of(a)->Ok_0)
        }),
{
    let n = wires.len() - 1;
    let init = wires.subrange(0, n);
    let wire = wires[n];
    let state = compacted(compaction_start(None, Seq::empty()), wires, session_id)->Ok_0;
    let observations = observations_of(wire);
    let (additions, references) = prepared(observations, before.references)->Ok_0;
    lemma_prepared_references(observations, before.references);
    assert forall|k: int| 0 <= k < observations.len() implies observed(
        wires,
        #[trigger] observations[k],
    ) by {
        assert(observations_of(wires[n])[k] == observations[k]);
    }
    assert(names_observed(state.references, wires)) by {
        assert forall|r: int| 0 <= r < state.references.len() implies digest_observed(
            wires,
            (#[trigger] state.references[r]).digest,
        ) by {
            assert(observed(wires, observations[r]));
            assert(references[r] == reference_of(content_of(observations[r])->Ok_0));
        }
    }
    assert forall|a: JsonView| #[trigger] observed(wires, a) implies content_of(a) is Ok
        && find_content(state.contents, content_of(a)->Ok_0.digest) == Some(
        content_of(a)->Ok_0,
    ) by {
        let (i, j) = choose|i: int, j: int|
            #![trigger observations_of(wires[i])[j]]
            0 <= i < wires.len() && model_request(wires[i]) && 0 <= j < observations_of(
                wires[i],
            ).len() && observations_of(wires[i])[j] == a;
        if i < n {
            assert(init[i] == wires[i]);
            assert(observations_of(init[i])[j] == a);
            assert(observed(init, a));
            lemma_added_contents(before.contents, additions, content_of(a)->Ok_0);
        } else {
            lemma_prepared_contents(whole, observations, before.references, j);
            let content = content_of(a)->Ok_0;
            if names_digest(before.references, content.digest) {
                let r = choose|r: int|
                    0 <= r < before.references.len() && (#[trigger] before.references[r]).digest
                        == content.digest;
                assert(digest_observed(init, before.references[r].digest));
                let b = choose|b: JsonView| #[trigger]
                    observed(init, b) && content_of(b) is Ok && content_of(b)->Ok_0.digest
                        == before.references[r].digest;
                assert(observed(whole, b));
                assert(observed(whole, a));
                assert(b == a);
            }
            lemma_added_contents(before.contents, additions, content);
        }
    }
}

proof fn lemma_manifests_stored(wires: Seq<JsonView>, session_id: Seq<char>)
    requires
        compacted(compaction_start(None, Seq::empty()), wires, session_id) is Ok,
    ensures
        ({
            let start = compaction_start(None, Seq::empty());
            let state = compacted(start, wires, session_id)->Ok_0;
            let seen = seen_by(start, wires, session_id);
            &&& state.manifests.len() == seen.len()
            &&& forall|k: int|
                0 <= k < seen.len() ==> #[trigger] state.manifests[k] == stored_manifest(
                    seen,
                    k as nat,
                )
            &&& seen.len() == 0 ==> state.parent is None && state.references.len() == 0
            &&& seen.len() > 0 ==> state.parent == Some(
                state.manifests[seen.len() - 1].digest,
            ) && state.references == seen[seen.len() - 1]
        }),
    decreases wires.len(),
{
    if wires.len() > 0 {
        let start = compaction_start(None, Seq::empty());
        let init = wires.subrange(0, wires.len() - 1);
        lemma_manifests_stored(init, session_id);
        if model_request(wires[wires.len() - 1]) {
            let before = compacted(start, init, session_id)->Ok_0;
            let state = compacted(start, wires, session_id)->Ok_0;
            let earlier = seen_by(start, init, session_id);
            let seen = seen_by(start, wires, session_id);
            let n = earlier.len();
            assert forall|k: int| 0 <= k < seen.len() implies #[trigger] state.manifests[k]
                == stored_manifest(seen, k as nat) by {
                if k < n {
                    assert(state.manifests[k] == before.manifests[k]);
                    lemma_same_history(earlier, seen, k as nat);
                } else {
                    assert(seen[n as int] == state.references);
                    if n > 0 {
                        assert(seen[n - 1] == earlier[n - 1]);
                        lemma_same_history(earlier, seen, (n - 1) as nat);
                    } else {
                        assert(before.references =~= Seq::empty());
                    }
                }
            }
        }
    }
}

proof fn lemma_same_history(
    short: Seq<Seq<ReferenceView>>,
    long: Seq<Seq<ReferenceView>>,
    k: nat,
)
    requires
        k < short.len() <= long.len(),
        forall|i: int| 0 <= i < short.len() ==> #[trigger] short[i] == long[i],
    ensures
        stored_manifest(short, k) == stored_manifest(long, k),
    decreases k,
{
    assert(short[k as int] == long[k as int]);
    if k > 0 {
        lemma_same_history(short, long, (k - 1) as nat);
        assert(short[k - 1] == long[k - 1]);
    }
}

/// A log that was written from its start is read back as it was written: what is stored for it
/// holds the content of every observation, the chain of manifests of each request leads to what
/// the request saw, and with both the events are restored exactly. The texts of observations have
/// to read back as the observations, as `compact_wires` finds of plain ones, and different observations must not share a digest.
pub proof fn law_logs_read_back(wires: Seq<JsonView>, session_id: Seq<char>)
    requires
        compacted(compaction_start(None, Seq::empty()), wires, session_id) is Ok,
        reads_back(wires),
        told_apart(wires),
    ensures
        ({
            let start = compaction_start(None, Seq::empty());
            let state = compacted(start, wires, session_id)->Ok_0;
            let seen = seen_by(start, wires, session_id);
            &&& hydrated(state.wires, seen, state.contents) == Ok::<Seq<JsonView>, Seq<char>>(
                wires,
            )
            &&& state.manifests.len() == seen.len()
            &&& forall|k: int|
                0 <= k < seen.len() ==> #[trigger] state.manifests[k] == stored_manifest(
                    seen,
                    k as nat,
                ) && resolved(Seq::empty(), stored_chain(seen, k as nat)) == Ok::<
                    Seq<ReferenceView>,
                    Seq<char>,
                >(seen[k])
        }),
{
    let start = compaction_start(None, Seq::empty());
    let state = compacted(start, wires, session_id)->Ok_0;
    let seen = seen_by(start, wires, session_id);
    assert(wires.subrange(0, wires.len() as int) =~= wires);
    lemma_contents_stored(wires, wires, session_id);
    assert(log_held(wires, state.contents)) by {
        assert forall|i: int| 0 <= i < wires.len() && model_request(
            #[trigger] wires[i],
        ) implies observations_held(observations_of(wires[i]), state.contents) by {
            let observations = observations_of(wires[i]);
            assert forall|j: int| 0 <= j < observations.len() implies observation_held(
                #[trigger] observations[j],
                state.contents,
            ) by {
                assert(observations_of(wires[i])[j] == observations[j]);
                assert(observed(wires, observations[j]));
            }
        }
    }
    law_hydration_undoes_storage(start, wires, session_id, state.contents);
    lemma_manifests_stored(wires, session_id);
    assert forall|k: int| 0 <= k < seen.len() implies #[trigger] state.manifests[k]
        == stored_manifest(seen, k as nat) && resolved(
        Seq::empty(),
        stored_chain(seen, k as nat),
    ) == Ok::<Seq<ReferenceView>, Seq<char>>(seen[k]) by {
        law_chain_resolves(seen, k as nat);
    }
}

proof fn lemma_compacted_together(
    start: CompactionView,
    first: Seq<JsonView>,
    second: Seq<JsonView>,
    session_id: Seq<char>,
)
    requires
        compacted(start, first, session_id) is Ok,
    ensures
        compacted(start, first + second, session_id) == compacted(
            compacted(start, first, session_id)->Ok_0,
            second,
            session_id,
        ),
    decreases second.len(),
{
    if second.len() == 0 {
        assert(first + second =~= first);
    } else {
        let init = second.subrange(0, second.len() - 1);
        lemma_compacted_together(start, first, init, session_id);
        let both = first + second;
        assert(both.subrange(0, both.len() - 1) =~= first + init);
    }
}

/// Whether what a batch stores, beside what was stored before it, is what all of it together
/// stores.
pub open spec fn stores_together(
    earlier: Seq<ContentView>,
    batch: Seq<ContentView>,
    together: Seq<ContentView>,
) -> bool {
    &&& forall|digest: Seq<char>|
        #![trigger find_content(batch, digest)]
        find_content(batch, digest) is Some ==> find_content(together, digest) == find_content(
            batch,
            digest,
        )
    &&& forall|digest: Seq<char>|
        #![trigger find_content(together, digest)]
        find_content(together, digest) is Some ==> find_content(together, digest) == find_content(
            earlier,
            digest,
        ) || find_content(together, digest) == find_content(batch, digest)
}

proof fn lemma_contents_together(
    earlier: Seq<ContentView>,
    batch: Seq<ContentView>,
    together: Seq<ContentView>,
    additions: Seq<ContentView>,
)
    requires
        stores_together(earlier, batch, together),
        with_contents(together, additions) is Ok,
    ensures
        with_contents(batch, additions) is Ok,
        stores_together(
            earlier,
            with_contents(batch, additions)->Ok_0,
            with_contents(together, additions)->Ok_0,
        ),
    decreases additions.len(),
{
    if additions.len() > 0 {
        let init = additions.subrange(0, additions.len() - 1);
        let addition = additions[additions.len() - 1];
        lemma_contents_together(earlier, batch, together, init);
        let small = with_contents(batch, init)->Ok_0;
        let large = with_contents(together, init)->Ok_0;
        let next_small = with_contents(batch, additions);
        let next_large = with_contents(together, additions)->Ok_0;
        assert(find_content(small, addition.digest) is Some ==> find_content(
            large,
            addition.digest,
        ) == find_content(small, addition.digest));
        assert(next_small is Ok);
        let after_small = next_small->Ok_0;
        assert forall|digest: Seq<char>|
            #![trigger find_content(after_small, digest)]
            find_content(after_small, digest) is Some implies find_content(next_large, digest)
            == find_content(after_small, digest) by {
            lemma_find_pushed(small, addition, digest);
            lemma_find_pushed(large, addition, digest);
            assert(find_content(small, digest) is Some ==> find_content(large, digest)
                == find_content(small, digest));
        }
        assert forall|digest: Seq<char>|
            #![trigger find_content(next_large, digest)]
            find_content(next_large, digest) is Some implies find_content(next_large, digest)
            == find_content(earlier, digest) || find_content(next_large, digest) == find_content(
            after_small,
            digest,
        ) by {
            lemma_find_pushed(small, addition, digest);
            lemma_find_pushed(large, addition, digest);
            assert(find_content(small, digest) is Some ==> find_content(large, digest)
                == find_content(small, digest));
            assert(find_content(large, digest) is Some ==> find_content(large, digest)
                == find_content(earlier, digest) || find_content(large, digest) == find_content(
                small,
                digest,
            ));
        }
    }
}

proof fn lemma_batch_continues(
    state: CompactionView,
    wires: Seq<JsonView>,
    session_id: Seq<char>,
)
    requires
        compacted(state, wires, session_id) is Ok,
    ensures
        ({
            let whole = compacted(state, wires, session_id)->Ok_0;
            let fresh = compacted(
                compaction_start(state.parent, state.references),
                wires,
                session_id,
            );
            &&& fresh is Ok
            &&& continues(state, fresh->Ok_0, whole)
        }),
    decreases wires.len(),
{
    let start = compaction_start(state.parent, state.references);
    if wires.len() == 0 {
        assert(state.wires + start.wires =~= state.wires);
        assert(state.manifests + start.manifests =~= state.manifests);
    } else {
        let init = wires.subrange(0, wires.len() - 1);
        let wire = wires[wires.len() - 1];
        lemma_batch_continues(state, init, session_id);
        let large = compacted(state, init, session_id)->Ok_0;
        let small = compacted(start, init, session_id)->Ok_0;
        let whole = compacted(state, wires, session_id)->Ok_0;
        if model_request(wire) {
            let observations = observations_of(wire);
            let additions = prepared(observations, large.references)->Ok_0.0;
            lemma_contents_together(state.contents, small.contents, large.contents, additions);
        }
        let batch = compacted(start, wires, session_id)->Ok_0;
        assert(state.wires + batch.wires =~= whole.wires);
        assert(state.manifests + batch.manifests =~= whole.manifests);
    }
}

/// Whether what a batch stores continues what was stored before it.
pub open spec fn continues(
    earlier: CompactionView,
    batch: CompactionView,
    together: CompactionView,
) -> bool {
    &&& together.wires == earlier.wires + batch.wires
    &&& together.manifests == earlier.manifests + batch.manifests
    &&& together.parent == batch.parent
    &&& together.references == batch.references
    &&& stores_together(earlier.contents, batch.contents, together.contents)
}

/// A log that is written batch by batch, each after what the one before it saw, holds what it
/// would hold if it were written at once.
pub proof fn law_batches_continue(
    first: Seq<JsonView>,
    second: Seq<JsonView>,
    session_id: Seq<char>,
)
    requires
        compacted(compaction_start(None, Seq::empty()), first + second, session_id) is Ok,
    ensures
        ({
            let start = compaction_start(None, Seq::empty());
            let together = compacted(start, first + second, session_id)->Ok_0;
            let earlier = compacted(start, first, session_id);
            let batch = compacted(
                compaction_start(earlier->Ok_0.parent, earlier->Ok_0.references),
                second,
                session_id,
            );
            &&& earlier is Ok
            &&& batch is Ok
            &&& continues(earlier->Ok_0, batch->Ok_0, together)
        }),
{
    let start = compaction_start(None, Seq::empty());
    let both = first + second;
    assert(both.subrange(0, first.len() as int) =~= first);
    lemma_compacted_prefix(start, both, session_id, first.len() as int);
    lemma_compacted_together(start, first, second, session_id);
    lemma_batch_continues(compacted(start, first, session_id)->Ok_0, second, session_id);
}

proof fn lemma_compacted_prefix(
    start: CompactionView,
    wires: Seq<JsonView>,
    session_id: Seq<char>,
    n: int,
)
    requires
        compacted(start, wires, session_id) is Ok,
        0 <= n <= wires.len(),
    ensures
        compacted(start, wires.subrange(0, n), session_id) is Ok,
    decreases wires.len(),
{
    if n == wires.len() {
        assert(wires.subrange(0, n) =~= wires);
    } else {
        let init = wires.subrange(0, wires.len() - 1);
        lemma_compacted_prefix(start, init, session_id, n);
        assert(init.subrange(0, n) =~= wires.subrange(0, n));
    }
}

} // verus!
