//! Content-addressed model observations: the manifests that record which observations a model
//! request saw, as a change against the request before it.

use crate::digest::{is_tagged_digest, tagged, tagged_text_digest, valid_tagged};
use crate::json::{
    field, json_parsed, json_text, json_views, keys_are, keys_distinct, list, object3, parse_json,
    plain, text_field, write_json, Json, JsonView,
};
use crate::text::{concat2, optional_text, text_equals, three_texts};
use vstd::prelude::*;
use vstd::utf8::encode_utf8;

verus! {

/// One observation as it is stored: its digest, its kind and its canonical JSON text.
#[derive(Debug)]
pub struct ObservationContent {
    pub digest: String,
    pub kind: String,
    pub content_json: String,
}

pub struct ContentView {
    pub digest: Seq<char>,
    pub kind: Seq<char>,
    pub text: Seq<char>,
}

impl View for ObservationContent {
    type V = ContentView;

    open spec fn view(&self) -> ContentView {
        ContentView { digest: self.digest@, kind: self.kind@, text: self.content_json@ }
    }
}

/// A reference to a stored observation.
#[derive(Debug)]
pub struct ObservationReference {
    pub kind: String,
    pub digest: String,
}

pub struct ReferenceView {
    pub kind: Seq<char>,
    pub digest: Seq<char>,
}

impl View for ObservationReference {
    type V = ReferenceView;

    open spec fn view(&self) -> ReferenceView {
        ReferenceView { kind: self.kind@, digest: self.digest@ }
    }
}

/// The observation that stands at `index` after a request.
#[derive(Debug)]
pub struct ObservationChange {
    pub index: usize,
    pub reference: ObservationReference,
}

pub struct ChangeView {
    pub index: nat,
    pub reference: ReferenceView,
}

impl View for ObservationChange {
    type V = ChangeView;

    open spec fn view(&self) -> ChangeView {
        ChangeView { index: self.index as nat, reference: self.reference@ }
    }
}

/// What one model request saw: how many observations, and which of them differ from the parent.
#[derive(Debug)]
pub struct ObservationManifest {
    pub digest: String,
    pub parent_digest: Option<String>,
    pub observation_count: usize,
    pub changes: Vec<ObservationChange>,
    pub content_json: String,
}

pub struct ManifestView {
    pub digest: Seq<char>,
    pub parent: Option<Seq<char>>,
    pub count: nat,
    pub changes: Seq<ChangeView>,
    pub text: Seq<char>,
}

impl View for ObservationManifest {
    type V = ManifestView;

    open spec fn view(&self) -> ManifestView {
        ManifestView {
            digest: self.digest@,
            parent: optional_text(self.parent_digest),
            count: self.observation_count as nat,
            changes: change_views(self.changes@),
            text: self.content_json@,
        }
    }
}

pub open spec fn reference_views(items: Seq<ObservationReference>) -> Seq<ReferenceView> {
    Seq::new(items.len(), |i: int| items[i]@)
}

pub open spec fn change_views(items: Seq<ObservationChange>) -> Seq<ChangeView> {
    Seq::new(items.len(), |i: int| items[i]@)
}

pub open spec fn content_views(items: Seq<ObservationContent>) -> Seq<ContentView> {
    Seq::new(items.len(), |i: int| items[i]@)
}

/// The kinds of observation that can be stored.
pub open spec fn stored_kind(kind: Seq<char>) -> bool {
    kind == "system_prompt"@ || kind == "message"@ || kind == "input_image"@ || kind
        == "tool_catalog"@ || kind == "compaction_prompt"@
}

pub fn valid_kind(kind: &str) -> (result: bool)
    ensures
        result == stored_kind(kind@),
{
    text_equals(kind, "system_prompt") || text_equals(kind, "message") || text_equals(
        kind,
        "input_image",
    ) || text_equals(kind, "tool_catalog") || text_equals(kind, "compaction_prompt")
}

/// The digest under which the text of an observation is stored.
pub open spec fn content_digest(text: Seq<char>) -> Seq<char> {
    tagged(encode_utf8("centaeris.model_observation_content.v1\0"@ + text))
}

/// The digest under which the text of a manifest is stored.
pub open spec fn manifest_digest(text: Seq<char>) -> Seq<char> {
    tagged(encode_utf8("centaeris.model_observation_manifest.v1\0"@ + text))
}

pub fn digest_content(content_json: &str) -> (result: String)
    ensures
        result@ == content_digest(content_json@),
        valid_tagged(result@),
{
    tagged_text_digest(
        concat2("centaeris.model_observation_content.v1\0", content_json).as_str(),
    )
}

pub fn digest_manifest(content_json: &str) -> (result: String)
    ensures
        result@ == manifest_digest(content_json@),
        valid_tagged(result@),
{
    tagged_text_digest(
        concat2("centaeris.model_observation_manifest.v1\0", content_json).as_str(),
    )
}

pub fn validate_digest(digest: &str) -> (result: Result<(), String>)
    ensures
        match result {
            Ok(()) => valid_tagged(digest@),
            Err(message) => !valid_tagged(digest@) && message@
                == "model observation content digest is invalid"@,
        },
{
    if is_tagged_digest(digest) {
        Ok(())
    } else {
        Err("model observation content digest is invalid".to_owned())
    }
}

/// Whether two references are the same.
pub fn same_reference(a: &ObservationReference, b: &ObservationReference) -> (result: bool)
    ensures
        result == (a@ == b@),
{
    text_equals(a.kind.as_str(), b.kind.as_str()) && text_equals(
        a.digest.as_str(),
        b.digest.as_str(),
    )
}

/// Copies a reference.
pub fn copy_reference(a: &ObservationReference) -> (result: ObservationReference)
    ensures
        result@ == a@,
{
    ObservationReference { kind: a.kind.clone(), digest: a.digest.clone() }
}

/// Copies a list of references.
pub fn copy_references(items: &Vec<ObservationReference>) -> (result: Vec<ObservationReference>)
    ensures
        reference_views(result@) == reference_views(items@),
{
    let mut out: Vec<ObservationReference> = Vec::new();
    let mut i: usize = 0;
    while i < items.len()
        invariant
            i <= items.len(),
            out.len() == i,
            forall|j: int| 0 <= j < i ==> (#[trigger] out@[j])@ == items@[j]@,
        decreases items.len() - i,
    {
        out.push(copy_reference(&items[i]));
        i = i + 1;
    }
    assert(reference_views(out@) =~= reference_views(items@));
    out
}

/// Whether the observation at `index` differs from the one that the parent has there.
pub open spec fn changed(
    parent: Seq<ReferenceView>,
    references: Seq<ReferenceView>,
    index: int,
) -> bool {
    index >= parent.len() || parent[index] != references[index]
}

/// The changes among the first `n` observations, in the order of their indices.
pub open spec fn delta(parent: Seq<ReferenceView>, references: Seq<ReferenceView>, n: nat) -> Seq<
    ChangeView,
>
    decreases n,
{
    if n == 0 {
        Seq::empty()
    } else if changed(parent, references, n - 1) {
        delta(parent, references, (n - 1) as nat).push(
            ChangeView { index: (n - 1) as nat, reference: references[n - 1] },
        )
    } else {
        delta(parent, references, (n - 1) as nat)
    }
}

/// The JSON value of one change.
pub open spec fn change_json(change: ChangeView) -> JsonView {
    JsonView::Object(
        seq![
            ("index"@, JsonView::Unsigned(change.index as u64)),
            ("kind"@, JsonView::Text(change.reference.kind)),
            ("contentDigest"@, JsonView::Text(change.reference.digest)),
        ],
    )
}

/// The JSON values of changes.
pub open spec fn change_jsons(changes: Seq<ChangeView>) -> Seq<JsonView> {
    Seq::new(changes.len(), |i: int| change_json(changes[i]))
}

/// The JSON value of an optional text.
pub open spec fn optional_json(value: Option<Seq<char>>) -> JsonView {
    match value {
        Some(s) => JsonView::Text(s),
        None => JsonView::Null,
    }
}

/// The JSON value of a manifest.
pub open spec fn manifest_json(
    parent: Option<Seq<char>>,
    count: nat,
    changes: Seq<ChangeView>,
) -> JsonView {
    JsonView::Object(
        seq![
            ("parentDigest"@, optional_json(parent)),
            ("observationCount"@, JsonView::Unsigned(count as u64)),
            ("changes"@, JsonView::List(change_jsons(changes))),
        ],
    )
}

/// The manifest of a request that saw `references` after a request that saw `parent`.
pub open spec fn built(
    parent_digest: Option<Seq<char>>,
    parent: Seq<ReferenceView>,
    references: Seq<ReferenceView>,
) -> ManifestView {
    let changes = delta(parent, references, references.len());
    let text = json_text(manifest_json(parent_digest, references.len(), changes));
    ManifestView {
        digest: manifest_digest(text),
        parent: parent_digest,
        count: references.len(),
        changes,
        text,
    }
}

/// Applies `changes` in order: a change replaces what stands at its index or extends the list by
/// one.
pub open spec fn apply_changes(
    start: Seq<ReferenceView>,
    changes: Seq<ChangeView>,
) -> Result<Seq<ReferenceView>, Seq<char>>
    decreases changes.len(),
{
    if changes.len() == 0 {
        Ok(start)
    } else {
        match apply_changes(start, changes.subrange(0, changes.len() - 1)) {
            Err(message) => Err(message),
            Ok(references) => {
                let change = changes[changes.len() - 1];
                if change.index < references.len() {
                    if references[change.index as int] == change.reference {
                        Err("model observation manifest contains a redundant change"@)
                    } else {
                        Ok(references.update(change.index as int, change.reference))
                    }
                } else if change.index == references.len() {
                    Ok(references.push(change.reference))
                } else {
                    Err("model observation manifest append range has a hole"@)
                }
            },
        }
    }
}

/// `references` cut to at most `count` elements.
pub open spec fn cut(references: Seq<ReferenceView>, count: nat) -> Seq<ReferenceView> {
    if count <= references.len() {
        references.subrange(0, count as int)
    } else {
        references
    }
}

/// The observations of a request, from its manifest and the observations of its parent.
pub open spec fn applied(
    parent_digest: Option<Seq<char>>,
    count: nat,
    changes: Seq<ChangeView>,
    references: Seq<ReferenceView>,
) -> Result<Seq<ReferenceView>, Seq<char>> {
    if parent_digest is None && references.len() > 0 {
        Err("root model observation manifest has a parent state"@)
    } else {
        match apply_changes(cut(references, count), changes) {
            Err(message) => Err(message),
            Ok(result) => if result.len() != count {
                Err("model observation manifest count mismatch"@)
            } else {
                Ok(result)
            },
        }
    }
}

/// The parent's observations with the first `n` of the request's in place.
spec fn overlaid(
    parent: Seq<ReferenceView>,
    references: Seq<ReferenceView>,
    n: nat,
) -> Seq<ReferenceView> {
    let base = cut(parent, references.len());
    if n <= base.len() {
        references.subrange(0, n as int) + base.subrange(n as int, base.len() as int)
    } else {
        references.subrange(0, n as int)
    }
}

proof fn lemma_apply_delta(
    parent: Seq<ReferenceView>,
    references: Seq<ReferenceView>,
    n: nat,
)
    requires
        n <= references.len(),
    ensures
        apply_changes(cut(parent, references.len()), delta(parent, references, n)) == Ok::<
            Seq<ReferenceView>,
            Seq<char>,
        >(overlaid(parent, references, n)),
    decreases n,
{
    let base = cut(parent, references.len());
    if n == 0 {
        assert(overlaid(parent, references, 0) =~= base);
    } else {
        let m = (n - 1) as nat;
        lemma_apply_delta(parent, references, m);
        let before = overlaid(parent, references, m);
        let after = overlaid(parent, references, n);
        let changes = delta(parent, references, n);
        if changed(parent, references, m as int) {
            assert(changes.subrange(0, changes.len() - 1) =~= delta(parent, references, m));
            let change = changes[changes.len() - 1];
            assert(change.index == m && change.reference == references[m as int]);
            if m < base.len() {
                assert(before[m as int] == parent[m as int]);
                assert(before.update(m as int, references[m as int]) =~= after);
            } else {
                assert(before.len() == m);
                assert(before.push(references[m as int]) =~= after);
            }
        } else {
            assert(parent[m as int] == references[m as int]);
            assert(m < base.len());
            assert(before =~= after);
        }
    }
}

/// Applying the manifest of a request to the observations of its parent gives the observations
/// of the request. A manifest without a parent stands at the start, where there are none.
pub proof fn law_apply_undoes_build(
    parent_digest: Option<Seq<char>>,
    parent: Seq<ReferenceView>,
    references: Seq<ReferenceView>,
)
    requires
        parent_digest is None ==> parent.len() == 0,
    ensures
        ({
            let manifest = built(parent_digest, parent, references);
            applied(manifest.parent, manifest.count, manifest.changes, parent) == Ok::<
                Seq<ReferenceView>,
                Seq<char>,
            >(references)
        }),
{
    lemma_apply_delta(parent, references, references.len());
    assert(overlaid(parent, references, references.len()) =~= references);
}

/// The changes of a manifest stand at ascending indices below its count, and each holds what the
/// request has there.
pub proof fn lemma_delta(parent: Seq<ReferenceView>, references: Seq<ReferenceView>, n: nat)
    requires
        n <= references.len(),
    ensures
        ({
            let changes = delta(parent, references, n);
            &&& changes.len() <= n
            &&& parent.len() == 0 ==> changes.len() == n
            &&& forall|i: int|
                0 <= i < changes.len() ==> (#[trigger] changes[i]).index < n
                    && changes[i].reference == references[changes[i].index as int] && (parent.len()
                    == 0 ==> changes[i].index == i)
            &&& forall|i: int, j: int|
                0 <= i < j < changes.len() ==> (#[trigger] changes[i]).index < (
                #[trigger] changes[j]).index
        }),
    decreases n,
{
    if n > 0 {
        lemma_delta(parent, references, (n - 1) as nat);
    }
}

/// Applies a manifest to the observations of its parent.
pub fn apply_manifest(
    manifest: &ObservationManifest,
    references: Vec<ObservationReference>,
) -> (result: Result<Vec<ObservationReference>, String>)
    ensures
        match result {
            Ok(list) => applied(
                manifest@.parent,
                manifest@.count,
                manifest@.changes,
                reference_views(references@),
            ) == Ok::<Seq<ReferenceView>, Seq<char>>(reference_views(list@)),
            Err(message) => applied(
                manifest@.parent,
                manifest@.count,
                manifest@.changes,
                reference_views(references@),
            ) == Err::<Seq<ReferenceView>, Seq<char>>(message@),
        },
{
    if manifest.parent_digest.is_none() && references.len() > 0 {
        return Err("root model observation manifest has a parent state".to_owned());
    }
    let ghost start = reference_views(references@);
    let mut current = references;
    current.truncate(manifest.observation_count);
    let ghost base = cut(start, manifest.observation_count as nat);
    let ghost changes = manifest@.changes;
    assert(reference_views(current@) =~= base);
    assert(changes.subrange(0, 0) =~= Seq::empty());
    let mut i: usize = 0;
    while i < manifest.changes.len()
        invariant
            i <= manifest.changes.len(),
            changes == change_views(manifest.changes@),
            start == reference_views(references@),
            base == cut(start, manifest.observation_count as nat),
            manifest.parent_digest is None ==> start.len() == 0,
            apply_changes(base, changes.subrange(0, i as int)) == Ok::<
                Seq<ReferenceView>,
                Seq<char>,
            >(reference_views(current@)),
        decreases manifest.changes.len() - i,
    {
        let ghost before = reference_views(current@);
        proof {
            let next = changes.subrange(0, i + 1);
            assert(next.subrange(0, next.len() - 1) =~= changes.subrange(0, i as int));
            assert(next[next.len() - 1] == manifest.changes@[i as int]@);
        }
        let change = &manifest.changes[i];
        if change.index < current.len() {
            assert(before[change.index as int] == current@[change.index as int]@);
            if same_reference(&current[change.index], &change.reference) {
                proof {
                    lemma_changes_error(base, changes, i + 1);
                }
                return Err("model observation manifest contains a redundant change".to_owned());
            }
            let replacement = copy_reference(&change.reference);
            current.set(change.index, replacement);
            assert(reference_views(current@) =~= before.update(
                change.index as int,
                change.reference@,
            ));
        } else if change.index == current.len() {
            current.push(copy_reference(&change.reference));
            assert(reference_views(current@) =~= before.push(change.reference@));
        } else {
            proof {
                lemma_changes_error(base, changes, i + 1);
            }
            return Err("model observation manifest append range has a hole".to_owned());
        }
        i = i + 1;
    }
    assert(changes.subrange(0, changes.len() as int) =~= changes);
    if current.len() != manifest.observation_count {
        return Err("model observation manifest count mismatch".to_owned());
    }
    Ok(current)
}

/// The first error among the changes is the error of all of them.
proof fn lemma_changes_error(base: Seq<ReferenceView>, changes: Seq<ChangeView>, n: int)
    requires
        0 <= n <= changes.len(),
        apply_changes(base, changes.subrange(0, n)) is Err,
    ensures
        apply_changes(base, changes) == apply_changes(base, changes.subrange(0, n)),
    decreases changes.len() - n,
{
    if n == changes.len() {
        assert(changes.subrange(0, n) =~= changes);
    } else {
        let next = changes.subrange(0, n + 1);
        assert(next.subrange(0, next.len() - 1) =~= changes.subrange(0, n));
        lemma_changes_error(base, changes, n + 1);
    }
}


/// The parent that a manifest's JSON value names.
pub open spec fn parent_of(digest: Seq<char>, value: JsonView) -> Result<
    Option<Seq<char>>,
    Seq<char>,
> {
    match field(value, "parentDigest"@) {
        Some(JsonView::Null) => Ok(None),
        Some(JsonView::Text(parent)) => if !valid_tagged(parent) {
            Err("model observation content digest is invalid"@)
        } else if parent == digest {
            Err("stored model observation manifest self-parent"@)
        } else {
            Ok(Some(parent))
        },
        _ => Err("stored model observation manifest parentDigest is invalid"@),
    }
}

/// The number under `key` as a length.
pub open spec fn length_field(value: JsonView, key: Seq<char>) -> Option<nat> {
    match field(value, key) {
        Some(JsonView::Unsigned(n)) => if n <= usize::MAX {
            Some(n as nat)
        } else {
            None
        },
        _ => None,
    }
}

/// One change of a manifest of `count` observations, after the changes `previous`.
pub open spec fn change_of(
    item: JsonView,
    count: nat,
    previous: Seq<ChangeView>,
) -> Result<ChangeView, Seq<char>> {
    if !(item is Object) {
        Err("stored model observation manifest change is invalid"@)
    } else if !keys_are(item->Object_0, seq!["index"@, "kind"@, "contentDigest"@]) {
        Err("stored model observation manifest change fields mismatch"@)
    } else if !(length_field(item, "index"@) is Some && length_field(item, "index"@)->0 < count) {
        Err("stored model observation manifest change index is invalid"@)
    } else {
        let index = length_field(item, "index"@)->0;
        if previous.len() > 0 && index <= previous[previous.len() - 1].index {
            Err("stored model observation manifest changes are not ordered"@)
        } else if !(text_field(item, "kind"@) is Some && stored_kind(
            text_field(item, "kind"@)->0,
        )) {
            Err("stored model observation manifest change kind is invalid"@)
        } else if text_field(item, "contentDigest"@) is None {
            Err("stored model observation manifest change contentDigest is invalid"@)
        } else if !valid_tagged(text_field(item, "contentDigest"@)->0) {
            Err("model observation content digest is invalid"@)
        } else {
            Ok(
                ChangeView {
                    index,
                    reference: ReferenceView {
                        kind: text_field(item, "kind"@)->0,
                        digest: text_field(item, "contentDigest"@)->0,
                    },
                },
            )
        }
    }
}

/// The changes of a manifest of `count` observations, or the error of the first that is invalid.
pub open spec fn changes_of(items: Seq<JsonView>, count: nat) -> Result<
    Seq<ChangeView>,
    Seq<char>,
>
    decreases items.len(),
{
    if items.len() == 0 {
        Ok(Seq::empty())
    } else {
        match changes_of(items.subrange(0, items.len() - 1), count) {
            Err(message) => Err(message),
            Ok(previous) => match change_of(items[items.len() - 1], count, previous) {
                Err(message) => Err(message),
                Ok(change) => Ok(previous.push(change)),
            },
        }
    }
}

/// Whether the changes stand at the indices from zero on.
pub open spec fn without_hole(changes: Seq<ChangeView>) -> bool {
    forall|i: int| 0 <= i < changes.len() ==> (#[trigger] changes[i]).index == i
}

/// The manifest that is stored under `digest` as `text`, which reads as `value`.
pub open spec fn manifest_of(digest: Seq<char>, text: Seq<char>, value: JsonView) -> Result<
    ManifestView,
    Seq<char>,
> {
    if !(value is Object) {
        Err("stored model observation manifest is invalid"@)
    } else if !keys_are(
        value->Object_0,
        seq!["parentDigest"@, "observationCount"@, "changes"@],
    ) {
        Err("stored model observation manifest fields mismatch"@)
    } else {
        match parent_of(digest, value) {
            Err(message) => Err(message),
            Ok(parent) => match length_field(value, "observationCount"@) {
                None => Err("stored model observation manifest count is invalid"@),
                Some(count) => match field(value, "changes"@) {
                    Some(JsonView::List(items)) => match changes_of(items, count) {
                        Err(message) => Err(message),
                        Ok(changes) => if parent is None && !without_hole(changes) {
                            Err("root model observation manifest append range has a hole"@)
                        } else {
                            Ok(ManifestView { digest, parent, count, changes, text })
                        },
                    },
                    _ => Err("stored model observation manifest changes are invalid"@),
                },
            },
        }
    }
}

/// The manifest that is stored under `digest` as `text`.
pub open spec fn decoded_manifest(digest: Seq<char>, text: Seq<char>) -> Result<
    ManifestView,
    Seq<char>,
> {
    if !valid_tagged(digest) {
        Err("model observation content digest is invalid"@)
    } else if manifest_digest(text) != digest {
        Err("stored model observation manifest digest mismatch"@)
    } else {
        match json_parsed(text) {
            Err(message) => Err("decode stored model observation manifest failed: "@ + message),
            Ok(value) => if json_text(value) != text {
                Err("stored model observation manifest is not canonical JSON"@)
            } else {
                manifest_of(digest, text, value)
            },
        }
    }
}

/// Whether a result of the library is what a specification says.
pub open spec fn agrees<T, V>(
    result: Result<T, String>,
    view: spec_fn(T) -> V,
    expected: Result<V, Seq<char>>,
) -> bool {
    match result {
        Ok(value) => expected == Ok::<V, Seq<char>>(view(value)),
        Err(message) => expected == Err::<V, Seq<char>>(message@),
    }
}

/// The number under `key` as a length.
fn get_length(value: &Json, key: &str) -> (result: Option<usize>)
    ensures
        match result {
            Some(n) => length_field(value@, key@) == Some(n as nat),
            None => length_field(value@, key@) == None::<nat>,
        },
{
    match value.get(key) {
        Some(Json::Unsigned(n)) => {
            let n: u64 = *n;
            if n <= usize::MAX as u64 {
                Some(n as usize)
            } else {
                None
            }
        },
        _ => None,
    }
}

/// Reads one change of a manifest of `count` observations, after the changes `previous`.
fn decode_change(item: &Json, count: usize, previous: &Vec<ObservationChange>) -> (result: Result<
    ObservationChange,
    String,
>)
    ensures
        agrees(
            result,
            |change: ObservationChange| change@,
            change_of(item@, count as nat, change_views(previous@)),
        ),
{
    match item {
        Json::Object(_) => {},
        _ => {
            return Err("stored model observation manifest change is invalid".to_owned());
        },
    }
    if !item.has_exact_keys(&three_texts("index", "kind", "contentDigest")) {
        return Err("stored model observation manifest change fields mismatch".to_owned());
    }
    let index: usize = match get_length(item, "index") {
        Some(index) => if index < count {
            index
        } else {
            return Err("stored model observation manifest change index is invalid".to_owned());
        },
        None => {
            return Err("stored model observation manifest change index is invalid".to_owned());
        },
    };
    if previous.len() > 0 && index <= previous[previous.len() - 1].index {
        return Err("stored model observation manifest changes are not ordered".to_owned());
    }
    let kind: String = match item.get_text("kind") {
        Some(kind) => if valid_kind(kind.as_str()) {
            kind.clone()
        } else {
            return Err("stored model observation manifest change kind is invalid".to_owned());
        },
        None => {
            return Err("stored model observation manifest change kind is invalid".to_owned());
        },
    };
    let digest: String = match item.get_text("contentDigest") {
        Some(digest) => digest.clone(),
        None => {
            return Err(
                "stored model observation manifest change contentDigest is invalid".to_owned(),
            );
        },
    };
    match validate_digest(digest.as_str()) {
        Ok(()) => {},
        Err(message) => {
            return Err(message);
        },
    }
    Ok(ObservationChange { index, reference: ObservationReference { kind, digest } })
}

/// The first error among the items is the error of all of them.
proof fn lemma_items_error(items: Seq<JsonView>, count: nat, n: int)
    requires
        0 <= n <= items.len(),
        changes_of(items.subrange(0, n), count) is Err,
    ensures
        changes_of(items, count) == changes_of(items.subrange(0, n), count),
    decreases items.len() - n,
{
    if n == items.len() {
        assert(items.subrange(0, n) =~= items);
    } else {
        let next = items.subrange(0, n + 1);
        assert(next.subrange(0, next.len() - 1) =~= items.subrange(0, n));
        lemma_items_error(items, count, n + 1);
    }
}

/// Reads the changes of a manifest of `count` observations.
fn decode_changes(items: &Vec<Json>, count: usize) -> (result: Result<
    Vec<ObservationChange>,
    String,
>)
    ensures
        agrees(
            result,
            |changes: Vec<ObservationChange>| change_views(changes@),
            changes_of(json_views(items@), count as nat),
        ),
{
    let ghost all = json_views(items@);
    let mut changes: Vec<ObservationChange> = Vec::new();
    let mut i: usize = 0;
    assert(all.subrange(0, 0) =~= Seq::empty());
    assert(change_views(changes@) =~= Seq::empty());
    while i < items.len()
        invariant
            i <= items.len(),
            all == json_views(items@),
            changes_of(all.subrange(0, i as int), count as nat) == Ok::<
                Seq<ChangeView>,
                Seq<char>,
            >(change_views(changes@)),
        decreases items.len() - i,
    {
        proof {
            let next = all.subrange(0, i + 1);
            assert(next.subrange(0, next.len() - 1) =~= all.subrange(0, i as int));
            assert(next[next.len() - 1] == items@[i as int]@);
        }
        let ghost before = change_views(changes@);
        match decode_change(&items[i], count, &changes) {
            Ok(change) => {
                changes.push(change);
                assert(change_views(changes@) =~= before.push(change@));
            },
            Err(message) => {
                proof {
                    lemma_items_error(all, count as nat, i + 1);
                }
                return Err(message);
            },
        }
        i = i + 1;
    }
    assert(all.subrange(0, all.len() as int) =~= all);
    Ok(changes)
}

/// Whether the changes stand at the indices from zero on.
fn has_no_hole(changes: &Vec<ObservationChange>) -> (result: bool)
    ensures
        result == without_hole(change_views(changes@)),
{
    let ghost views = change_views(changes@);
    let mut i: usize = 0;
    while i < changes.len()
        invariant
            i <= changes.len(),
            views == change_views(changes@),
            forall|j: int| 0 <= j < i ==> (#[trigger] views[j]).index == j,
        decreases changes.len() - i,
    {
        assert(views[i as int] == changes@[i as int]@);
        if changes[i].index != i {
            return false;
        }
        i = i + 1;
    }
    true
}

/// Reads a manifest from the JSON value of its text.
pub fn manifest_from_value(digest: &str, content_json: String, value: &Json) -> (result: Result<
    ObservationManifest,
    String,
>)
    ensures
        agrees(
            result,
            |manifest: ObservationManifest| manifest@,
            manifest_of(digest@, content_json@, value@),
        ),
{
    match value {
        Json::Object(_) => {},
        _ => {
            return Err("stored model observation manifest is invalid".to_owned());
        },
    }
    if !value.has_exact_keys(&three_texts("parentDigest", "observationCount", "changes")) {
        return Err("stored model observation manifest fields mismatch".to_owned());
    }
    let parent_digest: Option<String> = match value.get("parentDigest") {
        Some(Json::Null) => None,
        Some(Json::Text(parent)) => {
            match validate_digest(parent.as_str()) {
                Ok(()) => {},
                Err(message) => {
                    return Err(message);
                },
            }
            if text_equals(parent.as_str(), digest) {
                return Err("stored model observation manifest self-parent".to_owned());
            }
            Some(parent.clone())
        },
        _ => {
            return Err("stored model observation manifest parentDigest is invalid".to_owned());
        },
    };
    let observation_count: usize = match get_length(value, "observationCount") {
        Some(count) => count,
        None => {
            return Err("stored model observation manifest count is invalid".to_owned());
        },
    };
    let changes = match value.get("changes") {
        Some(Json::List(items)) => {
            assert(field(value@, "changes"@)->0->List_0 =~= json_views(items@));
            match decode_changes(items, observation_count) {
                Ok(changes) => changes,
                Err(message) => {
                    return Err(message);
                },
            }
        },
        _ => {
            return Err("stored model observation manifest changes are invalid".to_owned());
        },
    };
    if parent_digest.is_none() && !has_no_hole(&changes) {
        return Err("root model observation manifest append range has a hole".to_owned());
    }
    Ok(
        ObservationManifest {
            digest: digest.to_owned(),
            parent_digest,
            observation_count,
            changes,
            content_json,
        },
    )
}

/// Reads the manifest that is stored under `digest`.
pub fn decode_manifest(digest: &str, content_json: String) -> (result: Result<
    ObservationManifest,
    String,
>)
    ensures
        agrees(
            result,
            |manifest: ObservationManifest| manifest@,
            decoded_manifest(digest@, content_json@),
        ),
{
    match validate_digest(digest) {
        Ok(()) => {},
        Err(message) => {
            return Err(message);
        },
    }
    if !text_equals(digest_manifest(content_json.as_str()).as_str(), digest) {
        return Err("stored model observation manifest digest mismatch".to_owned());
    }
    match parse_json(content_json.as_str()) {
        Err(message) => Err(
            concat2("decode stored model observation manifest failed: ", message.as_str()),
        ),
        Ok(value) => {
            if !text_equals(write_json(&value).as_str(), content_json.as_str()) {
                return Err("stored model observation manifest is not canonical JSON".to_owned());
            }
            manifest_from_value(digest, content_json, &value)
        },
    }
}


/// Whether every reference names a stored kind and a valid digest.
pub open spec fn storable(references: Seq<ReferenceView>) -> bool {
    forall|i: int|
        0 <= i < references.len() ==> stored_kind((#[trigger] references[i]).kind) && valid_tagged(
            references[i].digest,
        )
}

/// Whether a parent, where there is one, is named by a valid digest other than `digest`.
pub open spec fn names_other(parent: Option<Seq<char>>, digest: Seq<char>) -> bool {
    match parent {
        Some(p) => valid_tagged(p) && p != digest,
        None => true,
    }
}

proof fn lemma_manifest_keys()
    ensures
        "changes"@ != "observationCount"@,
        "changes"@ != "parentDigest"@,
        "observationCount"@ != "parentDigest"@,
        "contentDigest"@ != "index"@,
        "contentDigest"@ != "kind"@,
        "index"@ != "kind"@,
{
    reveal_strlit("changes");
    reveal_strlit("observationCount");
    reveal_strlit("parentDigest");
    reveal_strlit("contentDigest");
    reveal_strlit("index");
    reveal_strlit("kind");
    assert("changes"@[0] == 'c');
    assert("observationCount"@[0] == 'o');
    assert("parentDigest"@[0] == 'p');
    assert("contentDigest"@[0] == 'c');
    assert("index"@[0] == 'i');
    assert("kind"@[0] == 'k');
}

proof fn lemma_manifest_plain(
    parent: Option<Seq<char>>,
    count: nat,
    changes: Seq<ChangeView>,
)
    ensures
        plain(manifest_json(parent, count, changes), 100),
{
    lemma_manifest_keys();
    let items = change_jsons(changes);
    assert forall|i: int| 0 <= i < items.len() implies plain(#[trigger] items[i], 98) by {
        let entries = items[i]->Object_0;
        assert(entries[0].0 == "index"@ && entries[1].0 == "kind"@ && entries[2].0
            == "contentDigest"@);
        assert(keys_distinct(entries));
        assert forall|j: int| 0 <= j < entries.len() implies plain((#[trigger] entries[j]).1, 97) by {
        }
    }
    let value = manifest_json(parent, count, changes);
    let entries = value->Object_0;
    assert(entries[0].0 == "parentDigest"@ && entries[1].0 == "observationCount"@ && entries[2].0
        == "changes"@);
    assert(keys_distinct(entries));
    assert(plain(entries[2].1, 99));
    assert forall|j: int| 0 <= j < entries.len() implies plain((#[trigger] entries[j]).1, 99) by {
    }
}

proof fn lemma_change_round_trip(change: ChangeView, count: nat, previous: Seq<ChangeView>)
    requires
        change.index < count,
        count <= usize::MAX,
        stored_kind(change.reference.kind),
        valid_tagged(change.reference.digest),
        previous.len() > 0 ==> previous[previous.len() - 1].index < change.index,
    ensures
        change_of(change_json(change), count, previous) == Ok::<ChangeView, Seq<char>>(change),
{
    lemma_manifest_keys();
    crate::json::lemma_three_entries(
        "index"@,
        JsonView::Unsigned(change.index as u64),
        "kind"@,
        JsonView::Text(change.reference.kind),
        "contentDigest"@,
        JsonView::Text(change.reference.digest),
    );
}

proof fn lemma_changes_round_trip(changes: Seq<ChangeView>, count: nat)
    requires
        count <= usize::MAX,
        forall|i: int|
            0 <= i < changes.len() ==> (#[trigger] changes[i]).index < count && stored_kind(
                changes[i].reference.kind,
            ) && valid_tagged(changes[i].reference.digest),
        forall|i: int, j: int|
            0 <= i < j < changes.len() ==> (#[trigger] changes[i]).index < (
            #[trigger] changes[j]).index,
    ensures
        changes_of(change_jsons(changes), count) == Ok::<Seq<ChangeView>, Seq<char>>(changes),
    decreases changes.len(),
{
    if changes.len() == 0 {
        assert(changes =~= Seq::empty());
    } else {
        let init = changes.subrange(0, changes.len() - 1);
        let last = changes[changes.len() - 1];
        lemma_changes_round_trip(init, count);
        let items = change_jsons(changes);
        assert(items.subrange(0, items.len() - 1) =~= change_jsons(init));
        if init.len() > 0 {
            assert(init[init.len() - 1] == changes[changes.len() - 2]);
        }
        lemma_change_round_trip(last, count, init);
        assert(init.push(last) =~= changes);
    }
}

/// The JSON value of a manifest reads as the manifest that was built.
proof fn lemma_manifest_round_trip(
    digest: Seq<char>,
    parent_digest: Option<Seq<char>>,
    parent: Seq<ReferenceView>,
    references: Seq<ReferenceView>,
    text: Seq<char>,
)
    requires
        references.len() <= usize::MAX,
        storable(references),
        parent_digest is None ==> parent.len() == 0,
        names_other(parent_digest, digest),
    ensures
        ({
            let changes = delta(parent, references, references.len());
            manifest_of(digest, text, manifest_json(parent_digest, references.len(), changes))
                == Ok::<ManifestView, Seq<char>>(
                ManifestView {
                    digest,
                    parent: parent_digest,
                    count: references.len(),
                    changes,
                    text,
                },
            )
        }),
{
    let count = references.len();
    let changes = delta(parent, references, count);
    lemma_manifest_keys();
    lemma_delta(parent, references, count);
    crate::json::lemma_three_entries(
        "parentDigest"@,
        optional_json(parent_digest),
        "observationCount"@,
        JsonView::Unsigned(count as u64),
        "changes"@,
        JsonView::List(change_jsons(changes)),
    );
    lemma_changes_round_trip(changes, count);
}

/// Builds the manifest of a request that saw `references` after a request that saw `parent`.
///
/// Where the references can be stored, the manifest's text is stored under its digest so that
/// reading it back gives the manifest.
pub fn build_manifest(
    parent_digest: Option<String>,
    parent: &Vec<ObservationReference>,
    references: &Vec<ObservationReference>,
) -> (result: ObservationManifest)
    ensures
        result@ == built(
            optional_text(parent_digest),
            reference_views(parent@),
            reference_views(references@),
        ),
        valid_tagged(result@.digest),
        (storable(reference_views(references@)) && (parent_digest is None ==> parent@.len() == 0)
            && names_other(optional_text(parent_digest), result@.digest)) ==> decoded_manifest(result@.digest, result@.text) == Ok::<ManifestView, Seq<char>>(
            result@,
        ),
{
    let ghost before = reference_views(parent@);
    let ghost after = reference_views(references@);
    let mut changes: Vec<ObservationChange> = Vec::new();
    let mut items: Vec<Json> = Vec::new();
    let mut i: usize = 0;
    assert(change_views(changes@) =~= Seq::empty());
    while i < references.len()
        invariant
            i <= references.len(),
            before == reference_views(parent@),
            after == reference_views(references@),
            change_views(changes@) == delta(before, after, i as nat),
            json_views(items@) == change_jsons(change_views(changes@)),
        decreases references.len() - i,
    {
        let same = i < parent.len() && same_reference(&parent[i], &references[i]);
        assert(same == !changed(before, after, i as int));
        if !same {
            let ghost old_changes = change_views(changes@);
            let ghost old_items = json_views(items@);
            let change = ObservationChange { index: i, reference: copy_reference(&references[i]) };
            let item = object3(
                "index",
                Json::Unsigned(i as u64),
                "kind",
                Json::Text(change.reference.kind.clone()),
                "contentDigest",
                Json::Text(change.reference.digest.clone()),
            );
            changes.push(change);
            items.push(item);
            assert(change_views(changes@) =~= old_changes.push(change@));
            assert(item@ == change_json(change@));
            assert(json_views(items@) =~= old_items.push(change_json(change@)));
            assert(change_jsons(old_changes.push(change@)) =~= change_jsons(old_changes).push(
                change_json(change@),
            ));
        }
        i = i + 1;
    }
    let parent_json = match &parent_digest {
        Some(digest) => Json::Text(digest.clone()),
        None => Json::Null,
    };
    let value = object3(
        "parentDigest",
        parent_json,
        "observationCount",
        Json::Unsigned(references.len() as u64),
        "changes",
        list(items),
    );
    assert(value@ == manifest_json(
        optional_text(parent_digest),
        after.len(),
        delta(before, after, after.len()),
    ));
    let content_json = write_json(&value);
    let digest = digest_manifest(content_json.as_str());
    proof {
        lemma_manifest_plain(
            optional_text(parent_digest),
            after.len(),
            delta(before, after, after.len()),
        );
        if storable(after) && (parent_digest is None ==> before.len() == 0) && names_other(
            optional_text(parent_digest),
            digest@,
        ) {
            lemma_manifest_round_trip(
                digest@,
                optional_text(parent_digest),
                before,
                after,
                content_json@,
            );
        }
    }
    ObservationManifest {
        digest,
        parent_digest,
        observation_count: references.len(),
        changes,
        content_json,
    }
}

/// A manifest lists exactly the places at which the observations differ from those of its parent, in
/// ascending order, with what stands there now.
pub proof fn law_manifests_list_what_changed(
    parent: Seq<ReferenceView>,
    references: Seq<ReferenceView>,
    n: nat,
)
    requires
        n <= references.len(),
    ensures
        ({
            let changes = delta(parent, references, n);
            &&& forall|k: int|
                0 <= k < changes.len() ==> (#[trigger] changes[k]).index < n && changes[k].reference
                    == references[changes[k].index as int]
            &&& forall|k: int, l: int|
                0 <= k < l < changes.len() ==> (#[trigger] changes[k]).index < (
                #[trigger] changes[l]).index
            &&& forall|i: int|
                0 <= i < n ==> (#[trigger] lists_change(changes, i) <==> i >= parent.len()
                    || parent[i] != references[i])
        }),
    decreases n,
{
    if n > 0 {
        let m = (n - 1) as nat;
        law_manifests_list_what_changed(parent, references, m);
        let before = delta(parent, references, m);
        let changes = delta(parent, references, n);
        assert forall|i: int| 0 <= i < n implies (#[trigger] lists_change(changes, i) <==> i
            >= parent.len() || parent[i] != references[i]) by {
            if i < m {
                assert(lists_change(before, i) <==> i >= parent.len() || parent[i]
                    != references[i]);
                if lists_change(before, i) {
                    let k = choose|k: int| 0 <= k < before.len() && (#[trigger] before[k]).index == i;
                    assert(changes[k].index == i);
                }
                if lists_change(changes, i) {
                    let k = choose|k: int|
                        0 <= k < changes.len() && (#[trigger] changes[k]).index == i;
                    assert(k < before.len());
                    assert(before[k].index == i);
                }
            } else {
                if changed(parent, references, i) {
                    assert(changes[before.len() as int].index == i);
                } else if lists_change(changes, i) {
                    let k = choose|k: int|
                        0 <= k < changes.len() && (#[trigger] changes[k]).index == i;
                    assert(before[k].index < m);
                }
            }
        }
        assert forall|k: int, l: int| 0 <= k < l < changes.len() implies (
        #[trigger] changes[k]).index < (#[trigger] changes[l]).index by {
            assert(changes[k] == before[k]);
            if l < before.len() {
                assert(changes[l] == before[l]);
            }
        }
    }
}

/// Whether a change is listed for a place.
pub open spec fn lists_change(changes: Seq<ChangeView>, i: int) -> bool {
    exists|k: int| 0 <= k < changes.len() && (#[trigger] changes[k]).index == i
}

proof fn lemma_changes_sound(items: Seq<JsonView>, count: nat)
    ensures
        changes_of(items, count) matches Ok(changes) ==> changes.len() == items.len() && (forall|
            k: int,
        |
            0 <= k < changes.len() ==> (#[trigger] changes[k]).index < count && stored_kind(
                changes[k].reference.kind,
            ) && valid_tagged(changes[k].reference.digest)) && (forall|k: int, l: int|
            0 <= k < l < changes.len() ==> (#[trigger] changes[k]).index < (
            #[trigger] changes[l]).index),
    decreases items.len(),
{
    if items.len() > 0 {
        let n = items.len() - 1;
        lemma_changes_sound(items.subrange(0, n), count);
        if changes_of(items, count) is Ok {
            let changes = changes_of(items, count)->Ok_0;
            let before = changes_of(items.subrange(0, n), count)->Ok_0;
            assert forall|k: int, l: int| 0 <= k < l < changes.len() implies (
            #[trigger] changes[k]).index < (#[trigger] changes[l]).index by {
                assert(changes[k] == before[k]);
                if l < before.len() {
                    assert(changes[l] == before[l]);
                } else if k < before.len() - 1 {
                    assert(before[k].index < before[before.len() - 1].index);
                }
            }
            assert forall|k: int| 0 <= k < changes.len() implies (#[trigger] changes[k]).index < count
                && stored_kind(changes[k].reference.kind) && valid_tagged(
                changes[k].reference.digest,
            ) by {
                if k < before.len() {
                    assert(changes[k] == before[k]);
                }
            }
        }
    }
}

/// A stored manifest is taken only where its text is the canonical JSON that its digest is of, its
/// changes ascend below its count with known kinds and digests, it is not its own parent, and a
/// manifest without a parent lists every place from the first on.
pub proof fn law_stored_manifests_are_sound(
    digest: Seq<char>,
    text: Seq<char>,
    manifest: ObservationManifest,
)
    requires
        decoded_manifest(digest, text) == Ok::<ManifestView, Seq<char>>(manifest@),
    ensures
        valid_tagged(digest),
        manifest_digest(text) == digest,
        manifest.digest@ == digest,
        manifest.content_json@ == text,
        json_parsed(text) matches Ok(value) && json_text(value) == text,
        manifest.parent_digest matches Some(parent) ==> valid_tagged(parent@) && parent@ != digest,
        forall|k: int|
            0 <= k < manifest.changes@.len() ==> (#[trigger] manifest.changes@[k]).index
                < manifest.observation_count && stored_kind(manifest.changes@[k].reference.kind@)
                && valid_tagged(manifest.changes@[k].reference.digest@),
        forall|k: int, l: int|
            0 <= k < l < manifest.changes@.len() ==> (#[trigger] manifest.changes@[k]).index < (
            #[trigger] manifest.changes@[l]).index,
        manifest.parent_digest is None ==> forall|k: int|
            0 <= k < manifest.changes@.len() ==> (#[trigger] manifest.changes@[k]).index == k,
{
    let value = json_parsed(text)->Ok_0;
    let count = length_field(value, "observationCount"@)->0;
    let items = field(value, "changes"@)->0->List_0;
    lemma_changes_sound(items, count);
    let changes = manifest@.changes;
    assert(changes == changes_of(items, count)->Ok_0);
    assert(changes == change_views(manifest.changes@));
    assert forall|k: int| 0 <= k < manifest.changes@.len() implies changes[k]
        == #[trigger] manifest.changes@[k]@ by {}
    assert forall|k: int| 0 <= k < manifest.changes@.len() implies (
    #[trigger] manifest.changes@[k]).index < manifest.observation_count && stored_kind(
        manifest.changes@[k].reference.kind@,
    ) && valid_tagged(manifest.changes@[k].reference.digest@) by {
        assert(changes[k] == manifest.changes@[k]@);
    }
    assert forall|k: int, l: int| 0 <= k < l < manifest.changes@.len() implies (
    #[trigger] manifest.changes@[k]).index < (#[trigger] manifest.changes@[l]).index by {
        assert(changes[k] == manifest.changes@[k]@ && changes[l] == manifest.changes@[l]@);
        assert(changes[k].index < changes[l].index);
    }
    if manifest.parent_digest is None {
        assert forall|k: int| 0 <= k < manifest.changes@.len() implies (
        #[trigger] manifest.changes@[k]).index == k by {
            assert(changes[k] == manifest.changes@[k]@);
            assert(changes[k].index == k);
        }
    }
}

/// The kinds of observations that are stored.
pub proof fn law_kinds_that_are_stored(kind: Seq<char>)
    ensures
        stored_kind(kind) <==> seq![
            "system_prompt"@,
            "message"@,
            "input_image"@,
            "tool_catalog"@,
            "compaction_prompt"@,
        ].contains(kind),
{
    let kinds = seq![
        "system_prompt"@,
        "message"@,
        "input_image"@,
        "tool_catalog"@,
        "compaction_prompt"@,
    ];
    if stored_kind(kind) {
        assert(kind == kinds[0] || kind == kinds[1] || kind == kinds[2] || kind == kinds[3] || kind
            == kinds[4]);
    }
}

/// Whether a stored change is whole: its three fields and no others, an index below the count, a kind
/// that is stored, and a digest.
pub open spec fn whole_change(item: JsonView, count: nat) -> bool {
    &&& item matches JsonView::Object(entries)
    &&& keys_are(entries, seq!["index"@, "kind"@, "contentDigest"@])
    &&& length_field(item, "index"@) matches Some(index)
    &&& index < count
    &&& text_field(item, "kind"@) matches Some(kind)
    &&& stored_kind(kind)
    &&& text_field(item, "contentDigest"@) matches Some(digest)
    &&& valid_tagged(digest)
}

/// The changes of a stored manifest are taken exactly where each is whole and their indices ascend,
/// and each is taken as it is stored.
pub proof fn law_stored_changes_are_taken_where_they_ascend(items: Seq<JsonView>, count: nat)
    ensures
        changes_of(items, count) is Ok <==> (forall|k: int|
            0 <= k < items.len() ==> whole_change(#[trigger] items[k], count)) && (forall|
            k: int,
            l: int,
        |
            0 <= k < items.len() && l == k + 1 && l < items.len() ==> length_field(
                #[trigger] items[k],
                "index"@,
            )->0 < length_field(#[trigger] items[l], "index"@)->0),
        changes_of(items, count) matches Ok(changes) ==> changes.len() == items.len() && forall|
            k: int,
        |
            0 <= k < items.len() ==> {
                let change = #[trigger] changes[k];
                &&& length_field(items[k], "index"@) == Some(change.index)
                &&& text_field(items[k], "kind"@) == Some(change.reference.kind)
                &&& text_field(items[k], "contentDigest"@) == Some(change.reference.digest)
            },
    decreases items.len(),
{
    if items.len() > 0 {
        let n = items.len() - 1;
        let init = items.subrange(0, n);
        law_stored_changes_are_taken_where_they_ascend(init, count);
        assert forall|k: int| 0 <= k < n implies #[trigger] init[k] == items[k] by {}
        if changes_of(init, count) is Ok {
            let previous = changes_of(init, count)->Ok_0;
            assert forall|k: int| 0 <= k < n implies whole_change(#[trigger] items[k], count) by {
                assert(init[k] == items[k]);
            }
            assert forall|k: int| 0 <= k < n implies length_field(#[trigger] items[k], "index"@)
                == Some(previous[k].index) by {
                assert(init[k] == items[k]);
            }
            if n > 0 {
                assert(length_field(items[n - 1], "index"@) == Some(previous[n - 1].index));
            }
            if changes_of(items, count) is Ok {
                assert forall|k: int, l: int|
                    0 <= k < items.len() && l == k + 1 && l < items.len() implies length_field(
                    #[trigger] items[k],
                    "index"@,
                )->0 < length_field(#[trigger] items[l], "index"@)->0 by {
                    if l < n {
                        assert(init[k] == items[k] && init[l] == items[l]);
                    }
                }
            }
        } else {
            assert forall|k: int| 0 <= k < n && whole_change(items[k], count) implies whole_change(
                #[trigger] init[k],
                count,
            ) by {}
            if forall|k: int| 0 <= k < items.len() ==> whole_change(#[trigger] items[k], count) {
                assert forall|k: int| 0 <= k < n implies whole_change(#[trigger] init[k], count) by {
                    assert(items[k] == init[k]);
                }
                let k = choose|k: int|
                    0 <= k < n && k + 1 < n && !(length_field(#[trigger] init[k], "index"@)->0
                        < length_field(init[k + 1], "index"@)->0);
                assert(init[k] == items[k] && init[k + 1] == items[k + 1]);
            }
        }
    }
}

} // verus!
