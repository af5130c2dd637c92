//! How model observations are stored with a session log: what is written for the requests of a
//! batch, how stored manifests are resolved, how stored requests are restored, and which stored
//! files are still needed.

use crate::digest::{valid_digest_hex, valid_hex, valid_tagged};
use crate::json::{
    field, json_parsed, json_text, json_views, keys_are, object1, parse_json, plain, text_field,
    with_field, write_json, Json, JsonView,
};
use crate::observation_cas::{
    agrees, applied, apply_manifest, build_manifest, built, change_views, content_digest,
    content_views, copy_references, decode_manifest, decoded_manifest, digest_content,
    reference_views, same_reference, storable, stored_kind, valid_kind, validate_digest,
    ContentView, ManifestView, ObservationChange, ObservationContent, ObservationManifest,
    ObservationReference, ReferenceView,
};
use crate::operation_receipts::{ascii_alphanumeric, is_ascii_alphanumeric};
use crate::text::{
    after_prefix, before_suffix, begins_with, chars_of, concat2, concat3, contains_text, decimal,
    decimal_text, ends_with_text, lines, lines_of, lists, optional_text, same_optional, starts_with, strip_prefix, strip_suffix,
    text_equals,
};
use crate::text_map::TextMap;
use vstd::prelude::*;

verus! {

/// The reference to a stored observation.
pub open spec fn reference_of(content: ContentView) -> ReferenceView {
    ReferenceView { kind: content.kind, digest: content.digest }
}

/// What is stored for an observation.
pub open spec fn content_of(observation: JsonView) -> Result<ContentView, Seq<char>> {
    if !(observation is Object) || field(observation, "contentDigest"@) is Some {
        Err("model observation storage payload is invalid"@)
    } else if !(text_field(observation, "kind"@) is Some && stored_kind(
        text_field(observation, "kind"@)->0,
    )) {
        Err("model observation storage kind is invalid"@)
    } else {
        Ok(
            ContentView {
                digest: content_digest(json_text(observation)),
                kind: text_field(observation, "kind"@)->0,
                text: json_text(observation),
            },
        )
    }
}

/// The observation that is stored under `digest` as `text`, which reads as `value`.
pub open spec fn stored_content(digest: Seq<char>, text: Seq<char>, value: JsonView) -> Result<
    ContentView,
    Seq<char>,
> {
    if !(text_field(value, "kind"@) is Some && stored_kind(text_field(value, "kind"@)->0)) {
        Err("stored model observation content kind is invalid"@)
    } else if !(value is Object) || field(value, "contentDigest"@) is Some {
        Err("stored model observation content fields mismatch"@)
    } else {
        Ok(ContentView { digest, kind: text_field(value, "kind"@)->0, text })
    }
}

/// The observation that is stored under `digest` as `text`.
pub open spec fn decoded_content(digest: Seq<char>, text: Seq<char>) -> Result<
    ContentView,
    Seq<char>,
> {
    if !valid_tagged(digest) {
        Err("model observation content digest is invalid"@)
    } else if content_digest(text) != digest {
        Err("stored model observation content digest mismatch"@)
    } else {
        match json_parsed(text) {
            Err(message) => Err("decode stored model observation content failed: "@ + message),
            Ok(value) => if json_text(value) != text {
                Err("stored model observation content is not canonical JSON"@)
            } else {
                stored_content(digest, text, value)
            },
        }
    }
}

/// Makes what is stored for an observation. Where the observation is plain, reading the stored
/// text back gives the same content and the same observation.
pub fn observation_content(observation: &Json) -> (result: Result<ObservationContent, String>)
    ensures
        agrees(
            result,
            |content: ObservationContent| content@,
            content_of(observation@),
        ),
        result matches Ok(content) ==> valid_tagged(content@.digest) && stored_kind(content@.kind)
            && (plain(observation@, 100) ==> json_parsed(content@.text) == Ok::<
            JsonView,
            Seq<char>,
        >(observation@) && decoded_content(content@.digest, content@.text) == Ok::<
            ContentView,
            Seq<char>,
        >(content@)),
{
    let is_object = match observation {
        Json::Object(_) => true,
        _ => false,
    };
    if !is_object || observation.get("contentDigest").is_some() {
        return Err("model observation storage payload is invalid".to_owned());
    }
    let kind: String = match observation.get_text("kind") {
        Some(kind) => if valid_kind(kind.as_str()) {
            kind.clone()
        } else {
            return Err("model observation storage kind is invalid".to_owned());
        },
        None => {
            return Err("model observation storage kind is invalid".to_owned());
        },
    };
    let content_json = write_json(observation);
    let digest = digest_content(content_json.as_str());
    Ok(ObservationContent { digest, kind, content_json })
}

/// Reads stored content from the JSON value of its text.
pub fn content_from_value(digest: &str, content_json: String, value: &Json) -> (result: Result<
    ObservationContent,
    String,
>)
    ensures
        agrees(
            result,
            |content: ObservationContent| content@,
            stored_content(digest@, content_json@, value@),
        ),
{
    let kind: String = match value.get_text("kind") {
        Some(kind) => if valid_kind(kind.as_str()) {
            kind.clone()
        } else {
            return Err("stored model observation content kind is invalid".to_owned());
        },
        None => {
            return Err("stored model observation content kind is invalid".to_owned());
        },
    };
    let is_object = match value {
        Json::Object(_) => true,
        _ => false,
    };
    if !is_object || value.get("contentDigest").is_some() {
        return Err("stored model observation content fields mismatch".to_owned());
    }
    Ok(ObservationContent { digest: digest.to_owned(), kind, content_json })
}

/// Reads the observation that is stored under `digest`.
pub fn decode_content(digest: &str, content_json: String) -> (result: Result<
    ObservationContent,
    String,
>)
    ensures
        agrees(
            result,
            |content: ObservationContent| content@,
            decoded_content(digest@, content_json@),
        ),
{
    match validate_digest(digest) {
        Ok(()) => {},
        Err(message) => {
            return Err(message);
        },
    }
    if !text_equals(digest_content(content_json.as_str()).as_str(), digest) {
        return Err("stored model observation content digest mismatch".to_owned());
    }
    match parse_json(content_json.as_str()) {
        Err(message) => Err(
            concat2("decode stored model observation content failed: ", message.as_str()),
        ),
        Ok(value) => {
            if !text_equals(write_json(&value).as_str(), content_json.as_str()) {
                return Err("stored model observation content is not canonical JSON".to_owned());
            }
            content_from_value(digest, content_json, &value)
        },
    }
}

/// Whether one of `references` names `digest`.
pub open spec fn names_digest(references: Seq<ReferenceView>, digest: Seq<char>) -> bool {
    exists|i: int| 0 <= i < references.len() && (#[trigger] references[i]).digest == digest
}

fn has_digest(references: &Vec<ObservationReference>, digest: &str) -> (result: bool)
    ensures
        result == names_digest(reference_views(references@), digest@),
{
    let ghost views = reference_views(references@);
    let mut i: usize = 0;
    while i < references.len()
        invariant
            i <= references.len(),
            views == reference_views(references@),
            forall|j: int| 0 <= j < i ==> (#[trigger] views[j]).digest != digest@,
        decreases references.len() - i,
    {
        assert(views[i as int] == references@[i as int]@);
        if text_equals(references[i].digest.as_str(), digest) {
            return true;
        }
        i = i + 1;
    }
    false
}

/// The contents that have to be stored for a request, and the references that it makes: a
/// content is stored unless the parent or an earlier observation of the request names it.
pub open spec fn prepared(
    observations: Seq<JsonView>,
    parent: Seq<ReferenceView>,
) -> Result<(Seq<ContentView>, Seq<ReferenceView>), Seq<char>>
    decreases observations.len(),
{
    if observations.len() == 0 {
        Ok((Seq::empty(), Seq::empty()))
    } else {
        match prepared(observations.subrange(0, observations.len() - 1), parent) {
            Err(message) => Err(message),
            Ok((contents, references)) => match content_of(observations[observations.len() - 1]) {
                Err(message) => Err(message),
                Ok(content) => {
                    let known = names_digest(parent, content.digest) || names_digest(
                        references,
                        content.digest,
                    );
                    Ok(
                        (
                            if known {
                                contents
                            } else {
                                contents.push(content)
                            },
                            references.push(reference_of(content)),
                        ),
                    )
                },
            },
        }
    }
}

/// Whether one of `contents` is stored under `digest`.
pub open spec fn stores_digest(contents: Seq<ContentView>, digest: Seq<char>) -> bool {
    exists|i: int| 0 <= i < contents.len() && (#[trigger] contents[i]).digest == digest
}

/// Everything that a request refers to is stored: with the request or for its parent.
pub proof fn law_every_reference_is_stored(observations: Seq<JsonView>, parent: Seq<ReferenceView>)
    ensures
        prepared(observations, parent) matches Ok((contents, references)) ==> references.len()
            == observations.len() && forall|i: int|
            0 <= i < references.len() ==> names_digest(parent, (#[trigger] references[i]).digest)
                || stores_digest(contents, references[i].digest),
    decreases observations.len(),
{
    if observations.len() > 0 {
        let init = observations.subrange(0, observations.len() - 1);
        law_every_reference_is_stored(init, parent);
        if let Ok((contents, references)) = prepared(observations, parent) {
            let (before, earlier) = prepared(init, parent)->Ok_0;
            let content = content_of(observations[observations.len() - 1])->Ok_0;
            assert forall|i: int| 0 <= i < references.len() implies names_digest(
                parent,
                (#[trigger] references[i]).digest,
            ) || stores_digest(contents, references[i].digest) by {
                if i < earlier.len() {
                    assert(references[i] == earlier[i]);
                    if stores_digest(before, earlier[i].digest) {
                        let k = choose|k: int|
                            0 <= k < before.len() && (#[trigger] before[k]).digest
                                == earlier[i].digest;
                        assert(contents[k] == before[k]);
                    }
                } else {
                    assert(references[i] == reference_of(content));
                    if names_digest(earlier, content.digest) {
                        let k = choose|k: int|
                            0 <= k < earlier.len() && (#[trigger] earlier[k]).digest
                                == content.digest;
                        assert(contents == before);
                    } else if !names_digest(parent, content.digest) {
                        assert(contents[contents.len() - 1] == content);
                    }
                }
            }
        }
    }
}

proof fn lemma_prepared_error(observations: Seq<JsonView>, parent: Seq<ReferenceView>, n: int)
    requires
        0 <= n <= observations.len(),
        prepared(observations.subrange(0, n), parent) is Err,
    ensures
        prepared(observations, parent) == prepared(observations.subrange(0, n), parent),
    decreases observations.len() - n,
{
    if n == observations.len() {
        assert(observations.subrange(0, n) =~= observations);
    } else {
        let next = observations.subrange(0, n + 1);
        assert(next.subrange(0, next.len() - 1) =~= observations.subrange(0, n));
        lemma_prepared_error(observations, parent, n + 1);
    }
}

/// What is stored for one request.
#[derive(Debug)]
pub struct PreparedObservations {
    pub contents: Vec<ObservationContent>,
    pub manifest: ObservationManifest,
    pub references: Vec<ObservationReference>,
}

/// The observations of a model request.
pub open spec fn observations_of(wire: JsonView) -> Seq<JsonView> {
    wire_observations(wire)->0->List_0
}

/// Whether an observation is one of a model request among the events.
pub open spec fn observed(wires: Seq<JsonView>, observation: JsonView) -> bool {
    exists|i: int, j: int|
        #![trigger observations_of(wires[i])[j]]
        0 <= i < wires.len() && model_request(wires[i]) && 0 <= j < observations_of(wires[i]).len()
            && observations_of(wires[i])[j] == observation
}

/// Whether the observations of the events read back from their texts.
pub open spec fn reads_back(wires: Seq<JsonView>) -> bool {
    forall|a: JsonView|
        #[trigger] observed(wires, a) ==> json_parsed(json_text(a)) == Ok::<JsonView, Seq<char>>(a)
}

/// Whether an observation, where it is plain, reads back from its text.
pub open spec fn plain_reads_back(observation: JsonView) -> bool {
    plain(observation, 100) ==> json_parsed(json_text(observation)) == Ok::<JsonView, Seq<char>>(
        observation,
    )
}

/// Whether the observations of the events are plain.
pub open spec fn plain_observations(wires: Seq<JsonView>) -> bool {
    forall|a: JsonView| #[trigger] observed(wires, a) ==> plain(a, 100)
}

/// Makes what is stored for a request that comes after a request that saw `parent`.
pub fn prepare_observation_manifest(
    observations: &Vec<Json>,
    parent_digest: Option<String>,
    parent: &Vec<ObservationReference>,
) -> (result: Result<PreparedObservations, String>)
    ensures
        agrees(
            result,
            |p: PreparedObservations| (content_views(p.contents@), reference_views(p.references@)),
            prepared(json_views(observations@), reference_views(parent@)),
        ),
        result matches Ok(p) ==> p.manifest@ == built(
            optional_text(parent_digest),
            reference_views(parent@),
            reference_views(p.references@),
        ) && valid_tagged(p.manifest@.digest) && storable(reference_views(p.references@)) && ((
        parent_digest is None ==> parent@.len() == 0) && crate::observation_cas::names_other(
            optional_text(parent_digest),
            p.manifest@.digest,
        ) ==> decoded_manifest(p.manifest@.digest, p.manifest@.text) == Ok::<
            ManifestView,
            Seq<char>,
        >(p.manifest@)),
        result is Ok ==> forall|j: int|
            0 <= j < observations@.len() ==> plain_reads_back((#[trigger] observations@[j])@),
{
    let ghost all = json_views(observations@);
    let ghost before = reference_views(parent@);
    let mut contents: Vec<ObservationContent> = Vec::new();
    let mut references: Vec<ObservationReference> = Vec::new();
    let mut i: usize = 0;
    assert(all.subrange(0, 0) =~= Seq::empty());
    assert(content_views(contents@) =~= Seq::empty());
    assert(reference_views(references@) =~= Seq::empty());
    while i < observations.len()
        invariant
            i <= observations.len(),
            all == json_views(observations@),
            before == reference_views(parent@),
            storable(reference_views(references@)),
            forall|j: int| 0 <= j < i ==> plain_reads_back((#[trigger] observations@[j])@),
            prepared(all.subrange(0, i as int), before) == Ok::<
                (Seq<ContentView>, Seq<ReferenceView>),
                Seq<char>,
            >((content_views(contents@), reference_views(references@))),
        decreases observations.len() - i,
    {
        proof {
            let next = all.subrange(0, i + 1);
            assert(next.subrange(0, next.len() - 1) =~= all.subrange(0, i as int));
            assert(next[next.len() - 1] == observations@[i as int]@);
        }
        let ghost old_contents = content_views(contents@);
        let ghost old_references = reference_views(references@);
        match observation_content(&observations[i]) {
            Err(message) => {
                proof {
                    lemma_prepared_error(all, before, i + 1);
                }
                return Err(message);
            },
            Ok(content) => {
                let known = has_digest(parent, content.digest.as_str()) || has_digest(
                    &references,
                    content.digest.as_str(),
                );
                let reference = ObservationReference {
                    kind: content.kind.clone(),
                    digest: content.digest.clone(),
                };
                let ghost view = content@;
                references.push(reference);
                assert(reference_views(references@) =~= old_references.push(reference_of(view)));
                if !known {
                    contents.push(content);
                    assert(content_views(contents@) =~= old_contents.push(view));
                }
            },
        }
        i = i + 1;
    }
    assert(all.subrange(0, all.len() as int) =~= all);
    let manifest = build_manifest(parent_digest, parent, &references);
    Ok(PreparedObservations { contents, manifest, references })
}

/// The observations after a chain of manifests, newest first, on top of `base`.
pub open spec fn resolved(base: Seq<ReferenceView>, chain: Seq<ManifestView>) -> Result<
    Seq<ReferenceView>,
    Seq<char>,
>
    decreases chain.len(),
{
    if chain.len() == 0 {
        Ok(base)
    } else {
        let oldest = chain[chain.len() - 1];
        match applied(oldest.parent, oldest.count, oldest.changes, base) {
            Err(message) => Err(message),
            Ok(references) => resolved(references, chain.subrange(0, chain.len() - 1)),
        }
    }
}

proof fn lemma_resolve_newest(base: Seq<ReferenceView>, newest: ManifestView, chain: Seq<ManifestView>)
    ensures
        resolved(base, seq![newest] + chain) == match resolved(base, chain) {
            Err(message) => Err(message),
            Ok(references) => applied(newest.parent, newest.count, newest.changes, references),
        },
    decreases chain.len(),
{
    let whole = seq![newest] + chain;
    if chain.len() == 0 {
        assert(whole.subrange(0, 0) =~= Seq::empty());
        assert(whole[0] == newest);
        let step = applied(newest.parent, newest.count, newest.changes, base);
        if let Ok(references) = step {
            assert(resolved(references, whole.subrange(0, 0)) == Ok::<
                Seq<ReferenceView>,
                Seq<char>,
            >(references));
        }
    } else {
        let oldest = chain[chain.len() - 1];
        let init = chain.subrange(0, chain.len() - 1);
        assert(whole[whole.len() - 1] == oldest);
        assert(whole.subrange(0, whole.len() - 1) =~= seq![newest] + init);
        if let Ok(references) = applied(oldest.parent, oldest.count, oldest.changes, base) {
            lemma_resolve_newest(references, newest, init);
        }
    }
}

/// The manifest that is stored for the request at `n` of a session whose requests saw `history`.
pub open spec fn stored_manifest(history: Seq<Seq<ReferenceView>>, n: nat) -> ManifestView
    decreases n,
{
    if n == 0 {
        built(None, Seq::empty(), history[0])
    } else {
        built(
            Some(stored_manifest(history, (n - 1) as nat).digest),
            history[n - 1],
            history[n as int],
        )
    }
}

/// The manifests of the requests up to `n`, newest first.
pub open spec fn stored_chain(history: Seq<Seq<ReferenceView>>, n: nat) -> Seq<ManifestView>
    decreases n,
{
    if n == 0 {
        seq![stored_manifest(history, 0)]
    } else {
        seq![stored_manifest(history, n)] + stored_chain(history, (n - 1) as nat)
    }
}

/// Resolving the chain of manifests that a session stored gives the observations that its
/// request saw, for every request of every session.
pub proof fn law_chain_resolves(history: Seq<Seq<ReferenceView>>, n: nat)
    requires
        n < history.len(),
    ensures
        resolved(Seq::empty(), stored_chain(history, n)) == Ok::<Seq<ReferenceView>, Seq<char>>(
            history[n as int],
        ),
    decreases n,
{
    let none = Seq::<ReferenceView>::empty();
    if n == 0 {
        crate::observation_cas::law_apply_undoes_build(None, none, history[0]);
        lemma_resolve_newest(none, stored_manifest(history, 0), Seq::empty());
        assert(seq![stored_manifest(history, 0)] + Seq::<ManifestView>::empty() =~= stored_chain(
            history,
            0,
        ));
    } else {
        let m = (n - 1) as nat;
        law_chain_resolves(history, m);
        lemma_resolve_newest(none, stored_manifest(history, n), stored_chain(history, m));
        crate::observation_cas::law_apply_undoes_build(
            Some(stored_manifest(history, m).digest),
            history[m as int],
            history[n as int],
        );
    }
}

pub open spec fn manifest_views(items: Seq<ObservationManifest>) -> Seq<ManifestView> {
    Seq::new(items.len(), |i: int| items[i]@)
}

/// The walk from a manifest towards the first of its chain: the manifests read so far, newest
/// first, and the one that comes next.
#[derive(Debug)]
pub struct ManifestResolution {
    pub chain: Vec<ObservationManifest>,
    pub next: Option<String>,
}

/// What a walk needs: the manifest stored under a digest, or nothing more.
#[derive(Debug)]
pub enum ResolutionStep {
    Ready(Vec<ObservationReference>),
    Read(String),
}

/// Whether one of the manifests in `chain` has `digest`.
pub open spec fn visited(chain: Seq<ManifestView>, digest: Seq<char>) -> bool {
    exists|i: int| 0 <= i < chain.len() && (#[trigger] chain[i]).digest == digest
}

impl ManifestResolution {
    /// Begins the walk at `digest`.
    pub fn start(digest: &str) -> (result: Result<ManifestResolution, String>)
        ensures
            match result {
                Ok(walk) => valid_tagged(digest@) && walk.chain@.len() == 0 && optional_text(
                    walk.next,
                ) == Some(digest@),
                Err(message) => !valid_tagged(digest@) && message@
                    == "model observation content digest is invalid"@,
            },
    {
        match validate_digest(digest) {
            Ok(()) => Ok(ManifestResolution { chain: Vec::new(), next: Some(digest.to_owned()) }),
            Err(message) => Err(message),
        }
    }

    /// What the walk needs next. It ends at a manifest that is known, or after the first of the
    /// chain, and refuses to come back to a manifest it has passed.
    pub fn step(&self, cache: &TextMap<Vec<ObservationReference>>) -> (result: Result<
        ResolutionStep,
        String,
    >)
        requires
            cache.wf(),
        ensures
            match self.next {
                None => result matches Ok(ResolutionStep::Ready(base)) && base@.len() == 0,
                Some(digest) => if cache@.contains_key(digest@) {
                    result matches Ok(ResolutionStep::Ready(base)) && reference_views(base@)
                        == reference_views(cache@[digest@]@)
                } else if visited(manifest_views(self.chain@), digest@) {
                    result matches Err(message) && message@
                        == "stored model observation manifest parent cycle"@
                } else {
                    result matches Ok(ResolutionStep::Read(wanted)) && wanted@ == digest@
                },
            },
    {
        match &self.next {
            None => Ok(ResolutionStep::Ready(Vec::new())),
            Some(digest) => {
                match cache.get(digest.as_str()) {
                    Some(references) => {
                        return Ok(ResolutionStep::Ready(copy_references(references)));
                    },
                    None => {},
                }
                let ghost views = manifest_views(self.chain@);
                let mut i: usize = 0;
                while i < self.chain.len()
                    invariant
                        i <= self.chain.len(),
                        views == manifest_views(self.chain@),
                        self.next == Some(*digest),
                        !cache@.contains_key(digest@),
                        forall|j: int| 0 <= j < i ==> (#[trigger] views[j]).digest != digest@,
                    decreases self.chain.len() - i,
                {
                    assert(views[i as int] == self.chain@[i as int]@);
                    if text_equals(self.chain[i].digest.as_str(), digest.as_str()) {
                        return Err("stored model observation manifest parent cycle".to_owned());
                    }
                    i = i + 1;
                }
                Ok(ResolutionStep::Read(digest.clone()))
            },
        }
    }

    /// Hands the walk the text of the manifest that it asked for.
    pub fn supply(self, raw: String) -> (result: Result<ManifestResolution, String>)
        requires
            self.next is Some,
        ensures
            match result {
                Ok(walk) => decoded_manifest(optional_text(self.next)->0, raw@) matches Ok(manifest)
                    && manifest_views(walk.chain@) == manifest_views(self.chain@).push(manifest)
                    && optional_text(walk.next) == manifest.parent,
                Err(message) => decoded_manifest(optional_text(self.next)->0, raw@) == Err::<
                    ManifestView,
                    Seq<char>,
                >(message@),
            },
    {
        let ghost before = manifest_views(self.chain@);
        let mut chain = self.chain;
        let digest = match self.next {
            Some(digest) => digest,
            None => String::new(),
        };
        match decode_manifest(digest.as_str(), raw) {
            Err(message) => Err(message),
            Ok(manifest) => {
                let next = manifest.parent_digest.clone();
                assert(optional_text(next) == manifest@.parent);
                let ghost view = manifest@;
                chain.push(manifest);
                assert(manifest_views(chain@) =~= before.push(view));
                Ok(ManifestResolution { chain, next })
            },
        }
    }

    /// The observations of the manifest at which the walk began.
    pub fn finish(self, base: Vec<ObservationReference>) -> (result: Result<
        Vec<ObservationReference>,
        String,
    >)
        ensures
            agrees(
                result,
                |references: Vec<ObservationReference>| reference_views(references@),
                resolved(reference_views(base@), manifest_views(self.chain@)),
            ),
    {
        let ghost all = manifest_views(self.chain@);
        let ghost start = reference_views(base@);
        let mut references = base;
        let mut i: usize = self.chain.len();
        assert(all.subrange(0, all.len() as int) =~= all);
        while i > 0
            invariant
                i <= self.chain.len(),
                all == manifest_views(self.chain@),
                start == reference_views(base@),
                resolved(start, all) == resolved(
                    reference_views(references@),
                    all.subrange(0, i as int),
                ),
            decreases i,
        {
            i = i - 1;
            proof {
                let rest = all.subrange(0, i + 1);
                assert(rest[rest.len() - 1] == self.chain@[i as int]@);
                assert(rest.subrange(0, rest.len() - 1) =~= all.subrange(0, i as int));
            }
            match apply_manifest(&self.chain[i], references) {
                Ok(next) => {
                    references = next;
                },
                Err(message) => {
                    return Err(message);
                },
            }
        }
        Ok(references)
    }
}


/// Whether a stored event is a model request.
pub open spec fn model_request(wire: JsonView) -> bool {
    text_field(wire, "type"@) == Some("model_request_started"@)
}

/// The observations of an event.
pub open spec fn wire_observations(wire: JsonView) -> Option<JsonView> {
    match field(wire, "payload"@) {
        Some(payload) => field(payload, "observations"@),
        None => None,
    }
}

/// An event with its observations replaced.
pub open spec fn with_observations(wire: JsonView, observations: JsonView) -> JsonView {
    match field(wire, "payload"@) {
        Some(payload) => with_field(
            wire,
            "payload"@,
            with_field(payload, "observations"@, observations),
        ),
        None => wire,
    }
}

/// Whether a stored event is a model request.
pub fn is_model_request(wire: &Json) -> (result: bool)
    ensures
        result == model_request(wire@),
{
    match wire.get_text("type") {
        Some(kind) => text_equals(kind.as_str(), "model_request_started"),
        None => false,
    }
}

/// Accepts an event of the expected session.
pub fn require_wire_session(wire: &Json, expected_session_id: &str) -> (result: Result<(), String>)
    ensures
        match result {
            Ok(()) => text_field(wire@, "sessionId"@) == Some(expected_session_id@),
            Err(message) => text_field(wire@, "sessionId"@) != Some(expected_session_id@)
                && message@ == "stored model request sessionId mismatch"@,
        },
{
    let same = match wire.get_text("sessionId") {
        Some(id) => text_equals(id.as_str(), expected_session_id),
        None => false,
    };
    if same {
        Ok(())
    } else {
        Err("stored model request sessionId mismatch".to_owned())
    }
}

fn get_observations(wire: &Json) -> (result: Option<&Json>)
    ensures
        match result {
            Some(value) => wire_observations(wire@) == Some(value@),
            None => wire_observations(wire@) == None::<JsonView>,
        },
{
    match wire.get("payload") {
        Some(payload) => payload.get("observations"),
        None => None,
    }
}

fn set_observations(wire: &Json, observations: Json) -> (result: Json)
    ensures
        result@ == with_observations(wire@, observations@),
{
    match wire.get("payload") {
        Some(payload) => wire.replacing(
            "payload",
            payload.replacing("observations", observations),
        ),
        None => wire.copy(),
    }
}

/// The manifest that a stored model request names.
pub open spec fn root_of(wire: JsonView) -> Result<Seq<char>, Seq<char>> {
    match wire_observations(wire) {
        Some(JsonView::Object(entries)) => if !keys_are(entries, seq!["manifestDigest"@]) {
            Err("stored model request observation manifest fields mismatch"@)
        } else {
            match text_field(JsonView::Object(entries), "manifestDigest"@) {
                None => Err("stored model request observation manifestDigest is required"@),
                Some(digest) => if valid_tagged(digest) {
                    Ok(digest)
                } else {
                    Err("model observation content digest is invalid"@)
                },
            }
        },
        _ => Err("stored model request observation manifest is required"@),
    }
}

/// The manifest that a stored model request names.
pub fn observation_manifest_digest(wire: &Json) -> (result: Result<String, String>)
    ensures
        agrees(result, |digest: String| digest@, root_of(wire@)),
{
    match get_observations(wire) {
        Some(value) => {
            match value {
                Json::Object(_) => {},
                _ => {
                    return Err("stored model request observation manifest is required".to_owned());
                },
            }
            let mut names: Vec<String> = Vec::new();
            names.push("manifestDigest".to_owned());
            assert(crate::text::texts(names@) =~= seq!["manifestDigest"@]);
            if !value.has_exact_keys(&names) {
                return Err(
                    "stored model request observation manifest fields mismatch".to_owned(),
                );
            }
            match value.get_text("manifestDigest") {
                None => Err(
                    "stored model request observation manifestDigest is required".to_owned(),
                ),
                Some(digest) => match validate_digest(digest.as_str()) {
                    Ok(()) => Ok(digest.clone()),
                    Err(message) => Err(message),
                },
            }
        },
        None => Err("stored model request observation manifest is required".to_owned()),
    }
}

/// `roots` with the manifest that an event of a session names, where the event is a model request.
pub open spec fn with_root(
    roots: Seq<Seq<char>>,
    wire: JsonView,
    session_id: Seq<char>,
) -> Result<Seq<Seq<char>>, Seq<char>> {
    if !model_request(wire) {
        Ok(roots)
    } else if text_field(wire, "sessionId"@) != Some(session_id) {
        Err("stored model request sessionId mismatch"@)
    } else {
        match root_of(wire) {
            Err(message) => Err(message),
            Ok(root) => Ok(roots.push(root)),
        }
    }
}

fn add_root(roots: Vec<String>, wire: &Json, session_id: &str) -> (result: Result<
    Vec<String>,
    String,
>)
    ensures
        agrees(
            result,
            |roots: Vec<String>| crate::text::texts(roots@),
            with_root(crate::text::texts(roots@), wire@, session_id@),
        ),
{
    let ghost before = crate::text::texts(roots@);
    if !is_model_request(wire) {
        return Ok(roots);
    }
    match require_wire_session(wire, session_id) {
        Ok(()) => {},
        Err(message) => {
            return Err(message);
        },
    }
    match observation_manifest_digest(wire) {
        Ok(root) => {
            let mut more = roots;
            more.push(root);
            assert(crate::text::texts(more@) =~= before.push(root@));
            Ok(more)
        },
        Err(message) => Err(message),
    }
}

/// The manifests that the model requests among the events of a session name, in order.
pub open spec fn roots_of(wires: Seq<JsonView>, session_id: Seq<char>) -> Result<
    Seq<Seq<char>>,
    Seq<char>,
>
    decreases wires.len(),
{
    if wires.len() == 0 {
        Ok(Seq::empty())
    } else {
        match roots_of(wires.subrange(0, wires.len() - 1), session_id) {
            Err(message) => Err(message),
            Ok(roots) => with_root(roots, wires[wires.len() - 1], session_id),
        }
    }
}

proof fn lemma_roots_error(wires: Seq<JsonView>, session_id: Seq<char>, n: int)
    requires
        0 <= n <= wires.len(),
        roots_of(wires.subrange(0, n), session_id) is Err,
    ensures
        roots_of(wires, session_id) == roots_of(wires.subrange(0, n), session_id),
    decreases wires.len() - n,
{
    if n == wires.len() {
        assert(wires.subrange(0, n) =~= wires);
    } else {
        let next = wires.subrange(0, n + 1);
        assert(next.subrange(0, next.len() - 1) =~= wires.subrange(0, n));
        lemma_roots_error(wires, session_id, n + 1);
    }
}

/// The manifests that the model requests among the events of a session name, in order. The last
/// of them is the parent of the next request.
pub fn manifest_digests_of(wires: &Vec<Json>, session_id: &str) -> (result: Result<
    Vec<String>,
    String,
>)
    ensures
        agrees(
            result,
            |roots: Vec<String>| crate::text::texts(roots@),
            roots_of(json_views(wires@), session_id@),
        ),
{
    let ghost all = json_views(wires@);
    let mut roots: Vec<String> = Vec::new();
    let mut i: usize = 0;
    assert(all.subrange(0, 0) =~= Seq::empty());
    assert(crate::text::texts(roots@) =~= Seq::empty());
    while i < wires.len()
        invariant
            i <= wires.len(),
            all == json_views(wires@),
            roots_of(all.subrange(0, i as int), session_id@) == Ok::<Seq<Seq<char>>, Seq<char>>(
                crate::text::texts(roots@),
            ),
        decreases wires.len() - i,
    {
        proof {
            let next = all.subrange(0, i + 1);
            assert(next.subrange(0, next.len() - 1) =~= all.subrange(0, i as int));
            assert(next[next.len() - 1] == wires@[i as int]@);
        }
        match add_root(roots, &wires[i], session_id) {
            Ok(more) => {
                roots = more;
            },
            Err(message) => {
                proof {
                    lemma_roots_error(all, session_id@, i + 1);
                }
                return Err(message);
            },
        }
        i = i + 1;
    }
    assert(all.subrange(0, all.len() as int) =~= all);
    Ok(roots)
}

/// The manifests that the model requests among the first `n` lines of a log name, in order. The
/// first line holds no event.
pub open spec fn roots_in(lines: Seq<Seq<char>>, session_id: Seq<char>, n: nat) -> Result<
    Seq<Seq<char>>,
    Seq<char>,
>
    decreases n,
{
    if n <= 1 {
        Ok(Seq::empty())
    } else {
        match roots_in(lines, session_id, (n - 1) as nat) {
            Err(message) => Err(message),
            Ok(roots) => match json_parsed(lines[n - 1]) {
                Err(error) => Err(
                    "decode Session observation manifest line "@ + decimal(n) + " failed: "@
                        + error,
                ),
                Ok(wire) => with_root(roots, wire, session_id),
            },
        }
    }
}

proof fn lemma_roots_in_error(lines: Seq<Seq<char>>, session_id: Seq<char>, m: nat, n: nat)
    requires
        m <= n,
        roots_in(lines, session_id, m) is Err,
    ensures
        roots_in(lines, session_id, n) == roots_in(lines, session_id, m),
    decreases n,
{
    if m < n {
        lemma_roots_in_error(lines, session_id, m, (n - 1) as nat);
    }
}

/// The manifests that the model requests in the text of a session's log name, in order.
pub fn stored_manifest_digests(contents: &str, session_id: &str) -> (result: Result<
    Vec<String>,
    String,
>)
    ensures
        agrees(
            result,
            |roots: Vec<String>| crate::text::texts(roots@),
            roots_in(lines(contents@), session_id@, lines(contents@).len()),
        ),
{
    let all = lines_of(contents);
    let ghost texts = lines(contents@);
    let mut roots: Vec<String> = Vec::new();
    let mut i: usize = 1;
    assert(crate::text::texts(roots@) =~= Seq::empty());
    if all.len() == 0 {
        return Ok(roots);
    }
    while i < all.len()
        invariant
            1 <= i <= all.len(),
            texts == crate::text::texts(all@),
            texts == lines(contents@),
            roots_in(texts, session_id@, i as nat) == Ok::<Seq<Seq<char>>, Seq<char>>(
                crate::text::texts(roots@),
            ),
        decreases all.len() - i,
    {
        assert(texts[i as int] == all@[i as int]@);
        let wire = match parse_json(all[i].as_str()) {
            Ok(wire) => wire,
            Err(error) => {
                proof {
                    lemma_roots_in_error(texts, session_id@, (i + 1) as nat, texts.len());
                }
                let place = decimal_text((i + 1) as u64);
                return Err(
                    concat2(
                        concat3(
                            "decode Session observation manifest line ",
                            place.as_str(),
                            " failed: ",
                        ).as_str(),
                        error.as_str(),
                    ),
                );
            },
        };
        match add_root(roots, &wire, session_id) {
            Ok(more) => {
                roots = more;
            },
            Err(message) => {
                proof {
                    lemma_roots_in_error(texts, session_id@, (i + 1) as nat, texts.len());
                }
                return Err(message);
            },
        }
        i = i + 1;
    }
    Ok(roots)
}

/// The content that is stored under `digest`, the first where there are several.
pub open spec fn find_content(contents: Seq<ContentView>, digest: Seq<char>) -> Option<ContentView>
    decreases contents.len(),
{
    if contents.len() == 0 {
        None
    } else if contents[0].digest == digest {
        Some(contents[0])
    } else {
        find_content(contents.subrange(1, contents.len() as int), digest)
    }
}

fn lookup_content<'a>(contents: &'a Vec<ObservationContent>, digest: &str) -> (result: Option<
    &'a ObservationContent,
>)
    ensures
        match result {
            Some(content) => find_content(content_views(contents@), digest@) == Some(content@),
            None => find_content(content_views(contents@), digest@) == None::<ContentView>,
        },
{
    let ghost all = content_views(contents@);
    let mut i: usize = 0;
    assert(all.subrange(0, all.len() as int) =~= all);
    while i < contents.len()
        invariant
            i <= contents.len(),
            all == content_views(contents@),
            find_content(all, digest@) == find_content(
                all.subrange(i as int, all.len() as int),
                digest@,
            ),
        decreases contents.len() - i,
    {
        proof {
            let rest = all.subrange(i as int, all.len() as int);
            assert(rest[0] == contents@[i as int]@);
            assert(rest.subrange(1, rest.len() as int) =~= all.subrange(i + 1, all.len() as int));
        }
        if text_equals(contents[i].digest.as_str(), digest) {
            return Some(&contents[i]);
        }
        i = i + 1;
    }
    None
}

/// `contents` with `additions` after them. A content that is there is not added again; one that
/// stands under the digest of a different content is refused.
pub open spec fn with_contents(contents: Seq<ContentView>, additions: Seq<ContentView>) -> Result<
    Seq<ContentView>,
    Seq<char>,
>
    decreases additions.len(),
{
    if additions.len() == 0 {
        Ok(contents)
    } else {
        match with_contents(contents, additions.subrange(0, additions.len() - 1)) {
            Err(message) => Err(message),
            Ok(current) => {
                let addition = additions[additions.len() - 1];
                match find_content(current, addition.digest) {
                    None => Ok(current.push(addition)),
                    Some(existing) => if existing == addition {
                        Ok(current)
                    } else {
                        Err("model observation content digest conflict"@)
                    },
                }
            },
        }
    }
}

proof fn lemma_with_contents_error(
    contents: Seq<ContentView>,
    additions: Seq<ContentView>,
    n: int,
)
    requires
        0 <= n <= additions.len(),
        with_contents(contents, additions.subrange(0, n)) is Err,
    ensures
        with_contents(contents, additions) == with_contents(contents, additions.subrange(0, n)),
    decreases additions.len() - n,
{
    if n == additions.len() {
        assert(additions.subrange(0, n) =~= additions);
    } else {
        let next = additions.subrange(0, n + 1);
        assert(next.subrange(0, next.len() - 1) =~= additions.subrange(0, n));
        lemma_with_contents_error(contents, additions, n + 1);
    }
}

/// Copies a stored content.
pub fn copy_content(content: &ObservationContent) -> (result: ObservationContent)
    ensures
        result@ == content@,
{
    ObservationContent {
        digest: content.digest.clone(),
        kind: content.kind.clone(),
        content_json: content.content_json.clone(),
    }
}

fn add_contents(contents: Vec<ObservationContent>, additions: &Vec<ObservationContent>) -> (result:
    Result<Vec<ObservationContent>, String>)
    ensures
        agrees(
            result,
            |all: Vec<ObservationContent>| content_views(all@),
            with_contents(content_views(contents@), content_views(additions@)),
        ),
{
    let ghost start = content_views(contents@);
    let ghost extra = content_views(additions@);
    let mut current = contents;
    let mut i: usize = 0;
    assert(extra.subrange(0, 0) =~= Seq::empty());
    while i < additions.len()
        invariant
            i <= additions.len(),
            start == content_views(contents@),
            extra == content_views(additions@),
            with_contents(start, extra.subrange(0, i as int)) == Ok::<
                Seq<ContentView>,
                Seq<char>,
            >(content_views(current@)),
        decreases additions.len() - i,
    {
        proof {
            let next = extra.subrange(0, i + 1);
            assert(next.subrange(0, next.len() - 1) =~= extra.subrange(0, i as int));
            assert(next[next.len() - 1] == additions@[i as int]@);
        }
        let ghost before = content_views(current@);
        let addition = &additions[i];
        let known = match lookup_content(&current, addition.digest.as_str()) {
            None => false,
            Some(existing) => {
                if !(text_equals(existing.kind.as_str(), addition.kind.as_str()) && text_equals(
                    existing.content_json.as_str(),
                    addition.content_json.as_str(),
                ) && text_equals(existing.digest.as_str(), addition.digest.as_str())) {
                    proof {
                        lemma_with_contents_error(start, extra, i + 1);
                    }
                    return Err("model observation content digest conflict".to_owned());
                }
                true
            },
        };
        if !known {
            current.push(copy_content(addition));
            assert(content_views(current@) =~= before.push(addition@));
        }
        i = i + 1;
    }
    assert(extra.subrange(0, extra.len() as int) =~= extra);
    Ok(current)
}

/// The state of storing a batch: what has to be stored so far, the events so far, and the
/// request that the next one is recorded against.
pub struct CompactionView {
    pub wires: Seq<JsonView>,
    pub contents: Seq<ContentView>,
    pub manifests: Seq<ManifestView>,
    pub parent: Option<Seq<char>>,
    pub references: Seq<ReferenceView>,
}

/// The state before the first event of a batch.
pub open spec fn compaction_start(
    parent: Option<Seq<char>>,
    references: Seq<ReferenceView>,
) -> CompactionView {
    CompactionView {
        wires: Seq::empty(),
        contents: Seq::empty(),
        manifests: Seq::empty(),
        parent,
        references,
    }
}

/// Takes one event in: a model request has its observations replaced by the digest of its
/// manifest, every other event stays as it is.
pub open spec fn compacted_one(
    state: CompactionView,
    wire: JsonView,
    session_id: Seq<char>,
) -> Result<CompactionView, Seq<char>> {
    if !model_request(wire) {
        Ok(CompactionView { wires: state.wires.push(wire), ..state })
    } else if text_field(wire, "sessionId"@) != Some(session_id) {
        Err("stored model request sessionId mismatch"@)
    } else {
        match wire_observations(wire) {
            Some(JsonView::List(observations)) => match prepared(observations, state.references) {
                Err(message) => Err(message),
                Ok((additions, references)) => match with_contents(state.contents, additions) {
                    Err(message) => Err(message),
                    Ok(contents) => {
                        let manifest = built(state.parent, state.references, references);
                        Ok(
                            CompactionView {
                                wires: state.wires.push(
                                    with_observations(
                                        wire,
                                        JsonView::Object(
                                            seq![("manifestDigest"@, JsonView::Text(manifest.digest))],
                                        ),
                                    ),
                                ),
                                contents,
                                manifests: state.manifests.push(manifest),
                                parent: Some(manifest.digest),
                                references,
                            },
                        )
                    },
                },
            },
            _ => Err("model request storage observations are required"@),
        }
    }
}

/// Takes the events of a batch in, in order.
pub open spec fn compacted(
    start: CompactionView,
    wires: Seq<JsonView>,
    session_id: Seq<char>,
) -> Result<CompactionView, Seq<char>>
    decreases wires.len(),
{
    if wires.len() == 0 {
        Ok(start)
    } else {
        match compacted(start, wires.subrange(0, wires.len() - 1), session_id) {
            Err(message) => Err(message),
            Ok(state) => compacted_one(state, wires[wires.len() - 1], session_id),
        }
    }
}

proof fn lemma_compacted_error(
    start: CompactionView,
    wires: Seq<JsonView>,
    session_id: Seq<char>,
    n: int,
)
    requires
        0 <= n <= wires.len(),
        compacted(start, wires.subrange(0, n), session_id) is Err,
    ensures
        compacted(start, wires, session_id) == compacted(start, wires.subrange(0, n), session_id),
    decreases wires.len() - n,
{
    if n == wires.len() {
        assert(wires.subrange(0, n) =~= wires);
    } else {
        let next = wires.subrange(0, n + 1);
        assert(next.subrange(0, next.len() - 1) =~= wires.subrange(0, n));
        lemma_compacted_error(start, wires, session_id, n + 1);
    }
}

/// What is stored for a batch of events.
#[derive(Debug)]
pub struct CompactedWires {
    pub wires: Vec<Json>,
    pub contents: Vec<ObservationContent>,
    pub manifests: Vec<ObservationManifest>,
    pub parent_digest: Option<String>,
    pub references: Vec<ObservationReference>,
}

impl View for CompactedWires {
    type V = CompactionView;

    open spec fn view(&self) -> CompactionView {
        CompactionView {
            wires: json_views(self.wires@),
            contents: content_views(self.contents@),
            manifests: manifest_views(self.manifests@),
            parent: optional_text(self.parent_digest),
            references: reference_views(self.references@),
        }
    }
}

fn compact_wire(state: CompactedWires, wire: &Json, session_id: &str) -> (result: Result<
    CompactedWires,
    String,
>)
    ensures
        agrees(
            result,
            |next: CompactedWires| next@,
            compacted_one(state@, wire@, session_id@),
        ),
        result is Ok && model_request(wire@) ==> forall|j: int|
            0 <= j < observations_of(wire@).len() ==> plain_reads_back(
                #[trigger] observations_of(wire@)[j],
            ),
{
    let ghost before = state@;
    let mut state = state;
    if !is_model_request(wire) {
        state.wires.push(wire.copy());
        assert(state@.wires =~= before.wires.push(wire@));
        return Ok(state);
    }
    match require_wire_session(wire, session_id) {
        Ok(()) => {},
        Err(message) => {
            return Err(message);
        },
    }
    let prepared = match get_observations(wire) {
        Some(Json::List(observations)) => {
            assert(wire_observations(wire@)->0->List_0 =~= json_views(observations@));
            match prepare_observation_manifest(
                observations,
                state.parent_digest.clone(),
                &state.references,
            ) {
                Ok(prepared) => {
                    assert forall|j: int| 0 <= j < observations_of(wire@).len() implies
                        plain_reads_back(#[trigger] observations_of(wire@)[j]) by {
                        assert(observations_of(wire@)[j] == observations@[j]@);
                    }
                    prepared
                },
                Err(message) => {
                    return Err(message);
                },
            }
        },
        _ => {
            return Err("model request storage observations are required".to_owned());
        },
    };
    let contents = match add_contents(state.contents, &prepared.contents) {
        Ok(contents) => contents,
        Err(message) => {
            return Err(message);
        },
    };
    let digest = prepared.manifest.digest.clone();
    let replaced = set_observations(wire, object1("manifestDigest", Json::Text(digest.clone())));
    let ghost replaced_view = replaced@;
    let ghost manifest_view = prepared.manifest@;
    let mut wires = state.wires;
    wires.push(replaced);
    let mut manifests = state.manifests;
    manifests.push(prepared.manifest);
    assert(json_views(wires@) =~= before.wires.push(replaced_view));
    assert(manifest_views(manifests@) =~= before.manifests.push(manifest_view));
    Ok(
        CompactedWires {
            wires,
            contents,
            manifests,
            parent_digest: Some(digest),
            references: prepared.references,
        },
    )
}

/// Makes what is stored for a batch of events that comes after a request that saw
/// `parent_references`. Where the observations are plain, they read back from what is stored.
pub fn compact_wires(
    session_id: &str,
    wires: &Vec<Json>,
    parent_digest: Option<String>,
    parent_references: Vec<ObservationReference>,
) -> (result: Result<CompactedWires, String>)
    ensures
        agrees(
            result,
            |state: CompactedWires| state@,
            compacted(
                compaction_start(optional_text(parent_digest), reference_views(parent_references@)),
                json_views(wires@),
                session_id@,
            ),
        ),
        result is Ok && plain_observations(json_views(wires@)) ==> reads_back(json_views(wires@)),
{
    let ghost start = compaction_start(
        optional_text(parent_digest),
        reference_views(parent_references@),
    );
    let ghost all = json_views(wires@);
    let mut state = CompactedWires {
        wires: Vec::new(),
        contents: Vec::new(),
        manifests: Vec::new(),
        parent_digest,
        references: parent_references,
    };
    proof {
        assert(state@.wires =~= start.wires);
        assert(state@.contents =~= start.contents);
        assert(state@.manifests =~= start.manifests);
        assert(all.subrange(0, 0) =~= Seq::empty());
    }
    let mut i: usize = 0;
    while i < wires.len()
        invariant
            i <= wires.len(),
            all == json_views(wires@),
            start == compaction_start(
                optional_text(parent_digest),
                reference_views(parent_references@),
            ),
            compacted(start, all.subrange(0, i as int), session_id@) == Ok::<
                CompactionView,
                Seq<char>,
            >(state@),
            forall|k: int, j: int|
                #![trigger observations_of(all[k])[j]]
                0 <= k < i && model_request(all[k]) && 0 <= j < observations_of(all[k]).len()
                    ==> plain_reads_back(observations_of(all[k])[j]),
        decreases wires.len() - i,
    {
        assert(all[i as int] == wires@[i as int]@);
        proof {
            let next = all.subrange(0, i + 1);
            assert(next.subrange(0, next.len() - 1) =~= all.subrange(0, i as int));
            assert(next[next.len() - 1] == wires@[i as int]@);
        }
        match compact_wire(state, &wires[i], session_id) {
            Ok(next) => {
                state = next;
            },
            Err(message) => {
                proof {
                    lemma_compacted_error(start, all, session_id@, i + 1);
                }
                return Err(message);
            },
        }
        i = i + 1;
    }
    assert(all.subrange(0, all.len() as int) =~= all);
    proof {
        if plain_observations(all) {
            assert forall|a: JsonView| #[trigger] observed(all, a) implies json_parsed(
                json_text(a),
            ) == Ok::<JsonView, Seq<char>>(a) by {
                let (k, j) = choose|k: int, j: int|
                    #![trigger observations_of(all[k])[j]]
                    0 <= k < all.len() && model_request(all[k]) && 0 <= j < observations_of(
                        all[k],
                    ).len() && observations_of(all[k])[j] == a;
                assert(plain_reads_back(observations_of(all[k])[j]));
            }
        }
    }
    Ok(state)
}


/// Whether the events of a batch hold a model request. A batch without one needs no storage.
pub fn has_model_request(wires: &Vec<Json>) -> (result: bool)
    ensures
        result == exists|i: int| 0 <= i < wires@.len() && model_request((#[trigger] wires@[i])@),
{
    let mut i: usize = 0;
    while i < wires.len()
        invariant
            i <= wires.len(),
            forall|j: int| 0 <= j < i ==> !model_request((#[trigger] wires@[j])@),
        decreases wires.len() - i,
    {
        if is_model_request(&wires[i]) {
            return true;
        }
        i = i + 1;
    }
    false
}

/// A batch without a model request is kept as it is, and nothing is stored for it.
pub proof fn law_other_events_are_kept(
    start: CompactionView,
    wires: Seq<JsonView>,
    session_id: Seq<char>,
)
    requires
        forall|i: int| 0 <= i < wires.len() ==> !model_request(#[trigger] wires[i]),
    ensures
        compacted(start, wires, session_id) == Ok::<CompactionView, Seq<char>>(
            CompactionView { wires: start.wires + wires, ..start },
        ),
    decreases wires.len(),
{
    if wires.len() == 0 {
        assert(start.wires + wires =~= start.wires);
    } else {
        let init = wires.subrange(0, wires.len() - 1);
        law_other_events_are_kept(start, init, session_id);
        assert((start.wires + init).push(wires[wires.len() - 1]) =~= start.wires + wires);
    }
}

/// The references by which stored contents are asked for, each digest once. One digest under two
/// kinds is refused.
pub open spec fn wanted(already: Seq<ReferenceView>, references: Seq<ReferenceView>) -> Result<
    Seq<ReferenceView>,
    Seq<char>,
>
    decreases references.len(),
{
    if references.len() == 0 {
        Ok(already)
    } else {
        match wanted(already, references.subrange(0, references.len() - 1)) {
            Err(message) => Err(message),
            Ok(current) => {
                let reference = references[references.len() - 1];
                match find_reference(current, reference.digest) {
                    None => Ok(current.push(reference)),
                    Some(existing) => if existing.kind == reference.kind {
                        Ok(current)
                    } else {
                        Err("stored model observation content kind conflict"@)
                    },
                }
            },
        }
    }
}

/// The first of `references` that names `digest`.
pub open spec fn find_reference(references: Seq<ReferenceView>, digest: Seq<char>) -> Option<
    ReferenceView,
>
    decreases references.len(),
{
    if references.len() == 0 {
        None
    } else if references[0].digest == digest {
        Some(references[0])
    } else {
        find_reference(references.subrange(1, references.len() as int), digest)
    }
}

fn lookup_reference<'a>(references: &'a Vec<ObservationReference>, digest: &str) -> (result: Option<
    &'a ObservationReference,
>)
    ensures
        match result {
            Some(reference) => find_reference(reference_views(references@), digest@) == Some(
                reference@,
            ),
            None => find_reference(reference_views(references@), digest@) == None::<ReferenceView>,
        },
{
    let ghost all = reference_views(references@);
    let mut i: usize = 0;
    assert(all.subrange(0, all.len() as int) =~= all);
    while i < references.len()
        invariant
            i <= references.len(),
            all == reference_views(references@),
            find_reference(all, digest@) == find_reference(
                all.subrange(i as int, all.len() as int),
                digest@,
            ),
        decreases references.len() - i,
    {
        proof {
            let rest = all.subrange(i as int, all.len() as int);
            assert(rest[0] == references@[i as int]@);
            assert(rest.subrange(1, rest.len() as int) =~= all.subrange(i + 1, all.len() as int));
        }
        if text_equals(references[i].digest.as_str(), digest) {
            return Some(&references[i]);
        }
        i = i + 1;
    }
    None
}

proof fn lemma_wanted_error(already: Seq<ReferenceView>, references: Seq<ReferenceView>, n: int)
    requires
        0 <= n <= references.len(),
        wanted(already, references.subrange(0, n)) is Err,
    ensures
        wanted(already, references) == wanted(already, references.subrange(0, n)),
    decreases references.len() - n,
{
    if n == references.len() {
        assert(references.subrange(0, n) =~= references);
    } else {
        let next = references.subrange(0, n + 1);
        assert(next.subrange(0, next.len() - 1) =~= references.subrange(0, n));
        lemma_wanted_error(already, references, n + 1);
    }
}

/// Adds the references of one request to those by which stored contents are asked for.
pub fn request_contents(
    already: Vec<ObservationReference>,
    references: &Vec<ObservationReference>,
) -> (result: Result<Vec<ObservationReference>, String>)
    ensures
        agrees(
            result,
            |all: Vec<ObservationReference>| reference_views(all@),
            wanted(reference_views(already@), reference_views(references@)),
        ),
{
    let ghost start = reference_views(already@);
    let ghost extra = reference_views(references@);
    let mut current = already;
    let mut i: usize = 0;
    assert(extra.subrange(0, 0) =~= Seq::empty());
    while i < references.len()
        invariant
            i <= references.len(),
            start == reference_views(already@),
            extra == reference_views(references@),
            wanted(start, extra.subrange(0, i as int)) == Ok::<Seq<ReferenceView>, Seq<char>>(
                reference_views(current@),
            ),
        decreases references.len() - i,
    {
        proof {
            let next = extra.subrange(0, i + 1);
            assert(next.subrange(0, next.len() - 1) =~= extra.subrange(0, i as int));
            assert(next[next.len() - 1] == references@[i as int]@);
        }
        let ghost before = reference_views(current@);
        let reference = &references[i];
        let known = match lookup_reference(&current, reference.digest.as_str()) {
            None => false,
            Some(existing) => {
                if !text_equals(existing.kind.as_str(), reference.kind.as_str()) {
                    proof {
                        lemma_wanted_error(start, extra, i + 1);
                    }
                    return Err("stored model observation content kind conflict".to_owned());
                }
                true
            },
        };
        if !known {
            current.push(crate::observation_cas::copy_reference(reference));
            assert(reference_views(current@) =~= before.push(reference@));
        }
        i = i + 1;
    }
    assert(extra.subrange(0, extra.len() as int) =~= extra);
    Ok(current)
}

/// The stored content that `reference` asks for, from its stored text.
pub open spec fn loaded(reference: ReferenceView, text: Seq<char>) -> Result<
    ContentView,
    Seq<char>,
> {
    match decoded_content(reference.digest, text) {
        Err(message) => Err(message),
        Ok(content) => if content.kind != reference.kind {
            Err("stored model observation content kind conflict"@)
        } else {
            Ok(content)
        },
    }
}

/// Reads the stored content that `reference` asks for.
pub fn load_content(reference: &ObservationReference, raw: String) -> (result: Result<
    ObservationContent,
    String,
>)
    ensures
        agrees(result, |content: ObservationContent| content@, loaded(reference@, raw@)),
{
    match decode_content(reference.digest.as_str(), raw) {
        Err(message) => Err(message),
        Ok(content) => if text_equals(content.kind.as_str(), reference.kind.as_str()) {
            Ok(content)
        } else {
            Err("stored model observation content kind conflict".to_owned())
        },
    }
}

/// The observation that `reference` stands for.
pub open spec fn restored_one(reference: ReferenceView, contents: Seq<ContentView>) -> Result<
    JsonView,
    Seq<char>,
> {
    match find_content(contents, reference.digest) {
        None => Err("stored model observation content is missing"@),
        Some(content) => if content.kind != reference.kind {
            Err("stored model observation content binding mismatch"@)
        } else {
            match json_parsed(content.text) {
                Ok(value) => Ok(value),
                Err(message) => Err("decode stored model observation content failed: "@ + message),
            }
        },
    }
}

/// The observations that `references` stand for.
pub open spec fn restored(references: Seq<ReferenceView>, contents: Seq<ContentView>) -> Result<
    Seq<JsonView>,
    Seq<char>,
>
    decreases references.len(),
{
    if references.len() == 0 {
        Ok(Seq::empty())
    } else {
        match restored(references.subrange(0, references.len() - 1), contents) {
            Err(message) => Err(message),
            Ok(observations) => match restored_one(references[references.len() - 1], contents) {
                Err(message) => Err(message),
                Ok(observation) => Ok(observations.push(observation)),
            },
        }
    }
}

/// Whether `made` is what was stored for `observations`, each of which reads back from its
/// stored text, and `contents` has all of it.
pub open spec fn stored_for(
    observations: Seq<JsonView>,
    made: Seq<ContentView>,
    contents: Seq<ContentView>,
) -> bool {
    made.len() == observations.len() && forall|i: int|
        0 <= i < made.len() ==> content_of(observations[i]) == Ok::<ContentView, Seq<char>>(
            #[trigger] made[i],
        ) && json_parsed(made[i].text) == Ok::<JsonView, Seq<char>>(observations[i])
            && find_content(contents, made[i].digest) == Some(made[i])
}

/// What was stored for the observations of a request is restored as those observations, once
/// the contents that it refers to have been read: `made` is what was stored for each of them.
pub proof fn law_restore_undoes_store(
    observations: Seq<JsonView>,
    made: Seq<ContentView>,
    contents: Seq<ContentView>,
)
    ensures
        stored_for(observations, made, contents) ==> restored(
            Seq::new(made.len(), |i: int| reference_of(made[i])),
            contents,
        ) == Ok::<Seq<JsonView>, Seq<char>>(observations),
    decreases observations.len(),
{
    let references = Seq::new(made.len(), |i: int| reference_of(made[i]));
    if stored_for(observations, made, contents) {
        if observations.len() == 0 {
            assert(observations =~= Seq::empty());
        } else {
            let n = observations.len() - 1;
            let init = observations.subrange(0, n);
            let made_init = made.subrange(0, n);
            assert(stored_for(init, made_init, contents)) by {
                assert forall|i: int| 0 <= i < made_init.len() implies content_of(init[i]) == Ok::<
                    ContentView,
                    Seq<char>,
                >(#[trigger] made_init[i]) && json_parsed(made_init[i].text) == Ok::<
                    JsonView,
                    Seq<char>,
                >(init[i]) && find_content(contents, made_init[i].digest) == Some(made_init[i]) by {
                    assert(made_init[i] == made[i]);
                }
            }
            law_restore_undoes_store(init, made_init, contents);
            assert(references.subrange(0, n) =~= Seq::new(
                made_init.len(),
                |i: int| reference_of(made_init[i]),
            ));
            assert(references[n] == reference_of(made[n]));
            assert(init.push(observations[n]) =~= observations);
        }
    }
}

proof fn lemma_restored_error(references: Seq<ReferenceView>, contents: Seq<ContentView>, n: int)
    requires
        0 <= n <= references.len(),
        restored(references.subrange(0, n), contents) is Err,
    ensures
        restored(references, contents) == restored(references.subrange(0, n), contents),
    decreases references.len() - n,
{
    if n == references.len() {
        assert(references.subrange(0, n) =~= references);
    } else {
        let next = references.subrange(0, n + 1);
        assert(next.subrange(0, next.len() - 1) =~= references.subrange(0, n));
        lemma_restored_error(references, contents, n + 1);
    }
}

/// Restores the observations that `references` stand for.
pub fn restore_observations(
    references: &Vec<ObservationReference>,
    contents: &Vec<ObservationContent>,
) -> (result: Result<Vec<Json>, String>)
    ensures
        agrees(
            result,
            |observations: Vec<Json>| json_views(observations@),
            restored(reference_views(references@), content_views(contents@)),
        ),
{
    let ghost all = reference_views(references@);
    let ghost stored = content_views(contents@);
    let mut observations: Vec<Json> = Vec::new();
    let mut i: usize = 0;
    assert(all.subrange(0, 0) =~= Seq::empty());
    assert(json_views(observations@) =~= Seq::empty());
    while i < references.len()
        invariant
            i <= references.len(),
            all == reference_views(references@),
            stored == content_views(contents@),
            restored(all.subrange(0, i as int), stored) == Ok::<Seq<JsonView>, Seq<char>>(
                json_views(observations@),
            ),
        decreases references.len() - i,
    {
        proof {
            let next = all.subrange(0, i + 1);
            assert(next.subrange(0, next.len() - 1) =~= all.subrange(0, i as int));
            assert(next[next.len() - 1] == references@[i as int]@);
        }
        let ghost before = json_views(observations@);
        let reference = &references[i];
        let outcome: Result<Json, String> = match lookup_content(
            contents,
            reference.digest.as_str(),
        ) {
            None => Err("stored model observation content is missing".to_owned()),
            Some(content) => if !text_equals(content.kind.as_str(), reference.kind.as_str()) {
                Err("stored model observation content binding mismatch".to_owned())
            } else {
                match parse_json(content.content_json.as_str()) {
                    Ok(value) => Ok(value),
                    Err(message) => Err(
                        concat2(
                            "decode stored model observation content failed: ",
                            message.as_str(),
                        ),
                    ),
                }
            },
        };
        match outcome {
            Ok(value) => {
                observations.push(value);
                assert(json_views(observations@) =~= before.push(value@));
            },
            Err(message) => {
                proof {
                    lemma_restored_error(all, stored, i + 1);
                }
                return Err(message);
            },
        }
        i = i + 1;
    }
    assert(all.subrange(0, all.len() as int) =~= all);
    Ok(observations)
}

/// A stored model request with its observations restored.
pub fn hydrate_wire(wire: &Json, observations: Vec<Json>) -> (result: Result<Json, String>)
    ensures
        match result {
            Ok(value) => wire_observations(wire@) is Some && value@ == with_observations(
                wire@,
                JsonView::List(json_views(observations@)),
            ),
            Err(message) => wire_observations(wire@) is None && message@
                == "stored model request observations are missing"@,
        },
{
    if get_observations(wire).is_none() {
        return Err("stored model request observations are missing".to_owned());
    }
    Ok(set_observations(wire, crate::json::list(observations)))
}

/// The name of the file that holds the content stored under `digest`.
pub fn content_file_name(digest: &str) -> (result: Result<String, String>)
    ensures
        match result {
            Ok(name) => valid_tagged(digest@) && name@ == after_prefix(digest@, "sha256:"@)->0
                + ".json"@,
            Err(message) => !valid_tagged(digest@) && message@
                == "model observation content digest is invalid"@,
        },
{
    match validate_digest(digest) {
        Err(message) => Err(message),
        Ok(()) => match strip_prefix(digest, "sha256:") {
            Some(hex) => Ok(concat2(hex, ".json")),
            None => Err("model observation content digest is invalid".to_owned()),
        },
    }
}

/// The name of the file that holds the manifest stored under `digest`.
pub fn manifest_file_name(digest: &str) -> (result: Result<String, String>)
    ensures
        match result {
            Ok(name) => valid_tagged(digest@) && name@ == "manifest-"@ + after_prefix(
                digest@,
                "sha256:"@,
            )->0 + ".json"@,
            Err(message) => !valid_tagged(digest@) && message@
                == "model observation content digest is invalid"@,
        },
{
    match validate_digest(digest) {
        Err(message) => Err(message),
        Ok(()) => match strip_prefix(digest, "sha256:") {
            Some(hex) => Ok(concat3("manifest-", hex, ".json")),
            None => Err("model observation content digest is invalid".to_owned()),
        },
    }
}

/// Whether a stored file is no longer needed, by its name and by what can be reached: leftovers
/// of interrupted writes, and contents and manifests that nothing refers to.
pub open spec fn orphaned(
    name: Seq<char>,
    manifests: Seq<String>,
    contents: Seq<String>,
) -> Result<bool, Seq<char>> {
    if begins_with(name, "."@) && ends_with_text(name, ".tmp"@) {
        Ok(true)
    } else {
        match after_prefix(name, "manifest-"@) {
            Some(rest) if ends_with_text(rest, ".json"@) => {
                let hex = before_suffix(rest, ".json"@)->0;
                if valid_hex(hex) {
                    Ok(!lists(manifests, "sha256:"@ + hex))
                } else {
                    Err("Session observation manifest filename is invalid"@)
                }
            },
            _ => match before_suffix(name, ".json"@) {
                Some(hex) => if valid_hex(hex) {
                    Ok(!lists(contents, "sha256:"@ + hex))
                } else {
                    Err("Session observation content filename is invalid"@)
                },
                None => Err("Session observation CAS filename is invalid"@),
            },
        }
    }
}

/// Whether a stored file is no longer needed, by its name and by what can be reached.
pub fn stored_file_is_orphan(
    name: &str,
    reachable_manifests: &Vec<String>,
    reachable_contents: &Vec<String>,
) -> (result: Result<bool, String>)
    ensures
        agrees(
            result,
            |orphan: bool| orphan,
            orphaned(name@, reachable_manifests@, reachable_contents@),
        ),
{
    if starts_with(name, ".") && strip_suffix(name, ".tmp").is_some() {
        return Ok(true);
    }
    match strip_prefix(name, "manifest-") {
        Some(rest) => {
            match strip_suffix(rest, ".json") {
                Some(hex) => {
                    return if valid_digest_hex(hex) {
                        Ok(!contains_text(reachable_manifests, concat2("sha256:", hex).as_str()))
                    } else {
                        Err("Session observation manifest filename is invalid".to_owned())
                    };
                },
                None => {},
            }
        },
        None => {},
    }
    match strip_suffix(name, ".json") {
        Some(hex) => if valid_digest_hex(hex) {
            Ok(!contains_text(reachable_contents, concat2("sha256:", hex).as_str()))
        } else {
            Err("Session observation content filename is invalid".to_owned())
        },
        None => Err("Session observation CAS filename is invalid".to_owned()),
    }
}

/// What can still be reached is never taken away: a stored file whose digest is among those that
/// can be reached is needed.
pub proof fn law_reachable_files_are_kept(
    hex: Seq<char>,
    manifests: Seq<String>,
    contents: Seq<String>,
)
    requires
        valid_hex(hex),
    ensures
        lists(contents, "sha256:"@ + hex) ==> orphaned(hex + ".json"@, manifests, contents) == Ok::<
            bool,
            Seq<char>,
        >(false),
        lists(manifests, "sha256:"@ + hex) ==> orphaned(
            "manifest-"@ + hex + ".json"@,
            manifests,
            contents,
        ) == Ok::<bool, Seq<char>>(false),
{
    reveal_strlit(".");
    reveal_strlit(".tmp");
    reveal_strlit(".json");
    reveal_strlit("manifest-");
    let content = hex + ".json"@;
    let manifest = "manifest-"@ + hex + ".json"@;
    assert(content[0] == hex[0] && manifest[0] == 'm');
    assert(crate::digest::lower_hex(hex[0]));
    assert(!begins_with(content, "."@)) by {
        if begins_with(content, "."@) {
            assert(content.subrange(0, 1)[0] == "."@[0]);
        }
    }
    assert(!begins_with(content, "manifest-"@)) by {
        if begins_with(content, "manifest-"@) {
            assert(content.subrange(0, 9)[0] == "manifest-"@[0]);
        }
    }
    assert(!begins_with(manifest, "."@)) by {
        if begins_with(manifest, "."@) {
            assert(manifest.subrange(0, 1)[0] == "."@[0]);
        }
    }
    assert(content.subrange(content.len() - 5, content.len() as int) =~= ".json"@);
    assert(content.subrange(0, content.len() - 5) =~= hex);
    let rest = hex + ".json"@;
    assert(manifest.subrange(0, 9) =~= "manifest-"@);
    assert(manifest.subrange(9, manifest.len() as int) =~= rest);
    assert(rest.subrange(rest.len() - 5, rest.len() as int) =~= ".json"@);
    assert(rest.subrange(0, rest.len() - 5) =~= hex);
}

/// Whether `c` may stand in the name of a session.
pub open spec fn session_id_char(c: char) -> bool {
    ascii_alphanumeric(c) || c == '-' || c == '_' || c == '.'
}

/// Whether `id` can name a session's files.
pub open spec fn file_session_id(id: Seq<char>) -> bool {
    id.len() > 0 && forall|i: int| 0 <= i < id.len() ==> session_id_char(#[trigger] id[i])
}

/// Whether `id` can name a session's files.
pub fn is_file_session_id(id: &str) -> (result: bool)
    ensures
        result == file_session_id(id@),
{
    let chars = chars_of(id);
    if chars.len() == 0 {
        return false;
    }
    let mut i: usize = 0;
    while i < chars.len()
        invariant
            i <= chars.len(),
            chars@ == id@,
            forall|j: int| 0 <= j < i ==> session_id_char(#[trigger] id@[j]),
        decreases chars.len() - i,
    {
        let c: char = chars[i];
        if !(is_ascii_alphanumeric(c) || c == '-' || c == '_' || c == '.') {
            assert(!session_id_char(id@[i as int]));
            return false;
        }
        i = i + 1;
    }
    true
}

/// Accepts the path of a session's log: its file is named after the session. `path` is the path
/// as it is shown, `file_name` its last part.
pub fn validate_session_log_path(path: &str, file_name: &str, session_id: &str) -> (result: Result<
    (),
    String,
>)
    ensures
        match result {
            Ok(()) => file_session_id(session_id@) && file_name@ == session_id@ + ".jsonl"@,
            Err(message) => !(file_session_id(session_id@) && file_name@ == session_id@
                + ".jsonl"@) && message@
                == "Session log path does not match its validated sessionId: "@ + path@,
        },
{
    if is_file_session_id(session_id) && text_equals(
        file_name,
        concat2(session_id, ".jsonl").as_str(),
    ) {
        Ok(())
    } else {
        Err(concat2("Session log path does not match its validated sessionId: ", path))
    }
}

/// Accepts what stands in the file of a content that is installed, where it is that content.
pub open spec fn existing_content(expected: ContentView, text: Seq<char>) -> Result<(), Seq<char>> {
    match decoded_content(expected.digest, text) {
        Err(message) => Err(message),
        Ok(stored) => if stored == expected {
            Ok(())
        } else {
            Err("model observation content digest conflict"@)
        },
    }
}

/// Accepts the text of the file of a content that is installed, where it holds that content.
pub fn verify_existing_content(expected: &ObservationContent, raw: String) -> (result: Result<
    (),
    String,
>)
    ensures
        agrees(result, |unit: ()| unit, existing_content(expected@, raw@)),
{
    let stored = match decode_content(expected.digest.as_str(), raw) {
        Ok(stored) => stored,
        Err(message) => {
            return Err(message);
        },
    };
    if text_equals(stored.digest.as_str(), expected.digest.as_str()) && text_equals(
        stored.kind.as_str(),
        expected.kind.as_str(),
    ) && text_equals(stored.content_json.as_str(), expected.content_json.as_str()) {
        Ok(())
    } else {
        Err("model observation content digest conflict".to_owned())
    }
}

/// Accepts what stands in the file of a manifest that is installed, where it is that manifest.
pub open spec fn existing_manifest(expected: ManifestView, text: Seq<char>) -> Result<
    (),
    Seq<char>,
> {
    match decoded_manifest(expected.digest, text) {
        Err(message) => Err(message),
        Ok(stored) => if stored == expected {
            Ok(())
        } else {
            Err("model observation manifest digest conflict"@)
        },
    }
}

fn same_changes(a: &Vec<ObservationChange>, b: &Vec<ObservationChange>) -> (result: bool)
    ensures
        result == (change_views(a@) == change_views(b@)),
{
    if a.len() != b.len() {
        assert(change_views(a@).len() != change_views(b@).len());
        return false;
    }
    let mut i: usize = 0;
    while i < a.len()
        invariant
            i <= a.len(),
            a.len() == b.len(),
            forall|j: int| 0 <= j < i ==> (#[trigger] a@[j])@ == b@[j]@,
        decreases a.len() - i,
    {
        if a[i].index != b[i].index || !same_reference(&a[i].reference, &b[i].reference) {
            assert(change_views(a@)[i as int] != change_views(b@)[i as int]);
            return false;
        }
        i = i + 1;
    }
    assert(change_views(a@) =~= change_views(b@));
    true
}

/// Accepts the text of the file of a manifest that is installed, where it holds that manifest.
pub fn verify_existing_manifest(expected: &ObservationManifest, raw: String) -> (result: Result<
    (),
    String,
>)
    ensures
        agrees(result, |unit: ()| unit, existing_manifest(expected@, raw@)),
{
    let stored = match decode_manifest(expected.digest.as_str(), raw) {
        Ok(stored) => stored,
        Err(message) => {
            return Err(message);
        },
    };
    if text_equals(stored.digest.as_str(), expected.digest.as_str()) && same_optional(
        &stored.parent_digest,
        &expected.parent_digest,
    ) && stored.observation_count == expected.observation_count && same_changes(
        &stored.changes,
        &expected.changes,
    ) && text_equals(stored.content_json.as_str(), expected.content_json.as_str()) {
        Ok(())
    } else {
        Err("model observation manifest digest conflict".to_owned())
    }
}

/// The walk that marks the manifests that can be reached from the requests of a session.
#[derive(Debug)]
pub struct ReachabilityWalk {
    pub reachable: Vec<String>,
    pub next: Option<String>,
}

impl ReachabilityWalk {
    /// Marks the next manifest of the chain. Gives its digest where it has to be read to go on,
    /// and nothing at the end of the chain or at a manifest that is marked already.
    pub fn visit(&mut self) -> (result: Option<String>)
        ensures
            final(self).next == old(self).next,
            match old(self).next {
                None => result is None && final(self).reachable@ == old(self).reachable@,
                Some(digest) => if lists(old(self).reachable@, digest@) {
                    result is None && final(self).reachable@ == old(self).reachable@
                } else {
                    result matches Some(wanted) && wanted@ == digest@ && crate::text::texts(
                        final(self).reachable@,
                    ) == crate::text::texts(old(self).reachable@).push(digest@)
                },
            },
    {
        let wanted: Option<String> = match &self.next {
            None => None,
            Some(digest) => if contains_text(&self.reachable, digest.as_str()) {
                None
            } else {
                Some(digest.clone())
            },
        };
        match wanted {
            None => None,
            Some(digest) => {
                let ghost before = self.reachable@;
                self.reachable.push(digest.clone());
                assert(crate::text::texts(self.reachable@) =~= crate::text::texts(before).push(
                    digest@,
                ));
                Some(digest)
            },
        }
    }

    /// Hands the walk the text of the manifest that it asked for, and goes on to its parent.
    pub fn supply(&mut self, raw: String) -> (result: Result<(), String>)
        requires
            old(self).next is Some,
        ensures
            final(self).reachable == old(self).reachable,
            match decoded_manifest(optional_text(old(self).next)->0, raw@) {
                Ok(manifest) => result is Ok && optional_text(final(self).next) == manifest.parent,
                Err(message) => result matches Err(m) && m@ == message && final(self).next
                    == old(self).next,
            },
    {
        let digest: String = match &self.next {
            Some(digest) => digest.clone(),
            None => String::new(),
        };
        match decode_manifest(digest.as_str(), raw) {
            Ok(manifest) => {
                let parent = manifest.parent_digest.clone();
                assert(optional_text(parent) == manifest@.parent);
                self.next = parent;
                Ok(())
            },
            Err(message) => Err(message),
        }
    }
}

/// An observation is stored exactly where it is an object of a known kind that does not claim a
/// digest, and it is stored as its canonical text under the digest of that text.
pub proof fn law_observations_are_stored_by_digest(
    observation: JsonView,
    content: ObservationContent,
)
    ensures
        content_of(observation) is Ok <==> observation is Object && field(
            observation,
            "contentDigest"@,
        ) is None && (text_field(observation, "kind"@) matches Some(kind) && stored_kind(kind)),
        content_of(observation) == Ok::<ContentView, Seq<char>>(content@) ==> content.digest@
            == content_digest(json_text(observation)) && content.content_json@ == json_text(
            observation,
        ) && Some(content.kind@) == text_field(observation, "kind"@),
{
}

/// Stored content is taken exactly where the digest that it is asked for is one and is the digest of
/// the text, and the text is the canonical JSON of an observation that could be stored; it is taken
/// as it stands.
pub proof fn law_stored_contents_are_sound(
    digest: Seq<char>,
    text: Seq<char>,
    content: ObservationContent,
)
    ensures
        decoded_content(digest, text) is Ok <==> valid_tagged(digest) && content_digest(text)
            == digest && (json_parsed(text) matches Ok(value) && json_text(value) == text
            && content_of(value) is Ok),
        decoded_content(digest, text) == Ok::<ContentView, Seq<char>>(content@)
            ==> content.digest@ == digest && content.content_json@ == text && Some(content.kind@)
            == text_field(json_parsed(text)->Ok_0, "kind"@),
{
}

/// What is stored is read back: the content that was made of an observation is taken for its digest.
pub proof fn law_stored_observations_are_read_back(observation: JsonView, content: ObservationContent)
    requires
        content_of(observation) == Ok::<ContentView, Seq<char>>(content@),
        json_parsed(json_text(observation)) == Ok::<JsonView, Seq<char>>(observation),
        valid_tagged(content.digest@),
    ensures
        decoded_content(content.digest@, content.content_json@) == Ok::<ContentView, Seq<char>>(
            content@,
        ),
        loaded(
            (ReferenceView { kind: content.kind@, digest: content.digest@ }),
            content.content_json@,
        ) == Ok::<ContentView, Seq<char>>(content@),
{
}

/// Whether the content at a place is the first with a digest.
pub open spec fn first_content(contents: Seq<ContentView>, digest: Seq<char>, at: int) -> bool {
    &&& 0 <= at < contents.len()
    &&& contents[at].digest == digest
    &&& forall|k: int| 0 <= k < at ==> (#[trigger] contents[k]).digest != digest
}

/// Content is found by its digest: the first that has it, and none exactly where none has it.
pub proof fn law_contents_are_found_by_digest(contents: Seq<ContentView>, digest: Seq<char>)
    ensures
        find_content(contents, digest) is None <==> forall|k: int|
            0 <= k < contents.len() ==> (#[trigger] contents[k]).digest != digest,
        forall|at: int| #[trigger]
            first_content(contents, digest, at) ==> find_content(contents, digest) == Some(
                contents[at],
            ),
    decreases contents.len(),
{
    if contents.len() > 0 {
        let rest = contents.subrange(1, contents.len() as int);
        law_contents_are_found_by_digest(rest, digest);
        assert forall|k: int| 0 <= k < rest.len() implies #[trigger] rest[k] == contents[k + 1] by {}
        if contents[0].digest == digest {
            assert forall|at: int| #[trigger] first_content(contents, digest, at) implies find_content(
                contents,
                digest,
            ) == Some(contents[at]) by {
                if at > 0 {
                    assert(contents[0].digest != digest);
                }
            }
        } else {
            if find_content(rest, digest) is None {
                assert forall|k: int| 0 <= k < contents.len() implies (
                #[trigger] contents[k]).digest != digest by {
                    if k > 0 {
                        assert(rest[k - 1] == contents[k]);
                    }
                }
            } else {
                let k = choose|k: int| 0 <= k < rest.len() && (#[trigger] rest[k]).digest == digest;
                assert(contents[k + 1].digest == digest);
            }
            assert forall|at: int| #[trigger] first_content(contents, digest, at) implies find_content(
                contents,
                digest,
            ) == Some(contents[at]) by {
                assert(rest[at - 1] == contents[at]);
                assert(first_content(rest, digest, at - 1));
            }
        }
    }
}

/// Which files of a session's store may be removed: a temporary file always, a manifest or a content
/// exactly where nothing names its digest. The name of another file is refused.
pub proof fn law_files_that_nothing_names_are_removed(
    digits: Seq<char>,
    middle: Seq<char>,
    manifests: Seq<String>,
    contents: Seq<String>,
)
    ensures
        orphaned("."@ + middle + ".tmp"@, manifests, contents) == Ok::<bool, Seq<char>>(true),
        valid_hex(digits) ==> orphaned("manifest-"@ + digits + ".json"@, manifests, contents) == Ok::<
            bool,
            Seq<char>,
        >(!lists(manifests, "sha256:"@ + digits)),
        valid_hex(digits) ==> orphaned(digits + ".json"@, manifests, contents) == Ok::<
            bool,
            Seq<char>,
        >(!lists(contents, "sha256:"@ + digits)),
{
    reveal_strlit(".");
    reveal_strlit(".tmp");
    reveal_strlit("manifest-");
    reveal_strlit(".json");
    let temporary = "."@ + middle + ".tmp"@;
    assert(temporary.subrange(0, 1) =~= "."@);
    assert(temporary.subrange(temporary.len() - 4, temporary.len() as int) =~= ".tmp"@);
    if valid_hex(digits) {
        assert(crate::digest::lower_hex(digits[0]));
        let rest = digits + ".json"@;
        let manifest = "manifest-"@ + digits + ".json"@;
        assert(manifest =~= "manifest-"@ + rest);
        assert(manifest[0] == 'm');
        assert(!begins_with(manifest, "."@)) by {
            if begins_with(manifest, "."@) {
                assert(manifest.subrange(0, 1)[0] == "."@[0]);
            }
        }
        assert(manifest.subrange(0, 9) =~= "manifest-"@);
        assert(manifest.subrange(9, manifest.len() as int) =~= rest);
        assert(rest.subrange(rest.len() - 5, rest.len() as int) =~= ".json"@);
        assert(rest.subrange(0, rest.len() - 5) =~= digits);
        assert(rest[0] == digits[0]);
        assert(!begins_with(rest, "."@)) by {
            if begins_with(rest, "."@) {
                assert(rest.subrange(0, 1)[0] == "."@[0]);
            }
        }
        assert(!begins_with(rest, "manifest-"@)) by {
            if begins_with(rest, "manifest-"@) {
                assert(rest.subrange(0, 9)[0] == "manifest-"@[0]);
            }
        }
    }
}

/// A session has a name that a file can have exactly where it is made of letters and digits of ASCII,
/// hyphens, underscores and full stops.
pub proof fn law_sessions_with_files_are_named_plainly(id: Seq<char>)
    ensures
        file_session_id(id) <==> id.len() > 0 && forall|i: int|
            0 <= i < id.len() ==> {
                let c = #[trigger] id[i];
                ||| '0' <= c && c <= '9'
                ||| 'a' <= c && c <= 'z'
                ||| 'A' <= c && c <= 'Z'
                ||| c == '-' || c == '_' || c == '.'
            },
{
    if file_session_id(id) {
        assert forall|i: int| 0 <= i < id.len() implies ({
            let c = #[trigger] id[i];
            ||| '0' <= c && c <= '9'
            ||| 'a' <= c && c <= 'z'
            ||| 'A' <= c && c <= 'Z'
            ||| c == '-' || c == '_' || c == '.'
        }) by {
            assert(session_id_char(id[i]));
        }
    }
}

/// An event is a request to a model exactly where its type says so, and the manifest that a stored
/// request names is the digest of its observations.
pub proof fn law_requests_name_their_manifest(wire: JsonView, digest: Seq<char>)
    ensures
        model_request(wire) <==> text_field(wire, "type"@) == Some("model_request_started"@),
        root_of(wire) == Ok::<Seq<char>, Seq<char>>(digest) ==> valid_tagged(digest) && (field(
            wire,
            "payload"@,
        ) matches Some(payload) && (field(payload, "observations"@) matches Some(observations)
            && text_field(observations, "manifestDigest"@) == Some(digest))),
{
}

proof fn lemma_found_before_more(contents: Seq<ContentView>, content: ContentView, digest: Seq<char>)
    ensures
        find_content(contents, digest) is Some ==> find_content(contents.push(content), digest)
            == find_content(contents, digest),
        find_content(contents, digest) is None ==> find_content(contents.push(content), digest)
            == if content.digest == digest {
            Some(content)
        } else {
            None
        },
    decreases contents.len(),
{
    let more = contents.push(content);
    let rest = more.subrange(1, more.len() as int);
    if contents.len() == 0 {
        assert(rest =~= Seq::<ContentView>::empty());
        assert(find_content(rest, digest) is None);
    } else {
        let fewer = contents.subrange(1, contents.len() as int);
        lemma_found_before_more(fewer, content, digest);
        assert(rest =~= fewer.push(content));
    }
}

/// Contents are added where their digests do not name others: what was there stays in its place, what
/// is added is found by its digest, and nothing is there twice that was not before.
pub proof fn law_contents_are_added_once(
    contents: Seq<ContentView>,
    additions: Seq<ContentView>,
)
    ensures
        with_contents(contents, Seq::empty()) == Ok::<Seq<ContentView>, Seq<char>>(contents),
        with_contents(contents, additions) matches Ok(after) ==> {
            &&& contents.len() <= after.len() <= contents.len() + additions.len()
            &&& after.subrange(0, contents.len() as int) == contents
            &&& forall|digest: Seq<char>|
                find_content(contents, digest) is Some ==> #[trigger] find_content(after, digest)
                    == find_content(contents, digest)
            &&& forall|k: int|
                0 <= k < additions.len() ==> find_content(after, (#[trigger] additions[k]).digest)
                    == Some(additions[k])
            &&& forall|k: int|
                contents.len() <= k < after.len() ==> additions.contains(#[trigger] after[k])
                    && find_content(contents, after[k].digest) is None
            &&& forall|k: int, l: int|
                contents.len() <= k < l < after.len() ==> (#[trigger] after[k]).digest != (
                #[trigger] after[l]).digest
        },
    decreases additions.len(),
{
    if additions.len() == 0 {
        assert(contents.subrange(0, contents.len() as int) =~= contents);
    } else if with_contents(contents, additions) is Ok {
        let n = additions.len() - 1;
        let init = additions.subrange(0, n);
        let last = additions[n];
        law_contents_are_added_once(contents, init);
        let before = with_contents(contents, init)->Ok_0;
        let after = with_contents(contents, additions)->Ok_0;
        law_contents_are_found_by_digest(before, last.digest);
        assert forall|k: int| 0 <= k < n implies #[trigger] init[k] == additions[k] by {}
        assert forall|digest: Seq<char>| find_content(before, digest) is Some implies #[trigger] find_content(
            after,
            digest,
        ) == find_content(before, digest) by {
            lemma_found_before_more(before, last, digest);
        }
        lemma_found_before_more(before, last, last.digest);
        assert(after.subrange(0, contents.len() as int) =~= contents) by {
            assert(before.subrange(0, contents.len() as int) =~= contents);
            assert forall|k: int| 0 <= k < contents.len() implies after[k] == contents[k] by {
                assert(before.subrange(0, contents.len() as int)[k] == before[k]);
                assert(after[k] == before[k]);
            }
        }
        assert forall|digest: Seq<char>| find_content(contents, digest) is Some implies #[trigger] find_content(
            after,
            digest,
        ) == find_content(contents, digest) by {
            assert(find_content(before, digest) == find_content(contents, digest));
        }
        assert forall|k: int| 0 <= k < additions.len() implies find_content(
            after,
            (#[trigger] additions[k]).digest,
        ) == Some(additions[k]) by {
            if k < n {
                assert(init[k] == additions[k]);
                assert(find_content(before, init[k].digest) == Some(init[k]));
                assert(find_content(after, init[k].digest) == find_content(before, init[k].digest));
            }
        }
        assert forall|k: int| contents.len() <= k < after.len() implies additions.contains(
            #[trigger] after[k],
        ) && find_content(contents, after[k].digest) is None by {
            if k < before.len() {
                assert(after[k] == before[k]);
                assert(init.contains(before[k]));
                let at = choose|at: int| 0 <= at < init.len() && init[at] == before[k];
                assert(additions[at] == after[k]);
            } else {
                assert(after[k] == last && additions[n] == last);
                if find_content(contents, last.digest) is Some {
                    assert(find_content(before, last.digest) == find_content(contents, last.digest));
                }
            }
        }
        assert forall|k: int, l: int| contents.len() <= k < l < after.len() implies (
        #[trigger] after[k]).digest != (#[trigger] after[l]).digest by {
            assert(after[k] == before[k]);
            if l < before.len() {
                assert(after[l] == before[l]);
            } else {
                assert(after[l] == last);
                assert(before[k].digest != last.digest);
            }
        }
    }
}

/// A file that is there already is taken for what is to be stored exactly where it reads as just that.
pub proof fn law_files_that_are_there_hold_the_same(
    manifest: ManifestView,
    content: ContentView,
    text: Seq<char>,
)
    ensures
        existing_manifest(manifest, text) is Ok <==> decoded_manifest(manifest.digest, text) == Ok::<
            ManifestView,
            Seq<char>,
        >(manifest),
        existing_content(content, text) is Ok <==> decoded_content(content.digest, text) == Ok::<
            ContentView,
            Seq<char>,
        >(content),
{
}

/// Observations that are put into an event are read back from it, and nothing else of the event or of
/// its payload changes.
pub proof fn law_observations_are_put_into_the_payload(
    wire: JsonView,
    observations: JsonView,
    key: Seq<char>,
)
    requires
        wire_observations(wire) is Some,
    ensures
        wire_observations(with_observations(wire, observations)) == Some(observations),
        key != "payload"@ ==> field(with_observations(wire, observations), key) == field(wire, key),
        key != "observations"@ ==> field(
            field(with_observations(wire, observations), "payload"@)->0,
            key,
        ) == field(field(wire, "payload"@)->0, key),
{
    let payload = field(wire, "payload"@)->0;
    let filled = with_field(payload, "observations"@, observations);
    reveal_strlit("payload");
    reveal_strlit("observations");
    assert("payload"@.len() == 7 && "observations"@.len() == 12);
    crate::json::law_fields_are_read_back(payload, "observations"@, "payload"@, observations);
    crate::json::law_fields_are_read_back(wire, "payload"@, "observations"@, filled);
    if key != "payload"@ {
        crate::json::law_fields_are_read_back(wire, "payload"@, key, filled);
    }
    if key != "observations"@ {
        crate::json::law_fields_are_read_back(payload, "observations"@, key, observations);
    }
}

/// Whether an event names a manifest of its session, where it is a request to the model.
pub open spec fn names_its_root(wire: JsonView, session_id: Seq<char>) -> bool {
    model_request(wire) ==> text_field(wire, "sessionId"@) == Some(session_id) && root_of(wire) is Ok
}

/// The manifests that events name are found exactly where every request to the model is of the
/// session and names one; they are those of the requests, in their order, and no others.
pub proof fn law_roots_are_named_by_model_requests(
    wires: Seq<JsonView>,
    wire: JsonView,
    session_id: Seq<char>,
)
    ensures
        roots_of(wires, session_id) is Ok <==> forall|k: int|
            0 <= k < wires.len() ==> names_its_root(#[trigger] wires[k], session_id),
        roots_of(wires, session_id) matches Ok(roots) ==> forall|k: int|
            0 <= k < wires.len() && model_request(#[trigger] wires[k]) ==> roots.contains(
                root_of(wires[k])->Ok_0,
            ),
        roots_of(wires, session_id) matches Ok(roots) && !model_request(wire) ==> roots_of(
            wires.push(wire),
            session_id,
        ) == roots_of(wires, session_id),
        roots_of(wires, session_id) is Ok && model_request(wire) && names_its_root(wire, session_id)
            ==> roots_of(wires.push(wire), session_id) == Ok::<Seq<Seq<char>>, Seq<char>>(
            roots_of(wires, session_id)->Ok_0.push(root_of(wire)->Ok_0),
        ),
    decreases wires.len(),
{
    let more = wires.push(wire);
    assert(more.subrange(0, more.len() - 1) =~= wires);
    if wires.len() > 0 {
        let n = wires.len() - 1;
        let init = wires.subrange(0, n);
        law_roots_are_named_by_model_requests(init, wire, session_id);
        assert forall|k: int| 0 <= k < n implies #[trigger] init[k] == wires[k] by {}
        if roots_of(init, session_id) is Ok {
            assert forall|k: int| 0 <= k < n implies names_its_root(
                #[trigger] wires[k],
                session_id,
            ) by {
                assert(init[k] == wires[k]);
            }
            if roots_of(wires, session_id) is Ok {
                let before = roots_of(init, session_id)->Ok_0;
                let roots = roots_of(wires, session_id)->Ok_0;
                assert forall|k: int| 0 <= k < wires.len() && model_request(
                    #[trigger] wires[k],
                ) implies roots.contains(root_of(wires[k])->Ok_0) by {
                    let root = root_of(wires[k])->Ok_0;
                    if k < n {
                        assert(init[k] == wires[k]);
                        assert(before.contains(root));
                        let at = choose|at: int| 0 <= at < before.len() && before[at] == root;
                        assert(roots[at] == root);
                    } else {
                        assert(roots[before.len() as int] == root);
                    }
                }
            }
        }
    }
}

} // verus!
