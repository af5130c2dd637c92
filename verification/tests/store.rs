use centaeris_runtime_host::agent_runs::{
    attach, detach, detach_viewer, ensure_session_can_be_deleted, fail_agent_run, find_agent_run,
    finish_agent_run, idle_session_ids, list, plan_cancel, request_cancel, required_viewer_id,
    started_agent_run, CancelPlan,
};
use centaeris_runtime_host::json::{text_json, Json};
use centaeris_runtime_host::message_log::{
    agent_run_replay_indices, append_agent_run_started_with_attachments, check_rewrite,
    incomplete_call_time, plan_terminal_record, project_agent_runs_from_records,
    project_chat_messages_from_records, projected_stream_items, replay_page, rewritten_opening,
    terminal_stream_item, MessageRole, ProjectedAgentRun, ProjectedChatMessage, ReducedMessage,
    TerminalRecord,
};
use centaeris_runtime_host::observation_cas::{
    apply_manifest, build_manifest, decode_manifest, digest_manifest, ObservationContent,
    ObservationManifest, ObservationReference,
};
use centaeris_runtime_host::observation_log::hydrate_wires;
use centaeris_runtime_host::observation_store::{
    compact_wires, content_file_name, decode_content, has_model_request, is_model_request,
    load_content, manifest_file_name, observation_content, observation_manifest_digest,
    manifest_digests_of, prepare_observation_manifest, request_contents, require_wire_session,
    stored_file_is_orphan, stored_manifest_digests, validate_session_log_path,
    verify_existing_content, verify_existing_manifest, ManifestResolution, ReachabilityWalk,
    ResolutionStep,
};
use centaeris_runtime_host::session_documents::{
    agent_run_session_records, append_agent_turn_running, append_file_mutation_pre_apply_fact,
    check_installed, check_removed, content_directory_fate, content_entry_session,
    create_session_document, find_recorded_message, install_temporary_name,
    project_agent_run_assistant, project_agent_runs, project_incomplete_tool_calls,
    project_session_log, split_extension, tombstoned_count, ContentFate, CreateAttempt, EntryKind,
    LogPresence, ProjectedToolCall, RemoveAttempt,
};
use centaeris_runtime_host::session_log::{
    accept_records, check_log_contents, check_manifest_session, decode_log_line,
    metadata_identities, plan_append, read_log_manifest, read_log_wires, sequence_records,
    session_metadata_record, RecordKind, SessionLogRecord, FIRST_METADATA_SEQUENCE,
};
use centaeris_runtime_host::text_map::TextMap;
use centaeris_runtime_host::viewers::ViewerRegistry;
use std::collections::HashMap;

fn json(text: &str) -> Json {
    Json::read(text).expect("JSON fixture")
}

fn record(id: &str, kind: RecordKind, run: Option<&str>, at: i64, payload: &str) -> SessionLogRecord {
    SessionLogRecord {
        event_id: id.to_string(),
        kind,
        session_id: "session".to_string(),
        turn_id: run.map(|run| format!("turn-{run}")),
        agent_run_id: run.map(str::to_string),
        created_at_ms: at,
        payload: json(payload),
    }
}

fn run(id: &str, session: &str, status: &str, updated_at_ms: i64) -> ProjectedAgentRun {
    ProjectedAgentRun {
        agent_run_id: id.to_string(),
        session_id: session.to_string(),
        turn_id: format!("turn-{id}"),
        cwd: None,
        status: status.to_string(),
        started_at_ms: 1,
        updated_at_ms,
        completed_at_ms: None,
        last_event_at_ms: None,
        error: None,
    }
}

struct MemoryStore {
    files: HashMap<String, String>,
}

impl MemoryStore {
    fn new() -> Self {
        MemoryStore {
            files: HashMap::new(),
        }
    }

    fn install_content(&mut self, content: &ObservationContent) {
        let name = content_file_name(&content.digest).expect("content name");
        self.files.insert(name, content.content_json.clone());
    }

    fn install_manifest(&mut self, manifest: &ObservationManifest) {
        let name = manifest_file_name(&manifest.digest).expect("manifest name");
        self.files.insert(name, manifest.content_json.clone());
    }

    fn compact(&mut self, session: &str, wires: &[Json]) -> Vec<Json> {
        let wires = wires.iter().map(Json::copy).collect();
        let compacted = compact_wires(session, &wires, None, Vec::new()).expect("compact");
        for content in &compacted.contents {
            self.install_content(content);
        }
        for manifest in &compacted.manifests {
            self.install_manifest(manifest);
        }
        compacted.wires
    }

    fn references(&self, digest: &str) -> Result<Vec<ObservationReference>, String> {
        let cache: TextMap<Vec<ObservationReference>> = TextMap::new();
        let mut walk = ManifestResolution::start(digest)?;
        loop {
            match walk.step(&cache)? {
                ResolutionStep::Ready(base) => return walk.finish(base),
                ResolutionStep::Read(wanted) => {
                    let name = manifest_file_name(&wanted)?;
                    let raw = self
                        .files
                        .get(&name)
                        .cloned()
                        .ok_or_else(|| format!("read model observation manifest failed for {name}"))?;
                    walk = walk.supply(raw)?;
                }
            }
        }
    }

    fn hydrate(&self, session: &str, wires: &[Json]) -> Result<Vec<Json>, String> {
        let mut requested = Vec::new();
        let mut seen = Vec::new();
        for wire in wires.iter().filter(|wire| is_model_request(wire)) {
            require_wire_session(wire, session)?;
            let references = self.references(&observation_manifest_digest(wire)?)?;
            requested = request_contents(requested, &references)?;
            seen.push(references);
        }
        let mut contents = Vec::new();
        for reference in &requested {
            let name = content_file_name(&reference.digest)?;
            let raw = self
                .files
                .get(&name)
                .cloned()
                .ok_or_else(|| format!("read model observation content failed for {name}"))?;
            contents.push(load_content(reference, raw)?);
        }
        hydrate_wires(&wires.iter().map(Json::copy).collect(), &seen, &contents)
    }

    fn cleanup(&mut self, session: &str, wires: &[Json]) -> Result<(), String> {
        let wires = wires.iter().map(Json::copy).collect();
        let roots = manifest_digests_of(&wires, session)?;
        let mut contents = Vec::new();
        let mut walk = ReachabilityWalk {
            reachable: Vec::new(),
            next: None,
        };
        for root in roots {
            for reference in self.references(&root)? {
                let name = content_file_name(&reference.digest)?;
                let raw = self
                    .files
                    .get(&name)
                    .cloned()
                    .ok_or_else(|| "read reachable model observation content failed".to_string())?;
                load_content(&reference, raw)?;
                contents.push(reference.digest.clone());
            }
            walk.next = Some(root);
            while let Some(digest) = walk.visit() {
                let name = manifest_file_name(&digest)?;
                walk.supply(self.files[&name].clone())?;
            }
        }
        let names = self.files.keys().cloned().collect::<Vec<_>>();
        for name in names {
            if stored_file_is_orphan(&name, &walk.reachable, &contents)? {
                self.files.remove(&name);
            }
        }
        Ok(())
    }
}

#[test]
fn observation_manifest_rejects_corruption_missing_parent_and_cross_session_roots() {
    let mut store = MemoryStore::new();
    let wires = store.compact(
        "session-a",
        &[json(
            "{\"type\": \"model_request_started\", \"sessionId\": \"session-a\", \"payload\": {\"observations\": [{\"kind\": \"system_prompt\", \"content\": \"secret\"}]}}",
        )],
    );
    let root = observation_manifest_digest(&wires[0]).unwrap();
    let manifest_path = manifest_file_name(&root).unwrap();
    let valid_manifest = store.files[&manifest_path].clone();
    store.files.insert(manifest_path.clone(), "{}".to_string());
    assert!(store
        .hydrate("session-a", &wires)
        .unwrap_err()
        .contains("digest mismatch"));
    store.files.insert(manifest_path.clone(), valid_manifest);
    let other = [wires[0].replacing("sessionId", text_json("session-b"))];
    assert!(MemoryStore::new().hydrate("session-b", &other).is_err());
    assert!(store
        .hydrate("session-a", &other)
        .unwrap_err()
        .contains("sessionId mismatch"));
    let parent = store.references(&root).unwrap();
    let child = build_manifest(Some(root.clone()), &parent, &Vec::new());
    store.install_manifest(&child);
    let rooted = [wires[0].replacing(
        "payload",
        json(&format!(
            "{{\"observations\": {{\"manifestDigest\": \"{}\"}}}}",
            child.digest
        )),
    )];
    store.hydrate("session-a", &rooted).unwrap();
    store.files.remove(&manifest_path);
    assert!(store
        .hydrate("session-a", &rooted)
        .unwrap_err()
        .contains("read model observation manifest"));
}

#[test]
fn observation_manifest_index_delta_rejects_holes_duplicates_and_unknown_fields() {
    let digest = format!("sha256:{}", "a".repeat(64));
    let reference = |index: usize| {
        format!(
            "{{\"index\":{index},\"kind\":\"system_prompt\",\"contentDigest\":\"{digest}\"}}"
        )
    };
    let compact = |text: String| {
        serde_json::from_str::<serde_json::Value>(&text)
            .expect("fixture")
            .to_string()
    };
    for invalid in [
        format!(
            "{{\"parentDigest\": null, \"observationCount\": 2, \"changes\": [{}, {}]}}",
            reference(0),
            reference(0)
        ),
        format!(
            "{{\"parentDigest\": null, \"observationCount\": 1, \"changes\": [{}]}}",
            reference(1)
        ),
        format!(
            "{{\"parentDigest\": null, \"observationCount\": 1, \"changes\": [{}], \"extra\": true}}",
            reference(0)
        ),
    ] {
        let raw = compact(invalid);
        assert!(decode_manifest(&digest_manifest(&raw), raw).is_err());
    }
    let raw = compact(format!(
        "{{\"parentDigest\": null, \"observationCount\": 1, \"changes\": [{}]}}",
        reference(0)
    ));
    let root = decode_manifest(&digest_manifest(&raw), raw).unwrap();
    let references = apply_manifest(&root, Vec::new()).unwrap();
    let child = build_manifest(Some(root.digest.clone()), &references, &references);
    assert!(child.changes.is_empty());
    let copy = || {
        references
            .iter()
            .map(|reference| ObservationReference {
                kind: reference.kind.clone(),
                digest: reference.digest.clone(),
            })
            .collect::<Vec<_>>()
    };
    let mut hole = build_manifest(Some(root.digest.clone()), &references, &references);
    hole.observation_count = 2;
    assert!(apply_manifest(&hole, copy())
        .unwrap_err()
        .contains("count mismatch"));
    let mut redundant = child;
    redundant.changes = root.changes;
    assert!(apply_manifest(&redundant, copy())
        .unwrap_err()
        .contains("redundant"));
}

#[test]
fn observation_cas_skips_non_model_batches_without_reading_log() {
    let wires = vec![json("{\"type\": \"tool_result\"}")];
    assert!(!has_model_request(&wires));
    let compacted = compact_wires("session-skip", &wires, None, Vec::new()).unwrap();
    assert!(compacted.contents.is_empty());
    assert!(compacted.manifests.is_empty());
    assert!(compacted.wires[0].equals(&wires[0]));
}

#[test]
fn observation_cas_cleans_only_uncommitted_orphans_and_rejects_missing_content() {
    let mut store = MemoryStore::new();
    let wires = store.compact(
        "session-orphan",
        &[json(
            "{\"type\": \"model_request_started\", \"sessionId\": \"session-orphan\", \"payload\": {\"observations\": [{\"kind\": \"system_prompt\", \"content\": \"committed\"}]}}",
        )],
    );
    let orphan = observation_content(&json(
        "{\"kind\": \"system_prompt\", \"content\": \"uncommitted\"}",
    ))
    .unwrap();
    store.install_content(&orphan);
    store
        .files
        .insert(".interrupted.tmp".to_string(), "partial".to_string());
    store.cleanup("session-orphan", &wires).unwrap();
    assert!(!store
        .files
        .contains_key(&content_file_name(&orphan.digest).unwrap()));
    assert!(!store.files.contains_key(".interrupted.tmp"));
    store.hydrate("session-orphan", &wires).unwrap();
    let committed = observation_content(&json(
        "{\"kind\": \"system_prompt\", \"content\": \"committed\"}",
    ))
    .unwrap();
    store
        .files
        .remove(&content_file_name(&committed.digest).unwrap());
    assert!(store.hydrate("session-orphan", &wires).is_err());
    assert!(store.cleanup("session-orphan", &wires).is_err());
}

#[test]
fn observation_cas_gc_does_not_follow_directory_links_outside_sessions() {
    assert!(content_entry_session(EntryKind::Link, "session-linked.observations")
        .unwrap_err()
        .contains("symbolic links"));
    assert!(content_directory_fate(LogPresence::Link)
        .unwrap_err()
        .contains("symbolic links"));
}

#[test]
fn roots_are_read_from_the_text_of_a_log() {
    let digest = |c: char| format!("sha256:{}", c.to_string().repeat(64));
    let request = |session: &str, c: char| {
        format!(
            "{{\"type\":\"model_request_started\",\"sessionId\":\"{session}\",\"payload\":{{\"observations\":{{\"manifestDigest\":\"{}\"}}}}}}\n",
            digest(c)
        )
    };
    let manifest = request("elsewhere", 'f');
    let log = format!(
        "{manifest}{}{{\"type\":\"other\"}}\n{}",
        request("s", 'a'),
        request("s", 'b')
    );
    assert_eq!(
        stored_manifest_digests(&log, "s"),
        Ok(vec![digest('a'), digest('b')])
    );
    assert_eq!(stored_manifest_digests("", "s"), Ok(Vec::new()));
    assert_eq!(
        stored_manifest_digests(&format!("{manifest}{}", request("t", 'a')), "s"),
        Err("stored model request sessionId mismatch".to_string())
    );
    assert_eq!(
        stored_manifest_digests(&format!("{manifest}{}\n{{\n", request("s", 'a')), "s"),
        Err("decode Session observation manifest line 3 failed: EOF while parsing a value at line 1 column 0".to_string())
    );
}

#[test]
fn stored_requests_are_restored_as_they_were() {
    let original = json(
        "{\"type\": \"model_request_started\", \"sessionId\": \"s\", \"payload\": {\"observations\": [{\"kind\": \"system_prompt\", \"content\": \"a\"}, {\"kind\": \"message\", \"message\": {\"messageId\": \"1\", \"role\": \"user\", \"content\": \"hi\"}}], \"requestId\": \"r\"}}",
    );
    let mut store = MemoryStore::new();
    let stored = store.compact("s", &[original.copy()]);
    assert!(!stored[0].equals(&original));
    let restored = store.hydrate("s", &stored).expect("hydrate");
    assert!(restored[0].equals(&original));
}

fn model_request(session: &str, texts: &[&str]) -> Json {
    let observations = texts
        .iter()
        .map(|text| format!("{{\"kind\": \"system_prompt\", \"content\": \"{text}\"}}"))
        .collect::<Vec<_>>()
        .join(", ");
    json(&format!(
        "{{\"type\": \"model_request_started\", \"sessionId\": \"{session}\", \"payload\": {{\"observations\": [{observations}]}}}}"
    ))
}

#[test]
fn logs_read_back_as_they_were_written() {
    let wires = vec![
        model_request("s", &["a", "b"]),
        json("{\"type\": \"user_message\", \"sessionId\": \"s\"}"),
        model_request("s", &["a", "c", "a"]),
    ];
    let mut store = MemoryStore::new();
    let stored = store.compact("s", &wires);
    let restored = store.hydrate("s", &stored).expect("hydrate");
    assert_eq!(restored.len(), 3);
    for (restored, original) in restored.iter().zip(&wires) {
        assert!(restored.equals(original));
    }
    assert_eq!(
        hydrate_wires(&stored, &Vec::new(), &Vec::new()).expect_err("no references"),
        "stored model observation manifest is missing"
    );
}

#[test]
fn batches_continue_what_was_stored_before() {
    let first = vec![model_request("s", &["a", "b"])];
    let second = vec![model_request("s", &["a", "c"])];
    let both = first.iter().chain(&second).map(Json::copy).collect();
    let together = compact_wires("s", &both, None, Vec::new()).expect("together");
    let earlier = compact_wires("s", &first, None, Vec::new()).expect("first");
    let later = compact_wires("s", &second, earlier.parent_digest.clone(), earlier.references)
        .expect("second");
    assert!(together.wires[0].equals(&earlier.wires[0]));
    assert!(together.wires[1].equals(&later.wires[0]));
    assert_eq!(together.manifests[1].digest, later.manifests[0].digest);
    assert_eq!(together.contents.len(), 3);
    assert_eq!(later.contents.len(), 1);
}

#[test]
fn manifests_grow_by_what_changes() {
    let observation = |text: &str| {
        json(&format!(
            "{{\"kind\": \"system_prompt\", \"content\": \"{text}\"}}"
        ))
    };
    let first = prepare_observation_manifest(
        &vec![observation("a"), observation("b")],
        None,
        &Vec::new(),
    )
    .expect("first");
    assert_eq!(first.contents.len(), 2);
    assert_eq!(first.manifest.changes.len(), 2);
    assert_eq!(
        first.manifest.content_json,
        format!(
            "{{\"parentDigest\":null,\"observationCount\":2,\"changes\":[{{\"index\":0,\"kind\":\"system_prompt\",\"contentDigest\":\"{}\"}},{{\"index\":1,\"kind\":\"system_prompt\",\"contentDigest\":\"{}\"}}]}}",
            first.contents[0].digest, first.contents[1].digest
        )
    );
    let second = prepare_observation_manifest(
        &vec![observation("a"), observation("c"), observation("d")],
        Some(first.manifest.digest.clone()),
        &first.references,
    )
    .expect("second");
    assert_eq!(second.contents.len(), 2);
    assert_eq!(second.manifest.changes.len(), 2);
    assert_eq!(second.manifest.changes[0].index, 1);
    assert_eq!(second.manifest.observation_count, 3);
    let raw = first.contents[0].content_json.clone();
    let decoded = decode_content(&first.contents[0].digest, raw).expect("decode");
    assert_eq!(decoded.kind, "system_prompt");
    assert!(decode_content(&first.contents[1].digest, decoded.content_json).is_err());
}

#[test]
fn files_that_can_be_reached_are_kept() {
    let hex = "a".repeat(64);
    let digest = format!("sha256:{hex}");
    let reachable = vec![digest];
    let none = Vec::new();
    assert_eq!(
        stored_file_is_orphan(&format!("{hex}.json"), &none, &reachable),
        Ok(false)
    );
    assert_eq!(
        stored_file_is_orphan(&format!("{hex}.json"), &none, &none),
        Ok(true)
    );
    assert_eq!(
        stored_file_is_orphan(&format!("manifest-{hex}.json"), &reachable, &none),
        Ok(false)
    );
    assert!(stored_file_is_orphan("banana.json", &none, &none).is_err());
    assert!(stored_file_is_orphan("manifest-banana.json", &none, &none).is_err());
    assert!(stored_file_is_orphan("banana", &none, &none).is_err());
    assert!(validate_session_log_path("/x/chat.jsonl", "chat.jsonl", "chat").is_ok());
    assert!(validate_session_log_path("/x/chat.jsonl", "chat.jsonl", "../chat").is_err());
}

#[test]
fn directories_of_observations_are_told_by_their_names() {
    assert_eq!(
        content_entry_session(EntryKind::Directory, "chat.1.observations"),
        Ok(Some("chat.1".to_string()))
    );
    assert_eq!(
        content_entry_session(EntryKind::Directory, "chat/1.observations"),
        Ok(None)
    );
    assert_eq!(content_entry_session(EntryKind::Directory, "chat.jsonl"), Ok(None));
    assert_eq!(content_entry_session(EntryKind::Other, "chat.observations"), Ok(None));
    assert_eq!(content_directory_fate(LogPresence::Absent), Ok(ContentFate::Remove));
    assert_eq!(content_directory_fate(LogPresence::Present), Ok(ContentFate::Clean));
    assert_eq!(split_extension("a.b.c"), Some(("a.b", "c")));
    assert_eq!(split_extension(".hidden"), None);
    assert_eq!(split_extension("plain"), None);
}

#[test]
fn documents_are_made_once() {
    let fine = Ok(());
    assert!(create_session_document("/p", &CreateAttempt::Created, &fine, &fine).is_ok());
    assert_eq!(
        create_session_document("/p", &CreateAttempt::AlreadyExists, &fine, &fine)
            .expect_err("exists")
            .into_string(),
        "session log already exists"
    );
    assert_eq!(
        create_session_document("/p", &CreateAttempt::Failed("no space".to_string()), &fine, &fine)
            .expect_err("failed")
            .into_string(),
        "create session log failed for /p: no space"
    );
    assert_eq!(
        create_session_document("/p", &CreateAttempt::Created, &Err("w".to_string()), &Err("c".to_string()))
            .expect_err("unwritten")
            .into_string(),
        "write session document failed for /p: w; cleanup incomplete Session log failed for /p: c"
    );
    assert_eq!(
        check_removed("delete session log failed for ", "/p", &RemoveAttempt::NotFound),
        Ok(false)
    );
    assert_eq!(
        check_removed(
            "delete session log failed for ",
            "/p",
            &RemoveAttempt::Failed("busy".to_string())
        ),
        Err("delete session log failed for /p: busy".to_string())
    );
    assert_eq!(install_temporary_name("ab", 7, 3), ".ab.7.3.tmp");
    assert_eq!(check_installed("/p", &Ok(()), false), Ok(true));
    assert_eq!(check_installed("/p", &Err("x".to_string()), true), Ok(false));
    assert_eq!(
        check_installed("/p", &Err("x".to_string()), false),
        Err("install model observation content failed for /p: x".to_string())
    );
}

#[test]
fn canonical_fixture_projects_start_success_failure_and_interruption() {
    let fixtures = [
        ("succeeded", RecordKind::AgentRunCompleted, "{}", None),
        (
            "failed",
            RecordKind::AgentRunFailed,
            "{\"message\": \"failed\"}",
            Some("failed"),
        ),
        (
            "cancelled",
            RecordKind::AgentRunInterrupted,
            "{\"message\": \"cancelled\", \"reasonType\": \"cancelled\"}",
            Some("cancelled"),
        ),
    ];
    for (status, kind, payload, error) in fixtures {
        let records = vec![
            record("evt-1", RecordKind::AgentRunStarted, Some("run"), 1, "{}"),
            record("evt-2", RecordKind::UserMessage, Some("run"), 1, "{}"),
            record("evt-3", RecordKind::AssistantMessage, Some("run"), 2, "{}"),
            record("evt-4", kind, Some("run"), 3, payload),
        ];
        let cwds = (0..4).map(|_| Ok("/work".to_string())).collect();
        let runs = project_agent_runs_from_records(&records, &cwds).expect("projection");
        assert_eq!(runs.len(), 1);
        assert_eq!(runs[0].status, status);
        assert_eq!(runs[0].started_at_ms, 1);
        assert_eq!(runs[0].updated_at_ms, 3);
        assert_eq!(runs[0].completed_at_ms, Some(3));
        assert_eq!(runs[0].error.as_deref(), error);
    }
}

#[test]
fn runs_are_projected_strictly() {
    let early = vec![record("evt-1", RecordKind::ToolCall, Some("run"), 1, "{}")];
    assert_eq!(
        project_agent_runs_from_records(&early, &vec![Ok(String::new())]).expect_err("early"),
        "agent_run record appears before agent_run_started: evt-1"
    );
    let odd = vec![
        record("evt-1", RecordKind::AgentRunStarted, Some("run"), 1, "{}"),
        record(
            "evt-2",
            RecordKind::AgentRunInterrupted,
            Some("run"),
            2,
            "{\"reasonType\": \"banana\"}",
        ),
    ];
    assert_eq!(
        project_agent_runs_from_records(&odd, &vec![Ok(String::new()), Ok(String::new())])
            .expect_err("odd"),
        "unsupported interruption reason: banana"
    );
}

#[test]
fn model_request_records_are_not_agent_run_stream_records() {
    let records = vec![
        record("evt-1", RecordKind::AgentRunStarted, Some("run"), 1, "{}"),
        record("evt-2", RecordKind::Other, Some("run"), 2, "{}"),
        record("evt-3", RecordKind::ToolCall, Some("run"), 3, "{}"),
        record("evt-4", RecordKind::ToolCall, Some("other"), 4, "{}"),
    ];
    assert_eq!(
        agent_run_replay_indices(&records, &vec![true, false, true, true], "run"),
        vec![0, 2]
    );
}

#[test]
fn agent_run_projection_skips_corrupt_session_logs() {
    let logs = vec![
        Ok(vec![run("b", "s", "running", 2)]),
        Err("session log has a truncated final line: /x".to_string()),
        Ok(vec![run("a", "t", "running", 3)]),
    ];
    let runs = project_agent_runs(&logs);
    let ids = runs.iter().map(|run| run.agent_run_id.as_str()).collect::<Vec<_>>();
    assert_eq!(ids, vec!["a", "b"]);
}

#[test]
fn appending_the_same_records_twice_adds_nothing() {
    let records = vec![
        record("evt-1", RecordKind::SessionMeta, None, 1, "{}"),
        record("evt-2", RecordKind::UserMessage, Some("run"), 2, "{}"),
    ];
    let errors = vec![None, None];
    let pending = plan_append("session", &Vec::new(), &records, &errors).expect("append");
    assert_eq!(pending.len(), 2);
    assert!(plan_append("session", &pending, &records, &errors)
        .expect("again")
        .is_empty());
    let changed = vec![record("evt-1", RecordKind::SessionMeta, None, 9, "{}")];
    assert_eq!(
        plan_append("session", &pending, &changed, &vec![None]).expect_err("conflict"),
        "session record eventId conflict: evt-1"
    );
    let twice = vec![
        record("evt-3", RecordKind::Other, None, 1, "{}"),
        record("evt-3", RecordKind::Other, None, 1, "{}"),
    ];
    assert_eq!(
        plan_append("session", &pending, &twice, &errors).expect_err("twice"),
        "session record batch duplicate eventId: evt-3"
    );
    assert_eq!(
        plan_append("other", &Vec::new(), &changed, &vec![None]).expect_err("other session"),
        "session record belongs to another sessionId: evt-1"
    );
    assert_eq!(
        plan_append("session", &Vec::new(), &changed, &vec![Some("shape".to_string())])
            .expect_err("shape"),
        "shape"
    );
    let sequenced = sequence_records(0, pending);
    assert_eq!(sequenced[1].sequence, 2);
    assert_eq!(
        accept_records(&sequenced, &Some("session".to_string()))
            .expect("accepted")
            .len(),
        2
    );
    assert!(accept_records(&sequenced, &Some("other".to_string())).is_err());
    let mut gap = sequenced;
    gap[1].sequence = 3;
    assert_eq!(
        accept_records(&gap, &None).expect_err("gap"),
        "session record sequence gap: expected 2, got 3"
    );
}

#[test]
fn the_order_of_entries_does_not_make_a_record_another() {
    let stored = |payload: &str| vec![record("evt-1", RecordKind::Other, None, 1, payload)];
    let first = stored("{\"a\": 1, \"b\": [{\"c\": 0.0, \"d\": null}]}");
    let turned = stored("{\"b\": [{\"d\": null, \"c\": -0.0}], \"a\": 1}");
    assert!(plan_append("session", &first, &turned, &vec![None])
        .expect("the same")
        .is_empty());
    for other in [
        "{\"a\": 1, \"b\": [{\"c\": 0.0}]}",
        "{\"a\": 1, \"b\": [{\"c\": 0.0, \"e\": null}]}",
        "{\"a\": 2, \"b\": [{\"c\": 0.0, \"d\": null}]}",
        "{\"a\": 1, \"b\": []}",
        "[]",
    ] {
        assert_eq!(
            plan_append("session", &first, &stored(other), &vec![None]).expect_err("another"),
            "session record eventId conflict: evt-1"
        );
    }
}

#[test]
fn logs_are_read_line_by_line() {
    assert!(check_log_contents("{}\n", "/p").is_ok());
    assert_eq!(
        check_log_contents("", "/p"),
        Err("session log manifest is missing: /p".to_string())
    );
    assert_eq!(
        check_log_contents("{}", "/p"),
        Err("session log has a truncated final line: /p".to_string())
    );
    assert!(matches!(decode_log_line("/p", 0, "{\"a\":1}"), Ok(Json::Object(_))));
    assert_eq!(
        decode_log_line("/p", 1, "  ").expect_err("blank"),
        "session log contains blank line: /p:2"
    );
    assert!(decode_log_line("/p", 1, "{")
        .expect_err("broken")
        .starts_with("decode session log line 2 failed: "));
    assert!(check_manifest_session("a", &Some("b".to_string())).is_err());
    let log = "{\"sessionId\":\"chat\"}\n{\"a\":1}\r\n[2]\n";
    assert_eq!(
        read_log_manifest("/p", log).expect("manifest").text(),
        "{\"sessionId\":\"chat\"}"
    );
    let wires = read_log_wires("/p", log).expect("wires");
    assert_eq!(
        wires.iter().map(Json::text).collect::<Vec<_>>(),
        ["{\"a\":1}", "[2]"]
    );
    assert_eq!(
        read_log_manifest("/p", "\n").expect_err("blank"),
        "session log contains blank line: /p:1"
    );
    assert_eq!(
        read_log_manifest("/p", "").expect_err("empty"),
        "session log manifest is missing: /p"
    );
    assert_eq!(
        read_log_wires("/p", "{}\n{}\n\n{}\n").expect_err("blank"),
        "session log contains blank line: /p:3"
    );
    assert_eq!(
        read_log_wires("/p", "{}\n{}\n]\n").expect_err("broken"),
        "decode session log line 3 failed: expected value at line 1 column 1"
    );
    let (record_id, event_id) = metadata_identities("chat", 3);
    assert_eq!(record_id, "session:chat:meta:3");
    assert_eq!(event_id, "evt:session_meta:chat:3");
    assert_eq!(FIRST_METADATA_SEQUENCE, 1);
    let first = session_metadata_record(
        "chat",
        json("{\"recordId\": \"session:chat:meta:1\"}"),
        FIRST_METADATA_SEQUENCE,
        7,
    );
    assert_eq!(first.event_id, "evt:session_meta:chat:1");
    assert_eq!(first.kind, RecordKind::SessionMeta);
    assert_eq!(first.session_id, "chat");
    assert!(first.turn_id.is_none() && first.agent_run_id.is_none());
    assert_eq!(first.created_at_ms, 7);
    assert_eq!(
        first.payload.get_text("recordId").map(String::as_str),
        Some("session:chat:meta:1")
    );
}

#[test]
fn messages_stand_in_the_order_of_their_records() {
    let records = vec![
        record("evt-1", RecordKind::UserMessage, Some("run"), 5, "{\"messageId\": \"m1\"}"),
        record("evt-2", RecordKind::AssistantMessage, Some("run"), 6, "{\"messageId\": \"m2\"}"),
    ];
    let message = |id: &str, role: MessageRole| ReducedMessage {
        message_id: id.to_string(),
        role,
        turn_id: Some("turn-run".to_string()),
        text: format!("text of {id}"),
        status: None,
        updated_at_ms: 9,
        agent_run_id: Some("run".to_string()),
    };
    let placed = project_chat_messages_from_records(
        "session",
        &records,
        &vec![message("m2", MessageRole::Assistant), message("m1", MessageRole::User)],
    )
    .expect("messages");
    let shown = placed
        .iter()
        .map(|(_, message)| (message.id.as_str(), message.role.as_str(), message.created_at_ms))
        .collect::<Vec<_>>();
    assert_eq!(shown, vec![("m1", "user", 5), ("m2", "assistant", 6)]);
    assert_eq!(
        project_chat_messages_from_records(
            "session",
            &records,
            &vec![message("m3", MessageRole::User)]
        )
        .expect_err("missing"),
        "message record missing for m3"
    );
}

fn chat_message(id: &str, role: &str, run: &str) -> ProjectedChatMessage {
    ProjectedChatMessage {
        id: id.to_string(),
        session_id: "session".to_string(),
        turn_id: "turn".to_string(),
        role: role.to_string(),
        content: String::new(),
        status: None,
        created_at_ms: 1,
        updated_at_ms: 1,
        agent_run_id: Some(run.to_string()),
    }
}

#[test]
fn messages_are_found_after_they_were_recorded() {
    let messages = vec![
        chat_message("message:turn:user", "user", "run"),
        chat_message("message:turn:assistant", "assistant", "run"),
    ];
    assert_eq!(find_recorded_message(&messages, "turn", "assistant"), Ok(1));
    assert_eq!(
        find_recorded_message(&messages, "turn-2", "user"),
        Err("projected user message missing after append: turn-2".to_string())
    );
    assert_eq!(project_agent_run_assistant(&messages, " run "), Ok(Some(1)));
    assert_eq!(project_agent_run_assistant(&messages, "other"), Ok(None));
    assert_eq!(
        project_agent_run_assistant(&messages, " "),
        Err("agentRunId is required".to_string())
    );
}

#[test]
fn records_of_runs_are_checked_before_they_are_added() {
    let records = vec![
        record("evt-1", RecordKind::AgentRunStarted, Some("run"), 1, "{}"),
        record("evt-2", RecordKind::ToolCall, Some("other"), 2, "{\"callId\": \"call-9\"}"),
        record("evt-3", RecordKind::ToolCall, Some("run"), 3, "{\"callId\": \"call-1\"}"),
    ];
    assert_eq!(agent_run_session_records(&records, "run"), vec![0, 2]);
    assert_eq!(incomplete_call_time(&records, "call-1"), Ok(3));
    assert_eq!(
        incomplete_call_time(&records, "call-2"),
        Err("incomplete ToolCall record is missing: callId=call-2".to_string())
    );
    assert!(append_agent_turn_running(&Some(run("run", "session", "running", 1)), "session", "run").is_ok());
    assert!(append_agent_turn_running(&None, "session", "run")
        .expect_err("missing")
        .ends_with(": run"));
    let fact = json("{\"schema\": \"file_mutation_pre_apply_fact_v1\"}");
    assert!(append_file_mutation_pre_apply_fact(
        &fact,
        &Some(run("run", "session", "running", 1)),
        "session",
        "turn-run",
        "run"
    )
    .is_ok());
    assert_eq!(
        append_file_mutation_pre_apply_fact(&fact, &None, "session", "turn-run", "run"),
        Err("agent_run_started missing before file mutation fact: run".to_string())
    );
    assert_eq!(
        append_file_mutation_pre_apply_fact(
            &json("{\"schema\": \"other\"}"),
            &None,
            "session",
            "turn",
            "run"
        ),
        Err("file mutation pre-apply append requires file_mutation_pre_apply_fact_v1".to_string())
    );
    assert_eq!(tombstoned_count(&json("{\"targetEventIds\": [\"a\", \"b\"]}")), Ok(2));
    assert!(tombstoned_count(&json("{}")).is_err());
    assert_eq!(check_rewrite(1, " s ", "rewrite_last_user_input"), Ok("s".to_string()));
    assert_eq!(
        check_rewrite(0, "s", "rewrite_last_user_input"),
        Err("rewrite atMs must be positive unix milliseconds".to_string())
    );
    assert_eq!(
        check_rewrite(1, "s", "banana"),
        Err("unsupported rewrite reason: banana".to_string())
    );
}

#[test]
fn runs_start_with_a_turn_and_a_message() {
    let (run, opening) =
        append_agent_run_started_with_attachments(" run ", &Ok(()), " turn ", " hello ", 5)
            .expect("started");
    assert_eq!(run, "run");
    assert_eq!(opening.turn_id, "turn");
    assert_eq!(opening.content, "hello");
    assert_eq!(opening.at_ms, 5);
    let failed = Err("unreadable".to_string());
    assert_eq!(
        append_agent_run_started_with_attachments(" ", &failed, "turn", "hello", 5)
            .expect_err("no run"),
        "agentRunId is required"
    );
    assert_eq!(
        append_agent_run_started_with_attachments("run", &failed, " ", "hello", 5)
            .expect_err("not restored"),
        "unreadable"
    );
    assert_eq!(
        append_agent_run_started_with_attachments("run", &Ok(()), " ", "hello", 5)
            .expect_err("no turn"),
        "turnId is required"
    );
    assert_eq!(
        append_agent_run_started_with_attachments("run", &Ok(()), "turn", "", 5)
            .expect_err("no content"),
        "content is required"
    );
    let rewritten = rewritten_opening(" turn-2 ", " again ", 7).expect("rewritten");
    assert_eq!(rewritten.turn_id, "turn-2");
    assert_eq!(rewritten.content, "again");
    assert_eq!(rewritten.at_ms, 8);
    assert_eq!(
        rewritten_opening("turn-2", "again", i64::MAX).expect("latest").at_ms,
        i64::MAX
    );
    assert_eq!(
        rewritten_opening(" ", "again", 7).expect_err("no turn"),
        "newTurnId is required"
    );
    assert_eq!(
        rewritten_opening("turn-2", " ", 7).expect_err("no content"),
        "newContent is required"
    );
}

#[test]
fn runs_end_once_their_calls_are_closed() {
    assert!(matches!(
        plan_terminal_record("succeeded", &None, &None),
        Ok(TerminalRecord::Completed)
    ));
    assert!(matches!(
        plan_terminal_record("cancelled", &None, &None),
        Ok(TerminalRecord::Interrupted { message, .. }) if message == "AgentRun cancelled"
    ));
    assert_eq!(
        plan_terminal_record("failed", &None, &None).expect_err("no error"),
        "error is required"
    );
    assert_eq!(
        plan_terminal_record("succeeded", &None, &Some("call-1".to_string())).expect_err("open"),
        "AgentRun terminal requires every ToolCall to be closed: callId=call-1"
    );
    assert_eq!(
        plan_terminal_record("banana", &None, &None).expect_err("odd"),
        "unsupported terminal agent_run status: banana"
    );
}

#[test]
fn replays_are_cut_into_pages() {
    let first = replay_page(450, None, None).expect("first page");
    assert_eq!((first.start, first.end, first.next_cursor), (0, 200, Some(200)));
    let last = replay_page(450, Some(400), None).expect("last page");
    assert_eq!((last.start, last.end, last.next_cursor), (400, 450, None));
    assert_eq!(
        replay_page(450, Some(451), None).expect_err("beyond"),
        "agent_run replay cursor is beyond tail: 451"
    );
    let least = replay_page(450, Some(0), Some(0)).expect("at least one");
    assert_eq!(least.end, 1);
    let most = replay_page(4500, Some(0), Some(5000)).expect("at most a thousand");
    assert_eq!(most.end, 1000);
}

#[test]
fn every_run_that_ended_unseen_is_unread_until_a_viewer_is_back() {
    let mut registry = ViewerRegistry::new();
    let session = Some("chat".to_string());
    let viewer = Some("desktop-main".to_string());
    attach(&mut registry, &Vec::new(), &None, &session, &viewer, 5).expect("attach");
    detach(&mut registry, &Vec::new(), &None, &session, &viewer, 10).expect("detach");
    let runs = vec![
        run("before", "chat", "succeeded", 9),
        run("first", "chat", "failed", 10),
        run("open", "chat", "running", 20),
        run("elsewhere", "other", "succeeded", 20),
        run("second", "chat", "cancelled", 30),
    ];
    let unread = |registry: &mut ViewerRegistry| {
        list(registry, &runs, &None, Some(true))
            .into_iter()
            .filter(|run| run.unread)
            .map(|run| run.agent_run_id)
            .collect::<Vec<_>>()
    };
    assert_eq!(unread(&mut registry), ["first", "second"]);
    let open = list(&mut registry, &runs, &session, None);
    assert_eq!(open.len(), 1);
    assert_eq!(open[0].agent_run_id, "open");
    attach(&mut registry, &runs, &None, &session, &viewer, 40).expect("attach again");
    assert!(unread(&mut registry).is_empty());
}

#[test]
fn committed_events_are_projected_back() {
    let item = |id: &str| json(&format!("{{\"type\": \"session_event\", \"event\": {{\"id\": \"{id}\"}}}}"));
    let items = vec![item("evt-1"), item("evt-2")];
    let found = projected_stream_items(&items, &vec!["evt-2".to_string()]).expect("projected");
    assert!(found[0].equals(&items[1]));
    assert_eq!(
        projected_stream_items(&items, &vec!["evt-3".to_string()]).expect_err("missing"),
        "committed stream projection count mismatch: expected 1, got 0"
    );
    let records = vec![
        record("evt-1", RecordKind::AgentRunStarted, Some("run"), 1, "{}"),
        record("evt-2", RecordKind::AgentRunCompleted, Some("run"), 2, "{}"),
    ];
    assert!(terminal_stream_item(&records, &items, "run")
        .expect("terminal")
        .equals(&items[1]));
    assert_eq!(
        terminal_stream_item(&Vec::new(), &items, "run").expect_err("none"),
        "agent_run has no committed terminal record: run"
    );
}

#[test]
fn viewer_registry_marks_detached_terminal_agent_run_unread_and_attach_clears_it() {
    let mut registry = ViewerRegistry::new();
    let session = Some("chat".to_string());
    let viewer = Some("desktop-main".to_string());
    let running = vec![run("run", "chat", "running", 10)];
    attach(&mut registry, &running, &None, &session, &viewer, 5).expect("attach");
    assert_eq!(registry.session_viewer_count("chat"), 1);
    assert!(idle_session_ids(&registry, &Vec::new()).contains("chat"));
    detach(&mut registry, &running, &None, &session, &viewer, 6).expect("detach");
    assert_eq!(registry.session_viewer_count("chat"), 0);
    let mut ended = vec![run("run", "chat", "succeeded", 20)];
    ended[0].completed_at_ms = Some(20);
    let shown = list(&mut registry, &ended, &session, Some(true));
    assert_eq!(shown.len(), 1);
    assert!(shown[0].unread);
    attach(&mut registry, &ended, &None, &session, &viewer, 30).expect("attach again");
    let shown = list(&mut registry, &ended, &session, Some(true));
    assert!(!shown[0].unread);
    detach_viewer(&mut registry, "desktop-main", 40).expect("viewer gone");
    assert_eq!(registry.session_viewer_count("chat"), 0);
}

#[test]
fn requests_about_runs_name_them_or_their_session() {
    let runs = vec![
        run("old", "chat", "succeeded", 1),
        run("new", "chat", "running", 9),
    ];
    let found = find_agent_run(&runs, &None, &Some("chat".to_string())).expect("newest");
    assert_eq!(found.agent_run_id, "new");
    assert!(matches!(
        plan_cancel(&runs, &Some("old".to_string()), &None, &None),
        CancelPlan::AlreadyEnded(_)
    ));
    assert!(matches!(
        plan_cancel(&runs, &None, &Some("chat".to_string()), &None),
        CancelPlan::Cancel { reason, .. } if reason == "user_interrupt"
    ));
    assert!(matches!(
        plan_cancel(&runs, &Some("none".to_string()), &None, &None),
        CancelPlan::NotFound
    ));
    assert!(request_cancel(&runs, &Some("new".to_string()), &None).1);
    assert!(started_agent_run(&None, "run", "chat", "turn").is_err());
    assert!(ensure_session_can_be_deleted(&runs, "chat")
        .expect_err("active")
        .contains("new"));
    assert_eq!(ensure_session_can_be_deleted(&runs, " empty "), Ok("empty".to_string()));
    assert!(required_viewer_id(&None).is_err());
}

#[test]
fn installed_files_hold_what_was_stored() {
    let observation = json("{\"kind\":\"message\",\"content\":\"hello\"}");
    let mut content = observation_content(&observation).expect("content");
    verify_existing_content(&content, content.content_json.clone()).expect("same content");
    assert_eq!(
        verify_existing_content(&content, "{}".to_string()).expect_err("other text"),
        "stored model observation content digest mismatch"
    );
    let text = content.content_json.clone();
    content.kind = "system_prompt".to_string();
    assert_eq!(
        verify_existing_content(&content, text).expect_err("other kind"),
        "model observation content digest conflict"
    );
    let reference = ObservationReference {
        kind: "message".to_string(),
        digest: content.digest.clone(),
    };
    let mut manifest = build_manifest(None, &Vec::new(), &vec![reference]);
    verify_existing_manifest(&manifest, manifest.content_json.clone()).expect("same manifest");
    let text = manifest.content_json.clone();
    manifest.changes.clear();
    assert_eq!(
        verify_existing_manifest(&manifest, text).expect_err("other changes"),
        "model observation manifest digest conflict"
    );
}

#[test]
fn open_calls_are_found_with_their_times() {
    let records = vec![
        record("e1", RecordKind::ToolCall, Some("a"), 10, "{\"callId\":\"call-1\"}"),
        record("e2", RecordKind::ToolCall, Some("a"), 20, "{\"callId\":\"call-2\"}"),
    ];
    let call = |id: &str, run: &str, closed: bool| ProjectedToolCall {
        call_id: id.to_string(),
        agent_run_id: run.to_string(),
        closed,
    };
    let calls = vec![
        call("call-1", "a", true),
        call("call-2", "a", false),
        call("call-3", "b", false),
    ];
    assert_eq!(
        project_incomplete_tool_calls(&records, &calls, "a").expect("calls"),
        vec![(1, 20)]
    );
    assert_eq!(
        project_incomplete_tool_calls(&records, &calls, "b").expect_err("no record"),
        "incomplete ToolCall record is missing: callId=call-3"
    );
}

#[test]
fn streams_of_a_session_end_at_their_cursors() {
    let records = vec![
        record("e1", RecordKind::AgentRunStarted, Some("a"), 1, "{}"),
        record("e2", RecordKind::Other, Some("b"), 2, "{}"),
        record("e3", RecordKind::Other, Some("a"), 3, "{}"),
        record("e4", RecordKind::AssistantMessage, Some("a"), 4, "{}"),
    ];
    let replays = project_session_log(
        &records,
        &vec![true, true, false, true],
        &vec![run("a", "session", "running", 4), run("b", "session", "running", 2)],
    );
    assert_eq!(replays[0].agent_run_id, "a");
    assert_eq!(replays[0].items, vec![0, 3]);
    assert_eq!(replays[0].next_cursor, 2);
    assert_eq!(replays[1].items, vec![1]);
    let page = replay_page(2, Some(replays[0].next_cursor), None).expect("page");
    assert_eq!((page.start, page.end, page.next_cursor), (2, 2, None));
}

#[test]
fn runs_are_ended_where_there_are_any() {
    let runs = vec![run("a", "session", "running", 1)];
    let finished = finish_agent_run(&runs, " a ").expect("finished");
    assert_eq!(finished.agent_run_id, "a");
    assert_eq!(finished.status, "succeeded");
    assert_eq!(finished.error, None);
    let failed = fail_agent_run(&runs, "a", "banana".to_string()).expect("failed");
    assert_eq!(failed.status, "failed");
    assert_eq!(failed.error.as_deref(), Some("banana"));
    assert_eq!(
        finish_agent_run(&runs, "b").expect_err("unknown"),
        "AgentRun not found: b"
    );
    assert_eq!(
        finish_agent_run(&runs, " ").expect_err("empty"),
        "agentRunId is required"
    );
}
