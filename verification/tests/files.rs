use base64::Engine;
use centaeris_runtime_host::desktop_file_preview::{
    canonical_preview_base_path, canonical_preview_file_path, check_preview_length, data_url,
    display_path, is_pdf_path, preview_image_mime_type, preview_root_for_file,
    read_desktop_preview_file, resolve_desktop_preview_file, user_supplied_path,
    DesktopFilePreviewReadRequest, FoundPath, PathKind, PreviewFile, PreviewTarget,
    DESKTOP_FILE_PREVIEW_MAX_BYTES,
};
use centaeris_runtime_host::digest::{
    hex_sha256, is_tagged_digest, tagged_digest, tagged_text_digest, valid_digest_hex,
};
use centaeris_runtime_host::http_transport::{
    effective_timeout_ms, format_reqwest_error, is_error_status, response_headers, timeout_message,
    TimedStep,
};
use centaeris_runtime_host::json::Json;
use centaeris_runtime_host::local_attachments::{
    check_image_file, check_images, image_digest, imported_image, managed_image_name, require_png,
    resolve_input_ref, verify_managed_image, LocalImageInputRequest,
};
use centaeris_runtime_host::sse::{SseDecoder, SseEvent};
use centaeris_runtime_host::startup::{startup, temporary_name, BuiltFor, Startup};
use centaeris_runtime_host::text::{
    ascii_lowercase, contains, count_occurrences, first_chars, hex_text, join, lines_of,
    normalize_line_feeds, split_once, split_text, strip_prefix, strip_prefixes, strip_suffix,
    text_precedes, trim, words_of,
};
use centaeris_runtime_host::text_map::TextMap;
use centaeris_runtime_host::text_set::TextSet;

const WAITING: &str = "model_provider_waiting";

fn chunks(events: Vec<SseEvent>) -> Vec<String> {
    events.into_iter().map(|event| event.chunk(WAITING)).collect()
}

#[test]
fn sse_decoder_handles_keep_alive_and_complete_data_events() {
    let mut events = Vec::new();
    let mut decoder = SseDecoder::default();

    decoder
        .push(
            b": keep-alive\n\ndata:\n\ndata: {\"id\":\"completion\",\"choices\":[]}\n\ndata: [DONE]\n\n",
            &mut events,
        )
        .expect("decode SSE events");
    decoder.finish(&mut events).unwrap();

    let events = chunks(events);
    assert_eq!(events.len(), 2);
    assert!(events[0].contains(WAITING));
    assert_eq!(events[1], "{\"id\":\"completion\",\"choices\":[]}");
}

#[test]
fn sse_decoder_is_lossless_at_every_byte_boundary() {
    for newline in ["\n", "\r", "\r\n"] {
        let wire = format!(
            "data: {{\"text\":\"你\",{newline}data: \"next\":\"好\"}}{newline}{newline}"
        );
        for boundary in 0..=wire.len() {
            let mut events = Vec::new();
            let mut decoder = SseDecoder::default();
            decoder
                .push(&wire.as_bytes()[..boundary], &mut events)
                .expect("decode first byte segment");
            decoder
                .push(&wire.as_bytes()[boundary..], &mut events)
                .expect("decode second byte segment");
            decoder.finish(&mut events).unwrap();
            assert_eq!(
                chunks(events),
                vec![format!("{{\"text\":\"你\",\n\"next\":\"好\"}}")],
                "newline={newline:?} boundary={boundary}"
            );
        }
    }
}

#[test]
fn sse_decoder_rejects_invalid_utf8_and_incomplete_event() {
    let mut events = Vec::new();
    let mut decoder = SseDecoder::default();
    assert!(decoder.push(b"data: \xff\n\n", &mut events).is_err());

    let mut decoder = SseDecoder::default();
    decoder.push(b"data: {}", &mut events).unwrap();
    assert!(decoder.finish(&mut events).is_err());
}

#[test]
fn requests_time_out_and_fail_with_their_causes() {
    assert_eq!(effective_timeout_ms(0), 1);
    assert_eq!(effective_timeout_ms(250), 250);
    assert!(is_error_status(400) && is_error_status(503));
    assert!(!is_error_status(200));
    let shown = format_reqwest_error(
        "send request",
        "connection refused",
        &vec!["tcp".to_string(), "os error 111".to_string()],
    );
    assert!(shown.starts_with("send request"));
    assert!(shown.contains("connection refused") && shown.contains("os error 111"));
    for step in [TimedStep::Headers, TimedStep::ErrorBody, TimedStep::Chunk] {
        assert!(timeout_message(step, 250).contains("250"));
    }
    let headers = response_headers(&vec![
        ("Retry-After".to_string(), Some("3".to_string())),
        ("x-binary".to_string(), None),
    ]);
    assert_eq!(headers.get("retry-after").map(String::as_str), Some("3"));
    assert_eq!(headers.len(), 1);
}

#[test]
fn reads_relative_text_with_cwd() {
    let request = DesktopFilePreviewReadRequest {
        path: String::from("sample.txt"),
        workspace_root: Some("/work".to_string()),
        base_path: None,
    };
    match resolve_desktop_preview_file(&request, PathKind::Relative).expect("target") {
        PreviewTarget::Relative { path, base } => {
            assert_eq!(path, "sample.txt");
            assert_eq!(base, "/work");
        }
        other => panic!("{other:?}"),
    }
    let response = read_desktop_preview_file(&PreviewFile {
        root: "/work".to_string(),
        path: "/work/sample.txt".to_string(),
        file_name: Some("sample.txt".to_string()),
        extension: Some("txt".to_string()),
        bytes: b"desktop preview smoke\n".to_vec(),
    })
    .expect("read preview");

    assert_eq!(response.content_kind, "text");
    assert!(response.content.contains("desktop preview smoke"));
    assert!(response.path.ends_with("sample.txt"));
    assert_eq!(response.byte_len, 22);
}

#[test]
fn reads_pdf_as_data_url() {
    let bytes = b"%PDF-1.4\n1 0 obj\n<<>>\nendobj\n%%EOF\n".to_vec();
    let response = read_desktop_preview_file(&PreviewFile {
        root: "/work".to_string(),
        path: "/work/sample.pdf".to_string(),
        file_name: Some("sample.pdf".to_string()),
        extension: Some("pdf".to_string()),
        bytes: bytes.clone(),
    })
    .expect("read pdf");

    assert_eq!(response.content_kind, "pdf");
    assert_eq!(response.mime_type, "application/pdf");
    let url = response.data_url.as_deref().unwrap_or("");
    assert!(url.starts_with("data:application/pdf;base64,"));
    assert_eq!(
        base64::engine::general_purpose::STANDARD
            .decode(&url["data:application/pdf;base64,".len()..])
            .expect("base64"),
        bytes
    );
}

#[test]
fn relative_path_without_base_fails_loudly() {
    let error = resolve_desktop_preview_file(
        &DesktopFilePreviewReadRequest {
            path: String::from("sample.txt"),
            workspace_root: None,
            base_path: None,
        },
        PathKind::Relative,
    )
    .expect_err("relative path should fail");

    assert!(error.contains("absolute path or basePath/workspaceRoot"));
}

#[test]
fn previews_are_bounded_and_typed() {
    assert!(check_preview_length(DESKTOP_FILE_PREVIEW_MAX_BYTES).is_ok());
    assert!(check_preview_length(DESKTOP_FILE_PREVIEW_MAX_BYTES + 1).is_err());
    assert_eq!(preview_image_mime_type("PNG"), Some("image/png"));
    assert_eq!(preview_image_mime_type("txt"), None);
    assert!(is_pdf_path("PDF") && !is_pdf_path("txt"));
    assert_eq!(data_url("text/plain", b"hi"), "data:text/plain;base64,aGk=");
    assert_eq!(display_path("\\\\?\\C:\\a"), "C:\\a");
    assert_eq!(display_path("\\\\?\\UNC\\server\\share"), "\\\\server\\share");
    assert_eq!(display_path("/plain"), "/plain");
    assert_eq!(user_supplied_path(" /a "), user_supplied_path("/a"));
    assert!(canonical_preview_base_path(&FoundPath::Other).is_err());
    assert_eq!(
        canonical_preview_base_path(&FoundPath::Directory("/work".to_string())),
        Ok("/work".to_string())
    );
    assert!(canonical_preview_file_path(&FoundPath::Directory("/work".to_string())).is_err());
    assert!(preview_root_for_file(&None).is_err());
}

fn png() -> Vec<u8> {
    base64::engine::general_purpose::STANDARD.decode("iVBORw0KGgoAAAANSUhEUgAAAAEAAAABCAIAAACQd1PeAAAADElEQVR4nGNgYGAAAAAEAAH2FzhVAAAAAElFTkSuQmCC").expect("PNG fixture")
}

#[test]
fn managed_image_verification_detects_corruption() {
    let bytes = png();
    let digest = hex_sha256(bytes.as_slice());
    assert_eq!(image_digest(&bytes), digest);
    verify_managed_image(&bytes, digest.as_str(), "/inputs/a.png").expect("verify image");
    assert!(verify_managed_image(&bytes, &"b".repeat(64), "/inputs/a.png").is_err());
}

#[test]
fn images_stand_once_in_their_message() {
    let image = |placeholder: &str| LocalImageInputRequest {
        placeholder: placeholder.to_string(),
        local_path: "/tmp/a.png".to_string(),
    };
    assert!(check_images(&vec![image("[1]"), image("[2]")], "see [1] and [2]").is_ok());
    assert!(check_images(&vec![image("[1]")], "see [1] and [1]").is_err());
    assert!(check_images(&vec![image("[1]"), image("[1]")], "see [1]").is_err());
    assert!(check_images(&vec![image(" ")], "see it").is_err());
    let many = (0..9).map(|n| image(&format!("[{n}]"))).collect();
    assert_eq!(
        check_images(&many, "[0][1][2][3][4][5][6][7][8]"),
        Err("too many input images: maximum 8".to_string())
    );
}

#[test]
fn image_references_read_back() {
    let digest = "a".repeat(64);
    assert_eq!(managed_image_name(&digest), Ok(format!("{digest}.png")));
    assert!(managed_image_name("../x").is_err());
    let imported = imported_image(&digest, 1, "[image]");
    let input_ref = match imported.get("inputRef") {
        Some(Json::Text(text)) => text.clone(),
        other => panic!("{other:?}"),
    };
    assert_eq!(resolve_input_ref(&input_ref, "image/png"), Ok(digest));
    assert!(resolve_input_ref(&input_ref, "image/gif").is_err());
    assert!(resolve_input_ref("banana", "image/png").is_err());
    assert!(check_image_file(true, 10, 10).is_ok());
    assert!(check_image_file(true, 11, 10).is_err());
    assert!(check_image_file(false, 1, 10).is_err());
    assert!(require_png(Ok("image/png".to_string())).is_ok());
    assert!(require_png(Ok("image/gif".to_string())).is_err());
    assert!(require_png(Err("truncated".to_string())).is_err());
}

#[test]
fn digests_are_those_of_the_outside_hash() {
    assert_eq!(
        hex_sha256(b""),
        "e3b0c44298fc1c149afbf4c8996fb92427ae41e4649b934ca495991b7852b855"
    );
    assert_eq!(
        tagged_text_digest("abc"),
        "sha256:ba7816bf8f01cfea414140de5dae2223b00361a396177a9cb410ff61f20015ad"
    );
    assert_eq!(tagged_digest(b"abc"), tagged_text_digest("abc"));
    assert!(is_tagged_digest(&tagged_digest(b"abc")));
    assert!(!is_tagged_digest("sha256:abc"));
    assert!(!valid_digest_hex(&"A".repeat(64)));
}

#[test]
fn the_first_argument_chooses_what_is_started() {
    let arguments = |items: &[&str]| items.iter().map(|item| item.to_string()).collect::<Vec<_>>();
    assert!(matches!(
        startup(&arguments(&["--local-sandbox-supervisor", "/m", "--", "/bin/true"]), BuiltFor::Linux),
        Ok(Startup::LinuxSupervisor)
    ));
    assert!(startup(&arguments(&["--banana"]), BuiltFor::Linux).is_err());
    assert_eq!(temporary_name("config.json", 7, 99), ".config.json.7.99.tmp");
}

#[test]
fn texts_are_cut_and_joined() {
    assert_eq!(trim(" \u{a0}a b\u{2003}\n"), "a b");
    assert_eq!(words_of(" one\ttwo\n three "), vec!["one", "two", "three"]);
    assert_eq!(join(&vec!["a".to_string(), "b".to_string()], ", "), "a, b");
    assert_eq!(split_once("a=b=c", '='), Some(("a", "b=c")));
    assert_eq!(split_text("a,retry=b,retry=c", ",retry="), Some(("a", "b,retry=c")));
    assert_eq!(split_text("abc", "x"), None);
    assert_eq!(strip_prefix("sha256:x", "sha256:"), Some("x"));
    assert_eq!(strip_suffix("x.json", ".json"), Some("x"));
    assert_eq!(strip_prefixes("//a", "/"), "a");
    assert!(contains("haystack", "sta") && !contains("haystack", "stb"));
    assert_eq!(count_occurrences("aaaa", "aa"), 2);
    assert_eq!(lines_of("a\r\nb\n\nc"), vec!["a", "b", "", "c"]);
    assert_eq!(normalize_line_feeds("a\r\nb\rc\n"), "a\nb\rc\n");
    assert_eq!(first_chars("héllo", 2), "hé");
    assert_eq!(ascii_lowercase("ÄBC"), "Äbc");
    assert_eq!(hex_text(&[0, 255, 16]), "00ff10");
    assert!(text_precedes("a", "ab") && text_precedes("Z", "a") && !text_precedes("b", "a"));
}

#[test]
fn maps_and_sets_are_kept_by_text() {
    let mut map: TextMap<u64> = TextMap::new();
    map.insert("b", 1);
    map.insert("a", 2);
    map.insert("b", 3);
    assert_eq!(map.len(), 2);
    assert_eq!(map.get("b"), Some(&3));
    assert_eq!(map.remove("b"), Some(3));
    assert!(!map.contains_key("b"));
    let mut set = TextSet::new();
    assert!(set.insert("x"));
    assert!(!set.insert("x"));
    assert!(set.contains("x"));
    assert!(set.remove("x"));
    assert!(set.is_empty());
}
