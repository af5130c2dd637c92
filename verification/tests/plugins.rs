use centaeris_runtime_host::json::Json;
use centaeris_runtime_host::mcp::{
    bearer_token_for, catalog_from, duplicates_earlier, find_configured_plugin,
    find_configured_server, project_server, push_plugin_diagnostic, require_valid_descriptor,
    McpServerDeclaration, McpTransport, NativeMcpServerStatus, PluginDescriptor,
};
use centaeris_runtime_host::mcp_contract::{
    parse_args, parse_sync_args, process, read_declaration, read_snapshot, require_strict,
    server_id_of, sync, sync_files, synchronize_tools, write_declaration, ContractMode,
    SnapshotBinding, SnapshotContent, SnapshotFile, StrictReading, Synchronization, ToolsDigest,
};
use centaeris_runtime_host::mcp_credentials::{validate_lower_kebab, McpCredentialStore};
use centaeris_runtime_host::package_catalog::{
    check_package_roots, encode_catalog, PackageRoot,
};
use centaeris_runtime_host::plugin_activation::{
    activation_from_descriptors, command_path_entries, hook_source, Admission, BoundServer,
    PathLookup, PluginActivation, PluginPackage,
};
use centaeris_runtime_host::sorting::sorted_places;

fn json(text: &str) -> Json {
    Json::read(text).expect("JSON fixture")
}

fn strings(items: &[&str]) -> Vec<String> {
    items.iter().map(|item| item.to_string()).collect()
}

fn descriptor(id: &str) -> PluginDescriptor {
    PluginDescriptor {
        id: id.to_string(),
        name: "Demo Plugin".to_string(),
        enabled: true,
        path: format!("/plugins/{id}"),
        errors: Vec::new(),
    }
}

fn http_server(credential: Option<&str>) -> McpServerDeclaration {
    McpServerDeclaration {
        id: "demo-server".to_string(),
        transport: McpTransport::StreamableHttp {
            url: "https://example.com/mcp".to_string(),
            bearer_credential_ref: credential.map(str::to_string),
        },
        tool_names: strings(&["demo_search"]),
    }
}

#[test]
fn catalog_projects_declared_status_without_connecting() {
    let mut credentials = McpCredentialStore::empty();
    let descriptors = vec![descriptor("demo-plugin")];
    let loaded = vec![Ok(vec![http_server(Some("demo-token"))])];
    let missing = catalog_from(&descriptors, &loaded, &credentials);
    assert_eq!(
        missing.servers[0].status,
        NativeMcpServerStatus::NeedsConfiguration
    );
    credentials.set(
        "demo-plugin".to_string(),
        "demo-token".to_string(),
        "secret".to_string(),
        1,
    );
    let ready = catalog_from(&descriptors, &loaded, &credentials);
    assert_eq!(ready.servers[0].status, NativeMcpServerStatus::Ready);
    assert_eq!(ready.schema, "native.mcp.catalog.v1");
    assert_eq!(
        ready.servers[0].endpoint.as_deref(),
        Some("https://example.com/mcp")
    );
}

#[test]
fn catalog_isolates_invalid_plugin_without_hiding_healthy_plugin() {
    let healthy = descriptor("demo-plugin");
    let mut invalid = descriptor("broken-plugin");
    invalid.errors = vec!["future manifest field".to_string()];
    let catalog = catalog_from(
        &vec![invalid, healthy],
        &vec![Ok(vec![http_server(None)]), Ok(vec![http_server(None)])],
        &McpCredentialStore::empty(),
    );
    assert_eq!(catalog.servers.len(), 1);
    assert_eq!(catalog.servers[0].plugin_name, "demo-plugin");
    assert_eq!(catalog.diagnostics.len(), 1);
    assert_eq!(catalog.diagnostics[0].code, "native_plugin_invalid");
    assert_eq!(catalog.diagnostics[0].plugin_name, "broken-plugin");
}

#[test]
fn credential_store_round_trips_and_rejects_unknown_fields() {
    let mut credentials = McpCredentialStore::empty();
    credentials.set(
        "demo-plugin".to_string(),
        "demo-token".to_string(),
        "secret".to_string(),
        1,
    );
    assert_eq!(credentials.get("demo-plugin", "demo-token"), Some("secret"));
    assert_eq!(credentials.get("demo-plugin", "other-token"), None);
    assert!(credentials.validate(&vec![true]).is_ok());
    assert!(credentials.validate(&vec![false]).is_err());
    credentials.set(
        "demo-plugin".to_string(),
        "demo-token".to_string(),
        "changed".to_string(),
        2,
    );
    assert_eq!(credentials.credentials.len(), 1);
    assert_eq!(credentials.get("demo-plugin", "demo-token"), Some("changed"));
    credentials.schema = "banana".to_string();
    assert!(credentials.validate(&vec![true]).is_err());
    assert!(validate_lower_kebab("credentialRef", "demo-token-2").is_ok());
    assert!(validate_lower_kebab("credentialRef", "Demo").is_err());
    assert!(validate_lower_kebab("credentialRef", "").is_err());
}

#[test]
fn servers_are_projected_by_transport_and_plugin() {
    let credentials = McpCredentialStore::empty();
    let ready = project_server(&descriptor("demo-plugin"), &http_server(None), &credentials);
    assert_eq!(ready.status, NativeMcpServerStatus::Ready);
    let stdio = McpServerDeclaration {
        id: "local".to_string(),
        transport: McpTransport::Stdio,
        tool_names: Vec::new(),
    };
    let unsupported = project_server(&descriptor("demo-plugin"), &stdio, &credentials);
    assert_eq!(unsupported.status, NativeMcpServerStatus::Unsupported);
    let mut disabled = descriptor("demo-plugin");
    disabled.enabled = false;
    assert_eq!(
        project_server(&disabled, &http_server(None), &credentials).status,
        NativeMcpServerStatus::Disabled
    );
}

#[test]
fn diagnostics_are_bounded() {
    let mut diagnostics = Vec::new();
    for _ in 0..200 {
        push_plugin_diagnostic(
            &mut diagnostics,
            "native_plugin_invalid",
            &descriptor("demo-plugin"),
            "broken",
        );
    }
    assert_eq!(diagnostics.len(), 128);
    assert!(require_valid_descriptor(&descriptor("demo-plugin")).is_ok());
    let twice = vec![descriptor("demo-plugin"), descriptor("demo-plugin")];
    assert!(!duplicates_earlier(&twice, 0));
    assert!(duplicates_earlier(&twice, 1));
}

#[test]
fn configured_servers_are_found_by_name() {
    let descriptors = vec![descriptor("other"), descriptor("demo-plugin")];
    assert_eq!(find_configured_plugin(true, "demo-plugin", &descriptors), Ok(1));
    assert!(find_configured_plugin(false, "demo-plugin", &descriptors).is_err());
    assert!(find_configured_plugin(true, "banana", &descriptors).is_err());
    let servers = vec![http_server(Some("demo-token"))];
    assert_eq!(
        find_configured_server(&servers, "demo-server"),
        Ok((0, "demo-token".to_string()))
    );
    assert!(find_configured_server(&servers, "banana").is_err());
    let mut credentials = McpCredentialStore::empty();
    assert!(bearer_token_for("demo-plugin", &servers[0], &credentials).is_err());
    credentials.set(
        "demo-plugin".to_string(),
        "demo-token".to_string(),
        "secret".to_string(),
        1,
    );
    assert_eq!(
        bearer_token_for("demo-plugin", &servers[0], &credentials),
        Ok(Some("secret".to_string()))
    );
    assert_eq!(
        bearer_token_for("demo-plugin", &http_server(None), &credentials),
        Ok(None)
    );
}

fn package(name: &str) -> PluginPackage {
    PluginPackage {
        name: name.to_string(),
        skills: Vec::new(),
        cli: vec![PathLookup::Found {
            path: format!("/plugins/{name}/bin/demo-cli"),
            is_file: true,
            parent: Some(format!("/plugins/{name}/bin")),
        }],
        hooks: Some(Ok(strings(&["check"]))),
        declarations: Vec::new(),
        registration: Ok(()),
    }
}

#[test]
fn activation_exposes_cli_path_and_trusted_plugin_hooks() {
    let activation = activation_from_descriptors(
        &vec![descriptor("demo-plugin")],
        &vec![Ok(package("demo-plugin"))],
    );
    assert_eq!(activation.cli_directories, strings(&["/plugins/demo-plugin/bin"]));
    let path = command_path_entries(&activation.cli_directories, &strings(&["/usr/bin"]))
        .expect("plugin PATH");
    assert_eq!(path[0], "/plugins/demo-plugin/bin");
    assert!(path.contains(&"/usr/bin".to_string()));
    assert!(!activation.hook_handlers.is_empty());
    assert_eq!(command_path_entries(&Vec::new(), &strings(&["/usr/bin"])), None);
}

#[test]
fn plugins_bring_skills_and_hooks_of_their_own() {
    let mut brought = package("demo-plugin");
    brought.skills = vec![
        PathLookup::Found {
            path: "/plugins/demo-plugin/skills".to_string(),
            is_file: false,
            parent: Some("/plugins/demo-plugin".to_string()),
        },
        PathLookup::Found {
            path: "/plugins/demo-plugin/one/SKILL.md".to_string(),
            is_file: true,
            parent: Some("/plugins/demo-plugin/one".to_string()),
        },
    ];
    let activation =
        activation_from_descriptors(&vec![descriptor("demo-plugin")], &vec![Ok(brought)]);
    assert_eq!(activation.skill_sources.len(), 2);
    let directory = &activation.skill_sources[0];
    assert_eq!(directory.source_id, "plugin.demo-plugin.0");
    assert_eq!(directory.path, "/plugins/demo-plugin/skills");
    assert!(!directory.is_file && directory.enabled);
    assert_eq!(directory.workspace_root, None);
    assert_eq!(activation.skill_sources[1].source_id, "plugin.demo-plugin.1");
    assert!(activation.skill_sources[1].is_file);
    let source = hook_source("demo-plugin", 2).expect("hooks");
    assert_eq!(source.manifest_path, ".centaeris-plugin/plugin.json");
    assert_eq!(source.trusted_plugins, strings(&["demo-plugin"]));
    assert!(hook_source("demo-plugin", 0).is_none());
}

#[test]
fn isolated_plugins_activate_nothing() {
    let mut activation = PluginActivation::new();
    let mut broken = package("conflicting-plugin");
    broken.registration = Err("tool name conflict".to_string());
    assert!(matches!(
        activation.take_in(&descriptor("conflicting-plugin"), &Ok(broken)),
        Admission::Isolated(_)
    ));
    assert!(activation.cli_directories.is_empty() && activation.hook_handlers.is_empty());
    assert!(matches!(
        activation.take_in(&descriptor("unreadable-plugin"), &Err("unreadable".to_string())),
        Admission::Isolated(error) if error == "unreadable"
    ));
    let mut disabled = descriptor("demo-plugin");
    disabled.enabled = false;
    assert!(matches!(
        activation.take_in(&disabled, &Ok(package("demo-plugin"))),
        Admission::Disabled
    ));
    let mut bound = package("unbound-plugin");
    bound.declarations = vec![Ok(vec![BoundServer {
        id: "demo-server".to_string(),
        is_stdio: false,
        binding: Err("digest mismatch".to_string()),
    }])];
    assert!(matches!(
        activation.take_in(&descriptor("unbound-plugin"), &Ok(bound)),
        Admission::Isolated(_)
    ));
    assert!(matches!(
        activation.take_in(&descriptor("demo-plugin"), &Ok(package("demo-plugin"))),
        Admission::Activated
    ));
    assert_eq!(activation.package_names, strings(&["demo-plugin"]));
    assert!(matches!(
        activation.take_in(&descriptor("demo-plugin"), &Ok(package("demo-plugin"))),
        Admission::Isolated(error) if error == "duplicate plugin catalog id"
    ));
}

fn declaration(tools: &str, digest: &str) -> Json {
    json(&format!(
        "{{\"schema\": \"mcp.servers.v1\", \"servers\": [{{\"id\": \"demo-server\", \"modelContractDigest\": \"{digest}\", \"tools\": {tools}}}]}}"
    ))
}

#[test]
fn writes_then_checks_all_server_digests_offline() {
    let value = declaration("[]", "stale");
    let digests = || vec![ToolsDigest::Digest("sha256:fresh".to_string())];
    assert!(process(&value, ContractMode::Check, &digests())
        .expect_err("stale digest")
        .contains("modelContractDigest mismatch: serverId=demo-server"));
    let written = process(&value, ContractMode::Write, &digests()).expect("write");
    let checked = process(&written, ContractMode::Check, &digests()).expect("check");
    assert!(checked.equals(&written));
    assert!(process(
        &value,
        ContractMode::Write,
        &vec![ToolsDigest::Unreadable("no tools".to_string())]
    )
    .expect_err("unreadable")
    .contains("parse MCP tools failed for serverId=demo-server: no tools"));
}

fn snapshot_file(server_id: &str, read: Result<&[u8], &str>) -> SnapshotFile {
    SnapshotFile {
        server_id: server_id.to_string(),
        path: format!("{server_id}.json"),
        read: read.map(<[u8]>::to_vec).map_err(str::to_string),
    }
}

#[test]
fn snapshots_are_read_from_their_bytes() {
    match read_snapshot(&Ok(b"{\"result\": {\"tools\": [1, -2, true]}}".to_vec())) {
        SnapshotContent::Value(value) => {
            assert!(value.equals(&json("{\"result\":{\"tools\":[1,-2,true]}}")));
            assert_eq!(value.text(), "{\"result\":{\"tools\":[1,-2,true]}}");
        }
        other => panic!("{other:?}"),
    }
    assert!(matches!(
        read_snapshot(&Ok(b"{\"a\"".to_vec())),
        SnapshotContent::Unparsable(error) if error == "EOF while parsing an object at line 1 column 4"
    ));
    assert!(matches!(
        read_snapshot(&Ok(vec![b'"', 0xff, b'"'])),
        SnapshotContent::Unparsable(_)
    ));
    assert!(matches!(
        read_snapshot(&Err("no such file".to_string())),
        SnapshotContent::Unreadable(error) if error == "no such file"
    ));
    assert_eq!(
        Json::read("[1").expect_err("open list"),
        "EOF while parsing a list at line 1 column 2"
    );
}

#[test]
fn whole_declarations_are_synchronized_from_their_files() {
    let tool = |name: &str| {
        format!("{{\"sourceName\": \"{name}\", \"name\": \"demo_{name}\", \"description\": \"old\", \"inputSchema\": {{}}}}")
    };
    let raw = format!(
        "{{\"schema\": \"mcp_servers_v1\", \"servers\": [{{\"id\": \"one\", \"tools\": [{}, {}]}}, {{\"tools\": [], \"id\": \"two\", \"transport\": \"kept\"}}]}}",
        tool("search"),
        tool("fetch")
    );
    let live = b"{\"result\": {\"tools\": [{\"name\": \"search\", \"description\": \"finds\", \"inputSchema\": {\"type\": \"object\"}}, {\"name\": \"fetch\", \"description\": \"loads\", \"inputSchema\": {}}]}}";
    let none = b"{\"result\": {\"tools\": []}}";
    let files = || vec![snapshot_file("two", Ok(none)), snapshot_file("one", Ok(live))];
    let digest = |text: &str| ToolsDigest::Digest(text.to_string());
    match sync_files(&raw, "mcp.json", &files(), &vec![digest("sha256:one")]).expect("one digest") {
        Synchronization::Digest { server_id, tools } => {
            assert_eq!(server_id, "two");
            assert!(tools.is_empty());
        }
        other => panic!("{other:?}"),
    }
    let digests = || vec![digest("sha256:one"), digest("sha256:two")];
    let after = match sync_files(&raw, "mcp.json", &files(), &digests()).expect("both digests") {
        Synchronization::Done(after) => after,
        other => panic!("{other:?}"),
    };
    assert_eq!(
        after.text(),
        "{\"schema\":\"mcp_servers_v1\",\"servers\":[{\"id\":\"one\",\"tools\":[{\"sourceName\":\"fetch\",\"name\":\"demo_fetch\",\"description\":\"loads\",\"inputSchema\":{}},{\"sourceName\":\"search\",\"name\":\"demo_search\",\"description\":\"finds\",\"inputSchema\":{\"type\":\"object\"}}],\"modelContractDigest\":\"sha256:one\"},{\"tools\":[],\"id\":\"two\",\"transport\":\"kept\",\"modelContractDigest\":\"sha256:two\"}]}"
    );
    assert!(process(&after, ContractMode::Check, &digests())
        .expect("check")
        .equals(&after));
    let outcome = |files: Vec<SnapshotFile>| {
        sync_files(&raw, "mcp.json", &files, &digests()).expect_err("refused")
    };
    assert_eq!(
        outcome(vec![snapshot_file("one", Ok(live))]),
        "missing tools/list snapshot: serverId=two"
    );
    let mut more = files();
    more.push(snapshot_file("three", Ok(none)));
    assert_eq!(outcome(more), "unknown tools/list snapshots: three");
    assert_eq!(
        outcome(vec![snapshot_file("one", Err("gone")), snapshot_file("two", Ok(none))]),
        "read tools/list snapshot failed one.json: gone"
    );
    assert_eq!(
        outcome(vec![snapshot_file("one", Ok(b"")), snapshot_file("two", Ok(none))]),
        "parse tools/list snapshot failed one.json: EOF while parsing a value at line 1 column 0"
    );
    assert_eq!(
        sync_files("{", "mcp.json", &files(), &digests()).expect_err("no declaration"),
        "parse MCP declaration failed mcp.json: EOF while parsing an object at line 1 column 1"
    );
}

#[test]
fn digests_are_put_where_they_stand_or_at_the_end() {
    let keys = |value: &Json| match value.get("servers") {
        Some(Json::List(servers)) => match &servers[0] {
            Json::Object(entries) => entries
                .iter()
                .map(|(key, _)| key.clone())
                .collect::<Vec<_>>(),
            other => panic!("{other:?}"),
        },
        other => panic!("{other:?}"),
    };
    let digests = || vec![ToolsDigest::Digest("sha256:fresh".to_string())];
    for (before, after) in [
        (
            "{\"tools\": [], \"modelContractDigest\": \"stale\", \"id\": \"demo\"}",
            ["tools", "modelContractDigest", "id"],
        ),
        (
            "{\"tools\": [], \"id\": \"demo\"}",
            ["tools", "id", "modelContractDigest"],
        ),
    ] {
        let value = json(&format!("{{\"servers\": [{before}]}}"));
        let written = process(&value, ContractMode::Write, &digests()).expect("write");
        assert_eq!(keys(&written), after);
        let checked = process(&written, ContractMode::Check, &digests()).expect("check");
        assert!(checked.equals(&written));
    }
}

#[test]
fn sync_requires_and_copies_the_exact_live_tools_list() {
    let value = declaration(
        "[{\"sourceName\": \"search\", \"name\": \"demo_search\", \"description\": \"old\", \"inputSchema\": {\"type\": \"object\"}}]",
        "stale",
    );
    let snapshot = |text: &str| SnapshotBinding {
        server_id: "demo-server".to_string(),
        path: "snapshot.json".to_string(),
        content: SnapshotContent::Value(json(text)),
    };
    let live = "{\"result\": {\"tools\": [{\"name\": \"search\", \"description\": \"new\", \"inputSchema\": {\"type\": \"string\"}}]}}";
    let bindings = vec![snapshot(live)];
    match sync(&value, &bindings, &Vec::new()).expect("needs a digest") {
        Synchronization::Digest { server_id, tools } => {
            assert_eq!(server_id, "demo-server");
            assert_eq!(tools[0].get_text("description").map(String::as_str), Some("new"));
        }
        other => panic!("{other:?}"),
    }
    let digests = vec![ToolsDigest::Digest("sha256:fresh".to_string())];
    match sync(&value, &bindings, &digests).expect("synchronized") {
        Synchronization::Done(after) => {
            let server = match after.get("servers") {
                Some(Json::List(servers)) => servers[0].copy(),
                other => panic!("{other:?}"),
            };
            assert_eq!(
                server.get_text("modelContractDigest").map(String::as_str),
                Some("sha256:fresh")
            );
            let tools = match server.get("tools") {
                Some(Json::List(tools)) => tools,
                other => panic!("{other:?}"),
            };
            assert!(tools[0].get("inputSchema").expect("schema").equals(&json("{\"type\": \"string\"}")));
            assert_eq!(tools[0].get_text("name").map(String::as_str), Some("demo_search"));
        }
        other => panic!("{other:?}"),
    }
    let extra = "{\"result\": {\"tools\": [{\"name\": \"search\", \"description\": \"new\", \"inputSchema\": {}}, {\"name\": \"surprise\", \"description\": \"x\", \"inputSchema\": {}}]}}";
    assert!(sync(&value, &vec![snapshot(extra)], &digests).is_err());
    let paginated = "{\"result\": {\"tools\": [], \"nextCursor\": \"2\"}}";
    assert!(sync(&value, &vec![snapshot(paginated)], &digests)
        .expect_err("paginated")
        .contains("tools/list snapshot is paginated: serverId=demo-server"));
    assert!(sync(&value, &Vec::new(), &digests).is_err());
    let server = match value.get("servers") {
        Some(Json::List(servers)) => servers[0].copy(),
        other => panic!("{other:?}"),
    };
    assert_eq!(server_id_of(&server), Ok("demo-server".to_string()));
    assert_eq!(
        synchronize_tools(&server, "demo-server", &json(live))
            .expect("tools")
            .len(),
        1
    );
}

#[test]
fn contract_arguments_name_a_mode_and_files() {
    assert!(matches!(
        parse_args(&strings(&["--check", "a.json"])),
        Ok((ContractMode::Check, paths)) if paths == strings(&["a.json"])
    ));
    assert!(matches!(
        parse_args(&strings(&["--write", "a.json", "b.json"])),
        Ok((ContractMode::Write, paths)) if paths.len() == 2
    ));
    assert!(parse_args(&Vec::new()).is_err());
    assert!(parse_args(&strings(&["--banana", "a.json"])).is_err());
    assert!(require_strict(StrictReading::Valid).is_ok());
    assert!(require_strict(StrictReading::Invalid("unknown field".to_string())).is_err());
    let value = read_declaration("{\"servers\": []}", "a.json").expect("declaration");
    let text = write_declaration(&value).expect("text");
    assert!(text.ends_with('\n'));
    assert!(read_declaration(&text, "a.json").expect("again").equals(&value));
    assert!(read_declaration("{", "a.json").is_err());
    assert!(parse_sync_args(&Vec::new()).is_err());
}

#[test]
fn catalogs_are_built_from_plain_roots() {
    assert!(check_package_roots(&vec![PackageRoot::Plain]).is_ok());
    assert!(check_package_roots(&vec![
        PackageRoot::Plain,
        PackageRoot::Symlink {
            path: "/plugins/linked".to_string()
        }
    ])
    .expect_err("linked")
    .contains("/plugins/linked"));
    assert!(check_package_roots(&vec![PackageRoot::Failed {
        path: "/plugins/gone".to_string(),
        error: "not found".to_string()
    }])
    .is_err());
    let text = encode_catalog(&json("{\"b\": 1, \"a\": [true]}")).expect("catalog");
    let value: serde_json::Value = serde_json::from_str(&text).expect("JSON");
    assert_eq!(value["b"], 1);
    assert!(text.ends_with('\n'));
    assert_eq!(
        centaeris_runtime_host::package_catalog::parse_args(&strings(&["/plugins/a"]))
            .map(|(roots, _)| roots),
        Ok(strings(&["/plugins/a"]))
    );
}

#[test]
fn places_are_sorted_stably() {
    let keys = vec![
        ("b".to_string(), "1".to_string()),
        ("a".to_string(), "2".to_string()),
        ("b".to_string(), "1".to_string()),
        ("a".to_string(), "1".to_string()),
    ];
    assert_eq!(sorted_places(&keys), vec![3, 1, 0, 2]);
}
