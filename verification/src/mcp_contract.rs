//! The contracts of MCP servers: the digests that pin the tools of a declaration, and the taking
//! over of the tools that a server lists.

use crate::json::{
    entry, field, json_parsed, json_parsed_bytes, json_pretty, json_views, lemma_put_entry,
    lemma_with_entry_other, lemma_with_entry_read, list, parse_json, parse_json_bytes, put_field,
    text_field, text_json, with_entry, with_field, write_json_pretty, Json, JsonView,
};
use crate::observation_cas::agrees;
use crate::sorting::{key_less, key_views, law_stable_order, places, sorted_places, stable_order};
use crate::text::{
    concat2, concat3, contains_text, join, joined, lemma_text_order_total, lists, split_at_first,
    split_once, text_equals, text_less, texts,
};
use vstd::prelude::*;

verus! {

/// Whether the digests of a declaration are checked or written.
#[derive(Clone, Copy, Debug, PartialEq, Eq, Structural)]
pub enum ContractMode {
    Check,
    Write,
}

/// What the arguments ask for: the mode and the files.
pub open spec fn asked(args: Seq<Seq<char>>) -> Result<(ContractMode, Seq<Seq<char>>), Seq<char>> {
    if args.len() == 0 || (args[0] != "--check"@ && args[0] != "--write"@) {
        Err("usage: centaeris-mcp-contract (--check|--write) <file>..."@)
    } else if args.len() == 1 {
        Err("at least one MCP declaration file is required"@)
    } else {
        Ok(
            (
                if args[0] == "--check"@ {
                    ContractMode::Check
                } else {
                    ContractMode::Write
                },
                args.subrange(1, args.len() as int),
            ),
        )
    }
}

/// Reads the arguments: the mode and the files.
pub fn parse_args(args: &Vec<String>) -> (result: Result<(ContractMode, Vec<String>), String>)
    ensures
        agrees(
            result,
            |parsed: (ContractMode, Vec<String>)| (parsed.0, texts(parsed.1@)),
            asked(texts(args@)),
        ),
{
    if args.len() == 0 {
        return Err("usage: centaeris-mcp-contract (--check|--write) <file>...".to_owned());
    }
    assert(texts(args@)[0] == args@[0]@);
    let mode = if text_equals(args[0].as_str(), "--check") {
        ContractMode::Check
    } else if text_equals(args[0].as_str(), "--write") {
        ContractMode::Write
    } else {
        return Err("usage: centaeris-mcp-contract (--check|--write) <file>...".to_owned());
    };
    if args.len() == 1 {
        return Err("at least one MCP declaration file is required".to_owned());
    }
    let mut paths: Vec<String> = Vec::new();
    let mut i: usize = 1;
    while i < args.len()
        invariant
            1 <= i <= args.len(),
            paths.len() == i - 1,
            forall|j: int| 0 <= j < i - 1 ==> (#[trigger] paths@[j])@ == args@[j + 1]@,
        decreases args.len() - i,
    {
        paths.push(args[i].clone());
        i = i + 1;
    }
    assert(texts(paths@) =~= texts(args@).subrange(1, args@.len() as int));
    Ok((mode, paths))
}

/// The value that the text of a declaration holds, for the outcome of reading it as JSON.
pub open spec fn declaration(parsed: Result<JsonView, Seq<char>>, path: Seq<char>) -> Result<
    JsonView,
    Seq<char>,
> {
    match parsed {
        Ok(value) => Ok(value),
        Err(error) => Err("parse MCP declaration failed "@ + path + ": "@ + error),
    }
}

/// The value that the text of a declaration holds.
pub fn read_declaration(raw: &str, path: &str) -> (result: Result<Json, String>)
    ensures
        agrees(
            result,
            |value: Json| value@,
            declaration(json_parsed(raw@), path@),
        ),
{
    match parse_json(raw) {
        Ok(value) => Ok(value),
        Err(error) => {
            let mut message = concat3("parse MCP declaration failed ", path, ": ");
            message.append(error.as_str());
            Err(message)
        },
    }
}

/// The text of a declaration, for the outcome of writing it as JSON.
pub open spec fn declaration_text(written: Result<Seq<char>, Seq<char>>) -> Result<
    Seq<char>,
    Seq<char>,
> {
    match written {
        Ok(text) => Ok(text + "\n"@),
        Err(error) => Err("encode MCP declaration failed: "@ + error),
    }
}

/// The text of a declaration.
pub fn write_declaration(value: &Json) -> (result: Result<String, String>)
    ensures
        agrees(result, |text: String| text@, declaration_text(json_pretty(value@))),
{
    match write_json_pretty(value) {
        Ok(text) => Ok(concat2(text.as_str(), "\n")),
        Err(error) => Err(concat2("encode MCP declaration failed: ", error.as_str())),
    }
}

/// The outcome of taking the digest of a server's tools.
#[derive(Debug)]
pub enum ToolsDigest {
    /// The tools are not what a declaration may hold, for the given reason.
    Unreadable(String),
    /// The digest could not be taken, for the given reason.
    Failed(String),
    /// The digest.
    Digest(String),
}

pub enum ToolsDigestView {
    Unreadable(Seq<char>),
    Failed(Seq<char>),
    Digest(Seq<char>),
}

impl View for ToolsDigest {
    type V = ToolsDigestView;

    open spec fn view(&self) -> ToolsDigestView {
        match self {
            ToolsDigest::Unreadable(error) => ToolsDigestView::Unreadable(error@),
            ToolsDigest::Failed(error) => ToolsDigestView::Failed(error@),
            ToolsDigest::Digest(digest) => ToolsDigestView::Digest(digest@),
        }
    }
}

/// What a list of outcomes says.
pub open spec fn digest_views(digests: Seq<ToolsDigest>) -> Seq<ToolsDigestView> {
    Seq::new(digests.len(), |i: int| digests[i]@)
}

/// The identity of a declared server.
pub open spec fn server_identity(server: JsonView) -> Result<Seq<char>, Seq<char>> {
    match server {
        JsonView::Object(_) => match text_field(server, "id"@) {
            Some(id) => Ok(id),
            None => Err("MCP server id is required"@),
        },
        _ => Err("MCP server declaration must be an object"@),
    }
}

/// The identity of a declared server.
pub fn server_id_of(server: &Json) -> (result: Result<String, String>)
    ensures
        agrees(result, |id: String| id@, server_identity(server@)),
{
    match server {
        Json::Object(_) => match server.get_text("id") {
            Some(id) => Ok(id.clone()),
            None => Err("MCP server id is required".to_owned()),
        },
        _ => Err("MCP server declaration must be an object".to_owned()),
    }
}

/// A declared server after its digest was checked or written.
pub open spec fn server_after(
    server: JsonView,
    mode: ContractMode,
    digest: ToolsDigestView,
) -> Result<JsonView, Seq<char>> {
    match server_identity(server) {
        Err(error) => Err(error),
        Ok(id) => if field(server, "tools"@) is None {
            Err("MCP server tools are required"@)
        } else {
            match digest {
                ToolsDigestView::Unreadable(error) => Err(
                    "parse MCP tools failed for serverId="@ + id + ": "@ + error,
                ),
                ToolsDigestView::Failed(error) => Err(error),
                ToolsDigestView::Digest(digest) => match mode {
                    ContractMode::Check => if text_field(server, "modelContractDigest"@) == Some(
                        digest,
                    ) {
                        Ok(server)
                    } else {
                        Err("MCP modelContractDigest mismatch: serverId="@ + id)
                    },
                    ContractMode::Write => Ok(
                        put_field(server, "modelContractDigest"@, JsonView::Text(digest)),
                    ),
                },
            }
        },
    }
}

fn process_server(server: &Json, mode: ContractMode, digest: &ToolsDigest) -> (result: Result<
    Json,
    String,
>)
    ensures
        agrees(result, |after: Json| after@, server_after(server@, mode, digest@)),
{
    let id = match server_id_of(server) {
        Ok(id) => id,
        Err(error) => {
            return Err(error);
        },
    };
    if server.get("tools").is_none() {
        return Err("MCP server tools are required".to_owned());
    }
    match digest {
        ToolsDigest::Unreadable(error) => {
            let mut message = concat3("parse MCP tools failed for serverId=", id.as_str(), ": ");
            message.append(error.as_str());
            Err(message)
        },
        ToolsDigest::Failed(error) => Err(error.clone()),
        ToolsDigest::Digest(digest) => match mode {
            ContractMode::Check => {
                let current = match server.get_text("modelContractDigest") {
                    Some(text) => text_equals(text.as_str(), digest.as_str()),
                    None => false,
                };
                if current {
                    Ok(server.copy())
                } else {
                    Err(concat2("MCP modelContractDigest mismatch: serverId=", id.as_str()))
                }
            },
            ContractMode::Write => Ok(
                server.putting("modelContractDigest", text_json(digest.as_str())),
            ),
        },
    }
}

/// The declared servers after their digests were checked or written, in order, up to the first
/// error.
pub open spec fn servers_after(
    servers: Seq<JsonView>,
    mode: ContractMode,
    digests: Seq<ToolsDigestView>,
) -> Result<Seq<JsonView>, Seq<char>>
    decreases servers.len(),
{
    if servers.len() == 0 {
        Ok(Seq::empty())
    } else {
        let n = servers.len() - 1;
        match servers_after(servers.subrange(0, n), mode, digests) {
            Err(error) => Err(error),
            Ok(before) => match server_after(servers[n], mode, digests[n]) {
                Err(error) => Err(error),
                Ok(server) => Ok(before.push(server)),
            },
        }
    }
}

/// A declaration after its digests were checked or written. `digests` holds the outcome for each
/// server, in order.
pub open spec fn declaration_after(
    value: JsonView,
    mode: ContractMode,
    digests: Seq<ToolsDigestView>,
) -> Result<JsonView, Seq<char>> {
    match field(value, "servers"@) {
        Some(JsonView::List(servers)) => match servers_after(servers, mode, digests) {
            Err(error) => Err(error),
            Ok(after) => Ok(with_field(value, "servers"@, JsonView::List(after))),
        },
        _ => Err("MCP declaration servers must be an array"@),
    }
}

proof fn lemma_servers_error(
    servers: Seq<JsonView>,
    mode: ContractMode,
    digests: Seq<ToolsDigestView>,
    n: int,
)
    requires
        0 <= n <= servers.len(),
        servers_after(servers.subrange(0, n), mode, digests) is Err,
    ensures
        servers_after(servers, mode, digests) == servers_after(
            servers.subrange(0, n),
            mode,
            digests,
        ),
    decreases servers.len(),
{
    if n < servers.len() {
        let init = servers.subrange(0, servers.len() - 1);
        assert(init.subrange(0, n) =~= servers.subrange(0, n));
        lemma_servers_error(init, mode, digests, n);
    } else {
        assert(servers.subrange(0, n) =~= servers);
    }
}

/// Checks or writes the digests of a declaration. `digests` holds the outcome of taking the digest
/// of each server's tools, in order.
pub fn process(value: &Json, mode: ContractMode, digests: &Vec<ToolsDigest>) -> (result: Result<
    Json,
    String,
>)
    requires
        field(value@, "servers"@) matches Some(JsonView::List(servers)) ==> digests.len()
            == servers.len(),
    ensures
        agrees(
            result,
            |after: Json| after@,
            declaration_after(value@, mode, digest_views(digests@)),
        ),
{
    let servers = match value.get("servers") {
        Some(Json::List(servers)) => servers,
        _ => {
            return Err("MCP declaration servers must be an array".to_owned());
        },
    };
    let ghost all = field(value@, "servers"@)->0->List_0;
    let ghost outcomes = digest_views(digests@);
    let mut after: Vec<Json> = Vec::new();
    let mut i: usize = 0;
    assert(all =~= json_views(servers@));
    assert(all.subrange(0, 0) =~= Seq::empty());
    assert(json_views(after@) =~= Seq::empty());
    while i < servers.len()
        invariant
            i <= servers.len(),
            digests.len() == servers.len(),
            all == json_views(servers@),
            outcomes == digest_views(digests@),
            field(value@, "servers"@) == Some(JsonView::List(all)),
            servers_after(all.subrange(0, i as int), mode, outcomes) == Ok::<
                Seq<JsonView>,
                Seq<char>,
            >(json_views(after@)),
        decreases servers.len() - i,
    {
        let ghost before = json_views(after@);
        proof {
            let next = all.subrange(0, i + 1);
            assert(next.subrange(0, i as int) =~= all.subrange(0, i as int));
            assert(next[i as int] == servers@[i as int]@);
            assert(outcomes[i as int] == digests@[i as int]@);
        }
        match process_server(&servers[i], mode, &digests[i]) {
            Ok(server) => {
                after.push(server);
                assert(json_views(after@) =~= before.push(server@));
            },
            Err(error) => {
                proof {
                    lemma_servers_error(all, mode, outcomes, i + 1);
                }
                return Err(error);
            },
        }
        i = i + 1;
    }
    assert(all.subrange(0, all.len() as int) =~= all);
    Ok(value.replacing("servers", list(after)))
}

/// The outcome of reading a whole declaration strictly.
#[derive(Debug)]
pub enum StrictReading {
    /// It is not what a declaration may be, for the given reason.
    Unreadable(String),
    /// It breaks a rule, for the given reason.
    Invalid(String),
    Valid,
}

/// Accepts a declaration that was read strictly.
pub fn require_strict(reading: StrictReading) -> (result: Result<(), String>)
    ensures
        match reading {
            StrictReading::Unreadable(error) => result matches Err(message) && message@
                == "parse strict MCP declaration failed: "@ + error@,
            StrictReading::Invalid(error) => result matches Err(message) && message@ == error@,
            StrictReading::Valid => result is Ok,
        },
{
    match reading {
        StrictReading::Unreadable(error) => Err(
            concat2("parse strict MCP declaration failed: ", error.as_str()),
        ),
        StrictReading::Invalid(error) => Err(error),
        StrictReading::Valid => Ok(()),
    }
}

proof fn lemma_written_server(server: JsonView, digest: ToolsDigestView)
    requires
        server_after(server, ContractMode::Write, digest) is Ok,
    ensures
        server_after(
            server_after(server, ContractMode::Write, digest)->Ok_0,
            ContractMode::Check,
            digest,
        ) == server_after(server, ContractMode::Write, digest),
{
    reveal_strlit("id");
    reveal_strlit("tools");
    reveal_strlit("modelContractDigest");
    let value = JsonView::Text(digest->Digest_0);
    let entries = server->Object_0;
    lemma_put_entry(entries, "modelContractDigest"@, value, "id"@);
    lemma_put_entry(entries, "modelContractDigest"@, value, "tools"@);
    lemma_put_entry(entries, "modelContractDigest"@, value, "modelContractDigest"@);
}

proof fn lemma_written_servers(servers: Seq<JsonView>, digests: Seq<ToolsDigestView>)
    requires
        servers_after(servers, ContractMode::Write, digests) is Ok,
    ensures
        servers_after(
            servers_after(servers, ContractMode::Write, digests)->Ok_0,
            ContractMode::Check,
            digests,
        ) == servers_after(servers, ContractMode::Write, digests),
        servers_after(servers, ContractMode::Write, digests)->Ok_0.len() == servers.len(),
    decreases servers.len(),
{
    if servers.len() > 0 {
        let n = servers.len() - 1;
        let init = servers.subrange(0, n);
        lemma_written_servers(init, digests);
        let before = servers_after(init, ContractMode::Write, digests)->Ok_0;
        let server = server_after(servers[n], ContractMode::Write, digests[n])->Ok_0;
        lemma_written_server(servers[n], digests[n]);
        let after = before.push(server);
        assert(after.subrange(0, n) =~= before);
    }
}

/// A declaration whose digests were written passes the check of its digests.
pub proof fn law_check_accepts_written(value: JsonView, digests: Seq<ToolsDigestView>)
    requires
        declaration_after(value, ContractMode::Write, digests) is Ok,
    ensures
        ({
            let written = declaration_after(value, ContractMode::Write, digests);
            declaration_after(written->Ok_0, ContractMode::Check, digests) == written
        }),
{
    let servers = field(value, "servers"@)->0->List_0;
    lemma_written_servers(servers, digests);
    let after = servers_after(servers, ContractMode::Write, digests)->Ok_0;
    lemma_with_entry_read(value->Object_0, "servers"@, JsonView::List(after));
}

/// The tools that a snapshot of a server's `tools/list` holds.
pub open spec fn live_tools(snapshot: JsonView, id: Seq<char>) -> Result<Seq<JsonView>, Seq<char>> {
    match field(snapshot, "result"@) {
        Some(JsonView::Object(result)) => {
            let cursor = entry(result, "nextCursor"@);
            if cursor is Some && cursor->0 !is Null {
                Err("tools/list snapshot is paginated: serverId="@ + id)
            } else {
                match entry(result, "tools"@) {
                    Some(JsonView::List(tools)) => Ok(tools),
                    _ => Err("tools/list result.tools is missing: serverId="@ + id),
                }
            }
        },
        _ => Err("tools/list snapshot result is missing: serverId="@ + id),
    }
}

fn take_live_tools<'a>(snapshot: &'a Json, id: &str) -> (result: Result<&'a Vec<Json>, String>)
    ensures
        agrees(result, |tools: &'a Vec<Json>| json_views(tools@), live_tools(snapshot@, id@)),
{
    let result = match snapshot.get("result") {
        Some(value) => match value {
            Json::Object(_) => value,
            _ => {
                return Err(concat2("tools/list snapshot result is missing: serverId=", id));
            },
        },
        None => {
            return Err(concat2("tools/list snapshot result is missing: serverId=", id));
        },
    };
    let paginated = match result.get("nextCursor") {
        Some(Json::Null) => false,
        Some(_) => true,
        None => false,
    };
    if paginated {
        return Err(concat2("tools/list snapshot is paginated: serverId=", id));
    }
    match result.get("tools") {
        Some(value) => match value {
            Json::List(tools) => {
                assert(value@->List_0 =~= json_views(tools@));
                Ok(tools)
            },
            _ => Err(concat2("tools/list result.tools is missing: serverId=", id)),
        },
        None => Err(concat2("tools/list result.tools is missing: serverId=", id)),
    }
}

/// The source names of declared tools, in order.
pub open spec fn declared_names(tools: Seq<JsonView>, id: Seq<char>) -> Result<
    Seq<Seq<char>>,
    Seq<char>,
>
    decreases tools.len(),
{
    if tools.len() == 0 {
        Ok(Seq::empty())
    } else {
        let n = tools.len() - 1;
        match declared_names(tools.subrange(0, n), id) {
            Err(error) => Err(error),
            Ok(names) => match text_field(tools[n], "sourceName"@) {
                Some(name) => Ok(names.push(name)),
                None => Err("declared sourceName is missing: serverId="@ + id),
            },
        }
    }
}

proof fn lemma_declared_names(tools: Seq<JsonView>, id: Seq<char>, n: int)
    requires
        0 <= n <= tools.len(),
    ensures
        declared_names(tools.subrange(0, n), id) is Err ==> declared_names(tools, id)
            == declared_names(tools.subrange(0, n), id),
        declared_names(tools, id) matches Ok(names) ==> names.len() == tools.len() && forall|i: int|
            0 <= i < tools.len() ==> text_field(tools[i], "sourceName"@) == Some(
                #[trigger] names[i],
            ),
    decreases tools.len(),
{
    if tools.len() > 0 {
        let init = tools.subrange(0, tools.len() - 1);
        if n < tools.len() {
            assert(init.subrange(0, n) =~= tools.subrange(0, n));
            lemma_declared_names(init, id, n);
        } else {
            lemma_declared_names(init, id, 0);
        }
    }
    if n == tools.len() {
        assert(tools.subrange(0, n) =~= tools);
    }
}

fn take_declared_names(tools: &Vec<Json>, id: &str) -> (result: Result<Vec<String>, String>)
    ensures
        agrees(
            result,
            |names: Vec<String>| texts(names@),
            declared_names(json_views(tools@), id@),
        ),
{
    let ghost all = json_views(tools@);
    let mut names: Vec<String> = Vec::new();
    let mut i: usize = 0;
    assert(all.subrange(0, 0) =~= Seq::empty());
    assert(texts(names@) =~= Seq::empty());
    while i < tools.len()
        invariant
            i <= tools.len(),
            all == json_views(tools@),
            declared_names(all.subrange(0, i as int), id@) == Ok::<Seq<Seq<char>>, Seq<char>>(
                texts(names@),
            ),
        decreases tools.len() - i,
    {
        let ghost before = texts(names@);
        proof {
            let next = all.subrange(0, i + 1);
            assert(next.subrange(0, i as int) =~= all.subrange(0, i as int));
            assert(next[i as int] == tools@[i as int]@);
        }
        match tools[i].get_text("sourceName") {
            Some(name) => {
                names.push(name.clone());
                assert(texts(names@) =~= before.push(name@));
            },
            None => {
                proof {
                    lemma_declared_names(all, id@, i + 1);
                }
                return Err(concat2("declared sourceName is missing: serverId=", id));
            },
        }
        i = i + 1;
    }
    assert(all.subrange(0, all.len() as int) =~= all);
    Ok(names)
}

/// The names of listed tools, in order: each occurs once, and each is declared.
pub open spec fn live_names(
    tools: Seq<JsonView>,
    declared: Seq<Seq<char>>,
    id: Seq<char>,
) -> Result<Seq<Seq<char>>, Seq<char>>
    decreases tools.len(),
{
    if tools.len() == 0 {
        Ok(Seq::empty())
    } else {
        let n = tools.len() - 1;
        match live_names(tools.subrange(0, n), declared, id) {
            Err(error) => Err(error),
            Ok(names) => match text_field(tools[n], "name"@) {
                None => Err("tools/list sourceName is missing: serverId="@ + id),
                Some(name) => if names.contains(name) {
                    Err(
                        "tools/list sourceName must occur exactly once: serverId="@ + id
                            + " sourceName="@ + name,
                    )
                } else if !declared.contains(name) {
                    Err(
                        "unknown tools/list sourceName: serverId="@ + id + " sourceName="@ + name,
                    )
                } else {
                    Ok(names.push(name))
                },
            },
        }
    }
}

proof fn lemma_live_names(
    tools: Seq<JsonView>,
    declared: Seq<Seq<char>>,
    id: Seq<char>,
    n: int,
)
    requires
        0 <= n <= tools.len(),
    ensures
        live_names(tools.subrange(0, n), declared, id) is Err ==> live_names(tools, declared, id)
            == live_names(tools.subrange(0, n), declared, id),
        live_names(tools, declared, id) matches Ok(names) ==> names.len() == tools.len()
            && names.no_duplicates() && forall|i: int|
            0 <= i < tools.len() ==> text_field(tools[i], "name"@) == Some(#[trigger] names[i])
                && declared.contains(names[i]),
    decreases tools.len(),
{
    if tools.len() > 0 {
        let init = tools.subrange(0, tools.len() - 1);
        if n < tools.len() {
            assert(init.subrange(0, n) =~= tools.subrange(0, n));
            lemma_live_names(init, declared, id, n);
        } else {
            lemma_live_names(init, declared, id, 0);
        }
    }
    if n == tools.len() {
        assert(tools.subrange(0, n) =~= tools);
    }
}

fn named_tool_error(text: &str, id: &str, name: &str) -> (result: String)
    ensures
        result@ == text@ + id@ + " sourceName="@ + name@,
{
    let mut message = concat3(text, id, " sourceName=");
    message.append(name);
    message
}

proof fn lemma_lists(list: Seq<String>, text: Seq<char>)
    ensures
        lists(list, text) == texts(list).contains(text),
{
    if lists(list, text) {
        let i = choose|i: int| 0 <= i < list.len() && (#[trigger] list[i])@ == text;
        assert(texts(list)[i] == text);
    }
    if texts(list).contains(text) {
        let i = choose|i: int| 0 <= i < texts(list).len() && texts(list)[i] == text;
        assert(list[i]@ == text);
    }
}

fn take_live_names(tools: &Vec<Json>, declared: &Vec<String>, id: &str) -> (result: Result<
    Vec<String>,
    String,
>)
    ensures
        agrees(
            result,
            |names: Vec<String>| texts(names@),
            live_names(json_views(tools@), texts(declared@), id@),
        ),
{
    let ghost all = json_views(tools@);
    let ghost known = texts(declared@);
    let mut names: Vec<String> = Vec::new();
    let mut i: usize = 0;
    assert(all.subrange(0, 0) =~= Seq::empty());
    assert(texts(names@) =~= Seq::empty());
    while i < tools.len()
        invariant
            i <= tools.len(),
            all == json_views(tools@),
            known == texts(declared@),
            live_names(all.subrange(0, i as int), known, id@) == Ok::<Seq<Seq<char>>, Seq<char>>(
                texts(names@),
            ),
        decreases tools.len() - i,
    {
        let ghost before = texts(names@);
        proof {
            let next = all.subrange(0, i + 1);
            assert(next.subrange(0, i as int) =~= all.subrange(0, i as int));
            assert(next[i as int] == tools@[i as int]@);
            lemma_live_names(all, known, id@, i + 1);
        }
        match tools[i].get_text("name") {
            Some(name) => {
                proof {
                    lemma_lists(names@, name@);
                    lemma_lists(declared@, name@);
                }
                if contains_text(&names, name.as_str()) {
                    return Err(
                        named_tool_error(
                            "tools/list sourceName must occur exactly once: serverId=",
                            id,
                            name.as_str(),
                        ),
                    );
                }
                if !contains_text(declared, name.as_str()) {
                    return Err(
                        named_tool_error(
                            "unknown tools/list sourceName: serverId=",
                            id,
                            name.as_str(),
                        ),
                    );
                }
                names.push(name.clone());
                assert(texts(names@) =~= before.push(name@));
            },
            None => {
                return Err(concat2("tools/list sourceName is missing: serverId=", id));
            },
        }
        i = i + 1;
    }
    assert(all.subrange(0, all.len() as int) =~= all);
    Ok(names)
}

/// The last place at which `name` stands in `names`.
pub open spec fn place_of(names: Seq<Seq<char>>, name: Seq<char>) -> Option<int>
    decreases names.len(),
{
    if names.len() == 0 {
        None
    } else if names[names.len() - 1] == name {
        Some(names.len() - 1)
    } else {
        place_of(names.subrange(0, names.len() - 1), name)
    }
}

proof fn lemma_place_of(names: Seq<Seq<char>>, name: Seq<char>)
    ensures
        match place_of(names, name) {
            Some(i) => 0 <= i < names.len() && names[i] == name,
            None => !names.contains(name),
        },
    decreases names.len(),
{
    if names.len() > 0 && names[names.len() - 1] != name {
        let init = names.subrange(0, names.len() - 1);
        lemma_place_of(init, name);
        if names.contains(name) {
            let i = choose|i: int| 0 <= i < names.len() && names[i] == name;
            assert(init[i] == name);
        }
    }
}

fn find_name(names: &Vec<String>, name: &str) -> (result: Option<usize>)
    ensures
        match result {
            Some(i) => i < names.len() && place_of(texts(names@), name@) == Some(i as int),
            None => place_of(texts(names@), name@) == None::<int>,
        },
{
    let ghost all = texts(names@);
    let mut i: usize = names.len();
    assert(all.subrange(0, all.len() as int) =~= all);
    while i > 0
        invariant
            i <= names.len(),
            all == texts(names@),
            place_of(all, name@) == place_of(all.subrange(0, i as int), name@),
        decreases i,
    {
        proof {
            let now = all.subrange(0, i as int);
            assert(now[i - 1] == names@[i - 1]@);
            assert(now.subrange(0, i - 1) =~= all.subrange(0, i - 1));
        }
        i = i - 1;
        if text_equals(names[i].as_str(), name) {
            return Some(i);
        }
    }
    None
}

/// A declared tool with the description and the input schema of the listed tool of its name.
pub open spec fn updated_tool(
    tool: JsonView,
    live: Seq<JsonView>,
    names: Seq<Seq<char>>,
    id: Seq<char>,
) -> Result<JsonView, Seq<char>> {
    match text_field(tool, "sourceName"@) {
        None => Err("declared sourceName is missing: serverId="@ + id),
        Some(name) => match place_of(names, name) {
            None => Err(
                "declared MCP tool is missing from tools/list: serverId="@ + id + " sourceName="@
                    + name,
            ),
            Some(i) => match text_field(live[i], "description"@) {
                None => Err(
                    "tools/list description is missing: serverId="@ + id + " sourceName="@ + name,
                ),
                Some(description) => match field(live[i], "inputSchema"@) {
                    Some(JsonView::Object(schema)) => Ok(
                        put_field(
                            put_field(tool, "description"@, JsonView::Text(description)),
                            "inputSchema"@,
                            JsonView::Object(schema),
                        ),
                    ),
                    _ => Err(
                        "tools/list inputSchema is missing: serverId="@ + id + " sourceName="@
                            + name,
                    ),
                },
            },
        },
    }
}

fn update_tool(tool: &Json, live: &Vec<Json>, names: &Vec<String>, id: &str) -> (result: Result<
    Json,
    String,
>)
    requires
        names.len() == live.len(),
    ensures
        agrees(
            result,
            |updated: Json| updated@,
            updated_tool(tool@, json_views(live@), texts(names@), id@),
        ),
{
    let name = match tool.get_text("sourceName") {
        Some(name) => name,
        None => {
            return Err(concat2("declared sourceName is missing: serverId=", id));
        },
    };
    let at: usize = match find_name(names, name.as_str()) {
        Some(at) => at,
        None => {
            return Err(
                named_tool_error(
                    "declared MCP tool is missing from tools/list: serverId=",
                    id,
                    name.as_str(),
                ),
            );
        },
    };
    assert(json_views(live@)[at as int] == live@[at as int]@);
    let description = match live[at].get_text("description") {
        Some(description) => description,
        None => {
            return Err(
                named_tool_error(
                    "tools/list description is missing: serverId=",
                    id,
                    name.as_str(),
                ),
            );
        },
    };
    match live[at].get("inputSchema") {
        Some(schema) => match schema {
            Json::Object(_) => {
                let described = tool.putting("description", text_json(description.as_str()));
                Ok(described.putting("inputSchema", schema.copy()))
            },
            _ => Err(
                named_tool_error(
                    "tools/list inputSchema is missing: serverId=",
                    id,
                    name.as_str(),
                ),
            ),
        },
        None => Err(
            named_tool_error("tools/list inputSchema is missing: serverId=", id, name.as_str()),
        ),
    }
}

/// The declared tools with what is listed of them, in order.
pub open spec fn updated_tools(
    tools: Seq<JsonView>,
    live: Seq<JsonView>,
    names: Seq<Seq<char>>,
    id: Seq<char>,
) -> Result<Seq<JsonView>, Seq<char>>
    decreases tools.len(),
{
    if tools.len() == 0 {
        Ok(Seq::empty())
    } else {
        let n = tools.len() - 1;
        match updated_tools(tools.subrange(0, n), live, names, id) {
            Err(error) => Err(error),
            Ok(before) => match updated_tool(tools[n], live, names, id) {
                Err(error) => Err(error),
                Ok(tool) => Ok(before.push(tool)),
            },
        }
    }
}

proof fn lemma_updated_tools(
    tools: Seq<JsonView>,
    live: Seq<JsonView>,
    names: Seq<Seq<char>>,
    id: Seq<char>,
    n: int,
)
    requires
        0 <= n <= tools.len(),
    ensures
        updated_tools(tools.subrange(0, n), live, names, id) is Err ==> updated_tools(
            tools,
            live,
            names,
            id,
        ) == updated_tools(tools.subrange(0, n), live, names, id),
        updated_tools(tools, live, names, id) matches Ok(updated) ==> updated.len() == tools.len()
            && forall|i: int|
            0 <= i < tools.len() ==> updated_tool(tools[i], live, names, id) == Ok::<
                JsonView,
                Seq<char>,
            >(#[trigger] updated[i]),
    decreases tools.len(),
{
    if tools.len() > 0 {
        let init = tools.subrange(0, tools.len() - 1);
        if n < tools.len() {
            assert(init.subrange(0, n) =~= tools.subrange(0, n));
            lemma_updated_tools(init, live, names, id, n);
        } else {
            lemma_updated_tools(init, live, names, id, 0);
        }
    }
    if n == tools.len() {
        assert(tools.subrange(0, n) =~= tools);
    }
}

fn update_tools(tools: &Vec<Json>, live: &Vec<Json>, names: &Vec<String>, id: &str) -> (result:
    Result<Vec<Json>, String>)
    requires
        names.len() == live.len(),
    ensures
        agrees(
            result,
            |updated: Vec<Json>| json_views(updated@),
            updated_tools(json_views(tools@), json_views(live@), texts(names@), id@),
        ),
        result matches Ok(updated) ==> updated.len() == tools.len(),
{
    let ghost all = json_views(tools@);
    let ghost listed = json_views(live@);
    let ghost known = texts(names@);
    let mut updated: Vec<Json> = Vec::new();
    let mut i: usize = 0;
    assert(all.subrange(0, 0) =~= Seq::empty());
    assert(json_views(updated@) =~= Seq::empty());
    while i < tools.len()
        invariant
            i <= tools.len(),
            updated.len() == i,
            names.len() == live.len(),
            all == json_views(tools@),
            listed == json_views(live@),
            known == texts(names@),
            updated_tools(all.subrange(0, i as int), listed, known, id@) == Ok::<
                Seq<JsonView>,
                Seq<char>,
            >(json_views(updated@)),
        decreases tools.len() - i,
    {
        let ghost before = json_views(updated@);
        proof {
            let next = all.subrange(0, i + 1);
            assert(next.subrange(0, i as int) =~= all.subrange(0, i as int));
            assert(next[i as int] == tools@[i as int]@);
            lemma_updated_tools(all, listed, known, id@, i + 1);
        }
        match update_tool(&tools[i], live, names, id) {
            Ok(tool) => {
                updated.push(tool);
                assert(json_views(updated@) =~= before.push(tool@));
            },
            Err(error) => {
                return Err(error);
            },
        }
        i = i + 1;
    }
    assert(all.subrange(0, all.len() as int) =~= all);
    Ok(updated)
}

/// The keys by which tools are sorted: their source names.
pub open spec fn name_keys(names: Seq<Seq<char>>) -> Seq<(Seq<char>, Seq<char>)> {
    Seq::new(names.len(), |i: int| (names[i], Seq::empty()))
}

/// The tools that a server is declared with after the tools that it lists were taken over: the
/// declared tools with the listed descriptions and input schemas, sorted by their source names.
pub open spec fn synchronized_tools(server: JsonView, id: Seq<char>, snapshot: JsonView) -> Result<
    Seq<JsonView>,
    Seq<char>,
> {
    match live_tools(snapshot, id) {
        Err(error) => Err(error),
        Ok(live) => match field(server, "tools"@) {
            Some(JsonView::List(tools)) => match declared_names(tools, id) {
                Err(error) => Err(error),
                Ok(declared) => match live_names(live, declared, id) {
                    Err(error) => Err(error),
                    Ok(names) => match updated_tools(tools, live, names, id) {
                        Err(error) => Err(error),
                        Ok(updated) => {
                            let order = stable_order(name_keys(declared));
                            Ok(Seq::new(updated.len(), |i: int| updated[order[i]]))
                        },
                    },
                },
            },
            _ => Err("declared tools are missing: serverId="@ + id),
        },
    }
}

/// Takes over the tools that a server lists into its declared tools.
pub fn synchronize_tools(server: &Json, id: &str, snapshot: &Json) -> (result: Result<
    Vec<Json>,
    String,
>)
    ensures
        agrees(
            result,
            |tools: Vec<Json>| json_views(tools@),
            synchronized_tools(server@, id@, snapshot@),
        ),
{
    let live = match take_live_tools(snapshot, id) {
        Ok(live) => live,
        Err(error) => {
            return Err(error);
        },
    };
    let tools = match server.get("tools") {
        Some(value) => match value {
            Json::List(tools) => {
                assert(value@->List_0 =~= json_views(tools@));
                tools
            },
            _ => {
                return Err(concat2("declared tools are missing: serverId=", id));
            },
        },
        None => {
            return Err(concat2("declared tools are missing: serverId=", id));
        },
    };
    let declared = match take_declared_names(tools, id) {
        Ok(declared) => declared,
        Err(error) => {
            return Err(error);
        },
    };
    let names = match take_live_names(live, &declared, id) {
        Ok(names) => names,
        Err(error) => {
            return Err(error);
        },
    };
    proof {
        lemma_declared_names(json_views(tools@), id@, 0);
        lemma_live_names(json_views(live@), texts(declared@), id@, 0);
    }
    let updated = match update_tools(tools, live, &names, id) {
        Ok(updated) => updated,
        Err(error) => {
            return Err(error);
        },
    };
    let mut keys: Vec<(String, String)> = Vec::new();
    let mut i: usize = 0;
    while i < declared.len()
        invariant
            i <= declared.len(),
            keys.len() == i,
            forall|j: int|
                0 <= j < i ==> (#[trigger] keys@[j]).0@ == declared@[j]@ && keys@[j].1@
                    == Seq::<char>::empty(),
        decreases declared.len() - i,
    {
        keys.push((declared[i].clone(), String::new()));
        i = i + 1;
    }
    assert(key_views(keys@) =~= name_keys(texts(declared@)));
    let order = sorted_places(&keys);
    let mut sorted: Vec<Json> = Vec::new();
    let mut k: usize = 0;
    while k < order.len()
        invariant
            k <= order.len(),
            sorted.len() == k,
            order.len() == updated.len(),
            forall|i: int| 0 <= i < order.len() ==> #[trigger] order@[i] < updated.len(),
            forall|j: int|
                0 <= j < k ==> (#[trigger] sorted@[j])@ == updated@[order@[j] as int]@,
        decreases order.len() - k,
    {
        sorted.push(updated[order[k]].copy());
        k = k + 1;
    }
    proof {
        let places = stable_order(name_keys(texts(declared@)));
        let wanted = Seq::new(
            updated@.len(),
            |i: int| json_views(updated@)[places[i]],
        );
        assert forall|i: int| 0 <= i < wanted.len() implies json_views(sorted@)[i]
            == wanted[i] by {
            assert(places[i] == order@[i]);
            assert(sorted@[i]@ == updated@[order@[i] as int]@);
        }
        assert(json_views(sorted@) =~= wanted);
    }
    Ok(sorted)
}

/// A declared server with the tools and the digest that were taken over.
pub open spec fn contracted_server(
    server: JsonView,
    id: Seq<char>,
    tools: Seq<JsonView>,
    digest: ToolsDigestView,
) -> Result<JsonView, Seq<char>> {
    match digest {
        ToolsDigestView::Unreadable(error) => Err(
            "parse synchronized tools failed: serverId="@ + id + ": "@ + error,
        ),
        ToolsDigestView::Failed(error) => Err(error),
        ToolsDigestView::Digest(digest) => Ok(
            put_field(
                with_field(server, "tools"@, JsonView::List(tools)),
                "modelContractDigest"@,
                JsonView::Text(digest),
            ),
        ),
    }
}

fn contract_server(server: &Json, id: &str, tools: Vec<Json>, digest: &ToolsDigest) -> (result:
    Result<Json, String>)
    ensures
        agrees(
            result,
            |after: Json| after@,
            contracted_server(server@, id@, json_views(tools@), digest@),
        ),
{
    match digest {
        ToolsDigest::Unreadable(error) => {
            let mut message = concat3("parse synchronized tools failed: serverId=", id, ": ");
            message.append(error.as_str());
            Err(message)
        },
        ToolsDigest::Failed(error) => Err(error.clone()),
        ToolsDigest::Digest(digest) => {
            let with_tools = server.replacing("tools", list(tools));
            Ok(with_tools.putting("modelContractDigest", text_json(digest.as_str())))
        },
    }
}

/// What the file of a snapshot holds.
#[derive(Debug)]
pub enum SnapshotContent {
    /// The file could not be read, for the given reason.
    Unreadable(String),
    /// The file does not hold JSON, for the given reason.
    Unparsable(String),
    Value(Json),
}

/// A snapshot of a server's `tools/list`.
#[derive(Debug)]
pub struct SnapshotBinding {
    pub server_id: String,
    pub path: String,
    pub content: SnapshotContent,
}

pub enum ContentView {
    Unreadable(Seq<char>),
    Unparsable(Seq<char>),
    Value(JsonView),
}

pub struct BindingView {
    pub server_id: Seq<char>,
    pub path: Seq<char>,
    pub content: ContentView,
}

impl View for SnapshotContent {
    type V = ContentView;

    open spec fn view(&self) -> ContentView {
        match self {
            SnapshotContent::Unreadable(error) => ContentView::Unreadable(error@),
            SnapshotContent::Unparsable(error) => ContentView::Unparsable(error@),
            SnapshotContent::Value(value) => ContentView::Value(value@),
        }
    }
}

impl View for SnapshotBinding {
    type V = BindingView;

    open spec fn view(&self) -> BindingView {
        BindingView {
            server_id: self.server_id@,
            path: self.path@,
            content: self.content@,
        }
    }
}

/// What a snapshot's file holds, for the outcome of reading the file: its bytes, or why it could
/// not be read.
pub open spec fn snapshot_content(read: Result<Vec<u8>, String>) -> ContentView {
    match read {
        Err(error) => ContentView::Unreadable(error@),
        Ok(bytes) => match json_parsed_bytes(bytes@) {
            Err(error) => ContentView::Unparsable(error),
            Ok(value) => ContentView::Value(value),
        },
    }
}

/// What a snapshot's file holds, for the outcome of reading the file.
pub fn read_snapshot(read: &Result<Vec<u8>, String>) -> (result: SnapshotContent)
    ensures
        result@ == snapshot_content(*read),
{
    match read {
        Err(error) => SnapshotContent::Unreadable(error.clone()),
        Ok(bytes) => match parse_json_bytes(bytes.as_slice()) {
            Err(error) => SnapshotContent::Unparsable(error),
            Ok(value) => SnapshotContent::Value(value),
        },
    }
}

/// The file of a snapshot of a server's `tools/list`.
#[derive(Debug)]
pub struct SnapshotFile {
    pub server_id: String,
    pub path: String,
    /// The file's bytes, or why it could not be read.
    pub read: Result<Vec<u8>, String>,
}

/// The snapshots that files hold.
pub open spec fn file_bindings(files: Seq<SnapshotFile>) -> Seq<BindingView> {
    Seq::new(
        files.len(),
        |i: int|
            BindingView {
                server_id: files[i].server_id@,
                path: files[i].path@,
                content: snapshot_content(files[i].read),
            },
    )
}

fn read_bindings(files: &Vec<SnapshotFile>) -> (result: Vec<SnapshotBinding>)
    ensures
        binding_views(result@) == file_bindings(files@),
{
    let mut bindings: Vec<SnapshotBinding> = Vec::new();
    let mut i: usize = 0;
    while i < files.len()
        invariant
            i <= files.len(),
            bindings.len() == i,
            forall|j: int| 0 <= j < i ==> (#[trigger] bindings@[j])@ == file_bindings(files@)[j],
        decreases files.len() - i,
    {
        bindings.push(
            SnapshotBinding {
                server_id: files[i].server_id.clone(),
                path: files[i].path.clone(),
                content: read_snapshot(&files[i].read),
            },
        );
        i = i + 1;
    }
    assert(binding_views(bindings@) =~= file_bindings(files@));
    bindings
}

/// What a list of snapshots holds.
pub open spec fn binding_views(bindings: Seq<SnapshotBinding>) -> Seq<BindingView> {
    Seq::new(bindings.len(), |i: int| bindings[i]@)
}

/// The places `left` without those whose snapshots belong to the server `id`.
pub open spec fn without_server(
    left: Seq<int>,
    bindings: Seq<BindingView>,
    id: Seq<char>,
) -> Seq<int>
    decreases left.len(),
{
    if left.len() == 0 {
        left
    } else {
        let last = left[left.len() - 1];
        let before = without_server(left.subrange(0, left.len() - 1), bindings, id);
        if bindings[last].server_id == id {
            before
        } else {
            before.push(last)
        }
    }
}

/// The places of the first `n` snapshots; of several snapshots of one server the last counts.
pub open spec fn collected(bindings: Seq<BindingView>, n: nat) -> Seq<int>
    decreases n,
{
    if n == 0 {
        Seq::empty()
    } else {
        without_server(
            collected(bindings, (n - 1) as nat),
            bindings,
            bindings[n - 1].server_id,
        ).push(n - 1)
    }
}

/// The place of the snapshot of the server `id` among the places `left`.
pub open spec fn snapshot_of(left: Seq<int>, bindings: Seq<BindingView>, id: Seq<char>) -> Option<
    int,
>
    decreases left.len(),
{
    if left.len() == 0 {
        None
    } else if bindings[left[left.len() - 1]].server_id == id {
        Some(left[left.len() - 1])
    } else {
        snapshot_of(left.subrange(0, left.len() - 1), bindings, id)
    }
}

fn remove_server(left: &Vec<usize>, bindings: &Vec<SnapshotBinding>, id: &str) -> (result: Vec<
    usize,
>)
    requires
        forall|i: int| 0 <= i < left.len() ==> #[trigger] left@[i] < bindings.len(),
    ensures
        places(result@) == without_server(places(left@), binding_views(bindings@), id@),
        forall|i: int| 0 <= i < result.len() ==> #[trigger] result@[i] < bindings.len(),
{
    let ghost all = places(left@);
    let ghost known = binding_views(bindings@);
    let mut result: Vec<usize> = Vec::new();
    let mut i: usize = 0;
    assert(all.subrange(0, 0) =~= Seq::empty());
    assert(places(result@) =~= Seq::empty());
    while i < left.len()
        invariant
            i <= left.len(),
            all == places(left@),
            known == binding_views(bindings@),
            forall|j: int| 0 <= j < left.len() ==> #[trigger] left@[j] < bindings.len(),
            forall|j: int| 0 <= j < result.len() ==> #[trigger] result@[j] < bindings.len(),
            places(result@) == without_server(all.subrange(0, i as int), known, id@),
        decreases left.len() - i,
    {
        let ghost before = places(result@);
        let at: usize = left[i];
        proof {
            let next = all.subrange(0, i + 1);
            assert(next.subrange(0, i as int) =~= all.subrange(0, i as int));
            assert(next[i as int] == at);
            assert(known[at as int] == bindings@[at as int]@);
        }
        if !text_equals(bindings[at].server_id.as_str(), id) {
            result.push(at);
            assert(places(result@) =~= before.push(at as int));
        }
        i = i + 1;
    }
    assert(all.subrange(0, all.len() as int) =~= all);
    result
}

fn find_snapshot(left: &Vec<usize>, bindings: &Vec<SnapshotBinding>, id: &str) -> (result: Option<
    usize,
>)
    requires
        forall|i: int| 0 <= i < left.len() ==> #[trigger] left@[i] < bindings.len(),
    ensures
        match result {
            Some(at) => at < bindings.len() && snapshot_of(
                places(left@),
                binding_views(bindings@),
                id@,
            ) == Some(at as int),
            None => snapshot_of(places(left@), binding_views(bindings@), id@) == None::<int>,
        },
{
    let ghost all = places(left@);
    let ghost known = binding_views(bindings@);
    let mut i: usize = left.len();
    assert(all.subrange(0, all.len() as int) =~= all);
    while i > 0
        invariant
            i <= left.len(),
            all == places(left@),
            known == binding_views(bindings@),
            forall|j: int| 0 <= j < left.len() ==> #[trigger] left@[j] < bindings.len(),
            snapshot_of(all, known, id@) == snapshot_of(all.subrange(0, i as int), known, id@),
        decreases i,
    {
        proof {
            let now = all.subrange(0, i as int);
            assert(now[i - 1] == left@[i - 1]);
            assert(now.subrange(0, i - 1) =~= all.subrange(0, i - 1));
        }
        i = i - 1;
        let at: usize = left[i];
        assert(known[at as int] == bindings@[at as int]@);
        if text_equals(bindings[at].server_id.as_str(), id) {
            return Some(at);
        }
    }
    None
}

/// How far the taking over of listed tools has come.
pub enum SyncView {
    /// These servers are done, and these snapshots are left.
    Going { done: Seq<JsonView>, left: Seq<int> },
    /// The digest of these tools is needed.
    Waiting { server_id: Seq<char>, tools: Seq<JsonView> },
}

/// How far the taking over of listed tools has come after `servers`, with the digests that are
/// known so far.
pub open spec fn synchronized(
    servers: Seq<JsonView>,
    bindings: Seq<BindingView>,
    digests: Seq<ToolsDigestView>,
) -> Result<SyncView, Seq<char>>
    decreases servers.len(),
{
    if servers.len() == 0 {
        Ok(SyncView::Going { done: Seq::empty(), left: collected(bindings, bindings.len()) })
    } else {
        let n = servers.len() - 1;
        match synchronized(servers.subrange(0, n), bindings, digests) {
            Ok(SyncView::Going { done, left }) => synchronized_next(
                done,
                left,
                servers[n],
                bindings,
                digests,
            ),
            other => other,
        }
    }
}

/// The taking over of one more server's tools.
pub open spec fn synchronized_next(
    done: Seq<JsonView>,
    left: Seq<int>,
    server: JsonView,
    bindings: Seq<BindingView>,
    digests: Seq<ToolsDigestView>,
) -> Result<SyncView, Seq<char>> {
    match server_identity(server) {
        Err(error) => Err(error),
        Ok(id) => match snapshot_of(left, bindings, id) {
            None => Err("missing tools/list snapshot: serverId="@ + id),
            Some(at) => match bindings[at].content {
                ContentView::Unreadable(error) => Err(
                    "read tools/list snapshot failed "@ + bindings[at].path + ": "@ + error,
                ),
                ContentView::Unparsable(error) => Err(
                    "parse tools/list snapshot failed "@ + bindings[at].path + ": "@ + error,
                ),
                ContentView::Value(snapshot) => match synchronized_tools(server, id, snapshot) {
                    Err(error) => Err(error),
                    Ok(tools) => if done.len() < digests.len() {
                        match contracted_server(server, id, tools, digests[done.len() as int]) {
                            Err(error) => Err(error),
                            Ok(after) => Ok(
                                SyncView::Going {
                                    done: done.push(after),
                                    left: without_server(left, bindings, id),
                                },
                            ),
                        }
                    } else {
                        Ok(SyncView::Waiting { server_id: id, tools })
                    },
                },
            },
        },
    }
}

/// The outcome of taking over the listed tools: what the next digest is needed of, or the
/// declaration.
#[derive(Debug)]
pub enum Synchronization {
    Digest { server_id: String, tools: Vec<Json> },
    Done(Json),
}

pub enum SynchronizationView {
    Digest { server_id: Seq<char>, tools: Seq<JsonView> },
    Done(JsonView),
}

impl Synchronization {
    pub open spec fn view(&self) -> SynchronizationView {
        match self {
            Synchronization::Digest { server_id, tools } => SynchronizationView::Digest {
                server_id: server_id@,
                tools: json_views(tools@),
            },
            Synchronization::Done(value) => SynchronizationView::Done(value@),
        }
    }
}

/// The server identities of the snapshots at `left`.
pub open spec fn left_ids(left: Seq<int>, bindings: Seq<BindingView>) -> Seq<Seq<char>> {
    Seq::new(left.len(), |i: int| bindings[left[i]].server_id)
}

/// `names` in their order.
pub open spec fn sorted_names(names: Seq<Seq<char>>) -> Seq<Seq<char>> {
    Seq::new(names.len(), |i: int| names[stable_order(name_keys(names))[i]])
}

/// A declaration after the tools that its servers list were taken over.
pub open spec fn declaration_synchronized(
    value: JsonView,
    bindings: Seq<BindingView>,
    digests: Seq<ToolsDigestView>,
) -> Result<SynchronizationView, Seq<char>> {
    match field(value, "servers"@) {
        Some(JsonView::List(servers)) => match synchronized(servers, bindings, digests) {
            Err(error) => Err(error),
            Ok(SyncView::Waiting { server_id, tools }) => Ok(
                SynchronizationView::Digest { server_id, tools },
            ),
            Ok(SyncView::Going { done, left }) => if left.len() > 0 {
                Err(
                    "unknown tools/list snapshots: "@ + joined(
                        sorted_names(left_ids(left, bindings)),
                        ","@,
                    ),
                )
            } else {
                Ok(
                    SynchronizationView::Done(
                        with_field(value, "servers"@, JsonView::List(done)),
                    ),
                )
            },
        },
        _ => Err("MCP declaration servers must be an array"@),
    }
}

proof fn lemma_synchronized_stops(
    servers: Seq<JsonView>,
    bindings: Seq<BindingView>,
    digests: Seq<ToolsDigestView>,
    n: int,
)
    requires
        0 <= n <= servers.len(),
        !(synchronized(servers.subrange(0, n), bindings, digests) matches Ok(state)
            && state is Going),
    ensures
        synchronized(servers, bindings, digests) == synchronized(
            servers.subrange(0, n),
            bindings,
            digests,
        ),
    decreases servers.len(),
{
    if n < servers.len() {
        let init = servers.subrange(0, servers.len() - 1);
        assert(init.subrange(0, n) =~= servers.subrange(0, n));
        lemma_synchronized_stops(init, bindings, digests, n);
    } else {
        assert(servers.subrange(0, n) =~= servers);
    }
}

fn collect_snapshots(bindings: &Vec<SnapshotBinding>) -> (result: Vec<usize>)
    ensures
        places(result@) == collected(binding_views(bindings@), bindings@.len()),
        forall|i: int| 0 <= i < result.len() ==> #[trigger] result@[i] < bindings.len(),
{
    let ghost known = binding_views(bindings@);
    let mut left: Vec<usize> = Vec::new();
    let mut n: usize = 0;
    assert(places(left@) =~= collected(known, 0));
    while n < bindings.len()
        invariant
            n <= bindings.len(),
            known == binding_views(bindings@),
            forall|j: int| 0 <= j < left.len() ==> #[trigger] left@[j] < bindings.len(),
            places(left@) == collected(known, n as nat),
        decreases bindings.len() - n,
    {
        assert(known[n as int] == bindings@[n as int]@);
        let mut next = remove_server(&left, bindings, bindings[n].server_id.as_str());
        let ghost before = places(next@);
        next.push(n);
        assert(places(next@) =~= before.push(n as int));
        left = next;
        n = n + 1;
    }
    left
}

fn sort_names(names: &Vec<String>) -> (result: Vec<String>)
    ensures
        texts(result@) == sorted_names(texts(names@)),
{
    let mut keys: Vec<(String, String)> = Vec::new();
    let mut i: usize = 0;
    while i < names.len()
        invariant
            i <= names.len(),
            keys.len() == i,
            forall|j: int|
                0 <= j < i ==> (#[trigger] keys@[j]).0@ == names@[j]@ && keys@[j].1@
                    == Seq::<char>::empty(),
        decreases names.len() - i,
    {
        keys.push((names[i].clone(), String::new()));
        i = i + 1;
    }
    assert(key_views(keys@) =~= name_keys(texts(names@)));
    let order = sorted_places(&keys);
    let mut sorted: Vec<String> = Vec::new();
    let mut k: usize = 0;
    while k < order.len()
        invariant
            k <= order.len(),
            sorted.len() == k,
            order.len() == names.len(),
            forall|i: int| 0 <= i < order.len() ==> #[trigger] order@[i] < names.len(),
            forall|j: int| 0 <= j < k ==> (#[trigger] sorted@[j])@ == names@[order@[j] as int]@,
        decreases order.len() - k,
    {
        sorted.push(names[order[k]].clone());
        k = k + 1;
    }
    proof {
        let places = stable_order(name_keys(texts(names@)));
        let wanted = sorted_names(texts(names@));
        assert forall|i: int| 0 <= i < wanted.len() implies texts(sorted@)[i] == wanted[i] by {
            assert(places[i] == order@[i]);
            assert(sorted@[i]@ == names@[order@[i] as int]@);
        }
        assert(texts(sorted@) =~= wanted);
    }
    sorted
}

/// Takes over the tools that servers list into a declaration, as far as the digests of the new
/// tools are known: the outcome names the tools of which the next digest is needed, or is the
/// declaration.
pub fn sync(value: &Json, bindings: &Vec<SnapshotBinding>, digests: &Vec<ToolsDigest>) -> (result:
    Result<Synchronization, String>)
    ensures
        agrees(
            result,
            |outcome: Synchronization| outcome@,
            declaration_synchronized(value@, binding_views(bindings@), digest_views(digests@)),
        ),
{
    let servers = match value.get("servers") {
        Some(list) => match list {
            Json::List(servers) => {
                assert(list@->List_0 =~= json_views(servers@));
                servers
            },
            _ => {
                return Err("MCP declaration servers must be an array".to_owned());
            },
        },
        None => {
            return Err("MCP declaration servers must be an array".to_owned());
        },
    };
    let ghost all = json_views(servers@);
    let ghost known = binding_views(bindings@);
    let ghost outcomes = digest_views(digests@);
    let mut left = collect_snapshots(bindings);
    let mut done: Vec<Json> = Vec::new();
    let mut i: usize = 0;
    assert(all.subrange(0, 0) =~= Seq::empty());
    assert(json_views(done@) =~= Seq::empty());
    while i < servers.len()
        invariant
            i <= servers.len(),
            done.len() == i,
            all == json_views(servers@),
            known == binding_views(bindings@),
            outcomes == digest_views(digests@),
            field(value@, "servers"@) == Some(JsonView::List(all)),
            forall|j: int| 0 <= j < left.len() ==> #[trigger] left@[j] < bindings.len(),
            synchronized(all.subrange(0, i as int), known, outcomes) == Ok::<SyncView, Seq<char>>(
                SyncView::Going { done: json_views(done@), left: places(left@) },
            ),
        decreases servers.len() - i,
    {
        let ghost before = json_views(done@);
        let server = &servers[i];
        proof {
            let next = all.subrange(0, i + 1);
            assert(next.subrange(0, i as int) =~= all.subrange(0, i as int));
            assert(next[i as int] == server@);
            if !(synchronized(next, known, outcomes) matches Ok(state) && state is Going) {
                lemma_synchronized_stops(all, known, outcomes, i + 1);
            }
        }
        let id = match server_id_of(server) {
            Ok(id) => id,
            Err(error) => {
                return Err(error);
            },
        };
        let at: usize = match find_snapshot(&left, bindings, id.as_str()) {
            Some(at) => at,
            None => {
                return Err(concat2("missing tools/list snapshot: serverId=", id.as_str()));
            },
        };
        assert(known[at as int] == bindings@[at as int]@);
        let binding = &bindings[at];
        let snapshot = match &binding.content {
            SnapshotContent::Unreadable(error) => {
                let mut message = concat3(
                    "read tools/list snapshot failed ",
                    binding.path.as_str(),
                    ": ",
                );
                message.append(error.as_str());
                return Err(message);
            },
            SnapshotContent::Unparsable(error) => {
                let mut message = concat3(
                    "parse tools/list snapshot failed ",
                    binding.path.as_str(),
                    ": ",
                );
                message.append(error.as_str());
                return Err(message);
            },
            SnapshotContent::Value(snapshot) => snapshot,
        };
        let tools = match synchronize_tools(server, id.as_str(), snapshot) {
            Ok(tools) => tools,
            Err(error) => {
                return Err(error);
            },
        };
        if done.len() >= digests.len() {
            return Ok(Synchronization::Digest { server_id: id, tools });
        }
        assert(outcomes[i as int] == digests@[i as int]@);
        match contract_server(server, id.as_str(), tools, &digests[i]) {
            Ok(after) => {
                done.push(after);
                assert(json_views(done@) =~= before.push(after@));
                left = remove_server(&left, bindings, id.as_str());
            },
            Err(error) => {
                return Err(error);
            },
        }
        i = i + 1;
    }
    assert(all.subrange(0, all.len() as int) =~= all);
    if left.len() > 0 {
        let mut ids: Vec<String> = Vec::new();
        let mut k: usize = 0;
        while k < left.len()
            invariant
                k <= left.len(),
                ids.len() == k,
                known == binding_views(bindings@),
                forall|j: int| 0 <= j < left.len() ==> #[trigger] left@[j] < bindings.len(),
                forall|j: int|
                    0 <= j < k ==> (#[trigger] ids@[j])@ == known[left@[j] as int].server_id,
            decreases left.len() - k,
        {
            assert(known[left@[k as int] as int] == bindings@[left@[k as int] as int]@);
            ids.push(bindings[left[k]].server_id.clone());
            k = k + 1;
        }
        assert(texts(ids@) =~= left_ids(places(left@), known));
        let sorted = sort_names(&ids);
        let text = join(&sorted, ",");
        return Err(concat2("unknown tools/list snapshots: ", text.as_str()));
    }
    Ok(Synchronization::Done(value.replacing("servers", list(done))))
}

/// Takes over the tools that servers list into a declaration, given the declaration's text and the
/// files of the snapshots. The outcome is that of `sync` on what they hold.
pub fn sync_files(
    raw: &str,
    path: &str,
    files: &Vec<SnapshotFile>,
    digests: &Vec<ToolsDigest>,
) -> (result: Result<Synchronization, String>)
    ensures
        agrees(
            result,
            |outcome: Synchronization| outcome@,
            match declaration(json_parsed(raw@), path@) {
                Err(error) => Err(error),
                Ok(value) => declaration_synchronized(
                    value,
                    file_bindings(files@),
                    digest_views(digests@),
                ),
            },
        ),
{
    let value = match read_declaration(raw, path) {
        Ok(value) => value,
        Err(error) => {
            return Err(error);
        },
    };
    let bindings = read_bindings(files);
    sync(&value, &bindings, digests)
}

/// Whether `tools` are the tools of a server after the tools that a snapshot lists were taken over:
/// exactly the declared tools are listed, each once, and `tools` are the declared tools in the
/// order of their source names, each with the description and the input schema that are listed
/// under its name and with nothing else changed.
pub open spec fn tools_copied(
    server: JsonView,
    id: Seq<char>,
    snapshot: JsonView,
    tools: Seq<JsonView>,
) -> bool {
    let declared = field(server, "tools"@)->0->List_0;
    let names = declared_names(declared, id)->Ok_0;
    let live = live_tools(snapshot, id)->Ok_0;
    let order = stable_order(name_keys(names));
    &&& tools.len() == declared.len()
    &&& order.len() == declared.len()
    &&& order.no_duplicates()
    &&& forall|i: int|
        0 <= i < declared.len() ==> text_field(declared[i], "sourceName"@) == Some(
            #[trigger] names[i],
        )
    &&& forall|i: int|
        0 <= i < tools.len() ==> 0 <= #[trigger] order[i] < declared.len() && copied(
            declared[order[i]],
            tools[i],
            names[order[i]],
            live,
        )
    &&& forall|i: int, j: int|
        0 <= i < j < tools.len() ==> !text_less(
            names[#[trigger] order[j]],
            names[#[trigger] order[i]],
        )
    &&& forall|k: int|
        0 <= k < live.len() ==> text_field(#[trigger] live[k], "name"@) is Some && names.contains(
            text_field(live[k], "name"@)->0,
        )
    &&& forall|k: int, m: int|
        0 <= k < m < live.len() ==> text_field(#[trigger] live[k], "name"@) != text_field(
            #[trigger] live[m],
            "name"@,
        )
}

/// Where the tools that a server lists are taken over, they are copied: exactly the declared tools
/// are listed, and each has what is listed under its name.
pub proof fn law_listed_tools_are_copied(server: JsonView, id: Seq<char>, snapshot: JsonView)
    requires
        synchronized_tools(server, id, snapshot) is Ok,
    ensures
        tools_copied(server, id, snapshot, synchronized_tools(server, id, snapshot)->Ok_0),
{
    let declared = field(server, "tools"@)->0->List_0;
    let names = declared_names(declared, id)->Ok_0;
    let live = live_tools(snapshot, id)->Ok_0;
    let listed = live_names(live, names, id)->Ok_0;
    let updated = updated_tools(declared, live, listed, id)->Ok_0;
    let order = stable_order(name_keys(names));
    let tools = synchronized_tools(server, id, snapshot)->Ok_0;
    lemma_declared_names(declared, id, 0);
    lemma_live_names(live, names, id, 0);
    lemma_updated_tools(declared, live, listed, id, 0);
    law_stable_order(name_keys(names));
    assert forall|i: int| 0 <= i < tools.len() implies 0 <= #[trigger] order[i] < declared.len()
        && copied(declared[order[i]], tools[i], names[order[i]], live) by {
        let o = order[i];
        assert(tools[i] == updated[o]);
        assert(names[o] == names[o]);
        lemma_place_of(listed, names[o]);
        let k = place_of(listed, names[o])->0;
        assert(text_field(live[k], "name"@) == Some(listed[k]));
    }
    assert forall|i: int, j: int| 0 <= i < j < tools.len() implies !text_less(
        names[#[trigger] order[j]],
        names[#[trigger] order[i]],
    ) by {
        let keys = name_keys(names);
        assert(key_less(keys[order[i]], keys[order[j]]) || keys[order[i]] == keys[order[j]]);
        lemma_text_order_total(names[order[i]], names[order[j]]);
    }
    assert forall|k: int| 0 <= k < live.len() implies text_field(#[trigger] live[k], "name"@) is Some
        && names.contains(text_field(live[k], "name"@)->0) by {
        assert(text_field(live[k], "name"@) == Some(listed[k]));
    }
    assert forall|k: int, m: int| 0 <= k < m < live.len() implies text_field(
        #[trigger] live[k],
        "name"@,
    ) != text_field(#[trigger] live[m], "name"@) by {
        assert(text_field(live[k], "name"@) == Some(listed[k]));
        assert(text_field(live[m], "name"@) == Some(listed[m]));
    }
}

/// Whether `tool` is `declared` with the description and the input schema that are listed under
/// `name`.
pub open spec fn copied(
    declared: JsonView,
    tool: JsonView,
    name: Seq<char>,
    live: Seq<JsonView>,
) -> bool {
    exists|k: int|
        0 <= k < live.len() && text_field(#[trigger] live[k], "name"@) == Some(name)
            && text_field(live[k], "description"@) is Some && field(live[k], "inputSchema"@) is Some
            && tool == put_field(
            put_field(
                declared,
                "description"@,
                JsonView::Text(text_field(live[k], "description"@)->0),
            ),
            "inputSchema"@,
            field(live[k], "inputSchema"@)->0,
        )
}

/// A server whose listed tools were taken over passes the check of its digest.
pub proof fn law_check_accepts_synchronized(
    server: JsonView,
    id: Seq<char>,
    snapshot: JsonView,
    digest: Seq<char>,
)
    requires
        server_identity(server) == Ok::<Seq<char>, Seq<char>>(id),
        synchronized_tools(server, id, snapshot) is Ok,
    ensures
        ({
            let tools = synchronized_tools(server, id, snapshot)->Ok_0;
            let taken = ToolsDigestView::Digest(digest);
            let after = contracted_server(server, id, tools, taken)->Ok_0;
            &&& server_after(after, ContractMode::Check, taken) == Ok::<JsonView, Seq<char>>(after)
            &&& field(after, "tools"@) == Some(JsonView::List(tools))
        }),
{
    let tools = synchronized_tools(server, id, snapshot)->Ok_0;
    reveal_strlit("id");
    reveal_strlit("tools");
    reveal_strlit("modelContractDigest");
    assert("id"@.len() == 2 && "tools"@.len() == 5 && "modelContractDigest"@.len() == 19);
    let entries = server->Object_0;
    let middle = with_entry(entries, "tools"@, JsonView::List(tools));
    lemma_with_entry_other(entries, "tools"@, JsonView::List(tools), "id"@);
    lemma_with_entry_read(entries, "tools"@, JsonView::List(tools));
    let value = JsonView::Text(digest);
    lemma_put_entry(middle, "modelContractDigest"@, value, "id"@);
    lemma_put_entry(middle, "modelContractDigest"@, value, "tools"@);
    lemma_put_entry(middle, "modelContractDigest"@, value, "modelContractDigest"@);
    let after = contracted_server(server, id, tools, ToolsDigestView::Digest(digest))->Ok_0;
    assert(field(after, "id"@) == field(server, "id"@));
    assert(field(after, "tools"@) == Some(JsonView::List(tools)));
    assert(text_field(after, "modelContractDigest"@) == Some(digest));
}

/// Whether `after` is a server after the tools that the snapshot at `at` lists were taken over, and
/// the digest of the tools was written. Nothing else of the server changes.
#[verifier::opaque]
pub open spec fn taken_over(
    server: JsonView,
    after: JsonView,
    bindings: Seq<BindingView>,
    at: int,
    digest: ToolsDigestView,
) -> bool {
    let id = bindings[at].server_id;
    &&& 0 <= at < bindings.len()
    &&& server_identity(server) == Ok::<Seq<char>, Seq<char>>(id)
    &&& bindings[at].content is Value
    &&& field(after, "tools"@) is Some && field(after, "tools"@)->0 is List
    &&& tools_copied(
        server,
        id,
        bindings[at].content->Value_0,
        field(after, "tools"@)->0->List_0,
    )
    &&& digest is Digest
    &&& field(after, "modelContractDigest"@) == Some(JsonView::Text(digest->Digest_0))
    &&& forall|key: Seq<char>|
        key != "tools"@ && key != "modelContractDigest"@ ==> #[trigger] field(after, key) == field(
            server,
            key,
        )
}

proof fn lemma_without_server(left: Seq<int>, bindings: Seq<BindingView>, id: Seq<char>)
    ensures
        forall|p: int| #[trigger]
            without_server(left, bindings, id).contains(p) <==> left.contains(p)
                && bindings[p].server_id != id,
    decreases left.len(),
{
    let after = without_server(left, bindings, id);
    if left.len() > 0 {
        let n = left.len() - 1;
        let init = left.subrange(0, n);
        let last = left[n];
        let before = without_server(init, bindings, id);
        lemma_without_server(init, bindings, id);
        assert forall|p: int| #[trigger] after.contains(p) == (left.contains(p)
            && bindings[p].server_id != id) by {
            if left.contains(p) && p != last {
                let k = choose|k: int| 0 <= k < left.len() && left[k] == p;
                assert(init[k] == p);
                assert(init.contains(p));
            }
            if init.contains(p) {
                let k = choose|k: int| 0 <= k < init.len() && init[k] == p;
                assert(left[k] == p);
            }
            assert(left[n] == last);
            assert(before.contains(p) == (init.contains(p) && bindings[p].server_id != id));
            if before.contains(p) {
                let k = choose|k: int| 0 <= k < before.len() && before[k] == p;
                assert(after[k] == p);
            }
            if bindings[last].server_id != id {
                assert(after[before.len() as int] == last);
                if after.contains(p) {
                    let k = choose|k: int| 0 <= k < after.len() && after[k] == p;
                    if k < before.len() {
                        assert(before[k] == p);
                    }
                }
            }
        }
    }
}

proof fn lemma_collected(bindings: Seq<BindingView>, n: nat)
    requires
        n <= bindings.len(),
    ensures
        forall|p: int| #[trigger] collected(bindings, n).contains(p) ==> 0 <= p < n,
        forall|b: int|
            0 <= b < n ==> exists|p: int| #[trigger]
                collected(bindings, n).contains(p) && bindings[p].server_id
                    == (#[trigger] bindings[b]).server_id,
    decreases n,
{
    if n > 0 {
        let before = collected(bindings, (n - 1) as nat);
        let id = bindings[n - 1].server_id;
        let kept = without_server(before, bindings, id);
        let after = collected(bindings, n);
        lemma_collected(bindings, (n - 1) as nat);
        lemma_without_server(before, bindings, id);
        assert(after == kept.push(n - 1));
        assert forall|p: int| #[trigger] after.contains(p) implies 0 <= p < n by {
            let k = choose|k: int| 0 <= k < after.len() && after[k] == p;
            if k < kept.len() {
                assert(kept[k] == p);
                assert(kept.contains(p));
            }
        }
        assert forall|b: int| 0 <= b < n implies exists|p: int| #[trigger]
            after.contains(p) && bindings[p].server_id == (#[trigger] bindings[b]).server_id by {
            if bindings[b].server_id == id {
                assert(after[kept.len() as int] == n - 1);
                assert(after.contains(n - 1));
            } else {
                let p = choose|p: int| #[trigger]
                    before.contains(p) && bindings[p].server_id == bindings[b].server_id;
                assert(kept.contains(p));
                let k = choose|k: int| 0 <= k < kept.len() && kept[k] == p;
                assert(after[k] == p);
                assert(after.contains(p));
            }
        }
    }
}

proof fn lemma_snapshot_of(left: Seq<int>, bindings: Seq<BindingView>, id: Seq<char>)
    ensures
        snapshot_of(left, bindings, id) matches Some(at) ==> left.contains(at)
            && bindings[at].server_id == id,
    decreases left.len(),
{
    if left.len() > 0 {
        let n = left.len() - 1;
        let init = left.subrange(0, n);
        if bindings[left[n]].server_id == id {
            assert(left[n] == left[n]);
        } else {
            lemma_snapshot_of(init, bindings, id);
            if let Some(at) = snapshot_of(init, bindings, id) {
                let k = choose|k: int| 0 <= k < init.len() && init[k] == at;
                assert(left[k] == at);
            }
        }
    }
}

proof fn lemma_taken_over(
    server: JsonView,
    bindings: Seq<BindingView>,
    at: int,
    digest: ToolsDigestView,
)
    requires
        0 <= at < bindings.len(),
        server_identity(server) == Ok::<Seq<char>, Seq<char>>(bindings[at].server_id),
        bindings[at].content is Value,
        synchronized_tools(server, bindings[at].server_id, bindings[at].content->Value_0) is Ok,
        digest is Digest,
    ensures
        ({
            let id = bindings[at].server_id;
            let tools = synchronized_tools(server, id, bindings[at].content->Value_0)->Ok_0;
            let after = contracted_server(server, id, tools, digest)->Ok_0;
            &&& taken_over(server, after, bindings, at, digest)
            &&& server_after(after, ContractMode::Check, digest) == Ok::<JsonView, Seq<char>>(after)
        }),
{
    let id = bindings[at].server_id;
    let snapshot = bindings[at].content->Value_0;
    let tools = synchronized_tools(server, id, snapshot)->Ok_0;
    let after = contracted_server(server, id, tools, digest)->Ok_0;
    law_listed_tools_are_copied(server, id, snapshot);
    law_check_accepts_synchronized(server, id, snapshot, digest->Digest_0);
    reveal(taken_over);
    let entries = server->Object_0;
    let value = JsonView::Text(digest->Digest_0);
    let middle = with_entry(entries, "tools"@, JsonView::List(tools));
    lemma_put_entry(middle, "modelContractDigest"@, value, "modelContractDigest"@);
    assert forall|key: Seq<char>| key != "tools"@ && key != "modelContractDigest"@ implies
        #[trigger] field(after, key) == field(server, key) by {
        lemma_with_entry_other(entries, "tools"@, JsonView::List(tools), key);
        lemma_put_entry(middle, "modelContractDigest"@, value, key);
    }
}

/// Whether one of the servers is `id`.
pub open spec fn declares(servers: Seq<JsonView>, id: Seq<char>) -> bool {
    exists|i: int| 0 <= i < servers.len() && server_is(#[trigger] servers[i], id)
}

/// Whether a server is `id`.
pub open spec fn server_is(server: JsonView, id: Seq<char>) -> bool {
    server_identity(server) == Ok::<Seq<char>, Seq<char>>(id)
}

/// Whether the tools of a server were taken over from one of the snapshots.
pub open spec fn server_taken(
    server: JsonView,
    after: JsonView,
    bindings: Seq<BindingView>,
    digest: ToolsDigestView,
) -> bool {
    exists|at: int| #[trigger] taken_over(server, after, bindings, at, digest)
}

/// Whether the tools of each server were taken over, and the server passes the check of its digest.
spec fn all_taken(
    servers: Seq<JsonView>,
    bindings: Seq<BindingView>,
    digests: Seq<ToolsDigestView>,
    done: Seq<JsonView>,
) -> bool {
    &&& done.len() == servers.len()
    &&& forall|i: int|
        0 <= i < servers.len() ==> server_taken(
            servers[i],
            #[trigger] done[i],
            bindings,
            digests[i],
        ) && server_after(done[i], ContractMode::Check, digests[i]) == Ok::<JsonView, Seq<char>>(
            done[i],
        )
}

/// Whether no server is declared twice.
pub open spec fn servers_distinct(servers: Seq<JsonView>) -> bool {
    forall|i: int, j: int, id: Seq<char>|
        #![trigger server_is(servers[i], id), server_is(servers[j], id)]
        0 <= i < j < servers.len() && server_is(servers[i], id) ==> !server_is(servers[j], id)
}

/// Whether the snapshots that are left are those of servers that were not looked at.
spec fn others_left(servers: Seq<JsonView>, bindings: Seq<BindingView>, left: Seq<int>) -> bool {
    forall|p: int| #[trigger]
        left.contains(p) <==> collected(bindings, bindings.len()).contains(p) && !declares(
            servers,
            bindings[p].server_id,
        )
}

proof fn lemma_declares_more(servers: Seq<JsonView>, id: Seq<char>)
    requires
        servers.len() > 0,
    ensures
        declares(servers, id) <==> declares(servers.subrange(0, servers.len() - 1), id)
            || server_is(servers[servers.len() - 1], id),
{
    let n = servers.len() - 1;
    let init = servers.subrange(0, n);
    if declares(init, id) {
        let i = choose|i: int| 0 <= i < init.len() && server_is(#[trigger] init[i], id);
        assert(server_is(servers[i], id));
    }
    if declares(servers, id) {
        let i = choose|i: int| 0 <= i < servers.len() && server_is(#[trigger] servers[i], id);
        if i < n {
            assert(server_is(init[i], id));
        }
    }
}

proof fn lemma_synchronized(
    servers: Seq<JsonView>,
    bindings: Seq<BindingView>,
    digests: Seq<ToolsDigestView>,
)
    ensures
        synchronized(servers, bindings, digests) matches Ok(SyncView::Going { done, left })
            ==> all_taken(servers, bindings, digests, done) && servers_distinct(servers)
            && others_left(servers, bindings, left),
    decreases servers.len(),
{
    if servers.len() == 0 {
        assert forall|id: Seq<char>| !declares(servers, id) by {
        }
        if let Ok(SyncView::Going { done, left }) = synchronized(servers, bindings, digests) {
            assert(done.len() == 0);
            assert(others_left(servers, bindings, left));
        }
    } else {
        let n = servers.len() - 1;
        let init = servers.subrange(0, n);
        lemma_synchronized(init, bindings, digests);
        if synchronized(servers, bindings, digests) matches Ok(SyncView::Going { .. }) {
            let state = synchronized(init, bindings, digests)->Ok_0;
            lemma_synchronized_step(servers, bindings, digests, state->done, state->left);
        }
    }
}

proof fn lemma_synchronized_step(
    servers: Seq<JsonView>,
    bindings: Seq<BindingView>,
    digests: Seq<ToolsDigestView>,
    done: Seq<JsonView>,
    left: Seq<int>,
)
    requires
        servers.len() > 0,
        ({
            let init = servers.subrange(0, servers.len() - 1);
            all_taken(init, bindings, digests, done) && servers_distinct(init) && others_left(
                init,
                bindings,
                left,
            )
        }),
        synchronized_next(done, left, servers[servers.len() - 1], bindings, digests) matches Ok(
            next,
        ) && next is Going,
    ensures
        ({
            let next = synchronized_next(
                done,
                left,
                servers[servers.len() - 1],
                bindings,
                digests,
            )->Ok_0;
            all_taken(servers, bindings, digests, next->done) && servers_distinct(servers)
                && others_left(servers, bindings, next->left)
        }),
{
    let n = servers.len() - 1;
    let init = servers.subrange(0, n);
    let server = servers[n];
    let id = server_identity(server)->Ok_0;
    let at = snapshot_of(left, bindings, id)->0;
    let next = synchronized_next(done, left, server, bindings, digests)->Ok_0;
    let after = next->done;
    let rest = next->left;
    lemma_collected(bindings, bindings.len());
    lemma_snapshot_of(left, bindings, id);
    lemma_without_server(left, bindings, id);
    assert(left.contains(at));
    assert(collected(bindings, bindings.len()).contains(at));
    lemma_taken_over(server, bindings, at, digests[n]);
    assert(taken_over(server, after[n], bindings, at, digests[n]));
    assert(all_taken(servers, bindings, digests, after)) by {
        assert forall|i: int| 0 <= i < servers.len() implies server_taken(
            servers[i],
            #[trigger] after[i],
            bindings,
            digests[i],
        ) && server_after(after[i], ContractMode::Check, digests[i]) == Ok::<JsonView, Seq<char>>(
            after[i],
        ) by {
            if i < n {
                assert(init[i] == servers[i]);
                assert(after[i] == done[i]);
            }
        }
    }
    assert(servers_distinct(servers)) by {
        assert forall|i: int, j: int, other: Seq<char>|
            #![trigger server_is(servers[i], other), server_is(servers[j], other)]
            0 <= i < j < servers.len() && server_is(servers[i], other) implies !server_is(
            servers[j],
            other,
        ) by {
            assert(init[i] == servers[i]);
            assert(server_is(init[i], other));
            if j < n {
                assert(init[j] == servers[j]);
                assert(!server_is(init[j], other));
            } else if server_is(servers[j], other) {
                assert(other == id);
                assert(declares(init, bindings[at].server_id));
            }
        }
    }
    assert(others_left(servers, bindings, rest)) by {
        assert forall|p: int| #[trigger] rest.contains(p) == (collected(
            bindings,
            bindings.len(),
        ).contains(p) && !declares(servers, bindings[p].server_id)) by {
            lemma_declares_more(servers, bindings[p].server_id);
            assert(rest.contains(p) == (left.contains(p) && bindings[p].server_id != id));
            assert(server_is(server, bindings[p].server_id) == (bindings[p].server_id == id));
        }
    }
}

proof fn lemma_checked_servers(servers: Seq<JsonView>, digests: Seq<ToolsDigestView>)
    requires
        forall|i: int|
            0 <= i < servers.len() ==> server_after(
                #[trigger] servers[i],
                ContractMode::Check,
                digests[i],
            ) == Ok::<JsonView, Seq<char>>(servers[i]),
    ensures
        servers_after(servers, ContractMode::Check, digests) == Ok::<Seq<JsonView>, Seq<char>>(
            servers,
        ),
    decreases servers.len(),
{
    if servers.len() == 0 {
        assert(servers =~= Seq::empty());
    } else {
        let n = servers.len() - 1;
        let init = servers.subrange(0, n);
        assert forall|i: int| 0 <= i < init.len() implies server_after(
            #[trigger] init[i],
            ContractMode::Check,
            digests[i],
        ) == Ok::<JsonView, Seq<char>>(init[i]) by {
            assert(init[i] == servers[i]);
        }
        lemma_checked_servers(init, digests);
        assert(init.push(servers[n]) =~= servers);
    }
}

/// Where the listed tools of a declaration's servers were taken over, the snapshots are of exactly
/// the declared servers, and no server is declared twice. Each server holds the tools of its
/// snapshot and the digest that was taken of them, and is else as it was, as is the rest of the
/// declaration. The declaration passes the check of its digests.
pub proof fn law_declarations_are_synchronized(
    value: JsonView,
    bindings: Seq<BindingView>,
    digests: Seq<ToolsDigestView>,
)
    requires
        declaration_synchronized(value, bindings, digests) matches Ok(outcome) && outcome is Done,
    ensures
        ({
            let after = declaration_synchronized(value, bindings, digests)->Ok_0->Done_0;
            let servers = field(value, "servers"@)->0->List_0;
            let done = field(after, "servers"@)->0->List_0;
            &&& field(value, "servers"@) == Some(JsonView::List(servers))
            &&& field(after, "servers"@) == Some(JsonView::List(done))
            &&& done.len() == servers.len()
            &&& forall|key: Seq<char>|
                key != "servers"@ ==> #[trigger] field(after, key) == field(value, key)
            &&& forall|i: int|
                0 <= i < done.len() ==> server_taken(
                    servers[i],
                    #[trigger] done[i],
                    bindings,
                    digests[i],
                )
            &&& servers_distinct(servers)
            &&& forall|b: int|
                0 <= b < bindings.len() ==> declares(servers, (#[trigger] bindings[b]).server_id)
            &&& declaration_after(after, ContractMode::Check, digests) == Ok::<JsonView, Seq<char>>(
                after,
            )
        }),
{
    let after = declaration_synchronized(value, bindings, digests)->Ok_0->Done_0;
    let servers = field(value, "servers"@)->0->List_0;
    lemma_synchronized(servers, bindings, digests);
    lemma_collected(bindings, bindings.len());
    let state = synchronized(servers, bindings, digests)->Ok_0;
    let done = state->done;
    let left = state->left;
    let entries = value->Object_0;
    lemma_with_entry_read(entries, "servers"@, JsonView::List(done));
    assert(field(after, "servers"@) == Some(JsonView::List(done)));
    assert forall|key: Seq<char>| key != "servers"@ implies #[trigger] field(after, key) == field(
        value,
        key,
    ) by {
        lemma_with_entry_other(entries, "servers"@, JsonView::List(done), key);
    }
    assert forall|b: int| 0 <= b < bindings.len() implies declares(
        servers,
        (#[trigger] bindings[b]).server_id,
    ) by {
        let p = choose|p: int| #[trigger]
            collected(bindings, bindings.len()).contains(p) && bindings[p].server_id
                == bindings[b].server_id;
        assert(!left.contains(p));
    }
    lemma_checked_servers(done, digests);
}

/// The bindings of servers to the files of their snapshots.
pub open spec fn bindings_asked(args: Seq<Seq<char>>) -> Result<
    Seq<(Seq<char>, Seq<char>)>,
    Seq<char>,
>
    decreases args.len(),
{
    if args.len() == 0 {
        Ok(Seq::empty())
    } else {
        let n = args.len() - 1;
        match bindings_asked(args.subrange(0, n)) {
            Err(error) => Err(error),
            Ok(before) => match split_at_first(args[n], '=') {
                None => Err("snapshot binding must be serverId=path"@),
                Some((id, path)) => if id.len() == 0 || path.len() == 0 || binds(before, id) {
                    Err("snapshot bindings must use unique non-empty serverId=path"@)
                } else {
                    Ok(before.push((id, path)))
                },
            },
        }
    }
}

/// Whether one of the bindings is of the server `id`.
pub open spec fn binds(bindings: Seq<(Seq<char>, Seq<char>)>, id: Seq<char>) -> bool {
    exists|i: int| 0 <= i < bindings.len() && (#[trigger] bindings[i]).0 == id
}

/// What the arguments behind `--sync` ask for: the file and the bindings of servers to the files
/// of their snapshots.
pub open spec fn sync_asked(args: Seq<Seq<char>>) -> Result<
    (Seq<char>, Seq<(Seq<char>, Seq<char>)>),
    Seq<char>,
> {
    if args.len() == 0 {
        Err("--sync requires an MCP declaration file"@)
    } else {
        match bindings_asked(args.subrange(1, args.len() as int)) {
            Err(error) => Err(error),
            Ok(bindings) => if bindings.len() == 0 {
                Err("--sync requires at least one serverId=path snapshot"@)
            } else {
                Ok((args[0], bindings))
            },
        }
    }
}

proof fn lemma_bindings_error(args: Seq<Seq<char>>, n: int)
    requires
        0 <= n <= args.len(),
        bindings_asked(args.subrange(0, n)) is Err,
    ensures
        bindings_asked(args) == bindings_asked(args.subrange(0, n)),
    decreases args.len(),
{
    if n < args.len() {
        let init = args.subrange(0, args.len() - 1);
        assert(init.subrange(0, n) =~= args.subrange(0, n));
        lemma_bindings_error(init, n);
    } else {
        assert(args.subrange(0, n) =~= args);
    }
}

fn has_binding(bindings: &Vec<(String, String)>, id: &str) -> (result: bool)
    ensures
        result == binds(key_views(bindings@), id@),
{
    let ghost all = key_views(bindings@);
    let mut i: usize = 0;
    while i < bindings.len()
        invariant
            i <= bindings.len(),
            all == key_views(bindings@),
            forall|j: int| 0 <= j < i ==> (#[trigger] all[j]).0 != id@,
        decreases bindings.len() - i,
    {
        assert(all[i as int].0 == bindings@[i as int].0@);
        if text_equals(bindings[i].0.as_str(), id) {
            return true;
        }
        i = i + 1;
    }
    false
}

/// Reads the arguments behind `--sync`: the file and the bindings of servers to the files of their
/// snapshots.
pub fn parse_sync_args(args: &Vec<String>) -> (result: Result<
    (String, Vec<(String, String)>),
    String,
>)
    ensures
        agrees(
            result,
            |parsed: (String, Vec<(String, String)>)| (parsed.0@, key_views(parsed.1@)),
            sync_asked(texts(args@)),
        ),
{
    if args.len() == 0 {
        return Err("--sync requires an MCP declaration file".to_owned());
    }
    let ghost all = texts(args@).subrange(1, args@.len() as int);
    let mut bindings: Vec<(String, String)> = Vec::new();
    let mut i: usize = 1;
    assert(all.subrange(0, 0) =~= Seq::empty());
    assert(key_views(bindings@) =~= Seq::empty());
    while i < args.len()
        invariant
            1 <= i <= args.len(),
            all == texts(args@).subrange(1, args@.len() as int),
            bindings_asked(all.subrange(0, i - 1)) == Ok::<
                Seq<(Seq<char>, Seq<char>)>,
                Seq<char>,
            >(key_views(bindings@)),
        decreases args.len() - i,
    {
        let ghost before = key_views(bindings@);
        proof {
            let next = all.subrange(0, i as int);
            assert(next.subrange(0, i - 1) =~= all.subrange(0, i - 1));
            assert(next[i - 1] == args@[i as int]@);
            if bindings_asked(next) is Err {
                lemma_bindings_error(all, i as int);
            }
        }
        match split_once(args[i].as_str(), '=') {
            None => {
                return Err("snapshot binding must be serverId=path".to_owned());
            },
            Some((id, path)) => {
                if id.is_empty() || path.is_empty() || has_binding(&bindings, id) {
                    return Err(
                        "snapshot bindings must use unique non-empty serverId=path".to_owned(),
                    );
                }
                bindings.push((id.to_owned(), path.to_owned()));
                assert(key_views(bindings@) =~= before.push((id@, path@)));
            },
        }
        i = i + 1;
    }
    assert(all.subrange(0, all.len() as int) =~= all);
    if bindings.len() == 0 {
        return Err("--sync requires at least one serverId=path snapshot".to_owned());
    }
    Ok((args[0].clone(), bindings))
}

/// The files of declarations are checked or written as the first argument says, and all others are
/// these files, in their order.
pub proof fn law_files_follow_the_mode(args: Seq<Seq<char>>, mode: ContractMode, files: Seq<Seq<char>>)
    ensures
        asked(args) == Ok::<(ContractMode, Seq<Seq<char>>), Seq<char>>((mode, files)) <==> files.len()
            > 0 && args == seq![
            match mode {
                ContractMode::Check => "--check"@,
                ContractMode::Write => "--write"@,
            },
        ] + files,
{
    reveal_strlit("--check");
    reveal_strlit("--write");
    assert("--check"@[2] == 'c' && "--write"@[2] == 'w');
    if asked(args) == Ok::<(ContractMode, Seq<Seq<char>>), Seq<char>>((mode, files)) {
        assert(args =~= seq![args[0]] + files);
    }
    let flag = match mode {
        ContractMode::Check => "--check"@,
        ContractMode::Write => "--write"@,
    };
    if files.len() > 0 && args == seq![flag] + files {
        assert(args[0] == flag);
        assert(args.subrange(1, args.len() as int) =~= files);
    }
}

/// A snapshot is bound to its server by the text before the first equals sign, and its path is what
/// follows; bindings are accepted exactly where each has both and no server is bound twice, and are
/// taken in their order.
pub proof fn law_snapshots_are_bound_to_their_server(
    args: Seq<Seq<char>>,
    bindings: Seq<(Seq<char>, Seq<char>)>,
    id: Seq<char>,
    path: Seq<char>,
)
    requires
        bindings_asked(args) == Ok::<Seq<(Seq<char>, Seq<char>)>, Seq<char>>(bindings),
        forall|i: int| 0 <= i < id.len() ==> (#[trigger] id[i]) != '=',
    ensures
        bindings.len() == args.len(),
        bindings_asked(args.push(id + seq!['='] + path)) is Ok <==> id.len() > 0 && path.len() > 0
            && forall|i: int| 0 <= i < bindings.len() ==> (#[trigger] bindings[i]).0 != id,
        bindings_asked(args.push(id + seq!['='] + path)) matches Ok(more) ==> more == bindings.push(
            (id, path),
        ),
        bindings_asked(args.push(id)) is Err,
{
    lemma_bindings_length(args);
    crate::text::law_texts_split_at_the_first_mark(id, '=', path);
    let with = args.push(id + seq!['='] + path);
    let without = args.push(id);
    assert(with.subrange(0, with.len() - 1) =~= args);
    assert(without.subrange(0, without.len() - 1) =~= args);
}

proof fn lemma_bindings_length(args: Seq<Seq<char>>)
    ensures
        bindings_asked(args) matches Ok(bindings) ==> bindings.len() == args.len(),
    decreases args.len(),
{
    if args.len() > 0 {
        lemma_bindings_length(args.subrange(0, args.len() - 1));
    }
}

/// A server is checked against the digest of its tools and written with it: it is accepted by a check
/// exactly where it has just that digest, and then left as it is; writing sets the digest and no
/// other field.
pub proof fn law_servers_carry_the_digest_of_their_tools(
    server: JsonView,
    digest: Seq<char>,
    other: Seq<char>,
)
    requires
        server_identity(server) is Ok,
        field(server, "tools"@) is Some,
        other != "modelContractDigest"@,
    ensures
        server_after(server, ContractMode::Check, ToolsDigestView::Digest(digest)) is Ok
            <==> text_field(server, "modelContractDigest"@) == Some(digest),
        server_after(server, ContractMode::Check, ToolsDigestView::Digest(digest)) matches Ok(after)
            ==> after == server,
        server_after(server, ContractMode::Write, ToolsDigestView::Digest(digest)) matches Ok(after)
            && field(after, "modelContractDigest"@) == Some(JsonView::Text(digest)) && field(
            after,
            other,
        ) == field(server, other),
{
    crate::json::law_fields_are_read_back(
        server,
        "modelContractDigest"@,
        other,
        JsonView::Text(digest),
    );
}

/// Whether a listed tool is of a name, with a description and an input schema that is an object.
pub open spec fn tells_of(listed: JsonView, name: Seq<char>) -> bool {
    &&& text_field(listed, "name"@) == Some(name)
    &&& text_field(listed, "description"@) is Some
    &&& field(listed, "inputSchema"@) matches Some(schema) && schema is Object
}

/// Whether one of the listed tools is of a name, with all that a declared tool takes from it.
pub open spec fn listed_in_full(live: Seq<JsonView>, name: Seq<char>) -> bool {
    exists|k: int| 0 <= k < live.len() && tells_of(#[trigger] live[k], name)
}

proof fn lemma_declared_names_given(tools: Seq<JsonView>, id: Seq<char>)
    ensures
        declared_names(tools, id) is Ok <==> forall|i: int|
            0 <= i < tools.len() ==> text_field(#[trigger] tools[i], "sourceName"@) is Some,
    decreases tools.len(),
{
    if tools.len() > 0 {
        let init = tools.subrange(0, tools.len() - 1);
        lemma_declared_names_given(init, id);
        assert forall|i: int| 0 <= i < init.len() implies #[trigger] init[i] == tools[i] by {}
        if declared_names(init, id) is Ok {
            assert forall|i: int| 0 <= i < init.len() implies text_field(
                #[trigger] tools[i],
                "sourceName"@,
            ) is Some by {
                assert(init[i] == tools[i]);
            }
        }
    }
}

/// Whether the listed tools have names among the declared, each once.
pub open spec fn named_once(live: Seq<JsonView>, declared: Seq<Seq<char>>) -> bool {
    &&& forall|k: int|
        0 <= k < live.len() ==> text_field(#[trigger] live[k], "name"@) is Some
            && declared.contains(text_field(live[k], "name"@)->0)
    &&& forall|k: int, m: int|
        0 <= k < m < live.len() ==> text_field(#[trigger] live[k], "name"@) != text_field(
            #[trigger] live[m],
            "name"@,
        )
}

proof fn lemma_live_names_given(live: Seq<JsonView>, declared: Seq<Seq<char>>, id: Seq<char>)
    ensures
        live_names(live, declared, id) is Ok <==> named_once(live, declared),
    decreases live.len(),
{
    if live.len() > 0 {
        let n = live.len() - 1;
        let init = live.subrange(0, n);
        lemma_live_names_given(init, declared, id);
        lemma_live_names(init, declared, id, 0);
        assert forall|i: int| 0 <= i < n implies #[trigger] init[i] == live[i] by {}
        if live_names(init, declared, id) is Ok {
            let names = live_names(init, declared, id)->Ok_0;
            assert forall|k: int| 0 <= k < n implies text_field(#[trigger] live[k], "name"@) == Some(
                names[k],
            ) by {
                assert(init[k] == live[k]);
            }
            if live_names(live, declared, id) is Ok {
                let name = text_field(live[n], "name"@)->0;
                assert forall|k: int| 0 <= k < n implies text_field(#[trigger] live[k], "name"@)
                    != text_field(live[n], "name"@) by {
                    assert(names[k] != name);
                }
                assert forall|k: int, m: int| 0 <= k < m < live.len() implies text_field(
                    #[trigger] live[k],
                    "name"@,
                ) != text_field(#[trigger] live[m], "name"@) by {
                    if m < n {
                        assert(init[k] == live[k] && init[m] == live[m]);
                    }
                }
            } else if named_once(live, declared) {
                let name = text_field(live[n], "name"@)->0;
                assert(names.contains(name));
                let k = choose|k: int| 0 <= k < names.len() && names[k] == name;
                assert(text_field(live[k], "name"@) == Some(name));
                assert(false);
            }
        } else if named_once(live, declared) {
            assert forall|k: int| 0 <= k < n implies text_field(#[trigger] init[k], "name"@) is Some
                && declared.contains(text_field(init[k], "name"@)->0) by {
                assert(init[k] == live[k]);
            }
            assert forall|k: int, m: int| 0 <= k < m < n implies text_field(
                #[trigger] init[k],
                "name"@,
            ) != text_field(#[trigger] init[m], "name"@) by {
                assert(init[k] == live[k] && init[m] == live[m]);
            }
            assert(named_once(init, declared));
        }
    }
}

proof fn lemma_updated_tools_given(
    tools: Seq<JsonView>,
    live: Seq<JsonView>,
    names: Seq<Seq<char>>,
    id: Seq<char>,
)
    ensures
        updated_tools(tools, live, names, id) is Ok <==> forall|i: int|
            0 <= i < tools.len() ==> updated_tool(#[trigger] tools[i], live, names, id) is Ok,
    decreases tools.len(),
{
    if tools.len() > 0 {
        let init = tools.subrange(0, tools.len() - 1);
        lemma_updated_tools_given(init, live, names, id);
        assert forall|i: int| 0 <= i < init.len() implies #[trigger] init[i] == tools[i] by {}
        if updated_tools(init, live, names, id) is Ok {
            assert forall|i: int| 0 <= i < init.len() implies updated_tool(
                #[trigger] tools[i],
                live,
                names,
                id,
            ) is Ok by {
                assert(init[i] == tools[i]);
            }
        }
    }
}

/// The tools of a snapshot are taken over exactly where the snapshot lists all of them on one page,
/// every declared tool names its source, every listed tool has the name of a declared one and no two
/// have the same, and of every declared tool a description and an input schema are listed.
pub proof fn law_tools_are_taken_over_where_all_are_listed(
    server: JsonView,
    id: Seq<char>,
    snapshot: JsonView,
    result: Seq<(Seq<char>, JsonView)>,
    live: Seq<JsonView>,
    declared: Seq<JsonView>,
)
    requires
        field(snapshot, "result"@) == Some(JsonView::Object(result)),
        field(JsonView::Object(result), "tools"@) == Some(JsonView::List(live)),
        field(server, "tools"@) == Some(JsonView::List(declared)),
    ensures
        synchronized_tools(server, id, snapshot) is Ok <==> {
            &&& field(JsonView::Object(result), "nextCursor"@) is None || field(
                JsonView::Object(result),
                "nextCursor"@,
            ) == Some(JsonView::Null)
            &&& forall|i: int|
                0 <= i < declared.len() ==> (text_field(#[trigger] declared[i], "sourceName"@)
                    matches Some(name) && listed_in_full(live, name))
            &&& forall|k: int|
                0 <= k < live.len() ==> (text_field(#[trigger] live[k], "name"@) matches Some(name)
                    && exists|i: int|
                    0 <= i < declared.len() && text_field(#[trigger] declared[i], "sourceName"@)
                        == Some(name))
            &&& forall|k: int, m: int|
                0 <= k < m < live.len() ==> text_field(#[trigger] live[k], "name"@) != text_field(
                    #[trigger] live[m],
                    "name"@,
                )
        },
{
    lemma_declared_names_given(declared, id);
    lemma_declared_names(declared, id, 0);
    if declared_names(declared, id) is Ok {
        let names = declared_names(declared, id)->Ok_0;
        lemma_live_names_given(live, names, id);
        lemma_live_names(live, names, id, 0);
        assert forall|i: int| 0 <= i < declared.len() implies text_field(
            #[trigger] declared[i],
            "sourceName"@,
        ) == Some(names[i]) by {}
        assert forall|name: Seq<char>| #[trigger] names.contains(name) <==> exists|i: int|
            0 <= i < declared.len() && text_field(#[trigger] declared[i], "sourceName"@) == Some(
                name,
            ) by {
            if names.contains(name) {
                let i = choose|i: int| 0 <= i < names.len() && names[i] == name;
                assert(text_field(declared[i], "sourceName"@) == Some(name));
            }
            if exists|i: int|
                0 <= i < declared.len() && text_field(#[trigger] declared[i], "sourceName"@)
                    == Some(name) {
                let i = choose|i: int|
                    0 <= i < declared.len() && text_field(#[trigger] declared[i], "sourceName"@)
                        == Some(name);
                assert(names[i] == name);
            }
        }
        if live_names(live, names, id) is Ok {
            let listed = live_names(live, names, id)->Ok_0;
            lemma_updated_tools_given(declared, live, listed, id);
            assert forall|i: int| 0 <= i < declared.len() implies (updated_tool(
                #[trigger] declared[i],
                live,
                listed,
                id,
            ) is Ok <==> listed_in_full(live, names[i])) by {
                lemma_place_of(listed, names[i]);
                if let Some(k) = place_of(listed, names[i]) {
                    assert(text_field(live[k], "name"@) == Some(listed[k]));
                    if updated_tool(declared[i], live, listed, id) is Ok {
                        assert(tells_of(live[k], names[i]));
                    }
                    if listed_in_full(live, names[i]) {
                        let m = choose|m: int|
                            0 <= m < live.len() && tells_of(#[trigger] live[m], names[i]);
                        assert(text_field(live[m], "name"@) == Some(listed[m]));
                        assert(m == k);
                    }
                } else if listed_in_full(live, names[i]) {
                    let m = choose|m: int|
                        0 <= m < live.len() && tells_of(#[trigger] live[m], names[i]);
                    assert(text_field(live[m], "name"@) == Some(listed[m]));
                    assert(listed.contains(names[i]));
                }
            }
        }
    }
}

/// A declaration is synchronized with the snapshots that are bound behind its file, of which there
/// has to be one.
pub proof fn law_declarations_are_named_before_their_snapshots(
    file: Seq<char>,
    args: Seq<Seq<char>>,
)
    ensures
        sync_asked(seq![file] + args) is Ok <==> args.len() > 0 && bindings_asked(args) is Ok,
        sync_asked(seq![file] + args) matches Ok(read) ==> read.0 == file && bindings_asked(args)
            == Ok::<Seq<(Seq<char>, Seq<char>)>, Seq<char>>(read.1),
        sync_asked(Seq::empty()) is Err,
{
    let all = seq![file] + args;
    assert(all.subrange(1, all.len() as int) =~= args);
    lemma_bindings_length(args);
}

} // verus!
