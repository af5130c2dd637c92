//! The MCP servers of plugins: the catalog that is shown of them, what configuring one needs, and
//! what the enabled plugins activate.

use crate::mcp_credentials::{credential_views, token, CredentialView, McpCredentialStore};
use crate::observation_cas::agrees;
use crate::sorting::{key_views, law_stable_order, sorted_places, stable_order};
use crate::text::{
    clone_texts, concat2, concat3, copy_optional, first_chars, join, joined, limited, optional_text,
    text_equals, texts,
};
use vstd::prelude::*;

verus! {

pub const CATALOG_SCHEMA: &'static str = "native.mcp.catalog.v1";

pub const MAX_PLUGIN_DIAGNOSTICS: usize = 128;

/// A plugin as the catalog of plugins lists it.
#[derive(Debug)]
pub struct PluginDescriptor {
    pub id: String,
    pub name: String,
    pub enabled: bool,
    pub path: String,
    pub errors: Vec<String>,
}

/// How an MCP server is reached.
#[derive(Debug)]
pub enum McpTransport {
    Stdio,
    StreamableHttp { url: String, bearer_credential_ref: Option<String> },
}

/// An MCP server as a plugin declares it.
#[derive(Debug)]
pub struct McpServerDeclaration {
    pub id: String,
    pub transport: McpTransport,
    pub tool_names: Vec<String>,
}

#[derive(Clone, Copy, Debug, PartialEq, Eq, Structural)]
pub enum NativeMcpServerStatus {
    Ready,
    NeedsConfiguration,
    Disabled,
    Unsupported,
}

#[derive(Clone, Copy, Debug, PartialEq, Eq, Structural)]
pub enum NativeMcpTransport {
    Stdio,
    StreamableHttp,
}

/// An MCP server as the catalog shows it.
#[derive(Debug)]
pub struct NativeMcpServer {
    pub plugin_name: String,
    pub plugin_display_name: String,
    pub server_id: String,
    pub plugin_enabled: bool,
    pub status: NativeMcpServerStatus,
    pub configurable: bool,
    pub configured: bool,
    pub transport: NativeMcpTransport,
    pub endpoint: Option<String>,
    pub tool_names: Vec<String>,
}

pub struct ServerView {
    pub plugin_name: Seq<char>,
    pub plugin_display_name: Seq<char>,
    pub server_id: Seq<char>,
    pub plugin_enabled: bool,
    pub status: NativeMcpServerStatus,
    pub configurable: bool,
    pub configured: bool,
    pub transport: NativeMcpTransport,
    pub endpoint: Option<Seq<char>>,
    pub tool_names: Seq<Seq<char>>,
}

impl View for NativeMcpServer {
    type V = ServerView;

    open spec fn view(&self) -> ServerView {
        ServerView {
            plugin_name: self.plugin_name@,
            plugin_display_name: self.plugin_display_name@,
            server_id: self.server_id@,
            plugin_enabled: self.plugin_enabled,
            status: self.status,
            configurable: self.configurable,
            configured: self.configured,
            transport: self.transport,
            endpoint: optional_text(self.endpoint),
            tool_names: texts(self.tool_names@),
        }
    }
}

/// What a list of servers shows.
pub open spec fn server_views(servers: Seq<NativeMcpServer>) -> Seq<ServerView> {
    Seq::new(servers.len(), |i: int| servers[i]@)
}

/// A server as the catalog shows it.
pub open spec fn projected(
    descriptor: PluginDescriptor,
    server: McpServerDeclaration,
    credentials: Seq<CredentialView>,
) -> ServerView {
    let stdio = server.transport is Stdio;
    let credential_ref = if stdio {
        None
    } else {
        optional_text(server.transport->bearer_credential_ref)
    };
    let configured = match credential_ref {
        Some(credential_ref) => token(credentials, (descriptor.id@, credential_ref)) is Some,
        None => true,
    };
    ServerView {
        plugin_name: descriptor.id@,
        plugin_display_name: descriptor.name@,
        server_id: server.id@,
        plugin_enabled: descriptor.enabled,
        status: if !descriptor.enabled {
            NativeMcpServerStatus::Disabled
        } else if stdio {
            NativeMcpServerStatus::Unsupported
        } else if configured {
            NativeMcpServerStatus::Ready
        } else {
            NativeMcpServerStatus::NeedsConfiguration
        },
        configurable: credential_ref is Some,
        configured,
        transport: if stdio {
            NativeMcpTransport::Stdio
        } else {
            NativeMcpTransport::StreamableHttp
        },
        endpoint: if stdio {
            None
        } else {
            Some(server.transport->url@)
        },
        tool_names: texts(server.tool_names@),
    }
}

/// A server as the catalog shows it.
pub fn project_server(
    descriptor: &PluginDescriptor,
    server: &McpServerDeclaration,
    credentials: &McpCredentialStore,
) -> (result: NativeMcpServer)
    ensures
        result@ == projected(
            *descriptor,
            *server,
            credential_views(credentials.credentials@),
        ),
{
    let (transport, endpoint, configurable, configured) = match &server.transport {
        McpTransport::Stdio => (NativeMcpTransport::Stdio, None, false, true),
        McpTransport::StreamableHttp { url, bearer_credential_ref } => {
            let endpoint: Option<String> = Some(url.clone());
            match bearer_credential_ref {
                Some(credential_ref) => {
                    let known = credentials.get(
                        descriptor.id.as_str(),
                        credential_ref.as_str(),
                    ).is_some();
                    (NativeMcpTransport::StreamableHttp, endpoint, true, known)
                },
                None => (NativeMcpTransport::StreamableHttp, endpoint, false, true),
            }
        },
    };
    let status = if !descriptor.enabled {
        NativeMcpServerStatus::Disabled
    } else {
        match &server.transport {
            McpTransport::Stdio => NativeMcpServerStatus::Unsupported,
            McpTransport::StreamableHttp { .. } => if configured {
                NativeMcpServerStatus::Ready
            } else {
                NativeMcpServerStatus::NeedsConfiguration
            },
        }
    };
    NativeMcpServer {
        plugin_name: descriptor.id.clone(),
        plugin_display_name: descriptor.name.clone(),
        server_id: server.id.clone(),
        plugin_enabled: descriptor.enabled,
        status,
        configurable,
        configured,
        transport,
        endpoint,
        tool_names: clone_texts(&server.tool_names),
    }
}

/// What is shown of a plugin that could not be used.
#[derive(Debug)]
pub struct NativePluginDiagnostic {
    pub code: &'static str,
    pub plugin_name: String,
    pub path: String,
    pub message: String,
}

pub struct DiagnosticView {
    pub code: Seq<char>,
    pub plugin_name: Seq<char>,
    pub path: Seq<char>,
    pub message: Seq<char>,
}

impl View for NativePluginDiagnostic {
    type V = DiagnosticView;

    open spec fn view(&self) -> DiagnosticView {
        DiagnosticView {
            code: self.code@,
            plugin_name: self.plugin_name@,
            path: self.path@,
            message: self.message@,
        }
    }
}

/// What a list of diagnostics shows.
pub open spec fn diagnostic_views(list: Seq<NativePluginDiagnostic>) -> Seq<DiagnosticView> {
    Seq::new(list.len(), |i: int| list[i]@)
}

/// The diagnostics with one more, where there is room for it.
pub open spec fn with_diagnostic(
    diagnostics: Seq<DiagnosticView>,
    code: Seq<char>,
    descriptor: PluginDescriptor,
    message: Seq<char>,
) -> Seq<DiagnosticView> {
    if diagnostics.len() >= MAX_PLUGIN_DIAGNOSTICS {
        diagnostics
    } else {
        diagnostics.push(
            DiagnosticView {
                code,
                plugin_name: limited(descriptor.id@, 128),
                path: limited(descriptor.path@, 1024),
                message: limited(message, 1024),
            },
        )
    }
}

/// Adds a diagnostic, where there is room for it.
pub fn push_plugin_diagnostic(
    diagnostics: &mut Vec<NativePluginDiagnostic>,
    code: &'static str,
    descriptor: &PluginDescriptor,
    message: &str,
)
    ensures
        diagnostic_views(final(diagnostics)@) == with_diagnostic(
            diagnostic_views(old(diagnostics)@),
            code@,
            *descriptor,
            message@,
        ),
{
    if diagnostics.len() >= MAX_PLUGIN_DIAGNOSTICS {
        return;
    }
    let ghost before = diagnostic_views(diagnostics@);
    let diagnostic = NativePluginDiagnostic {
        code,
        plugin_name: first_chars(descriptor.id.as_str(), 128),
        path: first_chars(descriptor.path.as_str(), 1024),
        message: first_chars(message, 1024),
    };
    let ghost view = diagnostic@;
    diagnostics.push(diagnostic);
    assert(diagnostic_views(diagnostics@) =~= before.push(view));
}

/// What is wrong with a plugin as the catalog of plugins lists it.
pub open spec fn descriptor_error(descriptor: PluginDescriptor) -> Option<Seq<char>> {
    if descriptor.errors@.len() == 0 {
        None
    } else {
        Some(
            "plugin catalog entry is invalid: id="@ + descriptor.id@ + " errors="@ + joined(
                texts(descriptor.errors@),
                "; "@,
            ),
        )
    }
}

/// Accepts a plugin that the catalog of plugins lists without errors.
pub fn require_valid_descriptor(descriptor: &PluginDescriptor) -> (result: Result<(), String>)
    ensures
        match result {
            Ok(_) => descriptor_error(*descriptor) == None::<Seq<char>>,
            Err(message) => descriptor_error(*descriptor) == Some(message@),
        },
{
    if descriptor.errors.len() == 0 {
        Ok(())
    } else {
        let mut message = concat3(
            "plugin catalog entry is invalid: id=",
            descriptor.id.as_str(),
            " errors=",
        );
        let errors = join(&descriptor.errors, "; ");
        message.append(errors.as_str());
        Err(message)
    }
}

/// Whether an earlier plugin has the identity of the plugin at `n`.
pub open spec fn is_duplicate(descriptors: Seq<PluginDescriptor>, n: int) -> bool {
    exists|j: int| 0 <= j < n && (#[trigger] descriptors[j]).id@ == descriptors[n].id@
}

/// Whether an earlier plugin has the identity of the plugin at `n`.
pub fn duplicates_earlier(descriptors: &Vec<PluginDescriptor>, n: usize) -> (result: bool)
    requires
        n < descriptors.len(),
    ensures
        result == is_duplicate(descriptors@, n as int),
{
    let mut j: usize = 0;
    while j < n
        invariant
            j <= n,
            n < descriptors.len(),
            forall|k: int|
                0 <= k < j ==> (#[trigger] descriptors@[k]).id@ != descriptors@[n as int].id@,
        decreases n - j,
    {
        if text_equals(descriptors[j].id.as_str(), descriptors[n].id.as_str()) {
            return true;
        }
        j = j + 1;
    }
    false
}

/// The servers of a plugin as the catalog shows them.
pub open spec fn projected_servers(
    descriptor: PluginDescriptor,
    servers: Seq<McpServerDeclaration>,
    credentials: Seq<CredentialView>,
) -> Seq<ServerView> {
    Seq::new(servers.len(), |i: int| projected(descriptor, servers[i], credentials))
}

/// What the catalog shows of the first plugins: the servers, still in the order of their plugins,
/// and the diagnostics. `loaded` holds what loading each plugin's declarations came to.
pub open spec fn catalogued(
    descriptors: Seq<PluginDescriptor>,
    loaded: Seq<Result<Vec<McpServerDeclaration>, String>>,
    credentials: Seq<CredentialView>,
    n: nat,
) -> (Seq<ServerView>, Seq<DiagnosticView>)
    decreases n,
{
    if n == 0 {
        (Seq::empty(), Seq::empty())
    } else {
        let i = n - 1;
        let (servers, diagnostics) = catalogued(descriptors, loaded, credentials, i as nat);
        let descriptor = descriptors[i];
        if is_duplicate(descriptors, i) {
            (
                servers,
                with_diagnostic(
                    diagnostics,
                    "native_plugin_duplicate"@,
                    descriptor,
                    "duplicate plugin catalog id"@,
                ),
            )
        } else {
            match descriptor_error(descriptor) {
                Some(error) => (
                    servers,
                    with_diagnostic(diagnostics, "native_plugin_invalid"@, descriptor, error),
                ),
                None => match loaded[i] {
                    Ok(declared) => (
                        servers + projected_servers(descriptor, declared@, credentials),
                        diagnostics,
                    ),
                    Err(error) => (
                        servers,
                        with_diagnostic(diagnostics, "native_plugin_invalid"@, descriptor, error@),
                    ),
                },
            }
        }
    }
}

/// The keys by which servers are sorted.
pub open spec fn server_keys(servers: Seq<ServerView>) -> Seq<(Seq<char>, Seq<char>)> {
    Seq::new(servers.len(), |i: int| (servers[i].plugin_name, servers[i].server_id))
}

/// The servers in the order of their plugins' names and their identities.
pub open spec fn sorted_servers(servers: Seq<ServerView>) -> Seq<ServerView> {
    Seq::new(servers.len(), |i: int| servers[stable_order(server_keys(servers))[i]])
}

/// The catalog of MCP servers.
#[derive(Debug)]
pub struct NativeMcpCatalog {
    pub schema: &'static str,
    pub servers: Vec<NativeMcpServer>,
    pub diagnostics: Vec<NativePluginDiagnostic>,
}

fn sort_servers(servers: Vec<NativeMcpServer>) -> (result: Vec<NativeMcpServer>)
    ensures
        server_views(result@) == sorted_servers(server_views(servers@)),
{
    let ghost all = server_views(servers@);
    let mut keys: Vec<(String, String)> = Vec::new();
    let mut i: usize = 0;
    while i < servers.len()
        invariant
            i <= servers.len(),
            keys.len() == i,
            forall|j: int|
                0 <= j < i ==> (#[trigger] keys@[j]).0@ == servers@[j].plugin_name@ && keys@[j].1@
                    == servers@[j].server_id@,
        decreases servers.len() - i,
    {
        keys.push((servers[i].plugin_name.clone(), servers[i].server_id.clone()));
        i = i + 1;
    }
    assert(key_views(keys@) =~= server_keys(all));
    let order = sorted_places(&keys);
    let mut sorted: Vec<NativeMcpServer> = Vec::new();
    let mut k: usize = 0;
    while k < order.len()
        invariant
            k <= order.len(),
            sorted.len() == k,
            order.len() == servers.len(),
            forall|i: int| 0 <= i < order.len() ==> #[trigger] order@[i] < servers.len(),
            forall|j: int| 0 <= j < k ==> (#[trigger] sorted@[j])@ == servers@[order@[j] as int]@,
        decreases order.len() - k,
    {
        let server = &servers[order[k]];
        sorted.push(
            NativeMcpServer {
                plugin_name: server.plugin_name.clone(),
                plugin_display_name: server.plugin_display_name.clone(),
                server_id: server.server_id.clone(),
                plugin_enabled: server.plugin_enabled,
                status: server.status,
                configurable: server.configurable,
                configured: server.configured,
                transport: server.transport,
                endpoint: copy_optional(&server.endpoint),
                tool_names: clone_texts(&server.tool_names),
            },
        );
        k = k + 1;
    }
    proof {
        let wanted = sorted_servers(all);
        let places = stable_order(server_keys(all));
        assert forall|i: int| 0 <= i < wanted.len() implies server_views(sorted@)[i]
            == wanted[i] by {
            assert(places[i] == order@[i]);
            assert(sorted@[i]@ == servers@[order@[i] as int]@);
        }
        assert(server_views(sorted@) =~= wanted);
    }
    sorted
}

fn project_servers(
    descriptor: &PluginDescriptor,
    declared: &Vec<McpServerDeclaration>,
    credentials: &McpCredentialStore,
    servers: &mut Vec<NativeMcpServer>,
)
    ensures
        server_views(final(servers)@) == server_views(old(servers)@) + projected_servers(
            *descriptor,
            declared@,
            credential_views(credentials.credentials@),
        ),
{
    let ghost before = server_views(servers@);
    let ghost known = credential_views(credentials.credentials@);
    let mut k: usize = 0;
    while k < declared.len()
        invariant
            k <= declared.len(),
            known == credential_views(credentials.credentials@),
            servers.len() == before.len() + k,
            forall|j: int| 0 <= j < before.len() ==> (#[trigger] servers@[j])@ == before[j],
            forall|j: int|
                before.len() <= j < servers.len() ==> (#[trigger] servers@[j])@ == projected(
                    *descriptor,
                    declared@[j - before.len()],
                    known,
                ),
        decreases declared.len() - k,
    {
        let server = project_server(descriptor, &declared[k], credentials);
        servers.push(server);
        k = k + 1;
    }
    assert(server_views(servers@) =~= before + projected_servers(
        *descriptor,
        declared@,
        known,
    ));
}

/// The catalog of the MCP servers of plugins. `loaded` holds what loading each plugin's
/// declarations came to; for a plugin that duplicates an earlier one or is listed with errors it
/// does not count.
pub fn catalog_from(
    descriptors: &Vec<PluginDescriptor>,
    loaded: &Vec<Result<Vec<McpServerDeclaration>, String>>,
    credentials: &McpCredentialStore,
) -> (result: NativeMcpCatalog)
    requires
        loaded.len() == descriptors.len(),
    ensures
        ({
            let (servers, diagnostics) = catalogued(
                descriptors@,
                loaded@,
                credential_views(credentials.credentials@),
                descriptors@.len(),
            );
            &&& result.schema@ == CATALOG_SCHEMA@
            &&& server_views(result.servers@) == sorted_servers(servers)
            &&& diagnostic_views(result.diagnostics@) == diagnostics
        }),
{
    let ghost known = credential_views(credentials.credentials@);
    let mut servers: Vec<NativeMcpServer> = Vec::new();
    let mut diagnostics: Vec<NativePluginDiagnostic> = Vec::new();
    let mut i: usize = 0;
    assert(server_views(servers@) =~= Seq::empty());
    assert(diagnostic_views(diagnostics@) =~= Seq::empty());
    while i < descriptors.len()
        invariant
            i <= descriptors.len(),
            loaded.len() == descriptors.len(),
            known == credential_views(credentials.credentials@),
            (server_views(servers@), diagnostic_views(diagnostics@)) == catalogued(
                descriptors@,
                loaded@,
                known,
                i as nat,
            ),
        decreases descriptors.len() - i,
    {
        let descriptor = &descriptors[i];
        if duplicates_earlier(descriptors, i) {
            push_plugin_diagnostic(
                &mut diagnostics,
                "native_plugin_duplicate",
                descriptor,
                "duplicate plugin catalog id",
            );
        } else {
            match require_valid_descriptor(descriptor) {
                Err(error) => {
                    push_plugin_diagnostic(
                        &mut diagnostics,
                        "native_plugin_invalid",
                        descriptor,
                        error.as_str(),
                    );
                },
                Ok(_) => match &loaded[i] {
                    Ok(declared) => {
                        project_servers(descriptor, declared, credentials, &mut servers);
                    },
                    Err(error) => {
                        push_plugin_diagnostic(
                            &mut diagnostics,
                            "native_plugin_invalid",
                            descriptor,
                            error.as_str(),
                        );
                    },
                },
            }
        }
        i = i + 1;
    }
    NativeMcpCatalog { schema: CATALOG_SCHEMA, servers: sort_servers(servers), diagnostics }
}

/// The catalog never holds more than its share of diagnostics.
pub proof fn law_diagnostics_are_bounded(
    descriptors: Seq<PluginDescriptor>,
    loaded: Seq<Result<Vec<McpServerDeclaration>, String>>,
    credentials: Seq<CredentialView>,
    n: nat,
)
    requires
        n <= descriptors.len(),
    ensures
        catalogued(descriptors, loaded, credentials, n).1.len() <= MAX_PLUGIN_DIAGNOSTICS,
    decreases n,
{
    if n > 0 {
        law_diagnostics_are_bounded(descriptors, loaded, credentials, (n - 1) as nat);
    }
}

/// A plugin that cannot be used hides no server of another: every server of a plugin that is
/// listed first under its identity, without errors, and whose declarations could be loaded, is in
/// the catalog.
pub proof fn law_healthy_plugins_are_shown(
    descriptors: Seq<PluginDescriptor>,
    loaded: Seq<Result<Vec<McpServerDeclaration>, String>>,
    credentials: Seq<CredentialView>,
    i: int,
    k: int,
)
    requires
        0 <= i < descriptors.len(),
        loaded.len() == descriptors.len(),
        !is_duplicate(descriptors, i),
        descriptor_error(descriptors[i]) is None,
        loaded[i] is Ok,
        0 <= k < loaded[i]->Ok_0@.len(),
    ensures
        sorted_servers(
            catalogued(descriptors, loaded, credentials, descriptors.len()).0,
        ).contains(projected(descriptors[i], loaded[i]->Ok_0@[k], credentials)),
{
    let server = projected(descriptors[i], loaded[i]->Ok_0@[k], credentials);
    let all = catalogued(descriptors, loaded, credentials, descriptors.len()).0;
    lemma_shown(descriptors, loaded, credentials, descriptors.len(), i, k);
    let at = choose|at: int| 0 <= at < all.len() && all[at] == server;
    let order = stable_order(server_keys(all));
    law_stable_order(server_keys(all));
    assert(order.contains(at));
    let place = choose|place: int| 0 <= place < order.len() && order[place] == at;
    assert(sorted_servers(all)[place] == server);
}

proof fn lemma_shown(
    descriptors: Seq<PluginDescriptor>,
    loaded: Seq<Result<Vec<McpServerDeclaration>, String>>,
    credentials: Seq<CredentialView>,
    n: nat,
    i: int,
    k: int,
)
    requires
        0 <= i < n <= descriptors.len(),
        loaded.len() == descriptors.len(),
        !is_duplicate(descriptors, i),
        descriptor_error(descriptors[i]) is None,
        loaded[i] is Ok,
        0 <= k < loaded[i]->Ok_0@.len(),
    ensures
        catalogued(descriptors, loaded, credentials, n).0.contains(
            projected(descriptors[i], loaded[i]->Ok_0@[k], credentials),
        ),
    decreases n,
{
    let server = projected(descriptors[i], loaded[i]->Ok_0@[k], credentials);
    let before = catalogued(descriptors, loaded, credentials, (n - 1) as nat).0;
    let after = catalogued(descriptors, loaded, credentials, n).0;
    if i < n - 1 {
        lemma_shown(descriptors, loaded, credentials, (n - 1) as nat, i, k);
        let at = choose|at: int| 0 <= at < before.len() && before[at] == server;
        assert(after[at] == server);
    } else {
        assert(after[before.len() + k] == server);
    }
}

/// The plugin that a request to configure a server is about, by its place.
pub open spec fn configured_plugin(
    token_valid: bool,
    plugin_name: Seq<char>,
    descriptors: Seq<PluginDescriptor>,
) -> Result<int, Seq<char>> {
    if !token_valid {
        Err("MCP bearer token is invalid"@)
    } else {
        match first_plugin(descriptors, plugin_name) {
            None => Err("MCP plugin not found: "@ + plugin_name),
            Some(i) => if !descriptors[i].enabled {
                Err("MCP plugin is disabled: "@ + descriptors[i].id@)
            } else {
                match descriptor_error(descriptors[i]) {
                    Some(error) => Err(error),
                    None => Ok(i),
                }
            },
        }
    }
}

/// The first plugin with the given identity, by its place.
pub open spec fn first_plugin(descriptors: Seq<PluginDescriptor>, id: Seq<char>) -> Option<int>
    decreases descriptors.len(),
{
    if descriptors.len() == 0 {
        None
    } else {
        let n = descriptors.len() - 1;
        match first_plugin(descriptors.subrange(0, n), id) {
            Some(i) => Some(i),
            None => if descriptors[n].id@ == id {
                Some(n)
            } else {
                None
            },
        }
    }
}

proof fn lemma_first_plugin(descriptors: Seq<PluginDescriptor>, id: Seq<char>, n: int)
    requires
        0 <= n <= descriptors.len(),
    ensures
        first_plugin(descriptors.subrange(0, n), id) is Some ==> first_plugin(descriptors, id)
            == first_plugin(descriptors.subrange(0, n), id),
    decreases descriptors.len(),
{
    if n < descriptors.len() {
        let init = descriptors.subrange(0, descriptors.len() - 1);
        assert(init.subrange(0, n) =~= descriptors.subrange(0, n));
        lemma_first_plugin(init, id, n);
    } else {
        assert(descriptors.subrange(0, n) =~= descriptors);
    }
}

/// The plugin that a request to configure a server is about, by its place. `token_valid` says
/// whether the request's token may be sent as a bearer token.
pub fn find_configured_plugin(
    token_valid: bool,
    plugin_name: &str,
    descriptors: &Vec<PluginDescriptor>,
) -> (result: Result<usize, String>)
    ensures
        agrees(
            result,
            |i: usize| i as int,
            configured_plugin(token_valid, plugin_name@, descriptors@),
        ),
        result matches Ok(i) ==> i < descriptors.len(),
{
    if !token_valid {
        return Err("MCP bearer token is invalid".to_owned());
    }
    let mut i: usize = 0;
    assert(descriptors@.subrange(0, 0) =~= Seq::empty());
    while i < descriptors.len()
        invariant
            i <= descriptors.len(),
            token_valid,
            first_plugin(descriptors@.subrange(0, i as int), plugin_name@) is None,
        decreases descriptors.len() - i,
    {
        proof {
            let next = descriptors@.subrange(0, i + 1);
            assert(next.subrange(0, i as int) =~= descriptors@.subrange(0, i as int));
            assert(next[i as int] == descriptors@[i as int]);
            lemma_first_plugin(descriptors@, plugin_name@, i + 1);
        }
        if text_equals(descriptors[i].id.as_str(), plugin_name) {
            if !descriptors[i].enabled {
                return Err(concat2("MCP plugin is disabled: ", descriptors[i].id.as_str()));
            }
            return match require_valid_descriptor(&descriptors[i]) {
                Ok(_) => Ok(i),
                Err(error) => Err(error),
            };
        }
        i = i + 1;
    }
    assert(descriptors@.subrange(0, descriptors@.len() as int) =~= descriptors@);
    Err(concat2("MCP plugin not found: ", plugin_name))
}

/// The first server with the given identity, by its place.
pub open spec fn first_server(servers: Seq<McpServerDeclaration>, id: Seq<char>) -> Option<int>
    decreases servers.len(),
{
    if servers.len() == 0 {
        None
    } else {
        let n = servers.len() - 1;
        match first_server(servers.subrange(0, n), id) {
            Some(i) => Some(i),
            None => if servers[n].id@ == id {
                Some(n)
            } else {
                None
            },
        }
    }
}

proof fn lemma_first_server(servers: Seq<McpServerDeclaration>, id: Seq<char>, n: int)
    requires
        0 <= n <= servers.len(),
    ensures
        first_server(servers.subrange(0, n), id) is Some ==> first_server(servers, id)
            == first_server(servers.subrange(0, n), id),
    decreases servers.len(),
{
    if n < servers.len() {
        let init = servers.subrange(0, servers.len() - 1);
        assert(init.subrange(0, n) =~= servers.subrange(0, n));
        lemma_first_server(init, id, n);
    } else {
        assert(servers.subrange(0, n) =~= servers);
    }
}

/// The server that a request to configure one is about, by its place, and the name of the
/// credential that it takes.
pub open spec fn configured_server(servers: Seq<McpServerDeclaration>, id: Seq<char>) -> Result<
    (int, Seq<char>),
    Seq<char>,
> {
    match first_server(servers, id) {
        None => Err("MCP server not found: "@ + id),
        Some(i) => match servers[i].transport {
            McpTransport::StreamableHttp { url, bearer_credential_ref } => match optional_text(
                bearer_credential_ref,
            ) {
                Some(credential_ref) => Ok((i, credential_ref)),
                None => Err("MCP server does not require configuration"@),
            },
            McpTransport::Stdio => Err("Native MCP does not support stdio transport"@),
        },
    }
}

/// The server that a request to configure one is about, by its place, and the name of the
/// credential that it takes.
pub fn find_configured_server(servers: &Vec<McpServerDeclaration>, id: &str) -> (result: Result<
    (usize, String),
    String,
>)
    ensures
        agrees(
            result,
            |found: (usize, String)| (found.0 as int, found.1@),
            configured_server(servers@, id@),
        ),
        result matches Ok((i, _)) ==> i < servers.len(),
{
    let mut i: usize = 0;
    assert(servers@.subrange(0, 0) =~= Seq::empty());
    while i < servers.len()
        invariant
            i <= servers.len(),
            first_server(servers@.subrange(0, i as int), id@) is None,
        decreases servers.len() - i,
    {
        proof {
            let next = servers@.subrange(0, i + 1);
            assert(next.subrange(0, i as int) =~= servers@.subrange(0, i as int));
            assert(next[i as int] == servers@[i as int]);
            lemma_first_server(servers@, id@, i + 1);
        }
        if text_equals(servers[i].id.as_str(), id) {
            return match &servers[i].transport {
                McpTransport::StreamableHttp { url: _, bearer_credential_ref } => {
                    match bearer_credential_ref {
                        Some(credential_ref) => Ok((i, credential_ref.clone())),
                        None => Err("MCP server does not require configuration".to_owned()),
                    }
                },
                McpTransport::Stdio => Err(
                    "Native MCP does not support stdio transport".to_owned(),
                ),
            };
        }
        i = i + 1;
    }
    assert(servers@.subrange(0, servers@.len() as int) =~= servers@);
    Err(concat2("MCP server not found: ", id))
}

/// The token that a plugin's server is connected with.
pub open spec fn connection_token(
    plugin_name: Seq<char>,
    server: McpServerDeclaration,
    credentials: Seq<CredentialView>,
) -> Result<Option<Seq<char>>, Seq<char>> {
    match server.transport {
        McpTransport::StreamableHttp { url, bearer_credential_ref } => match optional_text(
            bearer_credential_ref,
        ) {
            None => Ok(None),
            Some(credential_ref) => match token(credentials, (plugin_name, credential_ref)) {
                Some(text) => Ok(Some(text)),
                None => Err(
                    "MCP credential is not configured: pluginName="@ + plugin_name
                        + " credentialRef="@ + credential_ref,
                ),
            },
        },
        McpTransport::Stdio => Err(
            "Native MCP does not support stdio transport: pluginName="@ + plugin_name
                + " serverId="@ + server.id@,
        ),
    }
}

fn stdio_error(plugin_name: &str, server_id: &str) -> (result: String)
    ensures
        result@ == "Native MCP does not support stdio transport: pluginName="@ + plugin_name@
            + " serverId="@ + server_id@,
{
    let mut message = concat3(
        "Native MCP does not support stdio transport: pluginName=",
        plugin_name,
        " serverId=",
    );
    message.append(server_id);
    message
}

/// The token that a plugin's server is connected with.
pub fn bearer_token_for(
    plugin_name: &str,
    server: &McpServerDeclaration,
    credentials: &McpCredentialStore,
) -> (result: Result<Option<String>, String>)
    ensures
        agrees(
            result,
            |text: Option<String>| optional_text(text),
            connection_token(plugin_name@, *server, credential_views(credentials.credentials@)),
        ),
{
    match &server.transport {
        McpTransport::StreamableHttp { url: _, bearer_credential_ref } => {
            match bearer_credential_ref {
                None => Ok(None),
                Some(credential_ref) => match credentials.get(
                    plugin_name,
                    credential_ref.as_str(),
                ) {
                    Some(text) => Ok(Some(text.to_owned())),
                    None => {
                        let mut message = concat3(
                            "MCP credential is not configured: pluginName=",
                            plugin_name,
                            " credentialRef=",
                        );
                        message.append(credential_ref.as_str());
                        Err(message)
                    },
                },
            }
        },
        McpTransport::Stdio => Err(stdio_error(plugin_name, server.id.as_str())),
    }
}

/// A server is shown as it is declared: by its plugin, with its endpoint and its tools. It is ready
/// exactly where its plugin is enabled, it is reached over HTTP, and the credential that it names, if
/// any, has a token; it can be configured exactly where it names one.
pub proof fn law_servers_are_shown_as_declared(
    descriptor: PluginDescriptor,
    server: McpServerDeclaration,
    credentials: Seq<CredentialView>,
    shown: NativeMcpServer,
)
    requires
        shown@ == projected(descriptor, server, credentials),
    ensures
        shown.plugin_name@ == descriptor.id@,
        shown.plugin_display_name@ == descriptor.name@,
        shown.server_id@ == server.id@,
        shown.plugin_enabled == descriptor.enabled,
        texts(shown.tool_names@) == texts(server.tool_names@),
        match server.transport {
            McpTransport::Stdio => {
                &&& shown.transport is Stdio
                &&& shown.endpoint is None
                &&& !shown.configurable
                &&& shown.configured
                &&& shown.status is Unsupported <==> descriptor.enabled
                &&& shown.status is Disabled <==> !descriptor.enabled
            },
            McpTransport::StreamableHttp { url, bearer_credential_ref } => {
                let missing = bearer_credential_ref matches Some(name) && token(
                    credentials,
                    (descriptor.id@, name@),
                ) is None;
                &&& shown.transport is StreamableHttp
                &&& shown.endpoint matches Some(endpoint) && endpoint@ == url@
                &&& shown.configurable <==> bearer_credential_ref is Some
                &&& shown.configured <==> !missing
                &&& shown.status is Disabled <==> !descriptor.enabled
                &&& shown.status is Ready <==> descriptor.enabled && !missing
                &&& shown.status is NeedsConfiguration <==> descriptor.enabled && missing
            },
        },
{
}

/// What is wrong with a plugin is told with its name, its path and the message, each cut to its
/// bound, behind what was told before; nothing more is told once there is no room.
pub proof fn law_what_is_wrong_is_told(
    diagnostics: Seq<DiagnosticView>,
    code: Seq<char>,
    descriptor: PluginDescriptor,
    message: Seq<char>,
)
    ensures
        ({
            let after = with_diagnostic(diagnostics, code, descriptor, message);
            &&& diagnostics.len() >= MAX_PLUGIN_DIAGNOSTICS ==> after == diagnostics
            &&& diagnostics.len() < MAX_PLUGIN_DIAGNOSTICS ==> after.len() == diagnostics.len() + 1
                && after.subrange(0, diagnostics.len() as int) == diagnostics && {
                let told = after[diagnostics.len() as int];
                &&& told.code == code
                &&& descriptor.id@.len() <= 128 ==> told.plugin_name == descriptor.id@
                &&& descriptor.path@.len() <= 1024 ==> told.path == descriptor.path@
                &&& message.len() <= 1024 ==> told.message == message
                &&& told.message.len() <= 1024 && told.path.len() <= 1024 && told.plugin_name.len()
                    <= 128
            }
        }),
{
    let after = with_diagnostic(diagnostics, code, descriptor, message);
    if diagnostics.len() < MAX_PLUGIN_DIAGNOSTICS {
        assert(after.subrange(0, diagnostics.len() as int) =~= diagnostics);
    }
}

/// Whether the plugin at a place is the first with a name.
pub open spec fn first_named(descriptors: Seq<PluginDescriptor>, id: Seq<char>, at: int) -> bool {
    &&& 0 <= at < descriptors.len()
    &&& descriptors[at].id@ == id
    &&& forall|k: int| 0 <= k < at ==> (#[trigger] descriptors[k]).id@ != id
}

proof fn lemma_named_plugin(descriptors: Seq<PluginDescriptor>, id: Seq<char>)
    ensures
        match first_plugin(descriptors, id) {
            Some(at) => first_named(descriptors, id, at),
            None => forall|k: int|
                0 <= k < descriptors.len() ==> (#[trigger] descriptors[k]).id@ != id,
        },
    decreases descriptors.len(),
{
    if descriptors.len() > 0 {
        let n = descriptors.len() - 1;
        let init = descriptors.subrange(0, n);
        lemma_named_plugin(init, id);
        assert forall|k: int| 0 <= k < n implies #[trigger] init[k] == descriptors[k] by {}
        assert(forall|k: int| 0 <= k < n ==> #[trigger] descriptors[k] == init[k]);
    }
}

/// The token of a plugin is configured exactly where the token is sound and the first plugin of that
/// name is enabled and has no errors.
pub proof fn law_enabled_plugins_are_configured(
    token_valid: bool,
    name: Seq<char>,
    descriptors: Seq<PluginDescriptor>,
    at: int,
)
    ensures
        configured_plugin(token_valid, name, descriptors) == Ok::<int, Seq<char>>(at) <==> token_valid
            && first_named(descriptors, name, at) && descriptors[at].enabled
            && descriptors[at].errors@.len() == 0,
{
    lemma_named_plugin(descriptors, name);
    if first_plugin(descriptors, name) is Some {
        let found = first_plugin(descriptors, name)->0;
        if first_named(descriptors, name, at) {
            if found < at {
                assert(descriptors[found].id@ != name);
            }
            if at < found {
                assert(descriptors[at].id@ != name);
            }
        }
    } else if first_named(descriptors, name, at) {
        assert(descriptors[at].id@ != name);
    }
}

/// Whether the server at a place is the first with an identity.
pub open spec fn first_declared(servers: Seq<McpServerDeclaration>, id: Seq<char>, at: int) -> bool {
    &&& 0 <= at < servers.len()
    &&& servers[at].id@ == id
    &&& forall|k: int| 0 <= k < at ==> (#[trigger] servers[k]).id@ != id
}

proof fn lemma_declared_server(servers: Seq<McpServerDeclaration>, id: Seq<char>)
    ensures
        match first_server(servers, id) {
            Some(at) => first_declared(servers, id, at),
            None => forall|k: int| 0 <= k < servers.len() ==> (#[trigger] servers[k]).id@ != id,
        },
    decreases servers.len(),
{
    if servers.len() > 0 {
        let n = servers.len() - 1;
        let init = servers.subrange(0, n);
        lemma_declared_server(init, id);
        assert forall|k: int| 0 <= k < n implies #[trigger] init[k] == servers[k] by {}
        assert(forall|k: int| 0 <= k < n ==> #[trigger] servers[k] == init[k]);
    }
}

/// A server is configured exactly where the first of its identity is reached over HTTP and names a
/// credential, and it is that credential that is set.
pub proof fn law_servers_that_name_a_credential_are_configured(
    servers: Seq<McpServerDeclaration>,
    id: Seq<char>,
    at: int,
    credential: Seq<char>,
)
    ensures
        configured_server(servers, id) == Ok::<(int, Seq<char>), Seq<char>>((at, credential))
            <==> first_declared(servers, id, at) && (servers[at].transport matches
            McpTransport::StreamableHttp { url: _, bearer_credential_ref } && (
        bearer_credential_ref matches Some(name) && name@ == credential)),
{
    lemma_declared_server(servers, id);
    if first_server(servers, id) is Some {
        let found = first_server(servers, id)->0;
        if first_declared(servers, id, at) {
            if found < at {
                assert(servers[found].id@ != id);
            }
            if at < found {
                assert(servers[at].id@ != id);
            }
        }
    } else if first_declared(servers, id, at) {
        assert(servers[at].id@ != id);
    }
}

/// A connection is made exactly over HTTP and with the token of the credential that is named, and
/// without one where none is named.
pub proof fn law_connections_carry_their_token(
    plugin: Seq<char>,
    server: McpServerDeclaration,
    credentials: Seq<CredentialView>,
)
    ensures
        match server.transport {
            McpTransport::Stdio => connection_token(plugin, server, credentials) is Err,
            McpTransport::StreamableHttp { url: _, bearer_credential_ref } => match bearer_credential_ref {
                None => connection_token(plugin, server, credentials) == Ok::<
                    Option<Seq<char>>,
                    Seq<char>,
                >(None),
                Some(name) => {
                    &&& connection_token(plugin, server, credentials) is Ok <==> token(
                        credentials,
                        (plugin, name@),
                    ) is Some
                    &&& connection_token(plugin, server, credentials) matches Ok(carried)
                        ==> carried == token(credentials, (plugin, name@))
                },
            },
        },
{
}

} // verus!
