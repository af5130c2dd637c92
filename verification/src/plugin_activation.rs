//! What the enabled plugins activate: a plugin is taken in whole, or set apart whole with the
//! reason.

use crate::mcp::{descriptor_error, require_valid_descriptor, PluginDescriptor};
use crate::observation_cas::agrees;
use crate::text::{
    clone_texts, concat2, concat3, contains_text, copy_optional, decimal, decimal_text, lists,
    optional_text, text_equals, texts,
};
use vstd::prelude::*;

verus! {

/// What looking up a file of a plugin came to.
#[derive(Debug)]
pub enum PathLookup {
    /// The file at `path` could not be found, for the given reason.
    Failed { path: String, error: String },
    /// The file is at `path`.
    Found { path: String, is_file: bool, parent: Option<String> },
}

/// An MCP server that a plugin declares.
#[derive(Debug)]
pub struct BoundServer {
    pub id: String,
    pub is_stdio: bool,
    /// The names of the tools that the server was bound with, or why it could not be bound.
    pub binding: Result<Vec<String>, String>,
}

/// A plugin's package with what its files came to.
#[derive(Debug)]
pub struct PluginPackage {
    pub name: String,
    pub skills: Vec<PathLookup>,
    pub cli: Vec<PathLookup>,
    /// The handlers of the package's hooks, where it has hooks, or why they could not be loaded.
    pub hooks: Option<Result<Vec<String>, String>>,
    /// The servers of each file of declarations, or why it could not be loaded.
    pub declarations: Vec<Result<Vec<BoundServer>, String>>,
    /// Why the package's tools cannot be registered beside the tools of the packages before it.
    pub registration: Result<(), String>,
}

/// Where the manifest of a package is, from the root of the package.
pub const PLUGIN_MANIFEST_PATH: &'static str = ".centaeris-plugin/plugin.json";

/// What the handlers of a package's hooks are loaded from: its manifest alone, and no plugin is
/// trusted but the package itself.
#[derive(Debug)]
pub struct HookSource {
    pub manifest_path: &'static str,
    pub trusted_plugins: Vec<String>,
}

/// What the handlers of a package's hooks are loaded from; nothing for a package without hooks.
pub fn hook_source(package_name: &str, hook_count: usize) -> (result: Option<HookSource>)
    ensures
        match result {
            None => hook_count == 0,
            Some(source) => {
                &&& hook_count > 0
                &&& source.manifest_path@ == ".centaeris-plugin/plugin.json"@
                &&& texts(source.trusted_plugins@) == seq![package_name@]
            },
        },
{
    if hook_count == 0 {
        return None;
    }
    let mut trusted_plugins: Vec<String> = Vec::new();
    trusted_plugins.push(package_name.to_owned());
    assert(texts(trusted_plugins@) =~= seq![package_name@]);
    Some(HookSource { manifest_path: PLUGIN_MANIFEST_PATH, trusted_plugins })
}

/// A source of skills. One that a plugin brings is enabled, and belongs to no workspace.
#[derive(Debug)]
pub struct SkillSource {
    pub source_id: String,
    pub is_file: bool,
    pub path: String,
    pub workspace_root: Option<String>,
    pub enabled: bool,
}

pub struct SkillSourceView {
    pub source_id: Seq<char>,
    pub is_file: bool,
    pub path: Seq<char>,
    pub workspace_root: Option<Seq<char>>,
    pub enabled: bool,
}

impl View for SkillSource {
    type V = SkillSourceView;

    open spec fn view(&self) -> SkillSourceView {
        SkillSourceView {
            source_id: self.source_id@,
            is_file: self.is_file,
            path: self.path@,
            workspace_root: optional_text(self.workspace_root),
            enabled: self.enabled,
        }
    }
}

/// What a list of sources of skills holds.
pub open spec fn skill_views(skills: Seq<SkillSource>) -> Seq<SkillSourceView> {
    Seq::new(skills.len(), |i: int| skills[i]@)
}

/// What the plugins that were taken in activate.
#[derive(Debug)]
pub struct PluginActivation {
    /// The identities of the enabled plugins that were looked at.
    pub descriptor_ids: Vec<String>,
    /// The names of the packages that were taken in.
    pub package_names: Vec<String>,
    pub roots: Vec<String>,
    /// The names of the tools.
    pub contracts: Vec<String>,
    pub skill_sources: Vec<SkillSource>,
    pub cli_directories: Vec<String>,
    pub hook_handlers: Vec<String>,
}

pub struct ActivationView {
    pub descriptor_ids: Seq<Seq<char>>,
    pub package_names: Seq<Seq<char>>,
    pub roots: Seq<Seq<char>>,
    pub contracts: Seq<Seq<char>>,
    pub skill_sources: Seq<SkillSourceView>,
    pub cli_directories: Seq<Seq<char>>,
    pub hook_handlers: Seq<Seq<char>>,
}

impl View for PluginActivation {
    type V = ActivationView;

    open spec fn view(&self) -> ActivationView {
        ActivationView {
            descriptor_ids: texts(self.descriptor_ids@),
            package_names: texts(self.package_names@),
            roots: texts(self.roots@),
            contracts: texts(self.contracts@),
            skill_sources: skill_views(self.skill_sources@),
            cli_directories: texts(self.cli_directories@),
            hook_handlers: texts(self.hook_handlers@),
        }
    }
}

/// What one package activates.
pub struct StagedView {
    pub contracts: Seq<Seq<char>>,
    pub skill_sources: Seq<SkillSourceView>,
    pub cli_directories: Seq<Seq<char>>,
    pub hook_handlers: Seq<Seq<char>>,
}

/// The sources of the first `n` skills of a package.
pub open spec fn staged_skills(name: Seq<char>, skills: Seq<PathLookup>, n: nat) -> Result<
    Seq<SkillSourceView>,
    Seq<char>,
>
    decreases n,
{
    if n == 0 {
        Ok(Seq::empty())
    } else {
        let i = n - 1;
        match staged_skills(name, skills, i as nat) {
            Err(error) => Err(error),
            Ok(before) => match skills[i] {
                PathLookup::Failed { path, error } => Err(
                    "canonicalize plugin Skill failed "@ + path@ + ": "@ + error@,
                ),
                PathLookup::Found { path, is_file, parent } => Ok(
                    before.push(
                        SkillSourceView {
                            source_id: "plugin."@ + name + "."@ + decimal(i as nat),
                            is_file,
                            path: path@,
                            workspace_root: None,
                            enabled: true,
                        },
                    ),
                ),
            },
        }
    }
}

/// `list` with `text` added where it is not there yet.
pub open spec fn with_text(list: Seq<Seq<char>>, text: Seq<char>) -> Seq<Seq<char>> {
    if list.contains(text) {
        list
    } else {
        list.push(text)
    }
}

/// `list` with each of `more` added where it is not there yet.
pub open spec fn with_texts(list: Seq<Seq<char>>, more: Seq<Seq<char>>) -> Seq<Seq<char>>
    decreases more.len(),
{
    if more.len() == 0 {
        list
    } else {
        with_text(with_texts(list, more.subrange(0, more.len() - 1)), more[more.len() - 1])
    }
}

/// The directories of the first `n` command line programs of a package.
pub open spec fn staged_cli(cli: Seq<PathLookup>, n: nat) -> Result<Seq<Seq<char>>, Seq<char>>
    decreases n,
{
    if n == 0 {
        Ok(Seq::empty())
    } else {
        let i = n - 1;
        match staged_cli(cli, i as nat) {
            Err(error) => Err(error),
            Ok(before) => match cli[i] {
                PathLookup::Failed { path, error } => Err(
                    "canonicalize plugin CLI failed "@ + path@ + ": "@ + error@,
                ),
                PathLookup::Found { path, is_file, parent } => if !is_file {
                    Err("plugin CLI is not a file: "@ + path@)
                } else {
                    match parent {
                        None => Err("plugin CLI has no parent: "@ + path@),
                        Some(directory) => Ok(with_text(before, directory@)),
                    }
                },
            },
        }
    }
}

/// The names of the tools of the first `n` servers of a file of declarations.
pub open spec fn staged_servers(name: Seq<char>, servers: Seq<BoundServer>, n: nat) -> Result<
    Seq<Seq<char>>,
    Seq<char>,
>
    decreases n,
{
    if n == 0 {
        Ok(Seq::empty())
    } else {
        let i = n - 1;
        match staged_servers(name, servers, i as nat) {
            Err(error) => Err(error),
            Ok(before) => if servers[i].is_stdio {
                Err(
                    "Native MCP does not support stdio transport: pluginName="@ + name
                        + " serverId="@ + servers[i].id@,
                )
            } else {
                match servers[i].binding {
                    Err(error) => Err(error@),
                    Ok(tools) => Ok(before + texts(tools@)),
                }
            },
        }
    }
}

/// The names of the tools of the first `n` files of declarations of a package.
pub open spec fn staged_declarations(
    name: Seq<char>,
    declarations: Seq<Result<Vec<BoundServer>, String>>,
    n: nat,
) -> Result<Seq<Seq<char>>, Seq<char>>
    decreases n,
{
    if n == 0 {
        Ok(Seq::empty())
    } else {
        let i = n - 1;
        match staged_declarations(name, declarations, i as nat) {
            Err(error) => Err(error),
            Ok(before) => match declarations[i] {
                Err(error) => Err(error@),
                Ok(servers) => match staged_servers(name, servers@, servers@.len()) {
                    Err(error) => Err(error),
                    Ok(tools) => Ok(before + tools),
                },
            },
        }
    }
}

/// What a plugin's package activates, or why the plugin is set apart.
pub open spec fn staged(
    package_names: Seq<Seq<char>>,
    descriptor: PluginDescriptor,
    package: Result<PluginPackage, String>,
) -> Result<StagedView, Seq<char>> {
    match descriptor_error(descriptor) {
        Some(error) => Err(error),
        None => match package {
            Err(error) => Err(error@),
            Ok(package) => staged_package(package_names, descriptor, package),
        },
    }
}

/// What a package that could be read activates, or why the plugin is set apart.
pub open spec fn staged_package(
    package_names: Seq<Seq<char>>,
    descriptor: PluginDescriptor,
    package: PluginPackage,
) -> Result<StagedView, Seq<char>> {
    if package.name@ != descriptor.id@ {
        Err(
            "plugin descriptor id does not match package name: descriptorId="@ + descriptor.id@
                + " packageName="@ + package.name@,
        )
    } else if package_names.contains(package.name@) {
        Err("duplicate activated plugin name: "@ + package.name@)
    } else {
        match staged_skills(package.name@, package.skills@, package.skills@.len()) {
            Err(error) => Err(error),
            Ok(skill_sources) => match staged_cli(package.cli@, package.cli@.len()) {
                Err(error) => Err(error),
                Ok(cli_directories) => match package.hooks {
                    Some(Err(error)) => Err(error@),
                    _ => match staged_declarations(
                        package.name@,
                        package.declarations@,
                        package.declarations@.len(),
                    ) {
                        Err(error) => Err(error),
                        Ok(contracts) => match package.registration {
                            Err(error) => Err(error@),
                            Ok(_) => Ok(
                                StagedView {
                                    contracts,
                                    skill_sources,
                                    cli_directories,
                                    hook_handlers: match package.hooks {
                                        Some(Ok(handlers)) => texts(handlers@),
                                        _ => Seq::empty(),
                                    },
                                },
                            ),
                        },
                    },
                },
            },
        }
    }
}

/// What became of a plugin.
#[derive(Debug)]
pub enum Admission {
    /// It is not enabled.
    Disabled,
    /// It was set apart, for the given reason.
    Isolated(String),
    /// It was taken in.
    Activated,
}

/// What became of a plugin.
pub enum AdmissionView {
    Disabled,
    Isolated(Seq<char>),
    Activated,
}

impl View for Admission {
    type V = AdmissionView;

    open spec fn view(&self) -> AdmissionView {
        match self {
            Admission::Disabled => AdmissionView::Disabled,
            Admission::Isolated(error) => AdmissionView::Isolated(error@),
            Admission::Activated => AdmissionView::Activated,
        }
    }
}

/// What is activated after one more plugin, and what became of the plugin.
pub open spec fn admitted(
    activation: ActivationView,
    descriptor: PluginDescriptor,
    package: Result<PluginPackage, String>,
) -> (ActivationView, AdmissionView) {
    if !descriptor.enabled {
        (activation, AdmissionView::Disabled)
    } else if activation.descriptor_ids.contains(descriptor.id@) {
        (activation, AdmissionView::Isolated("duplicate plugin catalog id"@))
    } else {
        let seen = ActivationView {
            descriptor_ids: activation.descriptor_ids.push(descriptor.id@),
            ..activation
        };
        match staged(activation.package_names, descriptor, package) {
            Err(error) => (seen, AdmissionView::Isolated(error)),
            Ok(new) => (
                ActivationView {
                    package_names: seen.package_names.push(descriptor.id@),
                    roots: seen.roots.push(descriptor.path@),
                    contracts: seen.contracts + new.contracts,
                    skill_sources: seen.skill_sources + new.skill_sources,
                    cli_directories: with_texts(seen.cli_directories, new.cli_directories),
                    hook_handlers: seen.hook_handlers + new.hook_handlers,
                    ..seen
                },
                AdmissionView::Activated,
            ),
        }
    }
}

proof fn lemma_lists(list: Seq<String>, text: Seq<char>)
    ensures
        lists(list, text) == texts(list).contains(text),
{
    if lists(list, text) {
        let i = choose|i: int| 0 <= i < list.len() && (#[trigger] list[i])@ == text;
        assert(texts(list)[i] == text);
    }
    if texts(list).contains(text) {
        let i = choose|i: int| 0 <= i < texts(list).len() && texts(list)[i] == text;
        assert(list[i]@ == text);
    }
}

fn add_text(list: &mut Vec<String>, text: &str)
    ensures
        texts(final(list)@) == with_text(texts(old(list)@), text@),
{
    proof {
        lemma_lists(list@, text@);
    }
    let ghost before = texts(list@);
    if !contains_text(list, text) {
        list.push(text.to_owned());
        assert(texts(list@) =~= before.push(text@));
    }
}

fn add_texts(list: &mut Vec<String>, more: &Vec<String>)
    ensures
        texts(final(list)@) == with_texts(texts(old(list)@), texts(more@)),
{
    let ghost before = texts(list@);
    let ghost all = texts(more@);
    let mut i: usize = 0;
    assert(all.subrange(0, 0) =~= Seq::empty());
    while i < more.len()
        invariant
            i <= more.len(),
            all == texts(more@),
            texts(list@) == with_texts(before, all.subrange(0, i as int)),
        decreases more.len() - i,
    {
        proof {
            let next = all.subrange(0, i + 1);
            assert(next.subrange(0, i as int) =~= all.subrange(0, i as int));
            assert(next[i as int] == more@[i as int]@);
        }
        add_text(list, more[i].as_str());
        i = i + 1;
    }
    assert(all.subrange(0, all.len() as int) =~= all);
}

fn append_texts(list: &mut Vec<String>, more: &Vec<String>)
    ensures
        texts(final(list)@) == texts(old(list)@) + texts(more@),
{
    let ghost before = texts(list@);
    let mut i: usize = 0;
    while i < more.len()
        invariant
            i <= more.len(),
            list.len() == before.len() + i,
            forall|j: int| 0 <= j < before.len() ==> (#[trigger] list@[j])@ == before[j],
            forall|j: int|
                before.len() <= j < list.len() ==> (#[trigger] list@[j])@ == more@[j
                    - before.len()]@,
        decreases more.len() - i,
    {
        list.push(more[i].clone());
        i = i + 1;
    }
    assert(texts(list@) =~= before + texts(more@));
}

fn lookup_error(text: &str, path: &str, error: &str) -> (result: String)
    ensures
        result@ == text@ + path@ + ": "@ + error@,
{
    let mut message = concat3(text, path, ": ");
    message.append(error);
    message
}

fn stage_skills(name: &str, skills: &Vec<PathLookup>) -> (result: Result<Vec<SkillSource>, String>)
    ensures
        agrees(
            result,
            |sources: Vec<SkillSource>| skill_views(sources@),
            staged_skills(name@, skills@, skills@.len()),
        ),
{
    let mut sources: Vec<SkillSource> = Vec::new();
    let mut i: usize = 0;
    assert(skill_views(sources@) =~= Seq::empty());
    while i < skills.len()
        invariant
            i <= skills.len(),
            staged_skills(name@, skills@, i as nat) == Ok::<Seq<SkillSourceView>, Seq<char>>(
                skill_views(sources@),
            ),
        decreases skills.len() - i,
    {
        let ghost before = skill_views(sources@);
        proof {
            if staged_skills(name@, skills@, (i + 1) as nat) is Err {
                lemma_skills_error(name@, skills@, (i + 1) as nat, skills@.len());
            }
        }
        match &skills[i] {
            PathLookup::Failed { path, error } => {
                return Err(
                    lookup_error(
                        "canonicalize plugin Skill failed ",
                        path.as_str(),
                        error.as_str(),
                    ),
                );
            },
            PathLookup::Found { path, is_file, parent: _ } => {
                let mut source_id = concat3("plugin.", name, ".");
                let number = decimal_text(i as u64);
                source_id.append(number.as_str());
                let source = SkillSource {
                    source_id,
                    is_file: *is_file,
                    path: path.clone(),
                    workspace_root: None,
                    enabled: true,
                };
                let ghost view = source@;
                sources.push(source);
                assert(skill_views(sources@) =~= before.push(view));
            },
        }
        i = i + 1;
    }
    Ok(sources)
}

proof fn lemma_skills_error(name: Seq<char>, skills: Seq<PathLookup>, k: nat, n: nat)
    requires
        k <= n,
        staged_skills(name, skills, k) is Err,
    ensures
        staged_skills(name, skills, n) == staged_skills(name, skills, k),
    decreases n,
{
    if k < n {
        lemma_skills_error(name, skills, k, (n - 1) as nat);
    }
}

proof fn lemma_cli_error(cli: Seq<PathLookup>, k: nat, n: nat)
    requires
        k <= n,
        staged_cli(cli, k) is Err,
    ensures
        staged_cli(cli, n) == staged_cli(cli, k),
    decreases n,
{
    if k < n {
        lemma_cli_error(cli, k, (n - 1) as nat);
    }
}

proof fn lemma_servers_error(name: Seq<char>, servers: Seq<BoundServer>, k: nat, n: nat)
    requires
        k <= n,
        staged_servers(name, servers, k) is Err,
    ensures
        staged_servers(name, servers, n) == staged_servers(name, servers, k),
    decreases n,
{
    if k < n {
        lemma_servers_error(name, servers, k, (n - 1) as nat);
    }
}

proof fn lemma_declarations_error(
    name: Seq<char>,
    declarations: Seq<Result<Vec<BoundServer>, String>>,
    k: nat,
    n: nat,
)
    requires
        k <= n,
        staged_declarations(name, declarations, k) is Err,
    ensures
        staged_declarations(name, declarations, n) == staged_declarations(name, declarations, k),
    decreases n,
{
    if k < n {
        lemma_declarations_error(name, declarations, k, (n - 1) as nat);
    }
}

fn stage_cli(cli: &Vec<PathLookup>) -> (result: Result<Vec<String>, String>)
    ensures
        agrees(
            result,
            |directories: Vec<String>| texts(directories@),
            staged_cli(cli@, cli@.len()),
        ),
{
    let mut directories: Vec<String> = Vec::new();
    let mut i: usize = 0;
    assert(texts(directories@) =~= Seq::empty());
    while i < cli.len()
        invariant
            i <= cli.len(),
            staged_cli(cli@, i as nat) == Ok::<Seq<Seq<char>>, Seq<char>>(texts(directories@)),
        decreases cli.len() - i,
    {
        proof {
            if staged_cli(cli@, (i + 1) as nat) is Err {
                lemma_cli_error(cli@, (i + 1) as nat, cli@.len());
            }
        }
        match &cli[i] {
            PathLookup::Failed { path, error } => {
                return Err(
                    lookup_error(
                        "canonicalize plugin CLI failed ",
                        path.as_str(),
                        error.as_str(),
                    ),
                );
            },
            PathLookup::Found { path, is_file, parent } => {
                if !*is_file {
                    return Err(concat2("plugin CLI is not a file: ", path.as_str()));
                }
                match parent {
                    None => {
                        return Err(concat2("plugin CLI has no parent: ", path.as_str()));
                    },
                    Some(directory) => {
                        add_text(&mut directories, directory.as_str());
                    },
                }
            },
        }
        i = i + 1;
    }
    Ok(directories)
}

fn stage_servers(name: &str, servers: &Vec<BoundServer>) -> (result: Result<Vec<String>, String>)
    ensures
        agrees(
            result,
            |tools: Vec<String>| texts(tools@),
            staged_servers(name@, servers@, servers@.len()),
        ),
{
    let mut tools: Vec<String> = Vec::new();
    let mut i: usize = 0;
    assert(texts(tools@) =~= Seq::empty());
    while i < servers.len()
        invariant
            i <= servers.len(),
            staged_servers(name@, servers@, i as nat) == Ok::<Seq<Seq<char>>, Seq<char>>(
                texts(tools@),
            ),
        decreases servers.len() - i,
    {
        proof {
            if staged_servers(name@, servers@, (i + 1) as nat) is Err {
                lemma_servers_error(name@, servers@, (i + 1) as nat, servers@.len());
            }
        }
        let server = &servers[i];
        if server.is_stdio {
            let mut message = concat3(
                "Native MCP does not support stdio transport: pluginName=",
                name,
                " serverId=",
            );
            message.append(server.id.as_str());
            return Err(message);
        }
        match &server.binding {
            Err(error) => {
                return Err(error.clone());
            },
            Ok(names) => {
                append_texts(&mut tools, names);
            },
        }
        i = i + 1;
    }
    Ok(tools)
}

fn stage_declarations(name: &str, declarations: &Vec<Result<Vec<BoundServer>, String>>) -> (result:
    Result<Vec<String>, String>)
    ensures
        agrees(
            result,
            |tools: Vec<String>| texts(tools@),
            staged_declarations(name@, declarations@, declarations@.len()),
        ),
{
    let mut tools: Vec<String> = Vec::new();
    let mut i: usize = 0;
    assert(texts(tools@) =~= Seq::empty());
    while i < declarations.len()
        invariant
            i <= declarations.len(),
            staged_declarations(name@, declarations@, i as nat) == Ok::<
                Seq<Seq<char>>,
                Seq<char>,
            >(texts(tools@)),
        decreases declarations.len() - i,
    {
        proof {
            if staged_declarations(name@, declarations@, (i + 1) as nat) is Err {
                lemma_declarations_error(
                    name@,
                    declarations@,
                    (i + 1) as nat,
                    declarations@.len(),
                );
            }
        }
        match &declarations[i] {
            Err(error) => {
                return Err(error.clone());
            },
            Ok(servers) => match stage_servers(name, servers) {
                Err(error) => {
                    return Err(error);
                },
                Ok(names) => {
                    append_texts(&mut tools, &names);
                },
            },
        }
        i = i + 1;
    }
    Ok(tools)
}

/// What one package activates.
struct StagedPackage {
    contracts: Vec<String>,
    skill_sources: Vec<SkillSource>,
    cli_directories: Vec<String>,
    hook_handlers: Vec<String>,
}

impl StagedPackage {
    spec fn staged_view(&self) -> StagedView {
        StagedView {
            contracts: texts(self.contracts@),
            skill_sources: skill_views(self.skill_sources@),
            cli_directories: texts(self.cli_directories@),
            hook_handlers: texts(self.hook_handlers@),
        }
    }
}

fn stage_package(
    package_names: &Vec<String>,
    descriptor: &PluginDescriptor,
    package: &PluginPackage,
) -> (result: Result<StagedPackage, String>)
    ensures
        agrees(
            result,
            |new: StagedPackage| new.staged_view(),
            staged_package(texts(package_names@), *descriptor, *package),
        ),
{
    if !text_equals(package.name.as_str(), descriptor.id.as_str()) {
        let mut message = concat3(
            "plugin descriptor id does not match package name: descriptorId=",
            descriptor.id.as_str(),
            " packageName=",
        );
        message.append(package.name.as_str());
        return Err(message);
    }
    proof {
        lemma_lists(package_names@, package.name@);
    }
    if contains_text(package_names, package.name.as_str()) {
        return Err(concat2("duplicate activated plugin name: ", package.name.as_str()));
    }
    let skill_sources = match stage_skills(package.name.as_str(), &package.skills) {
        Ok(sources) => sources,
        Err(error) => {
            return Err(error);
        },
    };
    let cli_directories = match stage_cli(&package.cli) {
        Ok(directories) => directories,
        Err(error) => {
            return Err(error);
        },
    };
    let hook_handlers = match &package.hooks {
        None => Vec::new(),
        Some(loaded) => match loaded {
            Ok(handlers) => clone_texts(handlers),
            Err(error) => {
                return Err(error.clone());
            },
        },
    };
    assert(package.hooks is None ==> texts(hook_handlers@) =~= Seq::empty());
    let contracts = match stage_declarations(package.name.as_str(), &package.declarations) {
        Ok(contracts) => contracts,
        Err(error) => {
            return Err(error);
        },
    };
    match &package.registration {
        Ok(_) => Ok(StagedPackage { contracts, skill_sources, cli_directories, hook_handlers }),
        Err(error) => Err(error.clone()),
    }
}

impl PluginActivation {
    /// Nothing is activated.
    pub fn new() -> (result: PluginActivation)
        ensures
            result@ == nothing_activated(),
    {
        let result = PluginActivation {
            descriptor_ids: Vec::new(),
            package_names: Vec::new(),
            roots: Vec::new(),
            contracts: Vec::new(),
            skill_sources: Vec::new(),
            cli_directories: Vec::new(),
            hook_handlers: Vec::new(),
        };
        assert(texts(result.roots@) =~= Seq::empty());
        assert(skill_views(result.skill_sources@) =~= Seq::empty());
        result
    }

    /// Takes a plugin in, or sets it apart. `package` is what reading the plugin's package came
    /// to.
    pub fn take_in(
        &mut self,
        descriptor: &PluginDescriptor,
        package: &Result<PluginPackage, String>,
    ) -> (result: Admission)
        ensures
            (final(self)@, result@) == admitted(old(self)@, *descriptor, *package),
    {
        if !descriptor.enabled {
            return Admission::Disabled;
        }
        let ghost start = self@;
        proof {
            lemma_lists(self.descriptor_ids@, descriptor.id@);
        }
        if contains_text(&self.descriptor_ids, descriptor.id.as_str()) {
            return Admission::Isolated("duplicate plugin catalog id".to_owned());
        }
        self.descriptor_ids.push(descriptor.id.clone());
        assert(texts(self.descriptor_ids@) =~= start.descriptor_ids.push(descriptor.id@));
        match require_valid_descriptor(descriptor) {
            Ok(_) => {},
            Err(error) => {
                return Admission::Isolated(error);
            },
        }
        let package = match package {
            Ok(package) => package,
            Err(error) => {
                return Admission::Isolated(error.clone());
            },
        };
        let new = match stage_package(&self.package_names, descriptor, package) {
            Ok(new) => new,
            Err(error) => {
                return Admission::Isolated(error);
            },
        };
        self.package_names.push(package.name.clone());
        assert(texts(self.package_names@) =~= start.package_names.push(descriptor.id@));
        self.roots.push(descriptor.path.clone());
        assert(texts(self.roots@) =~= start.roots.push(descriptor.path@));
        append_texts(&mut self.contracts, &new.contracts);
        append_skills(&mut self.skill_sources, &new.skill_sources);
        add_texts(&mut self.cli_directories, &new.cli_directories);
        append_texts(&mut self.hook_handlers, &new.hook_handlers);
        Admission::Activated
    }
}

fn append_skills(list: &mut Vec<SkillSource>, more: &Vec<SkillSource>)
    ensures
        skill_views(final(list)@) == skill_views(old(list)@) + skill_views(more@),
{
    let ghost before = skill_views(list@);
    let mut i: usize = 0;
    while i < more.len()
        invariant
            i <= more.len(),
            list.len() == before.len() + i,
            forall|j: int| 0 <= j < before.len() ==> (#[trigger] list@[j])@ == before[j],
            forall|j: int|
                before.len() <= j < list.len() ==> (#[trigger] list@[j])@ == more@[j
                    - before.len()]@,
        decreases more.len() - i,
    {
        let source = &more[i];
        list.push(
            SkillSource {
                source_id: source.source_id.clone(),
                is_file: source.is_file,
                path: source.path.clone(),
                workspace_root: copy_optional(&source.workspace_root),
                enabled: source.enabled,
            },
        );
        i = i + 1;
    }
    assert(skill_views(list@) =~= before + skill_views(more@));
}

/// Nothing is activated.
pub open spec fn nothing_activated() -> ActivationView {
    ActivationView {
        descriptor_ids: Seq::empty(),
        package_names: Seq::empty(),
        roots: Seq::empty(),
        contracts: Seq::empty(),
        skill_sources: Seq::empty(),
        cli_directories: Seq::empty(),
        hook_handlers: Seq::empty(),
    }
}

/// What the first `n` plugins activate.
pub open spec fn activated(
    descriptors: Seq<PluginDescriptor>,
    packages: Seq<Result<PluginPackage, String>>,
    n: nat,
) -> ActivationView
    decreases n,
{
    if n == 0 {
        nothing_activated()
    } else {
        admitted(
            activated(descriptors, packages, (n - 1) as nat),
            descriptors[n - 1],
            packages[n - 1],
        ).0
    }
}

/// What the plugins activate. `packages` holds what reading each plugin's package came to.
pub fn activation_from_descriptors(
    descriptors: &Vec<PluginDescriptor>,
    packages: &Vec<Result<PluginPackage, String>>,
) -> (result: PluginActivation)
    requires
        packages.len() == descriptors.len(),
    ensures
        result@ == activated(descriptors@, packages@, descriptors@.len()),
{
    let mut activation = PluginActivation::new();
    let mut i: usize = 0;
    while i < descriptors.len()
        invariant
            i <= descriptors.len(),
            packages.len() == descriptors.len(),
            activation@ == activated(descriptors@, packages@, i as nat),
        decreases descriptors.len() - i,
    {
        let _admission = activation.take_in(&descriptors[i], &packages[i]);
        i = i + 1;
    }
    activation
}

/// A plugin that is set apart or not enabled activates nothing: all that is kept of it is that its
/// identity was seen.
pub proof fn law_isolated_plugins_activate_nothing(
    activation: ActivationView,
    descriptor: PluginDescriptor,
    package: Result<PluginPackage, String>,
)
    requires
        admitted(activation, descriptor, package).1 !is Activated,
    ensures
        ({
            let after = admitted(activation, descriptor, package).0;
            after == ActivationView { descriptor_ids: after.descriptor_ids, ..activation }
        }),
{
}

proof fn lemma_with_texts_unique(list: Seq<Seq<char>>, more: Seq<Seq<char>>)
    requires
        list.no_duplicates(),
    ensures
        with_texts(list, more).no_duplicates(),
    decreases more.len(),
{
    if more.len() > 0 {
        lemma_with_texts_unique(list, more.subrange(0, more.len() - 1));
    }
}

/// However many plugins there are, no package is activated twice, no directory is searched for
/// programs twice, and there is one root for each package.
pub proof fn law_activation_is_unique(
    descriptors: Seq<PluginDescriptor>,
    packages: Seq<Result<PluginPackage, String>>,
    n: nat,
)
    ensures
        activated(descriptors, packages, n).package_names.no_duplicates(),
        activated(descriptors, packages, n).cli_directories.no_duplicates(),
        activated(descriptors, packages, n).descriptor_ids.no_duplicates(),
        activated(descriptors, packages, n).roots.len() == activated(
            descriptors,
            packages,
            n,
        ).package_names.len(),
    decreases n,
{
    if n > 0 {
        law_activation_is_unique(descriptors, packages, (n - 1) as nat);
        let before = activated(descriptors, packages, (n - 1) as nat);
        match staged(before.package_names, descriptors[n - 1], packages[n - 1]) {
            Ok(new) => {
                lemma_with_texts_unique(before.cli_directories, new.cli_directories);
            },
            Err(_) => {},
        }
    }
}

/// The entries of the search path of commands, where plugins bring programs: the directories of
/// the plugins before those that were searched already.
pub fn command_path_entries(cli_directories: &Vec<String>, existing: &Vec<String>) -> (result:
    Option<Vec<String>>)
    ensures
        match result {
            None => cli_directories@.len() == 0,
            Some(entries) => cli_directories@.len() > 0 && texts(entries@) == texts(
                cli_directories@,
            ) + texts(existing@),
        },
{
    if cli_directories.len() == 0 {
        return None;
    }
    let mut entries = clone_texts(cli_directories);
    append_texts(&mut entries, existing);
    Some(entries)
}

/// Whether a skill of a plugin was found.
pub open spec fn skill_found(skill: PathLookup) -> bool {
    skill is Found
}

/// Whether a program of a plugin was found: a file in a directory.
pub open spec fn cli_found(cli: PathLookup) -> bool {
    cli matches PathLookup::Found { path: _, is_file, parent } && is_file && parent is Some
}

/// Whether a server of a plugin can be used: it is reached over HTTP and its tools could be bound.
pub open spec fn server_usable(server: BoundServer) -> bool {
    !server.is_stdio && server.binding is Ok
}

/// Whether a declaration of servers can be used.
pub open spec fn declaration_usable(declaration: Result<Vec<BoundServer>, String>) -> bool {
    declaration matches Ok(servers) && forall|i: int|
        0 <= i < servers@.len() ==> server_usable(#[trigger] servers@[i])
}

/// Whether a source of skills is the one that a plugin has at a place.
pub open spec fn is_skill_of(
    source: SkillSourceView,
    name: Seq<char>,
    i: int,
    skill: PathLookup,
) -> bool {
    skill matches PathLookup::Found { path, is_file, parent: _ } && {
        &&& source.source_id == "plugin."@ + name + "."@ + decimal(i as nat)
        &&& source.path == path@
        &&& source.is_file == is_file
        &&& source.workspace_root is None
        &&& source.enabled
    }
}

proof fn lemma_skills_staged(name: Seq<char>, skills: Seq<PathLookup>, n: nat)
    requires
        n <= skills.len(),
    ensures
        staged_skills(name, skills, n) is Ok <==> forall|i: int|
            0 <= i < n ==> skill_found(#[trigger] skills[i]),
        staged_skills(name, skills, n) matches Ok(list) ==> list.len() == n && forall|i: int|
            0 <= i < n ==> is_skill_of(#[trigger] list[i], name, i, skills[i]),
    decreases n,
{
    if n > 0 {
        let m = (n - 1) as nat;
        lemma_skills_staged(name, skills, m);
        if staged_skills(name, skills, n) is Ok {
            let list = staged_skills(name, skills, n)->Ok_0;
            let before = staged_skills(name, skills, m)->Ok_0;
            assert forall|i: int| 0 <= i < n implies is_skill_of(
                #[trigger] list[i],
                name,
                i,
                skills[i],
            ) by {
                if i < m {
                    assert(list[i] == before[i]);
                }
            }
        }
    }
}

/// Whether a program stands in a directory.
pub open spec fn stands_in_directory(cli: PathLookup, directory: Seq<char>) -> bool {
    cli matches PathLookup::Found { path: _, is_file: _, parent } && (parent matches Some(given)
        && given@ == directory)
}

proof fn lemma_cli_staged(cli: Seq<PathLookup>, n: nat, directory: Seq<char>)
    requires
        n <= cli.len(),
    ensures
        staged_cli(cli, n) is Ok <==> forall|i: int| 0 <= i < n ==> cli_found(#[trigger] cli[i]),
        staged_cli(cli, n) matches Ok(list) ==> list.no_duplicates() && (list.contains(directory)
            <==> exists|i: int| 0 <= i < n && stands_in_directory(#[trigger] cli[i], directory)),
    decreases n,
{
    if n > 0 {
        let m = (n - 1) as nat;
        lemma_cli_staged(cli, m, directory);
        if staged_cli(cli, n) is Ok {
            let before = staged_cli(cli, m)->Ok_0;
            let list = staged_cli(cli, n)->Ok_0;
            let own = cli[m as int]->parent->0@;
            assert(list == with_text(before, own));
            if list.contains(directory) {
                if before.contains(directory) {
                    let i = choose|i: int|
                        0 <= i < m && stands_in_directory(#[trigger] cli[i], directory);
                    assert(0 <= i < n && stands_in_directory(cli[i], directory));
                } else {
                    let k = choose|k: int| 0 <= k < list.len() && list[k] == directory;
                    assert(k == before.len());
                    assert(stands_in_directory(cli[m as int], directory));
                }
            }
            if exists|i: int| 0 <= i < n && stands_in_directory(#[trigger] cli[i], directory) {
                let i = choose|i: int|
                    0 <= i < n && stands_in_directory(#[trigger] cli[i], directory);
                if i < m {
                    assert(before.contains(directory));
                    let k = choose|k: int| 0 <= k < before.len() && before[k] == directory;
                    assert(list[k] == directory);
                } else if !before.contains(own) {
                    assert(list[before.len() as int] == directory);
                }
            }
        }
    }
}

proof fn lemma_servers_staged(name: Seq<char>, servers: Seq<BoundServer>, n: nat)
    requires
        n <= servers.len(),
    ensures
        staged_servers(name, servers, n) is Ok <==> forall|i: int|
            0 <= i < n ==> server_usable(#[trigger] servers[i]),
        staged_servers(name, servers, n) matches Ok(list) ==> forall|i: int, j: int|
            0 <= i < n && 0 <= j < servers[i].binding->Ok_0@.len() ==> list.contains(
                #[trigger] servers[i].binding->Ok_0@[j]@,
            ),
    decreases n,
{
    if n > 0 {
        let m = (n - 1) as nat;
        lemma_servers_staged(name, servers, m);
        if staged_servers(name, servers, n) is Ok {
            let before = staged_servers(name, servers, m)->Ok_0;
            let list = staged_servers(name, servers, n)->Ok_0;
            let own = texts(servers[m as int].binding->Ok_0@);
            assert forall|i: int, j: int|
                0 <= i < n && 0 <= j < servers[i].binding->Ok_0@.len() implies list.contains(
                #[trigger] servers[i].binding->Ok_0@[j]@,
            ) by {
                let tool = servers[i].binding->Ok_0@[j]@;
                if i < m {
                    assert(before.contains(tool));
                    let k = choose|k: int| 0 <= k < before.len() && before[k] == tool;
                    assert(list[k] == tool);
                } else {
                    assert(own[j] == tool);
                    assert(list[before.len() + j] == tool);
                }
            }
        }
    }
}

proof fn lemma_declarations_staged(
    name: Seq<char>,
    declarations: Seq<Result<Vec<BoundServer>, String>>,
    n: nat,
)
    requires
        n <= declarations.len(),
    ensures
        staged_declarations(name, declarations, n) is Ok <==> forall|i: int|
            0 <= i < n ==> declaration_usable(#[trigger] declarations[i]),
        staged_declarations(name, declarations, n) matches Ok(list) ==> forall|d: int, i: int, j: int|
            0 <= d < n && 0 <= i < declarations[d]->Ok_0@.len() && 0 <= j
                < declarations[d]->Ok_0@[i].binding->Ok_0@.len() ==> list.contains(
                #[trigger] declarations[d]->Ok_0@[i].binding->Ok_0@[j]@,
            ),
    decreases n,
{
    if n > 0 {
        let m = (n - 1) as nat;
        lemma_declarations_staged(name, declarations, m);
        if let Ok(servers) = declarations[m as int] {
            lemma_servers_staged(name, servers@, servers@.len());
        }
        if staged_declarations(name, declarations, n) is Ok {
            let before = staged_declarations(name, declarations, m)->Ok_0;
            let list = staged_declarations(name, declarations, n)->Ok_0;
            let servers = declarations[m as int]->Ok_0@;
            let own = staged_servers(name, servers, servers.len())->Ok_0;
            assert forall|d: int, i: int, j: int|
                0 <= d < n && 0 <= i < declarations[d]->Ok_0@.len() && 0 <= j
                    < declarations[d]->Ok_0@[i].binding->Ok_0@.len() implies list.contains(
                #[trigger] declarations[d]->Ok_0@[i].binding->Ok_0@[j]@,
            ) by {
                let tool = declarations[d]->Ok_0@[i].binding->Ok_0@[j]@;
                if d < m {
                    assert(before.contains(tool));
                    let k = choose|k: int| 0 <= k < before.len() && before[k] == tool;
                    assert(list[k] == tool);
                } else {
                    assert(own.contains(tool));
                    let k = choose|k: int| 0 <= k < own.len() && own[k] == tool;
                    assert(list[before.len() + k] == tool);
                }
            }
        }
        assert(declaration_usable(declarations[m as int]) <==> (declarations[m as int] is Ok
            && staged_servers(
            name,
            declarations[m as int]->Ok_0@,
            declarations[m as int]->Ok_0@.len(),
        ) is Ok));
    }
}

/// A plugin is activated exactly where it is enabled, was not seen before and has no errors, its
/// package could be read, has its name and no other has it, and everything that the package brings
/// can be used: its skills are found, its programs are files in a directory, its hooks could be read,
/// its servers are reached over HTTP and bound, and its tools are registered.
pub proof fn law_plugins_are_activated_where_all_can_be_used(
    activation: ActivationView,
    descriptor: PluginDescriptor,
    package: Result<PluginPackage, String>,
)
    ensures
        admitted(activation, descriptor, package).1 is Activated <==> {
            &&& descriptor.enabled
            &&& !activation.descriptor_ids.contains(descriptor.id@)
            &&& descriptor.errors@.len() == 0
            &&& package matches Ok(package) && {
                &&& package.name@ == descriptor.id@
                &&& !activation.package_names.contains(package.name@)
                &&& forall|i: int|
                    0 <= i < package.skills@.len() ==> skill_found(#[trigger] package.skills@[i])
                &&& forall|i: int|
                    0 <= i < package.cli@.len() ==> cli_found(#[trigger] package.cli@[i])
                &&& package.hooks matches Some(hooks) ==> hooks is Ok
                &&& forall|i: int|
                    0 <= i < package.declarations@.len() ==> declaration_usable(
                        #[trigger] package.declarations@[i],
                    )
                &&& package.registration is Ok
            }
        },
        !descriptor.enabled <==> admitted(activation, descriptor, package).1 is Disabled,
{
    if let Ok(package) = package {
        lemma_skills_staged(package.name@, package.skills@, package.skills@.len());
        lemma_cli_staged(package.cli@, package.cli@.len(), Seq::empty());
        lemma_declarations_staged(
            package.name@,
            package.declarations@,
            package.declarations@.len(),
        );
    }
}

/// What an activated plugin brings: its root, its skills under names of their own, the directories of
/// its programs, each once, and its hooks, all behind what was there before.
pub proof fn law_activated_plugins_bring_all_they_have(
    activation: ActivationView,
    descriptor: PluginDescriptor,
    package: PluginPackage,
    directory: Seq<char>,
)
    requires
        admitted(activation, descriptor, Ok(package)).1 is Activated,
    ensures
        ({
            let after = admitted(activation, descriptor, Ok(package)).0;
            &&& after.roots == activation.roots.push(descriptor.path@)
            &&& after.package_names == activation.package_names.push(descriptor.id@)
            &&& after.descriptor_ids == activation.descriptor_ids.push(descriptor.id@)
            &&& after.skill_sources.len() == activation.skill_sources.len()
                + package.skills@.len()
            &&& forall|i: int|
                0 <= i < activation.skill_sources.len() ==> after.skill_sources[i]
                    == #[trigger] activation.skill_sources[i]
            &&& forall|i: int|
                0 <= i < package.skills@.len() ==> is_skill_of(
                    after.skill_sources[activation.skill_sources.len() + i],
                    descriptor.id@,
                    i,
                    #[trigger] package.skills@[i],
                )
            &&& after.hook_handlers == activation.hook_handlers + (match package.hooks {
                Some(Ok(handlers)) => texts(handlers@),
                _ => Seq::empty(),
            })
            &&& after.contracts.subrange(0, activation.contracts.len() as int)
                == activation.contracts
            &&& forall|d: int, i: int, j: int|
                0 <= d < package.declarations@.len() && 0 <= i
                    < package.declarations@[d]->Ok_0@.len() && 0 <= j
                    < package.declarations@[d]->Ok_0@[i].binding->Ok_0@.len()
                    ==> after.contracts.contains(
                    #[trigger] package.declarations@[d]->Ok_0@[i].binding->Ok_0@[j]@,
                )
            &&& after.cli_directories.contains(directory) <==> activation.cli_directories.contains(
                directory,
            ) || exists|i: int|
                0 <= i < package.cli@.len() && stands_in_directory(
                    #[trigger] package.cli@[i],
                    directory,
                )
        }),
{
    let after = admitted(activation, descriptor, Ok(package)).0;
    lemma_skills_staged(package.name@, package.skills@, package.skills@.len());
    lemma_cli_staged(package.cli@, package.cli@.len(), directory);
    let new = staged(activation.package_names, descriptor, Ok(package))->Ok_0;
    assert(after.contracts.subrange(0, activation.contracts.len() as int)
        =~= activation.contracts);
    lemma_with_texts_holds(activation.cli_directories, new.cli_directories, directory);
    lemma_declarations_staged(package.name@, package.declarations@, package.declarations@.len());
    assert forall|d: int, i: int, j: int|
        0 <= d < package.declarations@.len() && 0 <= i < package.declarations@[d]->Ok_0@.len() && 0
            <= j < package.declarations@[d]->Ok_0@[i].binding->Ok_0@.len() implies after.contracts.contains(
        #[trigger] package.declarations@[d]->Ok_0@[i].binding->Ok_0@[j]@,
    ) by {
        let tool = package.declarations@[d]->Ok_0@[i].binding->Ok_0@[j]@;
        assert(new.contracts.contains(tool));
        let k = choose|k: int| 0 <= k < new.contracts.len() && new.contracts[k] == tool;
        assert(after.contracts[activation.contracts.len() + k] == tool);
    }
    assert forall|i: int| 0 <= i < package.skills@.len() implies is_skill_of(
        after.skill_sources[activation.skill_sources.len() + i],
        descriptor.id@,
        i,
        #[trigger] package.skills@[i],
    ) by {
        assert(after.skill_sources[activation.skill_sources.len() + i] == new.skill_sources[i]);
    }
}

proof fn lemma_with_texts_holds(list: Seq<Seq<char>>, more: Seq<Seq<char>>, text: Seq<char>)
    ensures
        with_texts(list, more).contains(text) <==> list.contains(text) || more.contains(text),
    decreases more.len(),
{
    if more.len() > 0 {
        let n = more.len() - 1;
        let init = more.subrange(0, n);
        lemma_with_texts_holds(list, init, text);
        let before = with_texts(list, init);
        let all = with_texts(list, more);
        if init.contains(text) {
            let k = choose|k: int| 0 <= k < init.len() && init[k] == text;
            assert(more[k] == text);
        }
        if more.contains(text) {
            let k = choose|k: int| 0 <= k < more.len() && more[k] == text;
            if k < n {
                assert(init[k] == text);
            }
        }
        if before.contains(text) {
            let k = choose|k: int| 0 <= k < before.len() && before[k] == text;
            assert(all[k] == text);
        }
        if all.contains(text) {
            let k = choose|k: int| 0 <= k < all.len() && all[k] == text;
            if k < before.len() {
                assert(before[k] == text);
            } else {
                assert(more[n] == text);
            }
        }
        if more[n] == text && !before.contains(text) {
            assert(all[before.len() as int] == text);
        }
    }
}

} // verus!
