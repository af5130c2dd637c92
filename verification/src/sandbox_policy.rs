//! The policy that local commands run under: what is checked of it, what is granted for it, and
//! that the grants respect what it protects.

use crate::process_output::{executes, ExecutionError, ExecutionErrorView};
use crate::text::{clone_texts, concat2, concat3, lists, text_equals, texts};
use vstd::prelude::*;

verus! {

/// What looking a path up came to.
#[derive(Debug)]
pub struct LookedUpPath {
    /// The path as it was given.
    pub path: String,
    /// The canonical path, or why there is none.
    pub canonical: Result<CanonicalPath, String>,
}

/// A canonical path: its text, and its parts from the root on.
#[derive(Debug)]
pub struct CanonicalPath {
    pub text: String,
    pub parts: Vec<String>,
}

/// Whether a path is another or lies below it.
pub open spec fn within(path: Seq<Seq<char>>, root: Seq<Seq<char>>) -> bool {
    root.len() <= path.len() && path.subrange(0, root.len() as int) == root
}

/// Whether one of two paths is the other or lies below it.
pub open spec fn overlapping(a: Seq<Seq<char>>, b: Seq<Seq<char>>) -> bool {
    within(a, b) || within(b, a)
}

/// Whether a path is another or lies below it.
pub fn starts_with_path(path: &Vec<String>, root: &Vec<String>) -> (result: bool)
    ensures
        result == within(texts(path@), texts(root@)),
{
    if root.len() > path.len() {
        return false;
    }
    let ghost wanted = texts(root@);
    let ghost begin = texts(path@).subrange(0, wanted.len() as int);
    let mut i: usize = 0;
    while i < root.len()
        invariant
            i <= root.len() <= path.len(),
            wanted == texts(root@),
            begin == texts(path@).subrange(0, wanted.len() as int),
            forall|j: int| 0 <= j < i ==> begin[j] == wanted[j],
        decreases root.len() - i,
    {
        assert(begin[i as int] == path@[i as int]@ && wanted[i as int] == root@[i as int]@);
        if !text_equals(path[i].as_str(), root[i].as_str()) {
            return false;
        }
        i = i + 1;
    }
    assert(begin =~= wanted);
    true
}

/// Whether one of two paths is the other or lies below it.
pub fn overlap(a: &Vec<String>, b: &Vec<String>) -> (result: bool)
    ensures
        result == overlapping(texts(a@), texts(b@)),
{
    starts_with_path(a, b) || starts_with_path(b, a)
}

/// Whether two paths are the same.
fn same_path(a: &Vec<String>, b: &Vec<String>) -> (result: bool)
    ensures
        result == (texts(a@) == texts(b@)),
{
    if a.len() != b.len() {
        assert(texts(a@).len() != texts(b@).len());
        return false;
    }
    let result = starts_with_path(a, b);
    assert(texts(a@).subrange(0, texts(a@).len() as int) =~= texts(a@));
    result
}

/// Whether a command may use the network.
#[derive(Clone, Copy, Debug, PartialEq, Eq, Structural)]
pub enum NetworkAccess {
    Disabled,
    PublicInternet,
    Allowlist,
}

/// What is checked first of a policy: its network rules, that the working directory is the root of
/// its workspace, and that all its paths are absolute.
pub open spec fn policy_checked(
    network: Result<(), String>,
    cwd: Result<CanonicalPath, String>,
    workspace: Result<CanonicalPath, String>,
    absolute: Seq<bool>,
) -> Result<(), ExecutionErrorView> {
    match network {
        Err(reason) => Err(ExecutionErrorView::Denied(reason@)),
        Ok(_) => match cwd {
            Err(error) => Err(
                ExecutionErrorView::PolicyUnavailable(
                    "canonicalize local sandbox working directory failed: "@ + error@,
                ),
            ),
            Ok(cwd) => match workspace {
                Err(error) => Err(
                    ExecutionErrorView::PolicyUnavailable(
                        "canonicalize local sandbox workspace failed: "@ + error@,
                    ),
                ),
                Ok(workspace) => if texts(cwd.parts@) != texts(workspace.parts@) {
                    Err(
                        ExecutionErrorView::Denied(
                            "local sandbox working directory must equal the policy workspace root"@,
                        ),
                    )
                } else if exists|i: int| 0 <= i < absolute.len() && !(#[trigger] absolute[i]) {
                    Err(
                        ExecutionErrorView::Denied("local sandbox policy paths must be absolute"@),
                    )
                } else {
                    Ok(())
                },
            },
        },
    }
}

/// Checks a policy: its network rules, that the working directory is the root of its workspace,
/// and that all its paths are absolute. `absolute` says so of each of its paths.
pub fn validate_local_policy(
    network: &Result<(), String>,
    cwd: &Result<CanonicalPath, String>,
    workspace: &Result<CanonicalPath, String>,
    absolute: &Vec<bool>,
) -> (result: Result<(), ExecutionError>)
    ensures
        executes(result, |unit: ()| unit, policy_checked(*network, *cwd, *workspace, absolute@)),
{
    match network {
        Err(reason) => {
            return Err(ExecutionError::denied(reason.as_str()));
        },
        Ok(_) => {},
    }
    let here = match cwd {
        Err(error) => {
            return Err(
                ExecutionError::policy_unavailable(
                    concat2(
                        "canonicalize local sandbox working directory failed: ",
                        error.as_str(),
                    ).as_str(),
                ),
            );
        },
        Ok(cwd) => cwd,
    };
    let home = match workspace {
        Err(error) => {
            return Err(
                ExecutionError::policy_unavailable(
                    concat2(
                        "canonicalize local sandbox workspace failed: ",
                        error.as_str(),
                    ).as_str(),
                ),
            );
        },
        Ok(workspace) => workspace,
    };
    if !same_path(&here.parts, &home.parts) {
        return Err(
            ExecutionError::denied(
                "local sandbox working directory must equal the policy workspace root",
            ),
        );
    }
    let mut i: usize = 0;
    while i < absolute.len()
        invariant
            i <= absolute.len(),
            forall|j: int| 0 <= j < i ==> #[trigger] absolute@[j],
            *network is Ok,
            cwd matches Ok(found) && found == *here,
            workspace matches Ok(found) && found == *home,
            texts(here.parts@) == texts(home.parts@),
        decreases absolute.len() - i,
    {
        if !absolute[i] {
            assert(!absolute@[i as int]);
            return Err(ExecutionError::denied("local sandbox policy paths must be absolute"));
        }
        i = i + 1;
    }
    Ok(())
}

/// Whether the temporary root of a policy may be made. `configured` is the temporary directory of
/// the system, and `ancestor` the nearest directory above the root that exists.
pub open spec fn temporary_root_allowed(
    root: Seq<char>,
    configured: Result<CanonicalPath, String>,
    ancestor: Option<Result<CanonicalPath, String>>,
) -> Result<(), ExecutionErrorView> {
    match configured {
        Err(error) => Err(
            ExecutionErrorView::PolicyUnavailable(
                "canonicalize local temporary directory failed: "@ + error@,
            ),
        ),
        Ok(configured) => match ancestor {
            None => Err(
                ExecutionErrorView::Denied("local sandbox temporary root is invalid: "@ + root),
            ),
            Some(Err(error)) => Err(
                ExecutionErrorView::PolicyUnavailable(
                    "canonicalize local sandbox temporary root failed: "@ + error@,
                ),
            ),
            Some(Ok(ancestor)) => if within(texts(ancestor.parts@), texts(configured.parts@)) {
                Ok(())
            } else {
                Err(
                    ExecutionErrorView::Denied(
                        "local sandbox temporary root must remain within the configured OS temporary directory"@,
                    ),
                )
            },
        },
    }
}

/// Checks whether the temporary root of a policy may be made.
pub fn check_temporary_ancestor(
    root: &str,
    configured: &Result<CanonicalPath, String>,
    ancestor: &Option<Result<CanonicalPath, String>>,
) -> (result: Result<(), ExecutionError>)
    ensures
        executes(
            result,
            |unit: ()| unit,
            temporary_root_allowed(root@, *configured, *ancestor),
        ),
{
    let configured = match configured {
        Err(error) => {
            return Err(
                ExecutionError::policy_unavailable(
                    concat2(
                        "canonicalize local temporary directory failed: ",
                        error.as_str(),
                    ).as_str(),
                ),
            );
        },
        Ok(configured) => configured,
    };
    let found = match ancestor {
        None => {
            return Err(
                ExecutionError::denied(
                    concat2("local sandbox temporary root is invalid: ", root).as_str(),
                ),
            );
        },
        Some(found) => found,
    };
    match found {
        Err(error) => Err(
            ExecutionError::policy_unavailable(
                concat2(
                    "canonicalize local sandbox temporary root failed: ",
                    error.as_str(),
                ).as_str(),
            ),
        ),
        Ok(ancestor) => if starts_with_path(&ancestor.parts, &configured.parts) {
            Ok(())
        } else {
            Err(
                ExecutionError::denied(
                    "local sandbox temporary root must remain within the configured OS temporary directory",
                ),
            )
        },
    }
}

/// Whether the temporary root of a policy, once made, may be used: it must lie below the temporary
/// directory of the system.
pub open spec fn temporary_root_usable(
    configured: CanonicalPath,
    root: Result<CanonicalPath, String>,
    is_directory: bool,
) -> Result<(), ExecutionErrorView> {
    match root {
        Err(error) => Err(
            ExecutionErrorView::PolicyUnavailable(
                "canonicalize materialized sandbox temporary root failed: "@ + error@,
            ),
        ),
        Ok(root) => if texts(root.parts@) == texts(configured.parts@) || !within(
            texts(root.parts@),
            texts(configured.parts@),
        ) || !is_directory {
            Err(
                ExecutionErrorView::Denied(
                    "local sandbox temporary root must be an exact child directory of the configured OS temporary directory"@,
                ),
            )
        } else {
            Ok(())
        },
    }
}

/// Checks whether the temporary root of a policy, once made, may be used.
pub fn materialize_temporary_root(
    configured: &CanonicalPath,
    root: &Result<CanonicalPath, String>,
    is_directory: bool,
) -> (result: Result<(), ExecutionError>)
    ensures
        executes(
            result,
            |unit: ()| unit,
            temporary_root_usable(*configured, *root, is_directory),
        ),
{
    match root {
        Err(error) => Err(
            ExecutionError::policy_unavailable(
                concat2(
                    "canonicalize materialized sandbox temporary root failed: ",
                    error.as_str(),
                ).as_str(),
            ),
        ),
        Ok(root) => if same_path(&root.parts, &configured.parts) || !starts_with_path(
            &root.parts,
            &configured.parts,
        ) || !is_directory {
            Err(
                ExecutionError::denied(
                    "local sandbox temporary root must be an exact child directory of the configured OS temporary directory",
                ),
            )
        } else {
            Ok(())
        },
    }
}

/// The first root of a policy that is no directory. Each root is given with whether it is one.
pub open spec fn roots_checked(roots: Seq<(String, bool)>) -> Result<(), ExecutionErrorView>
    decreases roots.len(),
{
    if roots.len() == 0 {
        Ok(())
    } else {
        let n = roots.len() - 1;
        match roots_checked(roots.subrange(0, n)) {
            Err(error) => Err(error),
            Ok(_) => if roots[n].1 {
                Ok(())
            } else {
                Err(
                    ExecutionErrorView::Denied(
                        "local sandbox filesystem root is not an existing directory: "@
                            + roots[n].0@,
                    ),
                )
            },
        }
    }
}

proof fn lemma_roots_checked(roots: Seq<(String, bool)>, n: int)
    requires
        0 <= n <= roots.len(),
        roots_checked(roots.subrange(0, n)) is Err,
    ensures
        roots_checked(roots) == roots_checked(roots.subrange(0, n)),
    decreases roots.len(),
{
    if n < roots.len() {
        let init = roots.subrange(0, roots.len() - 1);
        assert(init.subrange(0, n) =~= roots.subrange(0, n));
        lemma_roots_checked(init, n);
    } else {
        assert(roots.subrange(0, n) =~= roots);
    }
}

/// Checks that the roots of a policy are directories.
pub fn check_roots(roots: &Vec<(String, bool)>) -> (result: Result<(), ExecutionError>)
    ensures
        executes(result, |unit: ()| unit, roots_checked(roots@)),
{
    let mut i: usize = 0;
    assert(roots@.subrange(0, 0) =~= Seq::empty());
    while i < roots.len()
        invariant
            i <= roots.len(),
            roots_checked(roots@.subrange(0, i as int)) == Ok::<(), ExecutionErrorView>(()),
        decreases roots.len() - i,
    {
        proof {
            let next = roots@.subrange(0, i + 1);
            assert(next.subrange(0, i as int) =~= roots@.subrange(0, i as int));
            assert(next[i as int] == roots@[i as int]);
            if roots_checked(next) is Err {
                lemma_roots_checked(roots@, i + 1);
            }
        }
        if !roots[i].1 {
            return Err(
                ExecutionError::denied(
                    concat2(
                        "local sandbox filesystem root is not an existing directory: ",
                        roots[i].0.as_str(),
                    ).as_str(),
                ),
            );
        }
        i = i + 1;
    }
    assert(roots@.subrange(0, roots@.len() as int) =~= roots@);
    Ok(())
}

/// What may be done with what is granted.
#[derive(Clone, Copy, Debug, PartialEq, Eq, Structural)]
pub enum Access {
    Read,
    Write,
    ReadWrite,
}

/// Whether one access holds at least what another asks for.
pub open spec fn access_holds(access: Access, required: Access) -> bool {
    access == Access::ReadWrite || access == required
}

/// The access of `nono` that an access stands for.
#[verifier::external_body]
fn to_access_mode(access: Access) -> (result: nono::AccessMode) {
    match access {
        Access::Read => nono::AccessMode::Read,
        Access::Write => nono::AccessMode::Write,
        Access::ReadWrite => nono::AccessMode::ReadWrite,
    }
}

/// The accesses of `nono`.
#[verifier::external_type_specification]
#[verifier::external_body]
pub struct ExAccessMode(nono::AccessMode);

/// Whether one access holds at least what another asks for, by `nono::AccessMode::contains`: access
/// to read and write holds every access, and each other access only itself.
#[verifier::external_body]
pub(crate) fn access_contains(access: Access, required: Access) -> (result: bool)
    ensures
        result == access_holds(access, required),
{
    to_access_mode(access).contains(to_access_mode(required))
}

/// What is granted: a file, or a directory with everything below it.
#[derive(Debug)]
pub struct Grant {
    pub path: String,
    pub is_file: bool,
    pub access: Access,
}

pub struct GrantView {
    pub path: Seq<char>,
    pub is_file: bool,
    pub access: Access,
}

impl View for Grant {
    type V = GrantView;

    open spec fn view(&self) -> GrantView {
        GrantView { path: self.path@, is_file: self.is_file, access: self.access }
    }
}

/// What a list of grants holds.
pub open spec fn grant_views(grants: Seq<Grant>) -> Seq<GrantView> {
    Seq::new(grants.len(), |i: int| grants[i]@)
}

/// The directories that commands need of the host on Linux.
pub const LINUX_PREREQUISITES: [&'static str; 5] = [
    "/usr",
    "/bin",
    "/lib",
    "/lib64",
    "/etc/ssl/certs",
];

/// The directories that commands need of the host on macOS.
pub const MACOS_PREREQUISITES: [&'static str; 8] = [
    "/System",
    "/usr",
    "/bin",
    "/sbin",
    "/Library",
    "/private/etc",
    "/opt/homebrew",
    "/Applications/Xcode.app",
];

/// The files that commands need of the host.
pub const PREREQUISITE_FILES: [&'static str; 9] = [
    "/etc/ld.so.cache",
    "/etc/passwd",
    "/etc/group",
    "/etc/nsswitch.conf",
    "/etc/resolv.conf",
    "/etc/hosts",
    "/etc/localtime",
    "/dev/urandom",
    "/dev/random",
];

/// The rules by which macOS keeps commands from Unix sockets.
pub const MACOS_SOCKET_RULES: [&'static str; 2] = [
    "(deny network-outbound (remote unix-socket))",
    "(deny network-bind (local unix-socket))",
];

/// The rules by which macOS lets commands resolve names.
pub const MACOS_RESOLVER_RULES: [&'static str; 2] = [
    "(allow network-outbound (path \"/private/var/run/mDNSResponder\"))",
    "(allow network-outbound (path \"/var/run/mDNSResponder\"))",
];

/// What a command is to be given.
#[derive(Debug)]
pub struct CapabilityRequest {
    pub network: NetworkAccess,
    pub runtime: LookedUpPath,
    pub program: String,
    pub read_only_roots: Vec<String>,
    pub writable_roots: Vec<LookedUpPath>,
    /// The directories that commands need of the host, as far as they exist.
    pub prerequisites: Vec<String>,
    /// The files that commands need of the host, as far as they exist.
    pub prerequisite_files: Vec<String>,
    pub scratch: Option<String>,
    pub control: Option<String>,
    pub is_macos: bool,
}

/// What a command is given.
#[derive(Debug)]
pub struct CapabilityPlan {
    pub block_network: bool,
    pub platform_rules: Vec<&'static str>,
    pub grants: Vec<Grant>,
}

/// The error of a path that could not be resolved.
pub open spec fn unresolved(path: Seq<char>, error: Seq<char>) -> ExecutionErrorView {
    ExecutionErrorView::PolicyUnavailable(
        "resolve execution resource "@ + path + ": "@ + error,
    )
}

/// Whether the runtime lies outside the writable roots.
pub open spec fn runtime_protected(runtime: CanonicalPath, roots: Seq<LookedUpPath>) -> Result<
    (),
    ExecutionErrorView,
>
    decreases roots.len(),
{
    if roots.len() == 0 {
        Ok(())
    } else {
        let n = roots.len() - 1;
        match runtime_protected(runtime, roots.subrange(0, n)) {
            Err(error) => Err(error),
            Ok(_) => match roots[n].canonical {
                Err(error) => Err(unresolved(roots[n].path@, error@)),
                Ok(root) => if within(texts(runtime.parts@), texts(root.parts@)) {
                    Err(
                        ExecutionErrorView::PolicyUnavailable(
                            "the trusted Runtime executable must be outside writable execution roots"@,
                        ),
                    )
                } else {
                    Ok(())
                },
            },
        }
    }
}

/// Grants of each of `paths`.
pub open spec fn grants_of(paths: Seq<Seq<char>>, is_file: bool, access: Access) -> Seq<GrantView> {
    Seq::new(paths.len(), |i: int| GrantView { path: paths[i], is_file, access })
}

/// The paths of looked up paths, as they were given.
pub open spec fn given_paths(paths: Seq<LookedUpPath>) -> Seq<Seq<char>> {
    Seq::new(paths.len(), |i: int| paths[i].path@)
}

/// A grant of a path that may be missing.
pub open spec fn grant_of_optional(path: Option<String>) -> Seq<GrantView> {
    match path {
        Some(path) => seq![
            GrantView { path: path@, is_file: false, access: Access::ReadWrite },
        ],
        None => Seq::empty(),
    }
}

/// What is granted to a command, in order.
pub open spec fn granted(request: CapabilityRequest, runtime: CanonicalPath) -> Seq<GrantView> {
    grants_of(texts(request.prerequisites@), false, Access::Read) + grants_of(
        texts(request.prerequisite_files@),
        true,
        Access::Read,
    ) + seq![
        GrantView { path: "/dev/null"@, is_file: true, access: Access::ReadWrite },
        GrantView { path: request.program@, is_file: true, access: Access::Read },
        GrantView { path: runtime.text@, is_file: true, access: Access::Read },
    ] + grants_of(texts(request.read_only_roots@), false, Access::Read) + grants_of(
        given_paths(request.writable_roots@),
        false,
        Access::ReadWrite,
    ) + grant_of_optional(request.scratch) + grant_of_optional(request.control)
}

/// Why a command cannot be given what it is to be given.
pub open spec fn request_checked(request: CapabilityRequest) -> Result<(), ExecutionErrorView> {
    match request.runtime.canonical {
        Err(error) => Err(unresolved(request.runtime.path@, error@)),
        Ok(runtime) => match runtime_protected(runtime, request.writable_roots@) {
            Err(error) => Err(error),
            Ok(_) => if request.network == NetworkAccess::Allowlist {
                Err(
                    ExecutionErrorView::PolicyUnavailable(
                        "local nono execution does not support domain allowlists"@,
                    ),
                )
            } else {
                Ok(())
            },
        },
    }
}

/// The platform rules that a command runs under.
pub open spec fn platform_rules_of(request: CapabilityRequest) -> Seq<&'static str> {
    if !request.is_macos {
        Seq::empty()
    } else if request.network == NetworkAccess::PublicInternet {
        MACOS_SOCKET_RULES@ + MACOS_RESOLVER_RULES@
    } else {
        MACOS_SOCKET_RULES@
    }
}

proof fn lemma_runtime_protected(runtime: CanonicalPath, roots: Seq<LookedUpPath>, n: int)
    requires
        0 <= n <= roots.len(),
        runtime_protected(runtime, roots.subrange(0, n)) is Err,
    ensures
        runtime_protected(runtime, roots) == runtime_protected(runtime, roots.subrange(0, n)),
    decreases roots.len(),
{
    if n < roots.len() {
        let init = roots.subrange(0, roots.len() - 1);
        assert(init.subrange(0, n) =~= roots.subrange(0, n));
        lemma_runtime_protected(runtime, init, n);
    } else {
        assert(roots.subrange(0, n) =~= roots);
    }
}

fn unresolved_error(path: &str, error: &str) -> (result: ExecutionError)
    ensures
        result@ == unresolved(path@, error@),
{
    let mut message = concat3("resolve execution resource ", path, ": ");
    message.append(error);
    ExecutionError::PolicyUnavailable { reason: message }
}

fn check_runtime(runtime: &CanonicalPath, roots: &Vec<LookedUpPath>) -> (result: Result<
    (),
    ExecutionError,
>)
    ensures
        executes(result, |unit: ()| unit, runtime_protected(*runtime, roots@)),
{
    let mut i: usize = 0;
    assert(roots@.subrange(0, 0) =~= Seq::empty());
    while i < roots.len()
        invariant
            i <= roots.len(),
            runtime_protected(*runtime, roots@.subrange(0, i as int)) == Ok::<
                (),
                ExecutionErrorView,
            >(()),
        decreases roots.len() - i,
    {
        proof {
            let next = roots@.subrange(0, i + 1);
            assert(next.subrange(0, i as int) =~= roots@.subrange(0, i as int));
            assert(next[i as int] == roots@[i as int]);
            if runtime_protected(*runtime, next) is Err {
                lemma_runtime_protected(*runtime, roots@, i + 1);
            }
        }
        match &roots[i].canonical {
            Err(error) => {
                return Err(unresolved_error(roots[i].path.as_str(), error.as_str()));
            },
            Ok(root) => {
                if starts_with_path(&runtime.parts, &root.parts) {
                    return Err(
                        ExecutionError::policy_unavailable(
                            "the trusted Runtime executable must be outside writable execution roots",
                        ),
                    );
                }
            },
        }
        i = i + 1;
    }
    assert(roots@.subrange(0, roots@.len() as int) =~= roots@);
    Ok(())
}

fn push_grant(grants: &mut Vec<Grant>, path: &str, is_file: bool, access: Access)
    ensures
        grant_views(final(grants)@) == grant_views(old(grants)@).push(
            GrantView { path: path@, is_file, access },
        ),
{
    let ghost before = grant_views(grants@);
    grants.push(Grant { path: path.to_owned(), is_file, access });
    assert(grant_views(grants@) =~= before.push(GrantView { path: path@, is_file, access }));
}

fn push_grants(grants: &mut Vec<Grant>, paths: &Vec<String>, is_file: bool, access: Access)
    ensures
        grant_views(final(grants)@) == grant_views(old(grants)@) + grants_of(
            texts(paths@),
            is_file,
            access,
        ),
{
    let ghost before = grant_views(grants@);
    let ghost all = grants_of(texts(paths@), is_file, access);
    let mut i: usize = 0;
    assert(before + all.subrange(0, 0) =~= before);
    while i < paths.len()
        invariant
            i <= paths.len(),
            all == grants_of(texts(paths@), is_file, access),
            grant_views(grants@) == before + all.subrange(0, i as int),
        decreases paths.len() - i,
    {
        push_grant(grants, paths[i].as_str(), is_file, access);
        assert(all[i as int] == (GrantView { path: paths@[i as int]@, is_file, access }));
        assert((before + all.subrange(0, i as int)).push(all[i as int]) =~= before + all.subrange(
            0,
            i + 1,
        ));
        i = i + 1;
    }
    assert(all.subrange(0, all.len() as int) =~= all);
}

fn push_optional(grants: &mut Vec<Grant>, path: &Option<String>)
    ensures
        grant_views(final(grants)@) == grant_views(old(grants)@) + grant_of_optional(*path),
{
    let ghost before = grant_views(grants@);
    match path {
        Some(path) => {
            push_grant(grants, path.as_str(), false, Access::ReadWrite);
            assert(grant_views(grants@) =~= before + grant_of_optional(Some(*path)));
        },
        None => {
            assert(before + Seq::empty() =~= before);
        },
    }
}

fn writable_paths(roots: &Vec<LookedUpPath>) -> (result: Vec<String>)
    ensures
        texts(result@) == given_paths(roots@),
{
    let mut result: Vec<String> = Vec::new();
    let mut i: usize = 0;
    while i < roots.len()
        invariant
            i <= roots.len(),
            result.len() == i,
            forall|j: int| 0 <= j < i ==> (#[trigger] result@[j])@ == roots@[j].path@,
        decreases roots.len() - i,
    {
        result.push(roots[i].path.clone());
        i = i + 1;
    }
    assert(texts(result@) =~= given_paths(roots@));
    result
}

/// What a command is given: the grants in order, whether it is kept from the network, and the
/// platform rules that it runs under.
pub fn capabilities(request: &CapabilityRequest) -> (result: Result<CapabilityPlan, ExecutionError>)
    ensures
        match result {
            Ok(plan) => {
                &&& request_checked(*request) is Ok
                &&& plan.block_network == (request.network == NetworkAccess::Disabled)
                &&& plan.platform_rules@ == platform_rules_of(*request)
                &&& grant_views(plan.grants@) == granted(
                    *request,
                    request.runtime.canonical->Ok_0,
                )
            },
            Err(error) => request_checked(*request) == Err::<(), ExecutionErrorView>(error@),
        },
{
    let runtime = match &request.runtime.canonical {
        Err(error) => {
            return Err(unresolved_error(request.runtime.path.as_str(), error.as_str()));
        },
        Ok(runtime) => runtime,
    };
    match check_runtime(runtime, &request.writable_roots) {
        Err(error) => {
            return Err(error);
        },
        Ok(_) => {},
    }
    if request.network == NetworkAccess::Allowlist {
        return Err(
            ExecutionError::policy_unavailable(
                "local nono execution does not support domain allowlists",
            ),
        );
    }
    let mut platform_rules: Vec<&'static str> = Vec::new();
    if request.is_macos {
        platform_rules.push(MACOS_SOCKET_RULES[0]);
        platform_rules.push(MACOS_SOCKET_RULES[1]);
        assert(platform_rules@ =~= MACOS_SOCKET_RULES@);
        if request.network == NetworkAccess::PublicInternet {
            platform_rules.push(MACOS_RESOLVER_RULES[0]);
            platform_rules.push(MACOS_RESOLVER_RULES[1]);
            assert(platform_rules@ =~= MACOS_SOCKET_RULES@ + MACOS_RESOLVER_RULES@);
        }
    }
    let mut grants: Vec<Grant> = Vec::new();
    assert(grant_views(grants@) =~= Seq::empty());
    push_grants(&mut grants, &request.prerequisites, false, Access::Read);
    assert(grant_views(grants@) =~= grants_of(
        texts(request.prerequisites@),
        false,
        Access::Read,
    ));
    push_grants(&mut grants, &request.prerequisite_files, true, Access::Read);
    let ghost middle = grant_views(grants@);
    push_grant(&mut grants, "/dev/null", true, Access::ReadWrite);
    push_grant(&mut grants, request.program.as_str(), true, Access::Read);
    push_grant(&mut grants, runtime.text.as_str(), true, Access::Read);
    assert(grant_views(grants@) =~= middle + seq![
        GrantView { path: "/dev/null"@, is_file: true, access: Access::ReadWrite },
        GrantView { path: request.program@, is_file: true, access: Access::Read },
        GrantView { path: runtime.text@, is_file: true, access: Access::Read },
    ]);
    push_grants(&mut grants, &request.read_only_roots, false, Access::Read);
    let writable = writable_paths(&request.writable_roots);
    push_grants(&mut grants, &writable, false, Access::ReadWrite);
    push_optional(&mut grants, &request.scratch);
    push_optional(&mut grants, &request.control);
    Ok(
        CapabilityPlan {
            block_network: request.network == NetworkAccess::Disabled,
            platform_rules,
            grants,
        },
    )
}

/// A grant with the canonical path that it came to.
#[derive(Debug)]
pub struct ResolvedGrant {
    pub parts: Vec<String>,
    pub access: Access,
}

/// What a policy protects, and the roots that it declares.
#[derive(Debug)]
pub struct ProtectedPaths {
    pub denied_reads: Vec<LookedUpPath>,
    pub denied_writes: Vec<LookedUpPath>,
    pub writable_roots: Vec<LookedUpPath>,
    pub read_only_roots: Vec<LookedUpPath>,
}

/// The canonical paths of looked up paths, up to the first that has none.
pub open spec fn resolved(paths: Seq<LookedUpPath>) -> Result<
    Seq<Seq<Seq<char>>>,
    ExecutionErrorView,
>
    decreases paths.len(),
{
    if paths.len() == 0 {
        Ok(Seq::empty())
    } else {
        let n = paths.len() - 1;
        match resolved(paths.subrange(0, n)) {
            Err(error) => Err(error),
            Ok(before) => match paths[n].canonical {
                Err(error) => Err(unresolved(paths[n].path@, error@)),
                Ok(path) => Ok(before.push(texts(path.parts@))),
            },
        }
    }
}

/// The paths of a list.
pub open spec fn path_views(paths: Seq<Vec<String>>) -> Seq<Seq<Seq<char>>> {
    Seq::new(paths.len(), |i: int| texts(paths[i]@))
}

/// Whether one of `paths` overlaps `path`.
pub open spec fn any_overlaps(paths: Seq<Seq<Seq<char>>>, path: Seq<Seq<char>>) -> bool {
    exists|i: int| 0 <= i < paths.len() && overlapping(#[trigger] paths[i], path)
}

/// Whether one of `roots` that is not among `declared` lies within `path`.
pub open spec fn any_root_within(
    roots: Seq<Seq<Seq<char>>>,
    declared: Seq<Seq<Seq<char>>>,
    path: Seq<Seq<char>>,
) -> bool {
    exists|i: int|
        0 <= i < roots.len() && !declared.contains(#[trigger] roots[i]) && within(roots[i], path)
}

/// Whether a grant reaches what may not be read.
pub open spec fn reads_denied(grant: ResolvedGrant, denied_reads: Seq<Seq<Seq<char>>>) -> bool {
    any_overlaps(denied_reads, texts(grant.parts@))
}

/// Whether a grant lets what may not be written be written.
pub open spec fn writes_denied(
    grant: ResolvedGrant,
    denied_writes: Seq<Seq<Seq<char>>>,
    declared: Seq<Seq<Seq<char>>>,
    read_only: Seq<Seq<Seq<char>>>,
) -> bool {
    access_holds(grant.access, Access::Write) && (any_overlaps(
        denied_writes,
        texts(grant.parts@),
    ) || any_root_within(read_only, declared, texts(grant.parts@)))
}

/// Whether grants respect what is protected.
pub open spec fn grants_checked(
    grants: Seq<ResolvedGrant>,
    denied_reads: Seq<Seq<Seq<char>>>,
    denied_writes: Seq<Seq<Seq<char>>>,
    declared: Seq<Seq<Seq<char>>>,
    read_only: Seq<Seq<Seq<char>>>,
) -> Result<(), ExecutionErrorView>
    decreases grants.len(),
{
    if grants.len() == 0 {
        Ok(())
    } else {
        let n = grants.len() - 1;
        match grants_checked(
            grants.subrange(0, n),
            denied_reads,
            denied_writes,
            declared,
            read_only,
        ) {
            Err(error) => Err(error),
            Ok(_) => if reads_denied(grants[n], denied_reads) {
                Err(
                    ExecutionErrorView::PolicyUnavailable(
                        "nono cannot subtract a denied read path from an allowed root; move protected resources outside granted roots"@,
                    ),
                )
            } else if writes_denied(grants[n], denied_writes, declared, read_only) {
                Err(
                    ExecutionErrorView::PolicyUnavailable(
                        "nono writable root overlaps protected resources; use separate writable and read-only directories"@,
                    ),
                )
            } else {
                Ok(())
            },
        }
    }
}

/// Whether grants respect what a policy protects.
pub open spec fn layout_checked(protected: ProtectedPaths, grants: Seq<ResolvedGrant>) -> Result<
    (),
    ExecutionErrorView,
> {
    match resolved(protected.denied_reads@) {
        Err(error) => Err(error),
        Ok(denied_reads) => match resolved(protected.denied_writes@) {
            Err(error) => Err(error),
            Ok(denied_writes) => match resolved(protected.writable_roots@) {
                Err(error) => Err(error),
                Ok(declared) => match resolved(protected.read_only_roots@) {
                    Err(error) => Err(error),
                    Ok(read_only) => grants_checked(
                        grants,
                        denied_reads,
                        denied_writes,
                        declared,
                        read_only,
                    ),
                },
            },
        },
    }
}

proof fn lemma_resolved(paths: Seq<LookedUpPath>, n: int)
    requires
        0 <= n <= paths.len(),
        resolved(paths.subrange(0, n)) is Err,
    ensures
        resolved(paths) == resolved(paths.subrange(0, n)),
    decreases paths.len(),
{
    if n < paths.len() {
        let init = paths.subrange(0, paths.len() - 1);
        assert(init.subrange(0, n) =~= paths.subrange(0, n));
        lemma_resolved(init, n);
    } else {
        assert(paths.subrange(0, n) =~= paths);
    }
}

fn resolve_all(paths: &Vec<LookedUpPath>) -> (result: Result<Vec<Vec<String>>, ExecutionError>)
    ensures
        executes(result, |all: Vec<Vec<String>>| path_views(all@), resolved(paths@)),
{
    let mut all: Vec<Vec<String>> = Vec::new();
    let mut i: usize = 0;
    assert(paths@.subrange(0, 0) =~= Seq::empty());
    assert(path_views(all@) =~= Seq::empty());
    while i < paths.len()
        invariant
            i <= paths.len(),
            resolved(paths@.subrange(0, i as int)) == Ok::<
                Seq<Seq<Seq<char>>>,
                ExecutionErrorView,
            >(path_views(all@)),
        decreases paths.len() - i,
    {
        let ghost before = path_views(all@);
        proof {
            let next = paths@.subrange(0, i + 1);
            assert(next.subrange(0, i as int) =~= paths@.subrange(0, i as int));
            assert(next[i as int] == paths@[i as int]);
            if resolved(next) is Err {
                lemma_resolved(paths@, i + 1);
            }
        }
        match &paths[i].canonical {
            Err(error) => {
                return Err(unresolved_error(paths[i].path.as_str(), error.as_str()));
            },
            Ok(path) => {
                let parts = clone_texts(&path.parts);
                all.push(parts);
                assert(path_views(all@) =~= before.push(texts(path.parts@)));
            },
        }
        i = i + 1;
    }
    assert(paths@.subrange(0, paths@.len() as int) =~= paths@);
    Ok(all)
}

fn overlaps_any(paths: &Vec<Vec<String>>, path: &Vec<String>) -> (result: bool)
    ensures
        result == any_overlaps(path_views(paths@), texts(path@)),
{
    let ghost all = path_views(paths@);
    let mut i: usize = 0;
    while i < paths.len()
        invariant
            i <= paths.len(),
            all == path_views(paths@),
            forall|j: int| 0 <= j < i ==> !overlapping(#[trigger] all[j], texts(path@)),
        decreases paths.len() - i,
    {
        assert(all[i as int] == texts(paths@[i as int]@));
        if overlap(&paths[i], path) {
            return true;
        }
        i = i + 1;
    }
    false
}

fn contains_path(paths: &Vec<Vec<String>>, path: &Vec<String>) -> (result: bool)
    ensures
        result == path_views(paths@).contains(texts(path@)),
{
    let ghost all = path_views(paths@);
    let mut i: usize = 0;
    while i < paths.len()
        invariant
            i <= paths.len(),
            all == path_views(paths@),
            forall|j: int| 0 <= j < i ==> all[j] != texts(path@),
        decreases paths.len() - i,
    {
        assert(all[i as int] == texts(paths@[i as int]@));
        if same_path(&paths[i], path) {
            return true;
        }
        i = i + 1;
    }
    false
}

fn root_within_any(
    roots: &Vec<Vec<String>>,
    declared: &Vec<Vec<String>>,
    path: &Vec<String>,
) -> (result: bool)
    ensures
        result == any_root_within(path_views(roots@), path_views(declared@), texts(path@)),
{
    let ghost all = path_views(roots@);
    let ghost known = path_views(declared@);
    let mut i: usize = 0;
    while i < roots.len()
        invariant
            i <= roots.len(),
            all == path_views(roots@),
            known == path_views(declared@),
            forall|j: int|
                0 <= j < i ==> known.contains(#[trigger] all[j]) || !within(all[j], texts(path@)),
        decreases roots.len() - i,
    {
        assert(all[i as int] == texts(roots@[i as int]@));
        if !contains_path(declared, &roots[i]) && starts_with_path(&roots[i], path) {
            return true;
        }
        i = i + 1;
    }
    false
}

proof fn lemma_grants_checked(
    grants: Seq<ResolvedGrant>,
    denied_reads: Seq<Seq<Seq<char>>>,
    denied_writes: Seq<Seq<Seq<char>>>,
    declared: Seq<Seq<Seq<char>>>,
    read_only: Seq<Seq<Seq<char>>>,
    n: int,
)
    requires
        0 <= n <= grants.len(),
        grants_checked(
            grants.subrange(0, n),
            denied_reads,
            denied_writes,
            declared,
            read_only,
        ) is Err,
    ensures
        grants_checked(grants, denied_reads, denied_writes, declared, read_only) == grants_checked(
            grants.subrange(0, n),
            denied_reads,
            denied_writes,
            declared,
            read_only,
        ),
    decreases grants.len(),
{
    if n < grants.len() {
        let init = grants.subrange(0, grants.len() - 1);
        assert(init.subrange(0, n) =~= grants.subrange(0, n));
        lemma_grants_checked(init, denied_reads, denied_writes, declared, read_only, n);
    } else {
        assert(grants.subrange(0, n) =~= grants);
    }
}

/// Checks that grants respect what a policy protects.
pub fn validate_layout(protected: &ProtectedPaths, grants: &Vec<ResolvedGrant>) -> (result: Result<
    (),
    ExecutionError,
>)
    ensures
        executes(result, |unit: ()| unit, layout_checked(*protected, grants@)),
{
    let reads = match resolve_all(&protected.denied_reads) {
        Ok(reads) => reads,
        Err(error) => {
            return Err(error);
        },
    };
    let writes = match resolve_all(&protected.denied_writes) {
        Ok(writes) => writes,
        Err(error) => {
            return Err(error);
        },
    };
    let declared = match resolve_all(&protected.writable_roots) {
        Ok(declared) => declared,
        Err(error) => {
            return Err(error);
        },
    };
    let read_only = match resolve_all(&protected.read_only_roots) {
        Ok(read_only) => read_only,
        Err(error) => {
            return Err(error);
        },
    };
    check_grants(grants, &reads, &writes, &declared, &read_only)
}

fn check_grants(
    grants: &Vec<ResolvedGrant>,
    reads: &Vec<Vec<String>>,
    writes: &Vec<Vec<String>>,
    declared: &Vec<Vec<String>>,
    read_only: &Vec<Vec<String>>,
) -> (result: Result<(), ExecutionError>)
    ensures
        executes(
            result,
            |unit: ()| unit,
            grants_checked(
                grants@,
                path_views(reads@),
                path_views(writes@),
                path_views(declared@),
                path_views(read_only@),
            ),
        ),
{
    let ghost r = path_views(reads@);
    let ghost w = path_views(writes@);
    let ghost d = path_views(declared@);
    let ghost o = path_views(read_only@);
    let mut i: usize = 0;
    assert(grants@.subrange(0, 0) =~= Seq::empty());
    while i < grants.len()
        invariant
            i <= grants.len(),
            r == path_views(reads@),
            w == path_views(writes@),
            d == path_views(declared@),
            o == path_views(read_only@),
            grants_checked(grants@.subrange(0, i as int), r, w, d, o) == Ok::<
                (),
                ExecutionErrorView,
            >(()),
        decreases grants.len() - i,
    {
        proof {
            let next = grants@.subrange(0, i + 1);
            assert(next.subrange(0, i as int) =~= grants@.subrange(0, i as int));
            assert(next[i as int] == grants@[i as int]);
            if grants_checked(next, r, w, d, o) is Err {
                lemma_grants_checked(grants@, r, w, d, o, i + 1);
            }
        }
        let grant = &grants[i];
        if overlaps_any(reads, &grant.parts) {
            return Err(
                ExecutionError::policy_unavailable(
                    "nono cannot subtract a denied read path from an allowed root; move protected resources outside granted roots",
                ),
            );
        }
        if access_contains(grant.access, Access::Write) && (overlaps_any(writes, &grant.parts)
            || root_within_any(read_only, declared, &grant.parts)) {
            return Err(
                ExecutionError::policy_unavailable(
                    "nono writable root overlaps protected resources; use separate writable and read-only directories",
                ),
            );
        }
        i = i + 1;
    }
    assert(grants@.subrange(0, grants@.len() as int) =~= grants@);
    Ok(())
}

/// Where the grants of a policy are accepted, none of them reaches a path that may not be read, and
/// none that may be written reaches a path that may not be written or holds a root that is only to
/// be read.
pub proof fn law_accepted_layout_protects(
    protected: ProtectedPaths,
    grants: Seq<ResolvedGrant>,
    g: int,
)
    requires
        layout_checked(protected, grants) is Ok,
        0 <= g < grants.len(),
    ensures
        ({
            let denied_reads = resolved(protected.denied_reads@)->Ok_0;
            let denied_writes = resolved(protected.denied_writes@)->Ok_0;
            let declared = resolved(protected.writable_roots@)->Ok_0;
            let read_only = resolved(protected.read_only_roots@)->Ok_0;
            let path = texts(grants[g].parts@);
            &&& forall|i: int|
                0 <= i < denied_reads.len() ==> !overlapping(#[trigger] denied_reads[i], path)
            &&& grants[g].access != Access::Read ==> forall|i: int|
                0 <= i < denied_writes.len() ==> !overlapping(#[trigger] denied_writes[i], path)
            &&& grants[g].access != Access::Read ==> forall|i: int|
                0 <= i < read_only.len() && !declared.contains(#[trigger] read_only[i]) ==> !within(
                    read_only[i],
                    path,
                )
        }),
{
    let denied_reads = resolved(protected.denied_reads@)->Ok_0;
    let denied_writes = resolved(protected.denied_writes@)->Ok_0;
    let declared = resolved(protected.writable_roots@)->Ok_0;
    let read_only = resolved(protected.read_only_roots@)->Ok_0;
    let upto = grants.subrange(0, g + 1);
    if grants_checked(upto, denied_reads, denied_writes, declared, read_only) is Err {
        lemma_grants_checked(grants, denied_reads, denied_writes, declared, read_only, g + 1);
    }
    assert(upto[g] == grants[g]);
    assert(!reads_denied(grants[g], denied_reads));
    assert(!writes_denied(grants[g], denied_writes, declared, read_only));
}

/// Where a command is given what it asks for, the runtime lies outside every root that the command
/// may write.
pub proof fn law_runtime_is_protected(request: CapabilityRequest, r: int)
    requires
        request_checked(request) is Ok,
        0 <= r < request.writable_roots@.len(),
    ensures
        request.writable_roots@[r].canonical is Ok,
        !within(
            texts(request.runtime.canonical->Ok_0.parts@),
            texts(request.writable_roots@[r].canonical->Ok_0.parts@),
        ),
{
    let roots = request.writable_roots@;
    let runtime = request.runtime.canonical->Ok_0;
    let upto = roots.subrange(0, r + 1);
    if runtime_protected(runtime, upto) is Err {
        lemma_runtime_protected(runtime, roots, r + 1);
    }
    assert(upto[r] == roots[r]);
}

/// Whether a list of grants holds one of a path, as a directory or a file, with an access.
pub open spec fn grants_path(
    grants: Seq<Grant>,
    path: Seq<char>,
    is_file: bool,
    access: Access,
) -> bool {
    exists|j: int|
        0 <= j < grants.len() && (#[trigger] grants[j]).path@ == path && grants[j].is_file
            == is_file && grants[j].access == access
}

proof fn lemma_granted(grants: Seq<Grant>, all: Seq<GrantView>, j: int)
    requires
        grant_views(grants) == all,
        0 <= j < all.len(),
    ensures
        grants_path(grants, all[j].path, all[j].is_file, all[j].access),
{
    assert(grant_views(grants)[j] == grants[j]@);
    assert(grants[j].path@ == all[j].path);
}

/// Everything that a command declares is granted with its own access, and nothing else is: the
/// directories that commands need of the host, the files that they need of it, the program and the
/// runtime, and the roots that are only read, can be read; the writable roots, the scratch and the
/// control directory can be read and written. Nothing but these last and `/dev/null` can be written.
pub proof fn law_exactly_what_is_declared_is_granted(
    request: CapabilityRequest,
    runtime: CanonicalPath,
    grants: Seq<Grant>,
)
    requires
        grant_views(grants) == granted(request, runtime),
    ensures
        forall|i: int|
            0 <= i < request.read_only_roots@.len() ==> grants_path(
                grants,
                (#[trigger] request.read_only_roots@[i])@,
                false,
                Access::Read,
            ),
        forall|i: int|
            0 <= i < request.writable_roots@.len() ==> grants_path(
                grants,
                (#[trigger] request.writable_roots@[i]).path@,
                false,
                Access::ReadWrite,
            ),
        forall|i: int|
            0 <= i < request.prerequisites@.len() ==> grants_path(
                grants,
                (#[trigger] request.prerequisites@[i])@,
                false,
                Access::Read,
            ),
        forall|i: int|
            0 <= i < request.prerequisite_files@.len() ==> grants_path(
                grants,
                (#[trigger] request.prerequisite_files@[i])@,
                true,
                Access::Read,
            ),
        request.scratch matches Some(scratch) ==> grants_path(
            grants,
            scratch@,
            false,
            Access::ReadWrite,
        ),
        request.control matches Some(control) ==> grants_path(
            grants,
            control@,
            false,
            Access::ReadWrite,
        ),
        grants_path(grants, request.program@, true, Access::Read),
        grants_path(grants, runtime.text@, true, Access::Read),
        grants_path(grants, "/dev/null"@, true, Access::ReadWrite),
        forall|j: int|
            0 <= j < grants.len() ==> {
                let grant = #[trigger] grants[j];
                if grant.access == Access::Read {
                    ||| grant.is_file && (grant.path@ == request.program@ || grant.path@
                        == runtime.text@ || lists(request.prerequisite_files@, grant.path@))
                    ||| !grant.is_file && (lists(request.prerequisites@, grant.path@) || lists(
                        request.read_only_roots@,
                        grant.path@,
                    ))
                } else {
                    &&& grant.access == Access::ReadWrite
                    &&& {
                        ||| grant.is_file && grant.path@ == "/dev/null"@
                        ||| !grant.is_file && ((exists|i: int|
                            0 <= i < request.writable_roots@.len()
                                && (#[trigger] request.writable_roots@[i]).path@ == grant.path@)
                            || (request.scratch matches Some(scratch) && scratch@ == grant.path@)
                            || (request.control matches Some(control) && control@ == grant.path@))
                    }
                }
            },
{
    let all = granted(request, runtime);
    let a = request.prerequisites@.len() as int;
    let b = a + request.prerequisite_files@.len();
    let c = b + 3;
    let d = c + request.read_only_roots@.len();
    let e = d + request.writable_roots@.len();
    let f = e + grant_of_optional(request.scratch).len();
    assert forall|i: int| 0 <= i < request.prerequisites@.len() implies grants_path(
        grants,
        (#[trigger] request.prerequisites@[i])@,
        false,
        Access::Read,
    ) by {
        assert(all[i].path == request.prerequisites@[i]@);
        lemma_granted(grants, all, i);
    }
    assert forall|i: int| 0 <= i < request.prerequisite_files@.len() implies grants_path(
        grants,
        (#[trigger] request.prerequisite_files@[i])@,
        true,
        Access::Read,
    ) by {
        assert(all[a + i].path == request.prerequisite_files@[i]@);
        lemma_granted(grants, all, a + i);
    }
    assert forall|i: int| 0 <= i < request.read_only_roots@.len() implies grants_path(
        grants,
        (#[trigger] request.read_only_roots@[i])@,
        false,
        Access::Read,
    ) by {
        assert(all[c + i].path == request.read_only_roots@[i]@);
        lemma_granted(grants, all, c + i);
    }
    assert forall|i: int| 0 <= i < request.writable_roots@.len() implies grants_path(
        grants,
        (#[trigger] request.writable_roots@[i]).path@,
        false,
        Access::ReadWrite,
    ) by {
        assert(all[d + i].path == request.writable_roots@[i].path@);
        lemma_granted(grants, all, d + i);
    }
    assert(all[b].path == "/dev/null"@);
    lemma_granted(grants, all, b);
    assert(all[b + 1].path == request.program@);
    lemma_granted(grants, all, b + 1);
    assert(all[b + 2].path == runtime.text@);
    lemma_granted(grants, all, b + 2);
    if request.scratch is Some {
        assert(all[e].path == request.scratch->0@);
        lemma_granted(grants, all, e);
    }
    if request.control is Some {
        assert(all[f].path == request.control->0@);
        lemma_granted(grants, all, f);
    }
    assert forall|j: int| 0 <= j < grants.len() implies {
        let grant = #[trigger] grants[j];
        if grant.access == Access::Read {
            ||| grant.is_file && (grant.path@ == request.program@ || grant.path@ == runtime.text@
                || lists(request.prerequisite_files@, grant.path@))
            ||| !grant.is_file && (lists(request.prerequisites@, grant.path@) || lists(
                request.read_only_roots@,
                grant.path@,
            ))
        } else {
            &&& grant.access == Access::ReadWrite
            &&& {
                ||| grant.is_file && grant.path@ == "/dev/null"@
                ||| !grant.is_file && ((exists|i: int|
                    0 <= i < request.writable_roots@.len()
                        && (#[trigger] request.writable_roots@[i]).path@ == grant.path@) || (
                request.scratch matches Some(scratch) && scratch@ == grant.path@) || (
                request.control matches Some(control) && control@ == grant.path@))
            }
        }
    } by {
        let grant = grants[j];
        assert(grant_views(grants).len() == grants.len());
        assert(grant_views(grants)[j] == grant@);
        assert(all[j] == grant@);
        if j < a {
            assert(request.prerequisites@[j]@ == grant.path@);
        } else if j < b {
            assert(request.prerequisite_files@[j - a]@ == grant.path@);
        } else if j < c {
        } else if j < d {
            assert(request.read_only_roots@[j - c]@ == grant.path@);
        } else if j < e {
            assert(request.writable_roots@[j - d].path@ == grant.path@);
        }
    }
}

/// Whether the parts of `root` are the first parts of `path`.
pub open spec fn first_parts(path: Seq<String>, root: Seq<String>) -> bool {
    root.len() <= path.len() && forall|k: int|
        0 <= k < root.len() ==> (#[trigger] path[k])@ == root[k]@
}

/// A command is given what it is to be given exactly where all of its roots and the runtime can be
/// resolved, no writable root holds the runtime, and no domains are listed.
pub proof fn law_only_sound_requests_are_given(request: CapabilityRequest)
    ensures
        request_checked(request) is Ok <==> {
            &&& request.runtime.canonical is Ok
            &&& forall|i: int|
                0 <= i < request.writable_roots@.len() ==> ((
                #[trigger] request.writable_roots@[i]).canonical matches Ok(root) && !first_parts(
                    request.runtime.canonical->Ok_0.parts@,
                    root.parts@,
                ))
            &&& request.network !is Allowlist
        },
{
    if request.runtime.canonical is Ok {
        lemma_protected_from_all(request.runtime.canonical->Ok_0, request.writable_roots@);
    }
}

pub proof fn lemma_within_first_parts(path: Seq<String>, root: Seq<String>)
    ensures
        within(texts(path), texts(root)) == first_parts(path, root),
{
    if first_parts(path, root) {
        assert forall|k: int| 0 <= k < root.len() implies texts(path)[k] == #[trigger] texts(root)[k] by {
            assert(path[k]@ == root[k]@);
        }
        assert(texts(path).subrange(0, root.len() as int) =~= texts(root));
    }
    if within(texts(path), texts(root)) {
        assert forall|k: int| 0 <= k < root.len() implies (#[trigger] path[k])@ == root[k]@ by {
            assert(texts(path).subrange(0, root.len() as int)[k] == texts(root)[k]);
        }
    }
}

proof fn lemma_protected_from_all(runtime: CanonicalPath, roots: Seq<LookedUpPath>)
    ensures
        runtime_protected(runtime, roots) is Ok <==> forall|i: int|
            0 <= i < roots.len() ==> ((#[trigger] roots[i]).canonical matches Ok(root)
                && !first_parts(runtime.parts@, root.parts@)),
    decreases roots.len(),
{
    if roots.len() > 0 {
        let n = roots.len() - 1;
        let init = roots.subrange(0, n);
        lemma_protected_from_all(runtime, init);
        if roots[n].canonical is Ok {
            lemma_within_first_parts(runtime.parts@, roots[n].canonical->Ok_0.parts@);
        }
        if runtime_protected(runtime, roots) is Ok {
            assert forall|i: int| 0 <= i < roots.len() implies ((
            #[trigger] roots[i]).canonical matches Ok(root) && !first_parts(
                runtime.parts@,
                root.parts@,
            )) by {
                if i < n {
                    assert(init[i] == roots[i]);
                }
            }
        }
        if forall|i: int|
            0 <= i < roots.len() ==> ((#[trigger] roots[i]).canonical matches Ok(root)
                && !first_parts(runtime.parts@, root.parts@)) {
            assert forall|i: int| 0 <= i < init.len() implies ((
            #[trigger] init[i]).canonical matches Ok(root) && !first_parts(
                runtime.parts@,
                root.parts@,
            )) by {
                assert(init[i] == roots[i]);
            }
            assert(roots[n].canonical is Ok);
        }
    }
}

/// Whether looked up paths all have a canonical path.
pub open spec fn all_found(paths: Seq<LookedUpPath>) -> bool {
    forall|i: int| 0 <= i < paths.len() ==> (#[trigger] paths[i]).canonical is Ok
}

/// Whether one of the canonical paths of looked up paths holds another path, or lies in it.
pub open spec fn any_touches(paths: Seq<LookedUpPath>, other: Seq<String>) -> bool {
    exists|i: int|
        0 <= i < paths.len() && ((#[trigger] paths[i]).canonical matches Ok(path) && (first_parts(
            path.parts@,
            other,
        ) || first_parts(other, path.parts@)))
}

/// Whether two paths have the same parts.
pub open spec fn same_parts(a: Seq<String>, b: Seq<String>) -> bool {
    a.len() == b.len() && first_parts(a, b)
}

/// Whether a path holds the canonical path of one of `roots` that is none of `declared`.
pub open spec fn holds_undeclared(
    roots: Seq<LookedUpPath>,
    declared: Seq<LookedUpPath>,
    path: Seq<String>,
) -> bool {
    exists|i: int|
        0 <= i < roots.len() && ((#[trigger] roots[i]).canonical matches Ok(root) && first_parts(
            root.parts@,
            path,
        ) && forall|k: int|
            0 <= k < declared.len() ==> ((#[trigger] declared[k]).canonical matches Ok(own)
                ==> !same_parts(own.parts@, root.parts@)))
}

proof fn lemma_all_found(paths: Seq<LookedUpPath>)
    ensures
        resolved(paths) is Ok <==> all_found(paths),
        resolved(paths) matches Ok(found) ==> found.len() == paths.len() && forall|i: int|
            0 <= i < paths.len() ==> #[trigger] found[i] == texts(
                paths[i].canonical->Ok_0.parts@,
            ),
    decreases paths.len(),
{
    if paths.len() > 0 {
        let n = paths.len() - 1;
        let init = paths.subrange(0, n);
        lemma_all_found(init);
        if all_found(paths) {
            assert forall|i: int| 0 <= i < init.len() implies (#[trigger] init[i]).canonical
                is Ok by {
                assert(init[i] == paths[i]);
            }
            assert(paths[n].canonical is Ok);
        }
        if resolved(paths) is Ok {
            let found = resolved(paths)->Ok_0;
            assert forall|i: int| 0 <= i < paths.len() implies (#[trigger] paths[i]).canonical
                is Ok by {
                if i < n {
                    assert(init[i] == paths[i]);
                }
            }
            assert forall|i: int| 0 <= i < paths.len() implies #[trigger] found[i] == texts(
                paths[i].canonical->Ok_0.parts@,
            ) by {
                if i < n {
                    assert(init[i] == paths[i]);
                    assert(found[i] == resolved(init)->Ok_0[i]);
                }
            }
        }
    }
}

proof fn lemma_touches(paths: Seq<LookedUpPath>, other: Seq<String>)
    requires
        resolved(paths) is Ok,
    ensures
        any_overlaps(resolved(paths)->Ok_0, texts(other)) == any_touches(paths, other),
{
    lemma_all_found(paths);
    let found = resolved(paths)->Ok_0;
    assert forall|i: int| 0 <= i < paths.len() implies overlapping(
        #[trigger] found[i],
        texts(other),
    ) == (first_parts(paths[i].canonical->Ok_0.parts@, other) || first_parts(
        other,
        paths[i].canonical->Ok_0.parts@,
    )) by {
        lemma_within_first_parts(paths[i].canonical->Ok_0.parts@, other);
        lemma_within_first_parts(other, paths[i].canonical->Ok_0.parts@);
    }
    if any_touches(paths, other) {
        let i = choose|i: int|
            0 <= i < paths.len() && ((#[trigger] paths[i]).canonical matches Ok(path) && (
            first_parts(path.parts@, other) || first_parts(other, path.parts@)));
        assert(overlapping(found[i], texts(other)));
    }
    if any_overlaps(found, texts(other)) {
        let i = choose|i: int| 0 <= i < found.len() && overlapping(#[trigger] found[i], texts(other));
        assert(paths[i].canonical is Ok);
    }
}

proof fn lemma_same_parts(a: Seq<String>, b: Seq<String>)
    ensures
        (texts(a) == texts(b)) == same_parts(a, b),
{
    lemma_within_first_parts(a, b);
    if same_parts(a, b) {
        assert(texts(a).subrange(0, b.len() as int) =~= texts(a));
    }
    if texts(a) == texts(b) {
        assert(texts(a).len() == a.len() && texts(b).len() == b.len());
        assert(texts(a).subrange(0, b.len() as int) =~= texts(a));
    }
}

proof fn lemma_holds_undeclared(
    roots: Seq<LookedUpPath>,
    declared: Seq<LookedUpPath>,
    path: Seq<String>,
)
    requires
        resolved(roots) is Ok,
        resolved(declared) is Ok,
    ensures
        any_root_within(resolved(roots)->Ok_0, resolved(declared)->Ok_0, texts(path))
            == holds_undeclared(roots, declared, path),
{
    lemma_all_found(roots);
    lemma_all_found(declared);
    let all = resolved(roots)->Ok_0;
    let own = resolved(declared)->Ok_0;
    assert forall|i: int| 0 <= i < roots.len() implies (!own.contains(#[trigger] all[i]) && within(
        all[i],
        texts(path),
    )) == (first_parts(roots[i].canonical->Ok_0.parts@, path) && forall|k: int|
        0 <= k < declared.len() ==> ((#[trigger] declared[k]).canonical matches Ok(own)
            ==> !same_parts(own.parts@, roots[i].canonical->Ok_0.parts@))) by {
        let root = roots[i].canonical->Ok_0.parts@;
        lemma_within_first_parts(root, path);
        if own.contains(all[i]) {
            let k = choose|k: int| 0 <= k < own.len() && own[k] == all[i];
            lemma_same_parts(declared[k].canonical->Ok_0.parts@, root);
            assert(declared[k].canonical is Ok);
        } else {
            assert forall|k: int| 0 <= k < declared.len() implies ((
            #[trigger] declared[k]).canonical matches Ok(own) ==> !same_parts(
                own.parts@,
                root,
            )) by {
                lemma_same_parts(declared[k].canonical->Ok_0.parts@, root);
                assert(own[k] != all[i]);
            }
        }
    }
    if holds_undeclared(roots, declared, path) {
        let i = choose|i: int|
            0 <= i < roots.len() && ((#[trigger] roots[i]).canonical matches Ok(root)
                && first_parts(root.parts@, path) && forall|k: int|
                0 <= k < declared.len() ==> ((#[trigger] declared[k]).canonical matches Ok(own)
                    ==> !same_parts(own.parts@, root.parts@)));
        assert(!own.contains(all[i]) && within(all[i], texts(path)));
    }
    if any_root_within(all, own, texts(path)) {
        let i = choose|i: int|
            0 <= i < all.len() && !own.contains(#[trigger] all[i]) && within(all[i], texts(path));
        assert(roots[i].canonical is Ok);
    }
}

/// The grants of a policy are accepted exactly where all that it names can be resolved, no grant
/// touches what may not be read, and no grant that lets anything be written touches what may not be
/// written or holds a root that is only to be read.
pub proof fn law_layouts_are_accepted_where_nothing_is_exposed(
    protected: ProtectedPaths,
    grants: Seq<ResolvedGrant>,
)
    ensures
        layout_checked(protected, grants) is Ok <==> {
            &&& all_found(protected.denied_reads@)
            &&& all_found(protected.denied_writes@)
            &&& all_found(protected.writable_roots@)
            &&& all_found(protected.read_only_roots@)
            &&& forall|g: int|
                0 <= g < grants.len() ==> {
                    let grant = #[trigger] grants[g];
                    &&& !any_touches(protected.denied_reads@, grant.parts@)
                    &&& grant.access != Access::Read ==> !any_touches(
                        protected.denied_writes@,
                        grant.parts@,
                    ) && !holds_undeclared(
                        protected.read_only_roots@,
                        protected.writable_roots@,
                        grant.parts@,
                    )
                }
        },
{
    lemma_all_found(protected.denied_reads@);
    lemma_all_found(protected.denied_writes@);
    lemma_all_found(protected.writable_roots@);
    lemma_all_found(protected.read_only_roots@);
    if all_found(protected.denied_reads@) && all_found(protected.denied_writes@) && all_found(
        protected.writable_roots@,
    ) && all_found(protected.read_only_roots@) {
        lemma_grants_exposed(protected, grants);
    }
}

proof fn lemma_grants_exposed(protected: ProtectedPaths, grants: Seq<ResolvedGrant>)
    requires
        resolved(protected.denied_reads@) is Ok,
        resolved(protected.denied_writes@) is Ok,
        resolved(protected.writable_roots@) is Ok,
        resolved(protected.read_only_roots@) is Ok,
    ensures
        grants_checked(
            grants,
            resolved(protected.denied_reads@)->Ok_0,
            resolved(protected.denied_writes@)->Ok_0,
            resolved(protected.writable_roots@)->Ok_0,
            resolved(protected.read_only_roots@)->Ok_0,
        ) is Ok <==> forall|g: int|
            0 <= g < grants.len() ==> {
                let grant = #[trigger] grants[g];
                &&& !any_touches(protected.denied_reads@, grant.parts@)
                &&& grant.access != Access::Read ==> !any_touches(
                    protected.denied_writes@,
                    grant.parts@,
                ) && !holds_undeclared(
                    protected.read_only_roots@,
                    protected.writable_roots@,
                    grant.parts@,
                )
            },
    decreases grants.len(),
{
    if grants.len() > 0 {
        let n = grants.len() - 1;
        let init = grants.subrange(0, n);
        lemma_grants_exposed(protected, init);
        lemma_touches(protected.denied_reads@, grants[n].parts@);
        lemma_touches(protected.denied_writes@, grants[n].parts@);
        lemma_holds_undeclared(
            protected.read_only_roots@,
            protected.writable_roots@,
            grants[n].parts@,
        );
        assert forall|g: int| 0 <= g < n implies #[trigger] init[g] == grants[g] by {}
        assert(forall|g: int| 0 <= g < n ==> #[trigger] grants[g] == init[g]);
    }
}

/// A policy is accepted exactly where its network rules make sense, the command works in the root of
/// the workspace, and all paths of the policy are absolute.
pub proof fn law_policies_are_accepted_for_their_workspace(
    network: Result<(), String>,
    cwd: Result<CanonicalPath, String>,
    workspace: Result<CanonicalPath, String>,
    absolute: Seq<bool>,
)
    ensures
        policy_checked(network, cwd, workspace, absolute) is Ok <==> {
            &&& network is Ok
            &&& cwd is Ok
            &&& workspace is Ok
            &&& same_parts(cwd->Ok_0.parts@, workspace->Ok_0.parts@)
            &&& forall|i: int| 0 <= i < absolute.len() ==> #[trigger] absolute[i]
        },
{
    if cwd is Ok && workspace is Ok {
        lemma_same_parts(cwd->Ok_0.parts@, workspace->Ok_0.parts@);
    }
}

/// A temporary root is made and used exactly where it stays in the temporary directory of the
/// system and, once it is made, is a directory below it.
pub proof fn law_temporary_roots_stay_below_the_temporary_directory(
    root: Seq<char>,
    configured: CanonicalPath,
    ancestor: CanonicalPath,
    made: CanonicalPath,
    is_directory: bool,
)
    ensures
        temporary_root_allowed(root, Ok(configured), Some(Ok(ancestor))) is Ok <==> first_parts(
            ancestor.parts@,
            configured.parts@,
        ),
        temporary_root_usable(configured, Ok(made), is_directory) is Ok <==> is_directory
            && made.parts@.len() > configured.parts@.len() && first_parts(
            made.parts@,
            configured.parts@,
        ),
{
    lemma_within_first_parts(ancestor.parts@, configured.parts@);
    lemma_within_first_parts(made.parts@, configured.parts@);
    lemma_same_parts(made.parts@, configured.parts@);
}

/// The roots of a policy are accepted exactly where all of them are directories, and the first that
/// is none is named.
pub proof fn law_roots_are_directories(roots: Seq<(String, bool)>)
    ensures
        roots_checked(roots) is Ok <==> forall|i: int| 0 <= i < roots.len() ==> (#[trigger] roots[i]).1,
        forall|i: int|
            0 <= i < roots.len() && !(#[trigger] roots[i]).1 && (forall|j: int|
                0 <= j < i ==> (#[trigger] roots[j]).1) ==> roots_checked(roots) == Err::<
                (),
                ExecutionErrorView,
            >(
                ExecutionErrorView::Denied(
                    "local sandbox filesystem root is not an existing directory: "@ + roots[i].0@,
                ),
            ),
    decreases roots.len(),
{
    if roots.len() > 0 {
        let n = roots.len() - 1;
        let init = roots.subrange(0, n);
        law_roots_are_directories(init);
        assert forall|i: int| 0 <= i < n implies #[trigger] init[i] == roots[i] by {}
        assert(forall|i: int| 0 <= i < n ==> #[trigger] roots[i] == init[i]);
        assert forall|i: int|
            0 <= i < roots.len() && !(#[trigger] roots[i]).1 && (forall|j: int|
                0 <= j < i ==> (#[trigger] roots[j]).1) implies roots_checked(roots) == Err::<
            (),
            ExecutionErrorView,
        >(
            ExecutionErrorView::Denied(
                "local sandbox filesystem root is not an existing directory: "@ + roots[i].0@,
            ),
        ) by {
            if i < n {
                assert(!init[i].1);
                assert forall|j: int| 0 <= j < i implies (#[trigger] init[j]).1 by {
                    assert(roots[j].1);
                }
            } else {
                assert forall|j: int| 0 <= j < init.len() implies (#[trigger] init[j]).1 by {
                    assert(roots[j].1);
                }
            }
        }
    }
}

/// Whether a text is one of a list of rules.
pub open spec fn has_rule(rules: Seq<&'static str>, rule: Seq<char>) -> bool {
    exists|i: int| 0 <= i < rules.len() && (#[trigger] rules[i])@ == rule
}

/// Commands are kept from Unix sockets by rules only on macOS, and may ask the resolver there only
/// where they may use the public internet.
pub proof fn law_platform_rules_follow_the_network(request: CapabilityRequest)
    ensures
        platform_rules_of(request).len() == if request.is_macos {
            if request.network is PublicInternet {
                4int
            } else {
                2
            }
        } else {
            0
        },
        request.is_macos ==> {
            &&& has_rule(
                platform_rules_of(request),
                "(deny network-outbound (remote unix-socket))"@,
            )
            &&& has_rule(platform_rules_of(request), "(deny network-bind (local unix-socket))"@)
        },
        request.is_macos && request.network is PublicInternet ==> {
            &&& has_rule(
                platform_rules_of(request),
                "(allow network-outbound (path \"/private/var/run/mDNSResponder\"))"@,
            )
            &&& has_rule(
                platform_rules_of(request),
                "(allow network-outbound (path \"/var/run/mDNSResponder\"))"@,
            )
        },
{
    let rules = platform_rules_of(request);
    if request.is_macos {
        assert(rules[0] == MACOS_SOCKET_RULES@[0] && rules[1] == MACOS_SOCKET_RULES@[1]);
        if request.network is PublicInternet {
            assert(rules[2] == MACOS_RESOLVER_RULES@[0] && rules[3] == MACOS_RESOLVER_RULES@[1]);
        }
    }
}

} // verus!
