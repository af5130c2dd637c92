//! The launcher of commands on Windows: the Bash that it runs, and what a request to it may hold.

use crate::local_execution_host::{is_valid_variable, valid_variable};
use crate::process_output::{executes, ExecutionError, ExecutionErrorView};
use crate::sandbox_policy::NetworkAccess;
use crate::text::{chars_of, concat2, optional_text, text_equals};
use vstd::prelude::*;
use vstd::utf8::encode_utf8;

verus! {

pub const HOST_LAUNCH_SCHEMA: &'static str = "centaeris_windows_host_launch_v1";

pub const MAX_HELPER_INPUT_BYTES: usize = 16777216;

pub const MAX_ARGUMENTS: usize = 4096;

/// The option that has this program launch a command.
pub const WINDOWS_LAUNCHER_OPTION: &'static str = "--windows-host-launcher";

/// The variables that name the directories in which programs are installed for all users.
pub const PROGRAM_VARIABLES: [&'static str; 3] = ["ProgramW6432", "ProgramFiles", "ProgramFiles(x86)"];

/// The variable that names the directory in which programs are installed for one user.
pub const LOCAL_PROGRAM_VARIABLE: &'static str = "LOCALAPPDATA";

/// Where Git puts the library that its Bash needs, from the directory of the Bash.
pub const BASH_LIBRARY_PLACES: [&'static str; 3] = [
    "msys-2.0.dll",
    "../usr/bin/msys-2.0.dll",
    "../../usr/bin/msys-2.0.dll",
];

/// A place where the Bash of Git may be.
#[derive(Debug)]
pub enum BashPlace {
    Below { root: String, path: &'static str },
    At(String),
}

pub enum BashPlaceView {
    Below { root: Seq<char>, path: Seq<char> },
    At(Seq<char>),
}

impl View for BashPlace {
    type V = BashPlaceView;

    open spec fn view(&self) -> BashPlaceView {
        match self {
            BashPlace::Below { root, path } => BashPlaceView::Below { root: root@, path: path@ },
            BashPlace::At(path) => BashPlaceView::At(path@),
        }
    }
}

pub open spec fn place_views(places: Seq<BashPlace>) -> Seq<BashPlaceView> {
    places.map_values(|place: BashPlace| place@)
}

/// The places below the directories that are known among those in which programs are installed for
/// all users.
pub open spec fn program_places(roots: Seq<Option<String>>) -> Seq<BashPlaceView>
    decreases roots.len(),
{
    if roots.len() == 0 {
        Seq::empty()
    } else {
        let n = roots.len() - 1;
        let before = program_places(roots.subrange(0, n));
        match roots[n] {
            Some(root) => before.push(
                BashPlaceView::Below { root: root@, path: "Git/bin/bash.exe"@ },
            ),
            None => before,
        }
    }
}

/// The places where the Bash of Git may be, in the order in which they are looked at.
pub open spec fn bash_places(
    roots: Seq<Option<String>>,
    local: Option<Seq<char>>,
    git_directory: Option<Seq<char>>,
    bash: Option<Seq<char>>,
) -> Seq<BashPlaceView> {
    program_places(roots) + match local {
        Some(root) => seq![BashPlaceView::Below { root, path: "Programs/Git/bin/bash.exe"@ }],
        None => Seq::empty(),
    } + match git_directory {
        Some(root) => seq![
            BashPlaceView::Below { root, path: "../bin/bash.exe"@ },
            BashPlaceView::Below { root, path: "../../bin/bash.exe"@ },
        ],
        None => Seq::empty(),
    } + match bash {
        Some(path) => seq![BashPlaceView::At(path)],
        None => Seq::empty(),
    }
}

/// The places where the Bash of Git may be: where programs are installed for all users and for one,
/// next to the `git.exe` that is on the search path, and the `bash.exe` that is there itself.
pub fn git_bash_places(
    program_roots: &Vec<Option<String>>,
    local_root: &Option<String>,
    git_directory: &Option<String>,
    bash_on_path: &Option<String>,
) -> (result: Vec<BashPlace>)
    ensures
        place_views(result@) == bash_places(
            program_roots@,
            optional_text(*local_root),
            optional_text(*git_directory),
            optional_text(*bash_on_path),
        ),
{
    let mut places: Vec<BashPlace> = Vec::new();
    let mut i: usize = 0;
    assert(place_views(places@) =~= program_places(program_roots@.subrange(0, 0)));
    while i < program_roots.len()
        invariant
            i <= program_roots.len(),
            place_views(places@) == program_places(program_roots@.subrange(0, i as int)),
        decreases program_roots.len() - i,
    {
        let ghost before = places@;
        proof {
            let next = program_roots@.subrange(0, i + 1);
            assert(next.subrange(0, i as int) =~= program_roots@.subrange(0, i as int));
            assert(next[i as int] == program_roots@[i as int]);
        }
        match &program_roots[i] {
            Some(root) => {
                places.push(BashPlace::Below { root: root.clone(), path: "Git/bin/bash.exe" });
                assert(place_views(places@) =~= place_views(before).push(places@.last()@));
            },
            None => {},
        }
        i = i + 1;
    }
    assert(program_roots@.subrange(0, program_roots@.len() as int) =~= program_roots@);
    match local_root {
        Some(root) => {
            places.push(BashPlace::Below { root: root.clone(), path: "Programs/Git/bin/bash.exe" });
        },
        None => {},
    }
    match git_directory {
        Some(root) => {
            places.push(BashPlace::Below { root: root.clone(), path: "../bin/bash.exe" });
            places.push(BashPlace::Below { root: root.clone(), path: "../../bin/bash.exe" });
        },
        None => {},
    }
    match bash_on_path {
        Some(path) => {
            places.push(BashPlace::At(path.clone()));
        },
        None => {},
    }
    assert(place_views(places@) =~= bash_places(
        program_roots@,
        optional_text(*local_root),
        optional_text(*git_directory),
        optional_text(*bash_on_path),
    ));
    places
}

/// What looking at an executable came to.
#[derive(Debug)]
pub struct BashCandidate {
    pub path: String,
    pub is_absolute: bool,
    pub is_file: bool,
    /// The canonical path, where it has one with a directory above it.
    pub canonical: Option<String>,
    /// Whether the library that Git's Bash needs is at one of the places where Git puts it.
    pub has_library: bool,
}

/// The canonical path of a candidate that is the Bash of Git for Windows.
pub open spec fn git_bash(candidate: BashCandidate) -> Option<Seq<char>> {
    if !candidate.is_absolute || !candidate.is_file {
        None
    } else {
        match candidate.canonical {
            Some(path) => if candidate.has_library {
                Some(path@)
            } else {
                None
            },
            None => None,
        }
    }
}

/// The canonical path of a candidate that is the Bash of Git for Windows.
pub fn validate_git_bash(candidate: &BashCandidate) -> (result: Option<String>)
    ensures
        match result {
            Some(path) => git_bash(*candidate) == Some(path@),
            None => git_bash(*candidate) == None::<Seq<char>>,
        },
{
    if !candidate.is_absolute || !candidate.is_file {
        return None;
    }
    match &candidate.canonical {
        Some(path) => if candidate.has_library {
            Some(path.clone())
        } else {
            None
        },
        None => None,
    }
}

/// The first of `candidates` that is the Bash of Git for Windows.
pub open spec fn first_git_bash(candidates: Seq<BashCandidate>) -> Option<Seq<char>>
    decreases candidates.len(),
{
    if candidates.len() == 0 {
        None
    } else {
        let n = candidates.len() - 1;
        match first_git_bash(candidates.subrange(0, n)) {
            Some(path) => Some(path),
            None => git_bash(candidates[n]),
        }
    }
}

proof fn lemma_first_git_bash(candidates: Seq<BashCandidate>, n: int)
    requires
        0 <= n <= candidates.len(),
        first_git_bash(candidates.subrange(0, n)) is Some,
    ensures
        first_git_bash(candidates) == first_git_bash(candidates.subrange(0, n)),
    decreases candidates.len(),
{
    if n < candidates.len() {
        let init = candidates.subrange(0, candidates.len() - 1);
        assert(init.subrange(0, n) =~= candidates.subrange(0, n));
        lemma_first_git_bash(init, n);
    } else {
        assert(candidates.subrange(0, n) =~= candidates);
    }
}

/// Where the Bash of Git for Windows is. A path that was asked for is not replaced by another.
pub fn resolve_git_bash_path(explicit: &Option<BashCandidate>, candidates: &Vec<BashCandidate>) -> (result:
    Result<String, ExecutionError>)
    ensures
        executes(
            result,
            |path: String| path@,
            match explicit {
                Some(candidate) => match git_bash(*candidate) {
                    Some(path) => Ok(path),
                    None => Err(
                        ExecutionErrorView::HostUnavailable(
                            "configured Git for Windows Bash executable is unavailable or invalid: "@
                                + candidate.path@,
                        ),
                    ),
                },
                None => match first_git_bash(candidates@) {
                    Some(path) => Ok(path),
                    None => Err(
                        ExecutionErrorView::HostUnavailable(
                            "Git for Windows is required for local execution on Windows; install it from https://git-scm.com/download/win"@,
                        ),
                    ),
                },
            },
        ),
{
    match explicit {
        Some(candidate) => {
            return match validate_git_bash(candidate) {
                Some(path) => Ok(path),
                None => Err(
                    ExecutionError::host_unavailable(
                        concat2(
                            "configured Git for Windows Bash executable is unavailable or invalid: ",
                            candidate.path.as_str(),
                        ).as_str(),
                    ),
                ),
            };
        },
        None => {},
    }
    let mut i: usize = 0;
    assert(candidates@.subrange(0, 0) =~= Seq::empty());
    while i < candidates.len()
        invariant
            i <= candidates.len(),
            *explicit is None,
            first_git_bash(candidates@.subrange(0, i as int)) is None,
        decreases candidates.len() - i,
    {
        proof {
            let next = candidates@.subrange(0, i + 1);
            assert(next.subrange(0, i as int) =~= candidates@.subrange(0, i as int));
            assert(next[i as int] == candidates@[i as int]);
            if first_git_bash(next) is Some {
                lemma_first_git_bash(candidates@, i + 1);
            }
        }
        match validate_git_bash(&candidates[i]) {
            Some(path) => {
                return Ok(path);
            },
            None => {},
        }
        i = i + 1;
    }
    assert(candidates@.subrange(0, candidates@.len() as int) =~= candidates@);
    Err(
        ExecutionError::host_unavailable(
            "Git for Windows is required for local execution on Windows; install it from https://git-scm.com/download/win",
        ),
    )
}

/// A request to launch a command.
#[derive(Debug)]
pub struct HostLaunchRequest {
    pub schema: String,
    pub program: BashCandidate,
    pub args: Vec<String>,
    pub cwd: String,
    pub cwd_is_absolute: bool,
    pub cwd_is_directory: bool,
    /// The variables that are set, in the order in which they are looked at.
    pub environment_overrides: Vec<(String, String)>,
}

/// Whether an argument may be handed to a command.
pub open spec fn valid_argument(argument: Seq<char>) -> bool {
    encode_utf8(argument).len() <= MAX_HELPER_INPUT_BYTES && !argument.contains('\0')
}

/// The first variable that may not be set.
pub open spec fn first_invalid_variable(overrides: Seq<(String, String)>) -> Option<Seq<char>>
    decreases overrides.len(),
{
    if overrides.len() == 0 {
        None
    } else {
        let n = overrides.len() - 1;
        match first_invalid_variable(overrides.subrange(0, n)) {
            Some(key) => Some(key),
            None => if valid_variable(overrides[n].0@, overrides[n].1@) {
                None
            } else {
                Some(overrides[n].0@)
            },
        }
    }
}

/// What is wrong with a request to launch a command, with what looking at its program came to.
pub open spec fn launch_refused(
    schema: Seq<char>,
    program: Seq<char>,
    found: Option<Seq<char>>,
    args: Seq<String>,
    cwd: Seq<char>,
    cwd_is_available: bool,
    overrides: Seq<(String, String)>,
) -> Option<Seq<char>> {
    if schema != HOST_LAUNCH_SCHEMA@ {
        Some("unsupported Windows host launch schema: "@ + schema)
    } else if found is None {
        Some(
            "Windows host launch requires a verified Git for Windows Bash executable: "@ + program,
        )
    } else if found->0 != program {
        Some("Windows host launch program must be canonical"@)
    } else if !cwd_is_available {
        Some("Windows host launch working directory is unavailable: "@ + cwd)
    } else if args.len() > MAX_ARGUMENTS || exists|i: int|
        0 <= i < args.len() && !valid_argument((#[trigger] args[i])@) {
        Some("Windows host launch command limits were exceeded"@)
    } else {
        match first_invalid_variable(overrides) {
            Some(key) => Some("Windows host launch environment override is invalid: "@ + key),
            None => None,
        }
    }
}

/// What is wrong with a request to launch a command.
pub open spec fn launch_error(request: HostLaunchRequest) -> Option<Seq<char>> {
    launch_refused(
        request.schema@,
        request.program.path@,
        git_bash(request.program),
        request.args@,
        request.cwd@,
        request.cwd_is_absolute && request.cwd_is_directory,
        request.environment_overrides@,
    )
}

proof fn lemma_first_invalid(overrides: Seq<(String, String)>, n: int)
    requires
        0 <= n <= overrides.len(),
        first_invalid_variable(overrides.subrange(0, n)) is Some,
    ensures
        first_invalid_variable(overrides) == first_invalid_variable(overrides.subrange(0, n)),
    decreases overrides.len(),
{
    if n < overrides.len() {
        let init = overrides.subrange(0, overrides.len() - 1);
        assert(init.subrange(0, n) =~= overrides.subrange(0, n));
        lemma_first_invalid(init, n);
    } else {
        assert(overrides.subrange(0, n) =~= overrides);
    }
}

fn is_valid_argument(argument: &str) -> (result: bool)
    ensures
        result == valid_argument(argument@),
{
    if argument.as_bytes().len() > MAX_HELPER_INPUT_BYTES {
        return false;
    }
    let chars = chars_of(argument);
    let mut i: usize = 0;
    while i < chars.len()
        invariant
            i <= chars.len(),
            chars@ == argument@,
            forall|j: int| 0 <= j < i ==> argument@[j] != '\0',
        decreases chars.len() - i,
    {
        if chars[i] == '\0' {
            return false;
        }
        i = i + 1;
    }
    true
}

fn find_invalid_variable(overrides: &Vec<(String, String)>) -> (result: Option<String>)
    ensures
        match result {
            Some(key) => first_invalid_variable(overrides@) == Some(key@),
            None => first_invalid_variable(overrides@) == None::<Seq<char>>,
        },
{
    let mut i: usize = 0;
    assert(overrides@.subrange(0, 0) =~= Seq::empty());
    while i < overrides.len()
        invariant
            i <= overrides.len(),
            first_invalid_variable(overrides@.subrange(0, i as int)) is None,
        decreases overrides.len() - i,
    {
        proof {
            let next = overrides@.subrange(0, i + 1);
            assert(next.subrange(0, i as int) =~= overrides@.subrange(0, i as int));
            assert(next[i as int] == overrides@[i as int]);
            if first_invalid_variable(next) is Some {
                lemma_first_invalid(overrides@, i + 1);
            }
        }
        if !is_valid_variable(overrides[i].0.as_str(), overrides[i].1.as_str()) {
            return Some(overrides[i].0.clone());
        }
        i = i + 1;
    }
    assert(overrides@.subrange(0, overrides@.len() as int) =~= overrides@);
    None
}

impl HostLaunchRequest {
    /// Accepts a request that may be carried out.
    pub fn validate(&self) -> (result: Result<(), String>)
        ensures
            match result {
                Ok(_) => launch_error(*self) == None::<Seq<char>>,
                Err(message) => launch_error(*self) == Some(message@),
            },
    {
        if !text_equals(self.schema.as_str(), HOST_LAUNCH_SCHEMA) {
            return Err(
                concat2("unsupported Windows host launch schema: ", self.schema.as_str()),
            );
        }
        let program = match validate_git_bash(&self.program) {
            Some(program) => program,
            None => {
                return Err(
                    concat2(
                        "Windows host launch requires a verified Git for Windows Bash executable: ",
                        self.program.path.as_str(),
                    ),
                );
            },
        };
        if !text_equals(program.as_str(), self.program.path.as_str()) {
            return Err("Windows host launch program must be canonical".to_owned());
        }
        if !self.cwd_is_absolute || !self.cwd_is_directory {
            return Err(
                concat2(
                    "Windows host launch working directory is unavailable: ",
                    self.cwd.as_str(),
                ),
            );
        }
        let mut exceeded = self.args.len() > MAX_ARGUMENTS;
        let mut i: usize = 0;
        while i < self.args.len() && !exceeded
            invariant
                i <= self.args.len(),
                !exceeded ==> self.args.len() <= MAX_ARGUMENTS && forall|j: int|
                    0 <= j < i ==> valid_argument((#[trigger] self.args@[j])@),
                exceeded ==> self.args.len() > MAX_ARGUMENTS || exists|j: int|
                    0 <= j < self.args@.len() && !valid_argument((#[trigger] self.args@[j])@),
            decreases self.args.len() - i,
        {
            if !is_valid_argument(self.args[i].as_str()) {
                assert(!valid_argument(self.args@[i as int]@));
                exceeded = true;
            }
            i = i + 1;
        }
        if exceeded {
            return Err("Windows host launch command limits were exceeded".to_owned());
        }
        match find_invalid_variable(&self.environment_overrides) {
            Some(key) => Err(
                concat2("Windows host launch environment override is invalid: ", key.as_str()),
            ),
            None => Ok(()),
        }
    }
}

/// Accepts what the launcher has read where it may be a request.
pub fn check_launch_input(length: usize) -> (result: Result<(), String>)
    ensures
        match result {
            Ok(_) => 0 < length <= MAX_HELPER_INPUT_BYTES,
            Err(message) => !(0 < length <= MAX_HELPER_INPUT_BYTES) && message@
                == "Windows host launch request size is invalid"@,
        },
{
    if length == 0 || length > MAX_HELPER_INPUT_BYTES {
        return Err("Windows host launch request size is invalid".to_owned());
    }
    Ok(())
}

/// Accepts a policy that the launcher can serve.
pub fn validate_policy(network: NetworkAccess) -> (result: Result<(), ExecutionError>)
    ensures
        executes(
            result,
            |unit: ()| unit,
            if network == NetworkAccess::PublicInternet {
                Ok(())
            } else {
                Err(
                    ExecutionErrorView::HostUnavailable(
                        "Windows Git Bash HostProcess supports only the publicInternet network policy"@,
                    ),
                )
            },
        ),
{
    if network == NetworkAccess::PublicInternet {
        Ok(())
    } else {
        Err(
            ExecutionError::host_unavailable(
                "Windows Git Bash HostProcess supports only the publicInternet network policy",
            ),
        )
    }
}


/// Prepares the request that the launcher is handed for a command: only a Bash of Git for Windows
/// is launched, by its canonical path, which `resolved` is a look at.
pub fn prepare_command(
    program: &BashCandidate,
    resolved: BashCandidate,
    args: Vec<String>,
    cwd: String,
    cwd_is_absolute: bool,
    cwd_is_directory: bool,
    environment_overrides: Vec<(String, String)>,
    network: NetworkAccess,
) -> (result: Result<HostLaunchRequest, ExecutionError>)
    ensures
        match result {
            Ok(request) => {
                &&& network == NetworkAccess::PublicInternet
                &&& git_bash(*program) == Some(request.program.path@)
                &&& request.schema@ == HOST_LAUNCH_SCHEMA@
                &&& git_bash(request.program) == git_bash(resolved)
                &&& request.args == args
                &&& request.cwd == cwd
                &&& request.cwd_is_absolute == cwd_is_absolute
                &&& request.cwd_is_directory == cwd_is_directory
                &&& request.environment_overrides == environment_overrides
                &&& launch_error(request) is None
            },
            Err(error) => if network != NetworkAccess::PublicInternet {
                error@ == ExecutionErrorView::HostUnavailable(
                    "Windows Git Bash HostProcess supports only the publicInternet network policy"@,
                )
            } else {
                match git_bash(*program) {
                    None => error@ == ExecutionErrorView::Denied(
                        "Windows host execution only accepts a verified Git for Windows Bash executable: "@
                            + program.path@,
                    ),
                    Some(canonical) => match launch_refused(
                        HOST_LAUNCH_SCHEMA@,
                        canonical,
                        git_bash(resolved),
                        args@,
                        cwd@,
                        cwd_is_absolute && cwd_is_directory,
                        environment_overrides@,
                    ) {
                        Some(reason) => error@ == ExecutionErrorView::Io(reason),
                        None => false,
                    },
                }
            },
        },
{
    match validate_policy(network) {
        Ok(_) => {},
        Err(error) => {
            return Err(error);
        },
    }
    let canonical = match validate_git_bash(program) {
        Some(canonical) => canonical,
        None => {
            return Err(
                ExecutionError::denied(
                    concat2(
                        "Windows host execution only accepts a verified Git for Windows Bash executable: ",
                        program.path.as_str(),
                    ).as_str(),
                ),
            );
        },
    };
    let request = HostLaunchRequest {
        schema: HOST_LAUNCH_SCHEMA.to_owned(),
        program: BashCandidate {
            path: canonical,
            is_absolute: resolved.is_absolute,
            is_file: resolved.is_file,
            canonical: resolved.canonical,
            has_library: resolved.has_library,
        },
        args,
        cwd,
        cwd_is_absolute,
        cwd_is_directory,
        environment_overrides,
    };
    match request.validate() {
        Ok(_) => Ok(request),
        Err(reason) => Err(ExecutionError::io(reason.as_str())),
    }
}
/// The code that a launched command ended with: its own, or one where it was killed.
pub fn launched_exit_code(code: Option<i32>) -> (result: i32)
    ensures
        result == match code {
            Some(code) => code,
            None => 1,
        },
{
    match code {
        Some(code) => code,
        None => 1,
    }
}

/// Where Bash is looked for: below each directory of programs that is known, in their order, below
/// the directory of the user's own programs, in two places beside Git, and where the path leads.
pub proof fn law_bash_is_looked_for_in_order(
    roots: Seq<Option<String>>,
    root: String,
    local: Option<Seq<char>>,
    git: Option<Seq<char>>,
    place: Seq<char>,
)
    ensures
        bash_places(Seq::empty(), None, None, None) == Seq::<BashPlaceView>::empty(),
        bash_places(roots.push(Some(root)), None, None, None) == bash_places(
            roots,
            None,
            None,
            None,
        ).push(BashPlaceView::Below { root: root@, path: "Git/bin/bash.exe"@ }),
        bash_places(roots.push(None), local, git, None) == bash_places(roots, local, git, None),
        bash_places(roots, Some(place), None, None) == bash_places(roots, None, None, None).push(
            BashPlaceView::Below { root: place, path: "Programs/Git/bin/bash.exe"@ },
        ),
        bash_places(roots, local, Some(place), None) == bash_places(roots, local, None, None).push(
            BashPlaceView::Below { root: place, path: "../bin/bash.exe"@ },
        ).push(BashPlaceView::Below { root: place, path: "../../bin/bash.exe"@ }),
        bash_places(roots, local, git, Some(place)) == bash_places(roots, local, git, None).push(
            BashPlaceView::At(place),
        ),
{
    let with_root = roots.push(Some(root));
    let without = roots.push(None);
    assert(with_root.subrange(0, with_root.len() - 1) =~= roots);
    assert(without.subrange(0, without.len() - 1) =~= roots);
    assert(bash_places(Seq::empty(), None, None, None) =~= Seq::<BashPlaceView>::empty());
    assert(bash_places(with_root, None, None, None) =~= bash_places(roots, None, None, None).push(
        BashPlaceView::Below { root: root@, path: "Git/bin/bash.exe"@ },
    ));
    assert(bash_places(roots, Some(place), None, None) =~= bash_places(roots, None, None, None).push(
        BashPlaceView::Below { root: place, path: "Programs/Git/bin/bash.exe"@ },
    ));
    assert(bash_places(roots, local, Some(place), None) =~= bash_places(
        roots,
        local,
        None,
        None,
    ).push(BashPlaceView::Below { root: place, path: "../bin/bash.exe"@ }).push(
        BashPlaceView::Below { root: place, path: "../../bin/bash.exe"@ },
    ));
    assert(bash_places(roots, local, git, Some(place)) =~= bash_places(roots, local, git, None).push(
        BashPlaceView::At(place),
    ));
}

/// Whether a candidate is the Bash of Git: an absolute path to a file that can be resolved and has
/// the library of Git beside it.
pub open spec fn is_git_bash(candidate: BashCandidate) -> bool {
    candidate.is_absolute && candidate.is_file && candidate.canonical is Some && candidate.has_library
}

/// The Bash that is taken is the first candidate that is that of Git, by its canonical path.
pub proof fn law_the_first_git_bash_is_taken(candidates: Seq<BashCandidate>)
    ensures
        first_git_bash(candidates) is None <==> forall|i: int|
            0 <= i < candidates.len() ==> !is_git_bash(#[trigger] candidates[i]),
        first_git_bash(candidates) matches Some(path) ==> exists|i: int|
            0 <= i < candidates.len() && is_git_bash(#[trigger] candidates[i])
                && candidates[i].canonical->0@ == path && forall|k: int|
                0 <= k < i ==> !is_git_bash(#[trigger] candidates[k]),
    decreases candidates.len(),
{
    if candidates.len() > 0 {
        let n = candidates.len() - 1;
        let init = candidates.subrange(0, n);
        law_the_first_git_bash_is_taken(init);
        assert forall|k: int| 0 <= k < n implies #[trigger] init[k] == candidates[k] by {}
        match first_git_bash(init) {
            Some(path) => {
                let i = choose|i: int|
                    0 <= i < init.len() && is_git_bash(#[trigger] init[i])
                        && init[i].canonical->0@ == path && forall|k: int|
                        0 <= k < i ==> !is_git_bash(#[trigger] init[k]);
                assert(init[i] == candidates[i]);
                assert forall|k: int| 0 <= k < i implies !is_git_bash(#[trigger] candidates[k]) by {
                    assert(init[k] == candidates[k]);
                }
                assert(is_git_bash(candidates[i]));
            },
            None => {
                assert forall|k: int| 0 <= k < n implies !is_git_bash(#[trigger] candidates[k]) by {
                    assert(init[k] == candidates[k]);
                }
                assert(git_bash(candidates[n]) is Some <==> is_git_bash(candidates[n]));
            },
        }
    }
}

/// A command is launched exactly where its request has the known form, its program is the Bash of
/// Git by its canonical path, its working directory is an absolute path to a directory, it has at
/// most 4096 arguments, each of at most 16 MiB and without NUL, and every variable that it overrides
/// is sound.
pub proof fn law_only_sound_commands_are_launched(request: HostLaunchRequest)
    ensures
        launch_error(request) is None <==> {
            &&& request.schema@ == "centaeris_windows_host_launch_v1"@
            &&& is_git_bash(request.program)
            &&& request.program.canonical->0@ == request.program.path@
            &&& request.cwd_is_absolute && request.cwd_is_directory
            &&& request.args@.len() <= 4096
            &&& forall|i: int|
                0 <= i < request.args@.len() ==> encode_utf8((#[trigger] request.args@[i])@).len()
                    <= 16777216 && !request.args@[i]@.contains('\0')
            &&& forall|i: int|
                0 <= i < request.environment_overrides@.len() ==> valid_variable(
                    (#[trigger] request.environment_overrides@[i]).0@,
                    request.environment_overrides@[i].1@,
                )
        },
{
    lemma_invalid_variable(request.environment_overrides@);
    let args = request.args@;
    assert((forall|i: int|
        0 <= i < args.len() ==> encode_utf8((#[trigger] args[i])@).len() <= 16777216
            && !args[i]@.contains('\0')) <==> !(exists|i: int|
        0 <= i < args.len() && !valid_argument((#[trigger] args[i])@)));
}

proof fn lemma_invalid_variable(overrides: Seq<(String, String)>)
    ensures
        first_invalid_variable(overrides) is None <==> forall|i: int|
            0 <= i < overrides.len() ==> valid_variable(
                (#[trigger] overrides[i]).0@,
                overrides[i].1@,
            ),
    decreases overrides.len(),
{
    if overrides.len() > 0 {
        let n = overrides.len() - 1;
        let init = overrides.subrange(0, n);
        lemma_invalid_variable(init);
        assert forall|k: int| 0 <= k < n implies #[trigger] init[k] == overrides[k] by {}
        assert(forall|k: int| 0 <= k < n ==> #[trigger] overrides[k] == init[k]);
    }
}

} // verus!
