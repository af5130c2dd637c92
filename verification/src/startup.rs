//! How the host is started, and the names of the temporary files through which it replaces files.

use crate::errors::RuntimeHostError;
use crate::text::{
    concat2, concat3, decimal, decimal_text, join, joined, signed_decimal, signed_long_text,
    text_equals, texts,
};
use vstd::prelude::*;

verus! {

/// What the host does when it is started.
#[derive(Clone, Copy, Debug, PartialEq, Eq, Structural)]
pub enum Startup {
    /// Runs a command under a policy, with the arguments behind the first.
    MacOsLauncher,
    /// Supervises a command, with the arguments behind the first.
    LinuxSupervisor,
    /// Carries out an operation on files.
    FileSystemHelper,
    /// Tells where the server is reached.
    PrintEndpoint,
    /// Serves.
    Server,
    /// Connects its input and output to the server.
    Relay,
}

/// What the host may do on the system that it was built for.
#[derive(Clone, Copy, Debug, PartialEq, Eq, Structural)]
pub enum BuiltFor {
    Linux,
    MacOs,
    Windows,
}

/// What the host does when it is started, or the error by its code and its message.
pub open spec fn started(arguments: Seq<Seq<char>>, built_for: BuiltFor) -> Result<
    Startup,
    (Seq<char>, Seq<char>),
> {
    if built_for == BuiltFor::MacOs && arguments.len() > 0 && arguments[0]
        == "--local-macos-launcher"@ {
        Ok(Startup::MacOsLauncher)
    } else if built_for == BuiltFor::Linux && arguments.len() > 0 && arguments[0]
        == "--local-sandbox-supervisor"@ {
        Ok(Startup::LinuxSupervisor)
    } else if built_for != BuiltFor::Windows && arguments.len() == 1 && arguments[0]
        == "--local-sandbox-filesystem-helper"@ {
        Ok(Startup::FileSystemHelper)
    } else if built_for == BuiltFor::Windows {
        Err(
            (
                "unsupported_execution_environment"@,
                "Native Windows Runtime is unavailable; use the Linux Runtime in WSL2."@,
            ),
        )
    } else if arguments.len() == 1 && arguments[0] == "--runtime-server-endpoint"@ {
        Ok(Startup::PrintEndpoint)
    } else if arguments.len() == 1 && arguments[0] == "--runtime-server"@ {
        Ok(Startup::Server)
    } else if built_for == BuiltFor::Linux && arguments.len() == 1 && arguments[0]
        == "--runtime-server-connect"@ {
        Ok(Startup::Relay)
    } else if arguments.len() > 0 {
        Err(
            (
                "unknown_startup_option"@,
                "unknown Runtime Host startup option: "@ + joined(arguments, " "@),
            ),
        )
    } else {
        Err(
            (
                "runtime_server_mode_required"@,
                "start with --runtime-server or --runtime-server-endpoint"@,
            ),
        )
    }
}

/// What the host does when it is started.
pub fn startup(arguments: &Vec<String>, built_for: BuiltFor) -> (result: Result<
    Startup,
    RuntimeHostError,
>)
    ensures
        match result {
            Ok(action) => started(texts(arguments@), built_for) == Ok::<
                Startup,
                (Seq<char>, Seq<char>),
            >(action),
            Err(error) => started(texts(arguments@), built_for) == Err::<
                Startup,
                (Seq<char>, Seq<char>),
            >((error.code@, error.message@)),
        },
{
    if arguments.len() > 0 {
        assert(texts(arguments@)[0] == arguments@[0]@);
        let first = arguments[0].as_str();
        let alone = arguments.len() == 1;
        if built_for == BuiltFor::MacOs && text_equals(first, "--local-macos-launcher") {
            return Ok(Startup::MacOsLauncher);
        }
        if built_for == BuiltFor::Linux && text_equals(first, "--local-sandbox-supervisor") {
            return Ok(Startup::LinuxSupervisor);
        }
        if built_for != BuiltFor::Windows && alone && text_equals(
            first,
            "--local-sandbox-filesystem-helper",
        ) {
            return Ok(Startup::FileSystemHelper);
        }
    }
    if built_for == BuiltFor::Windows {
        return Err(
            RuntimeHostError::new(
                "unsupported_execution_environment",
                "Native Windows Runtime is unavailable; use the Linux Runtime in WSL2.",
            ),
        );
    }
    if arguments.len() == 0 {
        return Err(
            RuntimeHostError::new(
                "runtime_server_mode_required",
                "start with --runtime-server or --runtime-server-endpoint",
            ),
        );
    }
    let first = arguments[0].as_str();
    let alone = arguments.len() == 1;
    if alone && text_equals(first, "--runtime-server-endpoint") {
        return Ok(Startup::PrintEndpoint);
    }
    if alone && text_equals(first, "--runtime-server") {
        return Ok(Startup::Server);
    }
    if built_for == BuiltFor::Linux && alone && text_equals(first, "--runtime-server-connect") {
        return Ok(Startup::Relay);
    }
    let options = join(arguments, " ");
    Err(
        RuntimeHostError::new(
            "unknown_startup_option",
            concat2("unknown Runtime Host startup option: ", options.as_str()).as_str(),
        ),
    )
}

/// The name of the temporary file through which a file is replaced.
pub fn temporary_name(file_name: &str, process: u32, now_ms: i64) -> (result: String)
    ensures
        result@ == "."@ + file_name@ + "."@ + decimal(process as nat) + "."@ + signed_decimal(
            now_ms as int,
        ) + ".tmp"@,
{
    let process_text = decimal_text(process as u64);
    let time_text = signed_long_text(now_ms);
    let mut name = concat3(".", file_name, ".");
    name.append(process_text.as_str());
    name.append(".");
    name.append(time_text.as_str());
    name.append(".tmp");
    name
}

/// Whether a program was started with just one option.
pub open spec fn only(arguments: Seq<Seq<char>>, option: Seq<char>) -> bool {
    arguments.len() == 1 && arguments[0] == option
}

/// What the program does: it serves or tells its endpoint where just that is asked for, and nothing
/// of it on Windows; it relays on Linux, launches on macOS, supervises on Linux and helps with files
/// on both where the option for that comes first. Everything else is refused.
pub proof fn law_programs_start_as_they_are_asked(arguments: Seq<Seq<char>>, built_for: BuiltFor)
    ensures
        built_for == BuiltFor::Windows ==> (started(arguments, built_for) matches Err(error)
            && error.0 == "unsupported_execution_environment"@),
        started(arguments, built_for) == Ok::<Startup, (Seq<char>, Seq<char>)>(Startup::Server)
            <==> built_for != BuiltFor::Windows && only(arguments, "--runtime-server"@),
        started(arguments, built_for) == Ok::<Startup, (Seq<char>, Seq<char>)>(
            Startup::PrintEndpoint,
        ) <==> built_for != BuiltFor::Windows && only(arguments, "--runtime-server-endpoint"@),
        started(arguments, built_for) == Ok::<Startup, (Seq<char>, Seq<char>)>(Startup::Relay)
            <==> built_for == BuiltFor::Linux && only(arguments, "--runtime-server-connect"@),
        started(arguments, built_for) == Ok::<Startup, (Seq<char>, Seq<char>)>(
            Startup::FileSystemHelper,
        ) <==> built_for != BuiltFor::Windows && only(
            arguments,
            "--local-sandbox-filesystem-helper"@,
        ),
        started(arguments, built_for) == Ok::<Startup, (Seq<char>, Seq<char>)>(
            Startup::LinuxSupervisor,
        ) <==> built_for == BuiltFor::Linux && arguments.len() > 0 && arguments[0]
            == "--local-sandbox-supervisor"@,
        started(arguments, built_for) == Ok::<Startup, (Seq<char>, Seq<char>)>(
            Startup::MacOsLauncher,
        ) <==> built_for == BuiltFor::MacOs && arguments.len() > 0 && arguments[0]
            == "--local-macos-launcher"@,
        built_for != BuiltFor::Windows && arguments.len() == 0 ==> (started(arguments, built_for)
            matches Err(error) && error.0 == "runtime_server_mode_required"@),
{
    reveal_strlit("--runtime-server");
    reveal_strlit("--runtime-server-endpoint");
    reveal_strlit("--runtime-server-connect");
    reveal_strlit("--local-sandbox-filesystem-helper");
    reveal_strlit("--local-sandbox-supervisor");
    reveal_strlit("--local-macos-launcher");
    assert("--runtime-server"@.len() == 16 && "--runtime-server-endpoint"@.len() == 25
        && "--runtime-server-connect"@.len() == 24 && "--local-sandbox-filesystem-helper"@.len()
        == 33);
    assert("--local-sandbox-supervisor"@.len() == 26 && "--local-macos-launcher"@.len() == 22);
}

} // verus!
