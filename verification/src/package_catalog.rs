//! What the catalog of packages is built from: the roots of the packages, and where the catalog
//! goes.

use crate::json::{json_pretty, write_json_pretty, Json};
use crate::observation_cas::agrees;
use crate::text::{concat2, optional_text, starts_with, begins_with, text_equals, texts};
use vstd::prelude::*;

verus! {

/// What the arguments from `at` on ask for, where those before them asked for `roots` and
/// `output`.
pub open spec fn asked_from(
    args: Seq<Seq<char>>,
    at: int,
    roots: Seq<Seq<char>>,
    output: Option<Seq<char>>,
) -> Result<(Seq<Seq<char>>, Option<Seq<char>>), Seq<char>>
    decreases args.len() - at,
{
    if at >= args.len() {
        if roots.len() == 0 {
            Err("at least one package root is required"@)
        } else {
            Ok((roots, output))
        }
    } else if args[at] == "--output"@ {
        if output is Some {
            Err("--output may be specified only once"@)
        } else if at + 1 >= args.len() {
            Err("--output requires a path"@)
        } else {
            asked_from(args, at + 2, roots, Some(args[at + 1]))
        }
    } else if begins_with(args[at], "-"@) {
        Err("unknown argument: "@ + args[at])
    } else {
        asked_from(args, at + 1, roots.push(args[at]), output)
    }
}

/// Reads the arguments: the roots of the packages, and where the catalog goes.
pub fn parse_args(args: &Vec<String>) -> (result: Result<(Vec<String>, Option<String>), String>)
    ensures
        agrees(
            result,
            |parsed: (Vec<String>, Option<String>)| (texts(parsed.0@), optional_text(parsed.1)),
            asked_from(texts(args@), 0, Seq::empty(), None),
        ),
{
    let ghost all = texts(args@);
    let mut roots: Vec<String> = Vec::new();
    let mut output: Option<String> = None;
    let mut at: usize = 0;
    assert(texts(roots@) =~= Seq::empty());
    while at < args.len()
        invariant
            at <= args.len(),
            all == texts(args@),
            asked_from(all, 0, Seq::empty(), None) == asked_from(
                all,
                at as int,
                texts(roots@),
                optional_text(output),
            ),
        decreases args.len() - at,
    {
        assert(all[at as int] == args@[at as int]@);
        let arg = args[at].as_str();
        if text_equals(arg, "--output") {
            if output.is_some() {
                return Err("--output may be specified only once".to_owned());
            }
            if at + 1 >= args.len() {
                return Err("--output requires a path".to_owned());
            }
            assert(all[at + 1] == args@[at + 1]@);
            output = Some(args[at + 1].clone());
            at = at + 2;
        } else if starts_with(arg, "-") {
            return Err(concat2("unknown argument: ", arg));
        } else {
            let ghost before = texts(roots@);
            roots.push(arg.to_owned());
            assert(texts(roots@) =~= before.push(arg@));
            at = at + 1;
        }
    }
    if roots.len() == 0 {
        return Err("at least one package root is required".to_owned());
    }
    Ok((roots, output))
}

/// What looking at the root of a package came to.
#[derive(Debug)]
pub enum PackageRoot {
    Failed { path: String, error: String },
    Symlink { path: String },
    Plain,
}

/// The first root that is none.
pub open spec fn roots_error(roots: Seq<PackageRoot>) -> Option<Seq<char>>
    decreases roots.len(),
{
    if roots.len() == 0 {
        None
    } else {
        let n = roots.len() - 1;
        match roots_error(roots.subrange(0, n)) {
            Some(error) => Some(error),
            None => match roots[n] {
                PackageRoot::Failed { path, error } => Some(
                    "inspect package root failed "@ + path@ + ": "@ + error@,
                ),
                PackageRoot::Symlink { path } => Some(
                    "package root must not be a symlink: "@ + path@,
                ),
                PackageRoot::Plain => None,
            },
        }
    }
}

proof fn lemma_roots_error(roots: Seq<PackageRoot>, n: int)
    requires
        0 <= n <= roots.len(),
        roots_error(roots.subrange(0, n)) is Some,
    ensures
        roots_error(roots) == roots_error(roots.subrange(0, n)),
    decreases roots.len(),
{
    if n < roots.len() {
        let init = roots.subrange(0, roots.len() - 1);
        assert(init.subrange(0, n) =~= roots.subrange(0, n));
        lemma_roots_error(init, n);
    } else {
        assert(roots.subrange(0, n) =~= roots);
    }
}

/// Accepts the roots of packages that are there and are no links.
pub fn check_package_roots(roots: &Vec<PackageRoot>) -> (result: Result<(), String>)
    ensures
        match result {
            Ok(_) => roots_error(roots@) == None::<Seq<char>>,
            Err(message) => roots_error(roots@) == Some(message@),
        },
{
    let mut i: usize = 0;
    assert(roots@.subrange(0, 0) =~= Seq::empty());
    while i < roots.len()
        invariant
            i <= roots.len(),
            roots_error(roots@.subrange(0, i as int)) is None,
        decreases roots.len() - i,
    {
        proof {
            let next = roots@.subrange(0, i + 1);
            assert(next.subrange(0, i as int) =~= roots@.subrange(0, i as int));
            assert(next[i as int] == roots@[i as int]);
            if roots_error(next) is Some {
                lemma_roots_error(roots@, i + 1);
            }
        }
        match &roots[i] {
            PackageRoot::Failed { path, error } => {
                let mut message = concat2("inspect package root failed ", path.as_str());
                message.append(": ");
                message.append(error.as_str());
                return Err(message);
            },
            PackageRoot::Symlink { path } => {
                return Err(concat2("package root must not be a symlink: ", path.as_str()));
            },
            PackageRoot::Plain => {},
        }
        i = i + 1;
    }
    assert(roots@.subrange(0, roots@.len() as int) =~= roots@);
    Ok(())
}

/// The text of the catalog, for the outcome of writing it as JSON.
pub open spec fn catalog_text(written: Result<Seq<char>, Seq<char>>) -> Result<
    Seq<char>,
    Seq<char>,
> {
    match written {
        Ok(text) => Ok(text + "\n"@),
        Err(error) => Err("encode package catalog failed: "@ + error),
    }
}

/// The text of the catalog.
pub fn encode_catalog(catalog: &Json) -> (result: Result<String, String>)
    ensures
        agrees(result, |text: String| text@, catalog_text(json_pretty(catalog@))),
{
    match write_json_pretty(catalog) {
        Ok(text) => Ok(concat2(text.as_str(), "\n")),
        Err(error) => Err(concat2("encode package catalog failed: ", error.as_str())),
    }
}

/// Whether no argument is an option.
pub open spec fn no_options(args: Seq<Seq<char>>) -> bool {
    forall|i: int| 0 <= i < args.len() ==> !begins_with(#[trigger] args[i], "-"@)
}

proof fn lemma_roots_asked(
    args: Seq<Seq<char>>,
    at: int,
    n: int,
    roots: Seq<Seq<char>>,
    output: Option<Seq<char>>,
)
    requires
        0 <= at <= n <= args.len(),
        forall|i: int| at <= i < n ==> !begins_with(#[trigger] args[i], "-"@),
    ensures
        asked_from(args, at, roots, output) == asked_from(
            args,
            n,
            roots + args.subrange(at, n),
            output,
        ),
    decreases n - at,
{
    reveal_strlit("-");
    reveal_strlit("--output");
    if at < n {
        assert(args[at] != "--output"@) by {
            if args[at] == "--output"@ {
                assert("--output"@.subrange(0, 1) =~= "-"@);
            }
        }
        lemma_roots_asked(args, at + 1, n, roots.push(args[at]), output);
        assert(roots.push(args[at]) + args.subrange(at + 1, n) =~= roots + args.subrange(at, n));
    } else {
        assert(roots + args.subrange(at, n) =~= roots);
    }
}

/// The arguments of the catalog are its roots, in their order, and the place of its output wherever
/// the option for it stands; without a root, with an option that is not known, or with the option for
/// the output twice or without a place, they are refused.
pub proof fn law_arguments_are_roots_and_an_output(
    before: Seq<Seq<char>>,
    after: Seq<Seq<char>>,
    place: Seq<char>,
    option: Seq<char>,
)
    requires
        no_options(before),
        no_options(after),
    ensures
        before.len() > 0 ==> asked_from(before, 0, Seq::empty(), None) == Ok::<
            (Seq<Seq<char>>, Option<Seq<char>>),
            Seq<char>,
        >((before, None)),
        before.len() == 0 ==> asked_from(before, 0, Seq::empty(), None) is Err,
        before.len() + after.len() > 0 ==> asked_from(
            before + seq!["--output"@, place] + after,
            0,
            Seq::empty(),
            None,
        ) == Ok::<(Seq<Seq<char>>, Option<Seq<char>>), Seq<char>>((before + after, Some(place))),
        asked_from(before + seq!["--output"@], 0, Seq::empty(), None) is Err,
        asked_from(
            before + seq!["--output"@, place] + after + seq!["--output"@, place],
            0,
            Seq::empty(),
            None,
        ) is Err,
        begins_with(option, "-"@) && option != "--output"@ ==> asked_from(
            before + seq![option] + after,
            0,
            Seq::empty(),
            None,
        ) == Err::<(Seq<Seq<char>>, Option<Seq<char>>), Seq<char>>(
            "unknown argument: "@ + option,
        ),
{
    let none = Seq::<Seq<char>>::empty();
    let n = before.len() as int;
    lemma_roots_asked(before, 0, n, none, None);
    assert(none + before.subrange(0, n) =~= before);
    let both = before + seq!["--output"@, place] + after;
    let total = both.len() as int;
    assert forall|i: int| 0 <= i < n implies !begins_with(#[trigger] both[i], "-"@) by {
        assert(both[i] == before[i]);
    }
    lemma_roots_asked(both, 0, n, none, None);
    assert(none + both.subrange(0, n) =~= before);
    assert(both[n] == "--output"@ && both[n + 1] == place);
    assert forall|i: int| n + 2 <= i < total implies !begins_with(#[trigger] both[i], "-"@) by {
        assert(both[i] == after[i - n - 2]);
    }
    lemma_roots_asked(both, n + 2, total, before, Some(place));
    assert(before + both.subrange(n + 2, total) =~= before + after);
    let alone = before + seq!["--output"@];
    assert forall|i: int| 0 <= i < n implies !begins_with(#[trigger] alone[i], "-"@) by {
        assert(alone[i] == before[i]);
    }
    lemma_roots_asked(alone, 0, n, none, None);
    assert(alone[n] == "--output"@);
    let twice = both + seq!["--output"@, place];
    assert forall|i: int| 0 <= i < n implies !begins_with(#[trigger] twice[i], "-"@) by {
        assert(twice[i] == before[i]);
    }
    lemma_roots_asked(twice, 0, n, none, None);
    assert(none + twice.subrange(0, n) =~= before);
    assert(twice[n] == "--output"@ && twice[n + 1] == place);
    assert forall|i: int| n + 2 <= i < total implies !begins_with(#[trigger] twice[i], "-"@) by {
        assert(twice[i] == after[i - n - 2]);
    }
    lemma_roots_asked(twice, n + 2, total, before, Some(place));
    assert(twice[total] == "--output"@);
    let unknown = before + seq![option] + after;
    assert forall|i: int| 0 <= i < n implies !begins_with(#[trigger] unknown[i], "-"@) by {
        assert(unknown[i] == before[i]);
    }
    lemma_roots_asked(unknown, 0, n, none, None);
    assert(unknown[n] == option);
}

/// The roots of packages are accepted exactly where all could be looked at and none is a link.
pub proof fn law_roots_are_no_links(roots: Seq<PackageRoot>)
    ensures
        roots_error(roots) is None <==> forall|i: int|
            0 <= i < roots.len() ==> (#[trigger] roots[i]) is Plain,
    decreases roots.len(),
{
    if roots.len() > 0 {
        let n = roots.len() - 1;
        let init = roots.subrange(0, n);
        law_roots_are_no_links(init);
        assert forall|k: int| 0 <= k < n implies #[trigger] init[k] == roots[k] by {}
        assert(forall|k: int| 0 <= k < n ==> #[trigger] roots[k] == init[k]);
    }
}

} // verus!
