//! Running the hooks of plugins: where a hook may run, and what is kept of its output.

use crate::local_execution_host::{for_workspace, ExecutionPolicy};
use crate::sandbox_policy::{
    first_parts, lemma_within_first_parts, starts_with_path, within, CanonicalPath, NetworkAccess,
};
use crate::text::{chars_of, optional_text, texts};
use vstd::prelude::*;
use vstd::utf8::{encode_scalar, encode_utf8};

verus! {

/// The most bytes that are kept of a stream of a hook.
pub const HOOK_STREAM_LIMIT_BYTES: usize = 65536;

/// The longest beginning of `s` that takes at most `limit` bytes.
pub open spec fn fitting(s: Seq<char>, limit: int) -> Seq<char>
    decreases s.len(),
{
    if s.len() == 0 || encode_utf8(s).len() <= limit {
        s
    } else {
        fitting(s.subrange(0, s.len() - 1), limit)
    }
}

proof fn lemma_encode_split(s: Seq<char>, n: int)
    requires
        0 <= n <= s.len(),
    ensures
        encode_utf8(s) == encode_utf8(s.subrange(0, n)) + encode_utf8(
            s.subrange(n, s.len() as int),
        ),
    decreases n,
{
    if n == 0 {
        assert(s.subrange(0, s.len() as int) =~= s);
        assert(encode_utf8(s.subrange(0, 0)) =~= Seq::<u8>::empty());
        assert(Seq::<u8>::empty() + encode_utf8(s) =~= encode_utf8(s));
    } else {
        let rest = s.drop_first();
        lemma_encode_split(rest, n - 1);
        let begin = s.subrange(0, n);
        assert(begin.drop_first() =~= rest.subrange(0, n - 1));
        assert(rest.subrange(n - 1, rest.len() as int) =~= s.subrange(n, s.len() as int));
        assert(begin[0] == s[0]);
        let first = encode_scalar(s[0] as u32);
        assert(first + (encode_utf8(rest.subrange(0, n - 1)) + encode_utf8(
            s.subrange(n, s.len() as int),
        )) =~= (first + encode_utf8(rest.subrange(0, n - 1))) + encode_utf8(
            s.subrange(n, s.len() as int),
        ));
    }
}

proof fn lemma_encode_one(c: char)
    ensures
        encode_utf8(seq![c]) == encode_scalar(c as u32),
{
    let s = seq![c];
    assert(s.drop_first() =~= Seq::<char>::empty());
    assert(encode_utf8(s.drop_first()) =~= Seq::<u8>::empty());
    assert(encode_scalar(c as u32) + Seq::<u8>::empty() =~= encode_scalar(c as u32));
}

proof fn lemma_fitting(s: Seq<char>, limit: int, n: int)
    requires
        0 <= n < s.len(),
        0 <= limit,
        encode_utf8(s.subrange(0, n)).len() <= limit,
        encode_utf8(s.subrange(0, n + 1)).len() > limit,
    ensures
        fitting(s, limit) == s.subrange(0, n),
    decreases s.len(),
{
    let init = s.subrange(0, s.len() - 1);
    lemma_encode_split(s, n + 1);
    assert(encode_utf8(s).len() > limit);
    if n < s.len() - 1 {
        assert(init.subrange(0, n) =~= s.subrange(0, n));
        assert(init.subrange(0, n + 1) =~= s.subrange(0, n + 1));
        lemma_fitting(init, limit, n);
    } else {
        assert(init =~= s.subrange(0, n));
        assert(fitting(init, limit) == init);
    }
}

/// How many bytes a character takes.
fn char_width(c: char) -> (result: usize)
    ensures
        result == encode_scalar(c as u32).len(),
        1 <= result <= 4,
{
    let n: u32 = c as u32;
    if n <= 0x7f {
        1
    } else if n <= 0x7ff {
        2
    } else if n <= 0xffff {
        3
    } else {
        4
    }
}

/// Cuts a stream of a hook to what is kept of it. The result says whether anything was cut.
pub fn bound_hook_stream(value: &mut String) -> (result: bool)
    ensures
        result == (encode_utf8(old(value)@).len() > HOOK_STREAM_LIMIT_BYTES),
        final(value)@ == fitting(old(value)@, HOOK_STREAM_LIMIT_BYTES as int),
{
    let ghost all = value@;
    if value.as_str().as_bytes().len() <= HOOK_STREAM_LIMIT_BYTES {
        return false;
    }
    let chars = chars_of(value.as_str());
    let mut used: usize = 0;
    let mut n: usize = 0;
    assert(all.subrange(0, 0) =~= Seq::empty());
    assert(encode_utf8(all.subrange(0, 0)) =~= Seq::<u8>::empty());
    assert(chars.len() > 0) by {
        if all.len() == 0 {
            assert(encode_utf8(all) =~= Seq::<u8>::empty());
        }
    }
    loop
        invariant
            n < chars.len(),
            chars@ == all,
            value@ == all,
            encode_utf8(all).len() > HOOK_STREAM_LIMIT_BYTES,
            used == encode_utf8(all.subrange(0, n as int)).len(),
            used <= HOOK_STREAM_LIMIT_BYTES,
        ensures
            n < chars.len(),
            chars@ == all,
            value@ == all,
            encode_utf8(all.subrange(0, n as int)).len() <= HOOK_STREAM_LIMIT_BYTES,
            encode_utf8(all.subrange(0, n + 1)).len() > HOOK_STREAM_LIMIT_BYTES,
        decreases chars.len() - n,
    {
        let width: usize = char_width(chars[n]);
        proof {
            let next = all.subrange(0, n + 1);
            lemma_encode_split(next, n as int);
            assert(next.subrange(0, n as int) =~= all.subrange(0, n as int));
            assert(next.subrange(n as int, n + 1) =~= seq![all[n as int]]);
            lemma_encode_one(all[n as int]);
        }
        if used + width > HOOK_STREAM_LIMIT_BYTES {
            break;
        }
        used = used + width;
        n = n + 1;
        proof {
            if n == chars.len() {
                assert(all.subrange(0, n as int) =~= all);
            }
        }
    }
    proof {
        lemma_fitting(all, HOOK_STREAM_LIMIT_BYTES as int, n as int);
    }
    let kept = value.as_str().substring_char(0, n).to_owned();
    *value = kept;
    true
}

/// What is kept of a stream of a hook is a beginning of it that takes no more bytes than are kept,
/// and a stream that takes no more is kept whole.
pub proof fn law_hook_stream_is_bounded(s: Seq<char>)
    ensures
        ({
            let kept = fitting(s, HOOK_STREAM_LIMIT_BYTES as int);
            &&& encode_utf8(kept).len() <= HOOK_STREAM_LIMIT_BYTES
            &&& kept.len() <= s.len()
            &&& kept == s.subrange(0, kept.len() as int)
            &&& encode_utf8(s).len() <= HOOK_STREAM_LIMIT_BYTES ==> kept == s
        }),
    decreases s.len(),
{
    if s.len() == 0 {
        assert(encode_utf8(s) =~= Seq::<u8>::empty());
        assert(s.subrange(0, 0) =~= s);
    } else if encode_utf8(s).len() <= HOOK_STREAM_LIMIT_BYTES {
        assert(s.subrange(0, s.len() as int) =~= s);
    } else {
        let init = s.subrange(0, s.len() - 1);
        law_hook_stream_is_bounded(init);
        let kept = fitting(init, HOOK_STREAM_LIMIT_BYTES as int);
        assert(init.subrange(0, kept.len() as int) =~= s.subrange(0, kept.len() as int));
    }
}

/// Where a hook is to run.
#[derive(Debug)]
pub struct HookPlace {
    /// The canonical workspace, where the event names one, or why it has none.
    pub workspace: Option<Result<CanonicalPath, String>>,
    /// The canonical directory that the hook runs in, or why it has none.
    pub cwd: Result<CanonicalPath, String>,
    /// The canonical roots of the activated resources, as far as they have one.
    pub resources: Vec<Option<CanonicalPath>>,
}

/// Whether one of the activated resources holds a path.
pub open spec fn any_resource_holds(
    resources: Seq<Option<CanonicalPath>>,
    path: Seq<Seq<char>>,
) -> bool {
    exists|i: int|
        0 <= i < resources.len() && (#[trigger] resources[i]) is Some && within(
            path,
            texts(resources[i]->0.parts@),
        )
}

/// Why a hook may not run where it is to run.
pub open spec fn hook_place_error(place: HookPlace) -> Option<Seq<char>> {
    match place.workspace {
        None => Some("local hook requires a workspace"@),
        Some(Err(error)) => Some(error@),
        Some(Ok(workspace)) => match place.cwd {
            Err(error) => Some(error@),
            Ok(cwd) => if !within(texts(cwd.parts@), texts(workspace.parts@))
                && !any_resource_holds(place.resources@, texts(cwd.parts@)) {
                Some("hook working directory is outside its activated resources"@)
            } else {
                None
            },
        },
    }
}

/// Accepts the place of a hook within the workspace or the activated resources.
pub fn check_hook_place(place: &HookPlace) -> (result: Result<(), String>)
    ensures
        match result {
            Ok(_) => hook_place_error(*place) == None::<Seq<char>>,
            Err(message) => hook_place_error(*place) == Some(message@),
        },
{
    let workspace = match &place.workspace {
        None => {
            return Err("local hook requires a workspace".to_owned());
        },
        Some(found) => match found {
            Ok(workspace) => workspace,
            Err(error) => {
                return Err(error.clone());
            },
        },
    };
    let cwd = match &place.cwd {
        Ok(cwd) => cwd,
        Err(error) => {
            return Err(error.clone());
        },
    };
    let mut allowed = starts_with_path(&cwd.parts, &workspace.parts);
    let mut i: usize = 0;
    while i < place.resources.len() && !allowed
        invariant
            i <= place.resources.len(),
            place.workspace matches Some(Ok(found)) && found == *workspace,
            place.cwd matches Ok(found) && found == *cwd,
            allowed ==> within(texts(cwd.parts@), texts(workspace.parts@)) || any_resource_holds(
                place.resources@,
                texts(cwd.parts@),
            ),
            !allowed ==> !within(texts(cwd.parts@), texts(workspace.parts@)) && forall|j: int|
                0 <= j < i && (#[trigger] place.resources@[j]) is Some ==> !within(
                    texts(cwd.parts@),
                    texts(place.resources@[j]->0.parts@),
                ),
        decreases place.resources.len() - i,
    {
        match &place.resources[i] {
            Some(root) => {
                if starts_with_path(&cwd.parts, &root.parts) {
                    assert(place.resources@[i as int] is Some);
                    allowed = true;
                }
            },
            None => {},
        }
        i = i + 1;
    }
    if allowed {
        Ok(())
    } else {
        Err("hook working directory is outside its activated resources".to_owned())
    }
}

/// The policy that a hook runs under: that of its workspace, but for the directory that the hook
/// runs in.
pub fn hook_policy(
    base: ExecutionPolicy,
    read_only: &Vec<String>,
    private: &Vec<String>,
    cwd: String,
) -> (result: ExecutionPolicy)
    ensures
        result.network == NetworkAccess::PublicInternet,
        result.workspace_root == cwd,
        result.tmp_root == base.tmp_root,
        texts(result.read_only_roots@) == texts(base.read_only_roots@) + texts(read_only@),
        texts(result.writable_roots@) == texts(base.writable_roots@),
        texts(result.denied_read_paths@) == texts(private@),
        texts(result.denied_write_paths@) == texts(private@),
{
    let mut policy = for_workspace(base, read_only, private);
    policy.workspace_root = cwd;
    policy
}

/// What a hook is given to read: the event on a line.
pub fn hook_input(event: Vec<u8>) -> (result: Vec<u8>)
    ensures
        result@ == event@.push(10u8),
{
    let mut input = event;
    input.push(10);
    input
}

/// How a process that ran a hook ended.
#[derive(Debug)]
pub struct HookProcess {
    pub exit_code: Option<i32>,
    pub stdout: String,
    pub stderr: String,
    /// How many bytes each stream held before it was decoded.
    pub stdout_bytes: usize,
    pub stderr_bytes: usize,
    pub timed_out: bool,
}

/// What a hook came to.
#[derive(Debug)]
pub struct HookResult {
    pub exit_code: Option<i32>,
    pub stdout: String,
    pub stderr: String,
    pub stdout_truncated: bool,
    pub stderr_truncated: bool,
    pub timed_out: bool,
    pub spawn_error: Option<String>,
}

/// What a hook came to, for the process that ran it or why there was none.
pub fn run_hook(ran: Result<HookProcess, String>) -> (result: HookResult)
    ensures
        match ran {
            Ok(process) => {
                &&& result.exit_code == process.exit_code
                &&& result.stdout@ == fitting(process.stdout@, HOOK_STREAM_LIMIT_BYTES as int)
                &&& result.stderr@ == fitting(process.stderr@, HOOK_STREAM_LIMIT_BYTES as int)
                &&& result.stdout_truncated == (encode_utf8(process.stdout@).len()
                    > HOOK_STREAM_LIMIT_BYTES || process.stdout_bytes > HOOK_STREAM_LIMIT_BYTES)
                &&& result.stderr_truncated == (encode_utf8(process.stderr@).len()
                    > HOOK_STREAM_LIMIT_BYTES || process.stderr_bytes > HOOK_STREAM_LIMIT_BYTES)
                &&& result.timed_out == process.timed_out
                &&& result.spawn_error is None
            },
            Err(error) => {
                &&& result.exit_code is None
                &&& result.stdout@ == Seq::<char>::empty()
                &&& result.stderr@ == Seq::<char>::empty()
                &&& !result.stdout_truncated
                &&& !result.stderr_truncated
                &&& !result.timed_out
                &&& optional_text(result.spawn_error) == Some(error@)
            },
        },
{
    match ran {
        Ok(process) => {
            let mut stdout = process.stdout;
            let mut stderr = process.stderr;
            let stdout_cut = bound_hook_stream(&mut stdout);
            let stderr_cut = bound_hook_stream(&mut stderr);
            HookResult {
                exit_code: process.exit_code,
                stdout,
                stderr,
                stdout_truncated: stdout_cut || process.stdout_bytes > HOOK_STREAM_LIMIT_BYTES,
                stderr_truncated: stderr_cut || process.stderr_bytes > HOOK_STREAM_LIMIT_BYTES,
                timed_out: process.timed_out,
                spawn_error: None,
            }
        },
        Err(error) => HookResult {
            exit_code: None,
            stdout: String::new(),
            stderr: String::new(),
            stdout_truncated: false,
            stderr_truncated: false,
            timed_out: false,
            spawn_error: Some(error),
        },
    }
}

/// A hook is run exactly where it has a workspace that can be resolved and its working directory lies
/// in the workspace or in one of the resources that were activated for it.
pub proof fn law_hooks_run_in_their_resources(place: HookPlace)
    ensures
        hook_place_error(place) is None <==> {
            &&& place.workspace matches Some(Ok(workspace)) && (place.cwd matches Ok(cwd) && (
            first_parts(cwd.parts@, workspace.parts@) || exists|i: int|
                0 <= i < place.resources@.len() && ((#[trigger] place.resources@[i]) matches Some(
                    resource,
                ) && first_parts(cwd.parts@, resource.parts@))))
        },
{
    if place.workspace is Some && place.workspace->0 is Ok && place.cwd is Ok {
        let cwd = place.cwd->Ok_0.parts@;
        lemma_within_first_parts(cwd, place.workspace->0->Ok_0.parts@);
        assert forall|i: int|
            0 <= i < place.resources@.len() && (#[trigger] place.resources@[i]) is Some implies within(
            texts(cwd),
            texts(place.resources@[i]->0.parts@),
        ) == first_parts(cwd, place.resources@[i]->0.parts@) by {
            lemma_within_first_parts(cwd, place.resources@[i]->0.parts@);
        }
        if any_resource_holds(place.resources@, texts(cwd)) {
            let i = choose|i: int|
                0 <= i < place.resources@.len() && (#[trigger] place.resources@[i]) is Some
                    && within(texts(cwd), texts(place.resources@[i]->0.parts@));
            assert(first_parts(cwd, place.resources@[i]->0.parts@));
        }
    }
}

/// What is kept of a stream of a hook is its beginning: all of it where it fits, else as much as fits
/// and no character less.
pub proof fn law_streams_are_cut_as_late_as_they_fit(s: Seq<char>, limit: int)
    requires
        0 <= limit,
    ensures
        encode_utf8(s).len() <= limit ==> fitting(s, limit) == s,
        fitting(s, limit).len() <= s.len(),
        fitting(s, limit) == s.subrange(0, fitting(s, limit).len() as int),
        encode_utf8(fitting(s, limit)).len() <= limit,
        fitting(s, limit).len() < s.len() ==> encode_utf8(
            s.subrange(0, fitting(s, limit).len() as int + 1),
        ).len() > limit,
    decreases s.len(),
{
    if s.len() > 0 && encode_utf8(s).len() > limit {
        let init = s.subrange(0, s.len() - 1);
        law_streams_are_cut_as_late_as_they_fit(init, limit);
        let n = fitting(init, limit).len() as int;
        assert(init.subrange(0, n) =~= s.subrange(0, n));
        if n < init.len() {
            assert(init.subrange(0, n + 1) =~= s.subrange(0, n + 1));
        } else {
            assert(s.subrange(0, n + 1) =~= s);
        }
    } else {
        assert(s.subrange(0, s.len() as int) =~= s);
        if s.len() == 0 {
            assert(encode_utf8(s).len() == 0);
        }
    }
}

} // verus!
