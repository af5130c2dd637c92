//! Following a local process: what is kept of its output, and when it counts as ended.

use crate::text::{concat2, decimal, decimal_text};
use vstd::prelude::*;

verus! {

/// Why a command could not be run.
#[derive(Debug)]
pub enum ExecutionError {
    Denied { reason: String },
    PolicyUnavailable { reason: String },
    HostUnavailable { reason: String },
    CancellationIndeterminate { reason: String },
    Io(String),
}

pub enum ExecutionErrorView {
    Denied(Seq<char>),
    PolicyUnavailable(Seq<char>),
    HostUnavailable(Seq<char>),
    CancellationIndeterminate(Seq<char>),
    Io(Seq<char>),
}

impl View for ExecutionError {
    type V = ExecutionErrorView;

    open spec fn view(&self) -> ExecutionErrorView {
        match self {
            ExecutionError::Denied { reason } => ExecutionErrorView::Denied(reason@),
            ExecutionError::PolicyUnavailable { reason } => ExecutionErrorView::PolicyUnavailable(
                reason@,
            ),
            ExecutionError::HostUnavailable { reason } => ExecutionErrorView::HostUnavailable(
                reason@,
            ),
            ExecutionError::CancellationIndeterminate {
                reason,
            } => ExecutionErrorView::CancellationIndeterminate(reason@),
            ExecutionError::Io(reason) => ExecutionErrorView::Io(reason@),
        }
    }
}

/// Whether a result is the expected one.
pub open spec fn executes<T, V>(
    result: Result<T, ExecutionError>,
    view: spec_fn(T) -> V,
    expected: Result<V, ExecutionErrorView>,
) -> bool {
    match result {
        Ok(value) => expected == Ok::<V, ExecutionErrorView>(view(value)),
        Err(error) => expected == Err::<V, ExecutionErrorView>(error@),
    }
}

impl ExecutionError {
    pub fn denied(reason: &str) -> (result: ExecutionError)
        ensures
            result@ == ExecutionErrorView::Denied(reason@),
    {
        ExecutionError::Denied { reason: reason.to_owned() }
    }

    pub fn policy_unavailable(reason: &str) -> (result: ExecutionError)
        ensures
            result@ == ExecutionErrorView::PolicyUnavailable(reason@),
    {
        ExecutionError::PolicyUnavailable { reason: reason.to_owned() }
    }

    pub fn host_unavailable(reason: &str) -> (result: ExecutionError)
        ensures
            result@ == ExecutionErrorView::HostUnavailable(reason@),
    {
        ExecutionError::HostUnavailable { reason: reason.to_owned() }
    }

    pub fn io(reason: &str) -> (result: ExecutionError)
        ensures
            result@ == ExecutionErrorView::Io(reason@),
    {
        ExecutionError::Io(reason.to_owned())
    }
}

/// What is kept of one of a process's output streams.
#[derive(Debug)]
pub struct ReadOutput {
    pub bytes: Vec<u8>,
    pub total_bytes: usize,
    pub limit: Option<usize>,
}

pub struct OutputView {
    pub bytes: Seq<u8>,
    pub total_bytes: int,
    pub limit: Option<usize>,
}

impl View for ReadOutput {
    type V = OutputView;

    open spec fn view(&self) -> OutputView {
        OutputView {
            bytes: self.bytes@,
            total_bytes: self.total_bytes as int,
            limit: self.limit,
        }
    }
}

/// The smaller of two numbers.
pub open spec fn least(a: int, b: int) -> int {
    if a <= b {
        a
    } else {
        b
    }
}

/// How many of `length` more bytes are kept.
pub open spec fn room(output: OutputView, length: int) -> int {
    match output.limit {
        None => length,
        Some(limit) => if limit <= output.bytes.len() {
            0
        } else {
            least(length, limit - output.bytes.len())
        },
    }
}

/// What is kept of an output stream after more of it was read.
pub open spec fn appended(output: OutputView, input: Seq<u8>) -> OutputView {
    OutputView {
        bytes: output.bytes + input.subrange(0, room(output, input.len() as int)),
        total_bytes: least(output.total_bytes + input.len(), usize::MAX as int),
        limit: output.limit,
    }
}

/// What is kept of an output stream that was read in `chunks`.
pub open spec fn kept(limit: Option<usize>, chunks: Seq<Seq<u8>>) -> OutputView
    decreases chunks.len(),
{
    if chunks.len() == 0 {
        OutputView { bytes: Seq::empty(), total_bytes: 0, limit }
    } else {
        appended(kept(limit, chunks.subrange(0, chunks.len() - 1)), chunks[chunks.len() - 1])
    }
}

/// The whole of what was read in `chunks`.
pub open spec fn whole(chunks: Seq<Seq<u8>>) -> Seq<u8>
    decreases chunks.len(),
{
    if chunks.len() == 0 {
        Seq::empty()
    } else {
        whole(chunks.subrange(0, chunks.len() - 1)) + chunks[chunks.len() - 1]
    }
}

/// However an output stream is read, what is kept of it is its beginning, up to the limit, and its
/// length is counted in full.
pub proof fn law_kept_output_is_a_prefix(limit: Option<usize>, chunks: Seq<Seq<u8>>)
    ensures
        ({
            let output = kept(limit, chunks);
            let all = whole(chunks);
            &&& output.bytes == match limit {
                None => all,
                Some(limit) => all.subrange(0, least(all.len() as int, limit as int)),
            }
            &&& output.total_bytes == least(all.len() as int, usize::MAX as int)
            &&& output.limit == limit
        }),
    decreases chunks.len(),
{
    let all = whole(chunks);
    if chunks.len() == 0 {
        assert(kept(limit, chunks).bytes =~= match limit {
            None => all,
            Some(limit) => all.subrange(0, least(all.len() as int, limit as int)),
        });
    } else {
        let init = chunks.subrange(0, chunks.len() - 1);
        law_kept_output_is_a_prefix(limit, init);
        let before = kept(limit, init);
        let last = chunks[chunks.len() - 1];
        assert(appended(before, last).bytes =~= match limit {
            None => all,
            Some(limit) => all.subrange(0, least(all.len() as int, limit as int)),
        });
    }
}

impl ReadOutput {
    pub fn new(limit: Option<usize>) -> (result: ReadOutput)
        ensures
            result@ == kept(limit, Seq::empty()),
    {
        ReadOutput { bytes: Vec::new(), total_bytes: 0, limit }
    }

    /// Keeps what was read, as far as there is room for it, and counts it.
    pub fn append(&mut self, input: &[u8])
        ensures
            final(self)@ == appended(old(self)@, input@),
    {
        let ghost before = self@;
        let length: usize = input.len();
        self.total_bytes = if length > usize::MAX - self.total_bytes {
            usize::MAX
        } else {
            self.total_bytes + length
        };
        let take: usize = match self.limit {
            None => length,
            Some(limit) => if limit <= self.bytes.len() {
                0
            } else if length <= limit - self.bytes.len() {
                length
            } else {
                limit - self.bytes.len()
            },
        };
        assert(take == room(before, length as int));
        let mut i: usize = 0;
        while i < take
            invariant
                i <= take <= input.len(),
                self.bytes@ == before.bytes + input@.subrange(0, i as int),
                self.limit == before.limit,
                self.total_bytes == least(before.total_bytes + input@.len(), usize::MAX as int),
            decreases take - i,
        {
            self.bytes.push(input[i]);
            assert(self.bytes@ =~= before.bytes + input@.subrange(0, i + 1));
            i = i + 1;
        }
        assert(self.bytes@ =~= before.bytes + input@.subrange(0, take as int));
    }
}

/// What a launcher writes before everything else once its policy is in force.
pub open spec fn policy_handshake() -> Seq<u8> {
    seq![
        99u8,
        101,
        110,
        116,
        97,
        101,
        114,
        105,
        115,
        45,
        110,
        111,
        110,
        111,
        45,
        97,
        112,
        112,
        108,
        105,
        101,
        100,
        10,
    ]
}

/// What a launcher writes before everything else once its policy is in force.
pub fn policy_handshake_bytes() -> (result: Vec<u8>)
    ensures
        result@ == policy_handshake(),
{
    let result: Vec<u8> = vec![
        99u8,
        101,
        110,
        116,
        97,
        101,
        114,
        105,
        115,
        45,
        110,
        111,
        110,
        111,
        45,
        97,
        112,
        112,
        108,
        105,
        101,
        100,
        10,
    ];
    assert(result@ =~= policy_handshake());
    result
}

/// How much is kept of the output of a process where so much of each stream is: the handshake of a
/// launcher comes on top.
pub fn stdout_limit(limit: Option<usize>, handshakes: bool) -> (result: Option<usize>)
    requires
        handshakes ==> (limit matches Some(limit) ==> limit + policy_handshake().len()
            <= usize::MAX),
    ensures
        result == match limit {
            Some(limit) => Some(
                if handshakes {
                    (limit + policy_handshake().len()) as usize
                } else {
                    limit
                },
            ),
            None => None,
        },
{
    match limit {
        Some(limit) => if handshakes {
            let handshake = policy_handshake_bytes();
            Some(limit + handshake.len())
        } else {
            Some(limit)
        },
        None => None,
    }
}

/// An output stream without the handshake of the launcher.
pub open spec fn without_handshake(output: OutputView) -> Result<OutputView, ExecutionErrorView> {
    let handshake = policy_handshake();
    if handshake.is_prefix_of(output.bytes) {
        Ok(
            OutputView {
                bytes: output.bytes.subrange(handshake.len() as int, output.bytes.len() as int),
                total_bytes: if output.total_bytes >= handshake.len() {
                    output.total_bytes - handshake.len()
                } else {
                    0
                },
                limit: output.limit,
            },
        )
    } else {
        Err(
            ExecutionErrorView::PolicyUnavailable(
                "macOS launcher did not confirm nono enforcement"@,
            ),
        )
    }
}

/// Removes the handshake of the launcher from an output stream, which must begin with it.
pub fn strip_policy_handshake(output: &mut ReadOutput) -> (result: Result<(), ExecutionError>)
    ensures
        match result {
            Ok(_) => without_handshake(old(output)@) == Ok::<OutputView, ExecutionErrorView>(
                final(output)@,
            ),
            Err(error) => *final(output) == *old(output) && without_handshake(old(output)@) == Err::<
                OutputView,
                ExecutionErrorView,
            >(error@),
        },
{
    let ghost before = output@;
    let handshake = policy_handshake_bytes();
    let n: usize = handshake.len();
    let mut same = n <= output.bytes.len();
    let mut i: usize = 0;
    while same && i < n
        invariant
            i <= n,
            n == handshake.len(),
            before == output@,
            handshake@ == policy_handshake(),
            same ==> n <= output.bytes.len(),
            same ==> forall|j: int| 0 <= j < i ==> handshake@[j] == output.bytes@[j],
            !same ==> !handshake@.is_prefix_of(output.bytes@),
        decreases n - i,
    {
        if handshake[i] != output.bytes[i] {
            same = false;
            assert(output.bytes@.subrange(0, n as int)[i as int] != handshake@[i as int]);
        }
        i = i + 1;
    }
    if !same {
        return Err(
            ExecutionError::policy_unavailable("macOS launcher did not confirm nono enforcement"),
        );
    }
    assert(output.bytes@.subrange(0, n as int) =~= handshake@);
    let rest = output.bytes.split_off(n);
    output.bytes = rest;
    output.total_bytes = if output.total_bytes >= n {
        output.total_bytes - n
    } else {
        0
    };
    Ok(())
}

/// What came of trying to read more of an output stream.
#[derive(Debug)]
pub enum ReadEvent {
    /// The stream has ended.
    Ended,
    Bytes(Vec<u8>),
    /// There is nothing to read at present.
    WouldBlock,
    Interrupted,
    Failed(String),
}

/// How much was read of an output stream in one go, and whether it has ended.
#[derive(Clone, Copy, Debug, PartialEq, Eq, Structural)]
pub struct OutputDrain {
    pub bytes_read: usize,
    pub eof: bool,
}

/// What reading an output stream in one go comes to after one more event: what is kept, how much
/// was read, and whether to go on.
pub open spec fn drained(output: OutputView, drain: OutputDrain, event: ReadEvent) -> Result<
    (OutputView, OutputDrain, bool),
    ExecutionErrorView,
> {
    match event {
        ReadEvent::Ended => Ok((output, OutputDrain { eof: true, ..drain }, false)),
        ReadEvent::Bytes(bytes) => Ok(
            (
                appended(output, bytes@),
                OutputDrain {
                    bytes_read: least(drain.bytes_read + bytes@.len(), usize::MAX as int) as usize,
                    ..drain
                },
                true,
            ),
        ),
        ReadEvent::WouldBlock => Ok((output, drain, false)),
        ReadEvent::Interrupted => Ok((output, drain, true)),
        ReadEvent::Failed(error) => Err(
            ExecutionErrorView::Io("read local process output failed: "@ + error@),
        ),
    }
}

/// Takes one event of reading an output stream in one go. The result says whether to go on.
pub fn drain_available_output(
    output: &mut ReadOutput,
    drain: &mut OutputDrain,
    event: &ReadEvent,
) -> (result: Result<bool, ExecutionError>)
    ensures
        match result {
            Ok(more) => drained(old(output)@, *old(drain), *event) == Ok::<
                (OutputView, OutputDrain, bool),
                ExecutionErrorView,
            >((final(output)@, *final(drain), more)),
            Err(error) => drained(old(output)@, *old(drain), *event) == Err::<
                (OutputView, OutputDrain, bool),
                ExecutionErrorView,
            >(error@),
        },
{
    match event {
        ReadEvent::Ended => {
            drain.eof = true;
            Ok(false)
        },
        ReadEvent::Bytes(bytes) => {
            let length: usize = bytes.len();
            drain.bytes_read = if length > usize::MAX - drain.bytes_read {
                usize::MAX
            } else {
                drain.bytes_read + length
            };
            output.append(bytes.as_slice());
            Ok(true)
        },
        ReadEvent::WouldBlock => Ok(false),
        ReadEvent::Interrupted => Ok(true),
        ReadEvent::Failed(error) => Err(
            ExecutionError::io(
                concat2("read local process output failed: ", error.as_str()).as_str(),
            ),
        ),
    }
}

/// How long a process that has ended may still write, in milliseconds.
pub const EXIT_STDIO_GRACE_MS: u64 = 100;

/// How long to wait before a process is looked at again, in milliseconds.
pub const PROCESS_POLL_INTERVAL_MS: u64 = 25;

/// Whether a process has ended, as far as can be told.
#[derive(Debug)]
pub enum ChildStatus {
    Running,
    /// It has ended, with the given code where it was not killed.
    Ended(Option<i32>),
    /// It could not be told, for the given reason.
    Unknown(String),
}

/// What is seen of a process when it is looked at. What would not have been looked at does not
/// count.
#[derive(Debug)]
pub struct Look {
    /// The time, in milliseconds.
    pub now: u64,
    pub stdout: OutputDrain,
    pub stderr: OutputDrain,
    /// The code that the supervisor has reported.
    pub reported: Option<i32>,
    pub status: ChildStatus,
    /// Why the process is to be cancelled.
    pub cancellation: Option<String>,
    /// Whether the whole input was handed to the process.
    pub input_finished: bool,
}

/// How far the following of a process has come. Times are in milliseconds.
#[derive(Clone, Copy, Debug, PartialEq, Eq, Structural)]
pub struct ProcessWatch {
    pub deadline: u64,
    pub stdout_eof: bool,
    pub stderr_eof: bool,
    pub last_output_at: Option<u64>,
    /// The code that the process has ended with, where it has ended.
    pub exit_code: Option<Option<i32>>,
    pub exit_at: Option<u64>,
}

/// What to do about a process.
#[derive(Debug)]
pub enum WatchDecision {
    /// Look at it again later.
    Wait,
    /// It has ended, with the given code.
    Finish(Option<i32>),
    /// Its time is over: it is to be stopped, and waited for where it has not ended.
    TimeOut { wait_for_child: bool },
    /// It is to be cancelled, for the given reason.
    Cancel(String),
    /// It could not be followed.
    Fail(ExecutionError),
}

pub enum DecisionView {
    Wait,
    Finish(Option<i32>),
    TimeOut { wait_for_child: bool },
    Cancel(Seq<char>),
    Fail(ExecutionErrorView),
}

impl View for WatchDecision {
    type V = DecisionView;

    open spec fn view(&self) -> DecisionView {
        match self {
            WatchDecision::Wait => DecisionView::Wait,
            WatchDecision::Finish(code) => DecisionView::Finish(*code),
            WatchDecision::TimeOut { wait_for_child } => DecisionView::TimeOut {
                wait_for_child: *wait_for_child,
            },
            WatchDecision::Cancel(reason) => DecisionView::Cancel(reason@),
            WatchDecision::Fail(error) => DecisionView::Fail(error@),
        }
    }
}

/// The watch after the output of one look was counted.
pub open spec fn with_output(watch: ProcessWatch, look: Look) -> ProcessWatch {
    ProcessWatch {
        stdout_eof: watch.stdout_eof || look.stdout.eof,
        stderr_eof: watch.stderr_eof || look.stderr.eof,
        last_output_at: if look.stdout.bytes_read > 0 || look.stderr.bytes_read > 0 {
            Some(look.now)
        } else {
            watch.last_output_at
        },
        ..watch
    }
}

/// The watch after the end of the process was looked for: the supervisor's report counts first.
pub open spec fn with_exit(watch: ProcessWatch, look: Look) -> ProcessWatch {
    if watch.exit_code is Some {
        watch
    } else if look.reported is Some {
        ProcessWatch { exit_code: Some(look.reported), exit_at: Some(look.now), ..watch }
    } else {
        match look.status {
            ChildStatus::Ended(code) => ProcessWatch {
                exit_code: Some(code),
                exit_at: Some(look.now),
                ..watch
            },
            _ => watch,
        }
    }
}

/// Since when an ended process has written nothing.
pub open spec fn quiet_since(watch: ProcessWatch) -> u64 {
    match watch.last_output_at {
        Some(at) => if at > watch.exit_at->0 {
            at
        } else {
            watch.exit_at->0
        },
        None => watch.exit_at->0,
    }
}

/// Whether an ended process needs not be followed any longer: its input was handed over, and its
/// output has ended or has been quiet for long enough.
pub open spec fn settled(watch: ProcessWatch, look: Look) -> bool {
    watch.exit_at is Some && look.input_finished && ((watch.stdout_eof && watch.stderr_eof)
        || look.now - quiet_since(watch) >= EXIT_STDIO_GRACE_MS)
}

/// The watch after one look at the process, and what to do.
pub open spec fn looked(watch: ProcessWatch, look: Look) -> (ProcessWatch, DecisionView) {
    let after = with_exit(with_output(watch, look), look);
    let decision = if watch.exit_code is None && look.reported is None && look.status is Unknown {
        DecisionView::Fail(
            ExecutionErrorView::Io(
                "poll local command status failed: "@ + look.status->Unknown_0@,
            ),
        )
    } else if after.exit_code is None && look.cancellation is Some {
        DecisionView::Cancel(look.cancellation->0@)
    } else if settled(after, look) {
        DecisionView::Finish(
            match after.exit_code {
                Some(code) => code,
                None => None,
            },
        )
    } else if look.now >= watch.deadline {
        DecisionView::TimeOut { wait_for_child: after.exit_code is None }
    } else {
        DecisionView::Wait
    };
    (after, decision)
}

impl ProcessWatch {
    /// Whether it is known that the process has ended exactly where it is known when.
    pub open spec fn wf(self) -> bool {
        self.exit_code is Some <==> self.exit_at is Some
    }

    /// Begins to follow a process that was started at `now` and has `timeout_ms` to end.
    pub fn start(now: u64, timeout_ms: u64) -> (result: ProcessWatch)
        ensures
            result == (ProcessWatch {
                deadline: if now + timeout_ms <= u64::MAX {
                    (now + timeout_ms) as u64
                } else {
                    now
                },
                stdout_eof: false,
                stderr_eof: false,
                last_output_at: None,
                exit_code: None,
                exit_at: None,
            }),
            result.wf(),
    {
        let deadline: u64 = if timeout_ms <= u64::MAX - now {
            now + timeout_ms
        } else {
            now
        };
        ProcessWatch {
            deadline,
            stdout_eof: false,
            stderr_eof: false,
            last_output_at: None,
            exit_code: None,
            exit_at: None,
        }
    }

    /// Looks at the process and decides what to do.
    pub fn look(&mut self, look: &Look) -> (result: WatchDecision)
        requires
            old(self).wf(),
        ensures
            (*final(self), result@) == looked(*old(self), *look),
            final(self).wf(),
    {
        self.stdout_eof = self.stdout_eof || look.stdout.eof;
        self.stderr_eof = self.stderr_eof || look.stderr.eof;
        if look.stdout.bytes_read > 0 || look.stderr.bytes_read > 0 {
            self.last_output_at = Some(look.now);
        }
        if self.exit_code.is_none() {
            match look.reported {
                Some(code) => {
                    self.exit_code = Some(Some(code));
                    self.exit_at = Some(look.now);
                },
                None => match &look.status {
                    ChildStatus::Ended(code) => {
                        self.exit_code = Some(*code);
                        self.exit_at = Some(look.now);
                    },
                    ChildStatus::Unknown(error) => {
                        return WatchDecision::Fail(
                            ExecutionError::io(
                                concat2(
                                    "poll local command status failed: ",
                                    error.as_str(),
                                ).as_str(),
                            ),
                        );
                    },
                    ChildStatus::Running => {},
                },
            }
        }
        if self.exit_code.is_none() {
            match &look.cancellation {
                Some(reason) => {
                    return WatchDecision::Cancel(reason.clone());
                },
                None => {},
            }
        }
        match self.exit_at {
            Some(exit_at) => {
                let quiet: u64 = match self.last_output_at {
                    Some(at) => if at > exit_at {
                        at
                    } else {
                        exit_at
                    },
                    None => exit_at,
                };
                let quiet_long = look.now >= quiet && look.now - quiet >= EXIT_STDIO_GRACE_MS;
                if look.input_finished && ((self.stdout_eof && self.stderr_eof) || quiet_long) {
                    let code: Option<i32> = match self.exit_code {
                        Some(code) => code,
                        None => None,
                    };
                    return WatchDecision::Finish(code);
                }
            },
            None => {},
        }
        if look.now >= self.deadline {
            WatchDecision::TimeOut { wait_for_child: self.exit_code.is_none() }
        } else {
            WatchDecision::Wait
        }
    }
}

/// The watch after the first `n` looks, as long as each of them ended in waiting.
pub open spec fn watched(watch: ProcessWatch, looks: Seq<Look>, n: nat) -> ProcessWatch
    decreases n,
{
    if n == 0 {
        watch
    } else {
        looked(watched(watch, looks, (n - 1) as nat), looks[n - 1]).0
    }
}

/// A process is not waited for beyond its deadline.
pub proof fn law_deadline_ends_waiting(watch: ProcessWatch, look: Look)
    requires
        look.now >= watch.deadline,
    ensures
        looked(watch, look).1 !is Wait,
{
}

/// A process is said to have finished only once its end was seen and its input was handed over,
/// and its streams have ended or have been quiet for the time of grace; and then it is said at
/// once.
pub proof fn law_finish_is_settled(watch: ProcessWatch, look: Look)
    requires
        watch.wf(),
    ensures
        ({
            let (after, decision) = looked(watch, look);
            &&& after.wf()
            &&& decision is Finish ==> settled(after, look) && after.exit_code == Some(
                decision->Finish_0,
            )
            &&& settled(after, look) && decision !is Fail ==> decision is Finish
        }),
{
}

/// The code that a process was first seen to end with is the one that stays, whatever is seen
/// later.
pub proof fn law_exit_code_stays(watch: ProcessWatch, looks: Seq<Look>, m: nat, n: nat)
    requires
        m <= n <= looks.len(),
        watched(watch, looks, m).exit_code is Some,
    ensures
        watched(watch, looks, n).exit_code == watched(watch, looks, m).exit_code,
        watched(watch, looks, n).exit_at == watched(watch, looks, m).exit_at,
    decreases n,
{
    if m < n {
        law_exit_code_stays(watch, looks, m, (n - 1) as nat);
    }
}

/// What became of handing the input to a process.
#[derive(Debug)]
pub enum InputOutcome {
    /// It is still going on, or there was no input.
    Open,
    Panicked,
    Failed(String),
    Written,
}

/// What handing the input to a process means for its result: a failure counts where the process
/// was not stopped.
pub fn check_input(outcome: &InputOutcome, timed_out: bool) -> (result: Result<(), ExecutionError>)
    ensures
        executes(
            result,
            |unit: ()| unit,
            match outcome {
                InputOutcome::Panicked => Err(
                    ExecutionErrorView::Io("local stdin writer panicked"@),
                ),
                InputOutcome::Failed(error) => if timed_out {
                    Ok(())
                } else {
                    Err(ExecutionErrorView::Io("write local process input failed: "@ + error@))
                },
                _ => Ok(()),
            },
        ),
{
    match outcome {
        InputOutcome::Panicked => Err(ExecutionError::io("local stdin writer panicked")),
        InputOutcome::Failed(error) => if timed_out {
            Ok(())
        } else {
            Err(
                ExecutionError::io(
                    concat2("write local process input failed: ", error.as_str()).as_str(),
                ),
            )
        },
        _ => Ok(()),
    }
}

/// The error text that is shown of a process: one that was stopped is said to have been.
pub fn shown_stderr(text: &str, timed_out: bool, timeout_ms: u64) -> (result: String)
    ensures
        result@ == if timed_out {
            "command timed out after "@ + decimal(timeout_ms as nat) + "ms\n"@ + text@
        } else {
            text@
        },
{
    if timed_out {
        let number = decimal_text(timeout_ms);
        let mut shown = concat2("command timed out after ", number.as_str());
        shown.append("ms\n");
        shown.append(text);
        shown
    } else {
        text.to_owned()
    }
}

/// What a process came to.
#[derive(Debug)]
pub struct CapturedOutput {
    pub exit_code: Option<i32>,
    pub stdout: String,
    pub stderr: String,
    /// How many bytes each stream held, whether they were kept or not.
    pub stdout_bytes: usize,
    pub stderr_bytes: usize,
    pub timed_out: bool,
}

/// What a process came to, with the texts of what was kept of its streams.
pub fn captured_output(
    exit_code: Option<i32>,
    timed_out: bool,
    timeout_ms: u64,
    stdout: &ReadOutput,
    stdout_text: String,
    stderr: &ReadOutput,
    stderr_text: &str,
) -> (result: CapturedOutput)
    ensures
        result.exit_code == exit_code,
        result.stdout@ == stdout_text@,
        result.stderr@ == if timed_out {
            "command timed out after "@ + decimal(timeout_ms as nat) + "ms\n"@ + stderr_text@
        } else {
            stderr_text@
        },
        result.stdout_bytes == stdout.total_bytes,
        result.stderr_bytes == stderr.total_bytes,
        result.timed_out == timed_out,
{
    CapturedOutput {
        exit_code,
        stdout: stdout_text,
        stderr: shown_stderr(stderr_text, timed_out, timeout_ms),
        stdout_bytes: stdout.total_bytes,
        stderr_bytes: stderr.total_bytes,
        timed_out,
    }
}

/// The error that a cancelled process is answered with, where its termination came to
/// `termination`.
pub fn cancellation_error(reason: &str, termination: &Result<(), String>) -> (result:
    ExecutionError)
    ensures
        result@ == ExecutionErrorView::CancellationIndeterminate(
            reason@ + "; "@ + (match termination {
                Ok(_) => "local process tree termination completed"@,
                Err(error) => "local process tree termination could not be verified: "@ + error@,
            }),
        ),
{
    let ended = match termination {
        Ok(_) => "local process tree termination completed".to_owned(),
        Err(error) => concat2(
            "local process tree termination could not be verified: ",
            error.as_str(),
        ),
    };
    let mut text = concat2(reason, "; ");
    text.append(ended.as_str());
    ExecutionError::CancellationIndeterminate { reason: text }
}

/// Why a process is to be cancelled, for what asking came to: an asking that failed cancels it.
pub fn cancellation_reason(asked: Result<Option<String>, String>) -> (result: Option<String>)
    ensures
        match asked {
            Ok(None) => result is None,
            Ok(Some(reason)) => result matches Some(text) && text@ == reason@,
            Err(error) => result matches Some(text) && text@ == "cancellation probe failed: "@
                + error@,
        },
{
    match asked {
        Ok(reason) => reason,
        Err(error) => Some(concat2("cancellation probe failed: ", error.as_str())),
    }
}

/// All that a process writes is counted, also what there is no room for; all of it is kept where it
/// fits, and else as much from its beginning as there is room for.
pub proof fn law_all_output_is_counted(limit: Option<usize>, chunks: Seq<Seq<u8>>)
    ensures
        whole(chunks).len() <= usize::MAX ==> kept(limit, chunks).total_bytes == whole(chunks).len(),
        limit is None ==> kept(limit, chunks).bytes == whole(chunks),
        limit is Some && whole(chunks).len() <= limit->0 ==> kept(limit, chunks).bytes == whole(
            chunks,
        ),
        limit is Some && whole(chunks).len() > limit->0 ==> kept(limit, chunks).bytes == whole(
            chunks,
        ).subrange(0, limit->0 as int),
{
    law_kept_output_is_a_prefix(limit, chunks);
    assert(whole(chunks).subrange(0, whole(chunks).len() as int) =~= whole(chunks));
}

/// The handshake of the launcher is its text on a line; output that begins with it is given on
/// without it, with the same limit, and output that does not is refused.
pub proof fn law_handshakes_are_taken_off(output: OutputView, rest: Seq<u8>)
    ensures
        Seq::new(policy_handshake().len(), |i: int| policy_handshake()[i] as char)
            == "centaeris-nono-applied\n"@,
        output.bytes == policy_handshake() + rest && output.total_bytes >= policy_handshake().len()
            ==> without_handshake(output) == Ok::<OutputView, ExecutionErrorView>(
            OutputView {
                bytes: rest,
                total_bytes: output.total_bytes - policy_handshake().len(),
                limit: output.limit,
            },
        ),
        without_handshake(output) is Ok <==> exists|rest: Seq<u8>|
            output.bytes == #[trigger] (policy_handshake() + rest),
{
    reveal_strlit("centaeris-nono-applied\n");
    let handshake = policy_handshake();
    assert(Seq::new(handshake.len(), |i: int| handshake[i] as char)
        =~= "centaeris-nono-applied\n"@);
    let n = handshake.len() as int;
    if output.bytes == handshake + rest {
        assert(output.bytes.subrange(0, n) =~= handshake);
        assert(output.bytes.subrange(n, output.bytes.len() as int) =~= rest);
    }
    if without_handshake(output) is Ok {
        assert(output.bytes =~= handshake + output.bytes.subrange(n, output.bytes.len() as int));
    }
    if exists|rest: Seq<u8>| output.bytes == #[trigger] (handshake + rest) {
        let found = choose|found: Seq<u8>| output.bytes == #[trigger] (handshake + found);
        assert(output.bytes.subrange(0, n) =~= handshake);
    }
}

/// What is read from a process is added to its output and counted as long as there is more; nothing
/// is lost where the reading would wait or was interrupted, and a failure is told.
pub proof fn law_output_is_read_until_it_ends(output: OutputView, drain: OutputDrain, event: ReadEvent)
    ensures
        match event {
            ReadEvent::Failed(error) => drained(output, drain, event) == Err::<
                (OutputView, OutputDrain, bool),
                ExecutionErrorView,
            >(ExecutionErrorView::Io("read local process output failed: "@ + error@)),
            ReadEvent::Bytes(bytes) => drained(output, drain, event) matches Ok((after, seen, more))
                && more && seen.eof == drain.eof && (drain.bytes_read + bytes@.len() <= usize::MAX
                ==> seen.bytes_read == drain.bytes_read + bytes@.len()) && output.bytes
                == after.bytes.subrange(0, output.bytes.len() as int) && (output.limit is None
                ==> after.bytes == output.bytes + bytes@),
            ReadEvent::Ended => drained(output, drain, event) matches Ok((after, seen, more))
                && !more && seen.eof && seen.bytes_read == drain.bytes_read && after == output,
            ReadEvent::WouldBlock => drained(output, drain, event) == Ok::<
                (OutputView, OutputDrain, bool),
                ExecutionErrorView,
            >((output, drain, false)),
            ReadEvent::Interrupted => drained(output, drain, event) == Ok::<
                (OutputView, OutputDrain, bool),
                ExecutionErrorView,
            >((output, drain, true)),
        },
{
    if let ReadEvent::Bytes(bytes) = event {
        let after = appended(output, bytes@);
        assert(after.bytes.subrange(0, output.bytes.len() as int) =~= output.bytes);
        assert(bytes@.subrange(0, bytes@.len() as int) =~= bytes@);
    }
}

/// How a process is watched. It has ended where that was reported or seen, with the code that was
/// reported before the one that was seen. A process that has not ended is cancelled when that is
/// asked for, and failed when it cannot be looked after. One that has is finished with its code once
/// its input is written and its output has ended or has been quiet for 100 ms. Nothing else but the
/// deadline ends the watch, and that leaves a process that has not ended to be waited for.
pub proof fn law_processes_are_watched_to_their_end(watch: ProcessWatch, look: Look)
    requires
        watch.wf(),
    ensures
        ({
            let (after, decision) = looked(watch, look);
            let gone = watch.exit_code is Some || look.reported is Some || look.status is Ended;
            let quiet = (watch.stdout_eof || look.stdout.eof) && (watch.stderr_eof
                || look.stderr.eof);
            &&& after.deadline == watch.deadline
            &&& after.exit_code is Some <==> gone
            &&& watch.exit_code is Some ==> after.exit_code == watch.exit_code
            &&& watch.exit_code is None && look.reported is Some ==> after.exit_code == Some(
                look.reported,
            )
            &&& watch.exit_code is None && look.reported is None ==> (look.status matches
                ChildStatus::Ended(code) ==> after.exit_code == Some(code))
            &&& decision is Fail <==> !gone && look.status is Unknown
            &&& decision is Cancel <==> !gone && look.status !is Unknown && look.cancellation is Some
            &&& decision matches DecisionView::Cancel(reason) ==> reason == look.cancellation->0@
            &&& gone && look.input_finished && quiet ==> decision == DecisionView::Finish(
                after.exit_code->0,
            )
            &&& decision is Finish ==> gone && look.input_finished && decision
                == DecisionView::Finish(after.exit_code->0) && (quiet || look.now
                - after.exit_at->0 >= 100)
            &&& decision is TimeOut ==> look.now >= watch.deadline && decision
                == DecisionView::TimeOut { wait_for_child: !gone }
            &&& decision is Wait ==> look.now < watch.deadline
        }),
{
}

} // verus!
