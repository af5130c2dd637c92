//! The supervisor of a sandboxed command: what it is started with, and the marker by which it
//! reports how the command ended.

use crate::digest::{hex_sha256, sha256};
use crate::observation_cas::agrees;
use crate::process_output::{ExecutionError, ExecutionErrorView};
use crate::text::{
    chars_of, concat2, concat3, decimal, digit_char, hex, hex_digit, signed_decimal,
    signed_decimal_text, split_at_first, split_once, text_equals, texts, trim, trimmed,
    trimmed_end, trimmed_start, white_space,
};
use vstd::prelude::*;
use vstd::utf8::encode_utf8;

verus! {

/// Whether every character is a decimal digit.
pub open spec fn all_digits(s: Seq<char>) -> bool {
    forall|i: int| 0 <= i < s.len() ==> '0' <= #[trigger] s[i] && s[i] <= '9'
}

/// The number that decimal digits stand for.
pub open spec fn digits_value(s: Seq<char>) -> int
    decreases s.len(),
{
    if s.len() == 0 {
        0
    } else {
        digits_value(s.subrange(0, s.len() - 1)) * 10 + (s[s.len() - 1] as int - '0' as int)
    }
}

/// The number that a text stands for: an optional sign and decimal digits, within the range of 32
/// bits.
pub open spec fn parsed_number(s: Seq<char>) -> Option<int> {
    let signed = s.len() > 0 && (s[0] == '-' || s[0] == '+');
    let digits = if signed {
        s.subrange(1, s.len() as int)
    } else {
        s
    };
    if digits.len() == 0 || !all_digits(digits) {
        None
    } else {
        let value = if signed && s[0] == '-' {
            -digits_value(digits)
        } else {
            digits_value(digits)
        };
        if i32::MIN <= value <= i32::MAX {
            Some(value)
        } else {
            None
        }
    }
}

proof fn lemma_digits_grow(s: Seq<char>, n: int)
    requires
        0 <= n <= s.len(),
        all_digits(s),
    ensures
        0 <= digits_value(s.subrange(0, n)) <= digits_value(s),
    decreases s.len(),
{
    let init = s.subrange(0, s.len() - 1);
    if s.len() == 0 {
        assert(s.subrange(0, n) =~= s);
    } else if n < s.len() {
        assert(init.subrange(0, n) =~= s.subrange(0, n));
        lemma_digits_grow(init, n);
        let last = s[s.len() - 1];
        assert('0' <= last && last <= '9');
    } else {
        assert(s.subrange(0, n) =~= s);
        lemma_digits_grow(init, init.len() as int);
        assert(init.subrange(0, init.len() as int) =~= init);
        let last = s[s.len() - 1];
        assert('0' <= last && last <= '9');
    }
}

/// Reads a number of 32 bits.
pub fn parse_number(s: &str) -> (result: Option<i32>)
    ensures
        match result {
            Some(n) => parsed_number(s@) == Some(n as int),
            None => parsed_number(s@) == None::<int>,
        },
{
    let chars = chars_of(s);
    let signed = chars.len() > 0 && (chars[0] == '-' || chars[0] == '+');
    let negative = chars.len() > 0 && chars[0] == '-';
    let start: usize = if signed {
        1
    } else {
        0
    };
    if start == chars.len() {
        return None;
    }
    let ghost digits = s@.subrange(start as int, s@.len() as int);
    assert(!signed ==> digits =~= s@);
    let mut value: u64 = 0;
    let mut i: usize = start;
    assert(digits.subrange(0, 0) =~= Seq::empty());
    while i < chars.len()
        invariant
            start <= i <= chars.len(),
            start < chars.len(),
            start <= 1,
            chars@ == s@,
            signed == (s@.len() > 0 && (s@[0] == '-' || s@[0] == '+')),
            start == if signed {
                1int
            } else {
                0int
            },
            digits == s@.subrange(start as int, s@.len() as int),
            !signed ==> digits == s@,
            value <= 0x8000_0000,
            value == digits_value(digits.subrange(0, i - start)),
            forall|j: int| 0 <= j < i - start ==> '0' <= #[trigger] digits[j] && digits[j] <= '9',
        decreases chars.len() - i,
    {
        let c: char = chars[i];
        assert(digits[i - start] == c);
        if !('0' <= c && c <= '9') {
            return None;
        }
        proof {
            let next = digits.subrange(0, i - start + 1);
            assert(next.subrange(0, i - start) =~= digits.subrange(0, i - start));
        }
        let digit: u64 = (c as u32 - 48) as u64;
        value = value * 10 + digit;
        if value > 0x8000_0000 {
            proof {
                if all_digits(digits) {
                    lemma_digits_grow(digits, i - start + 1);
                }
            }
            return None;
        }
        i = i + 1;
    }
    assert(digits.subrange(0, digits.len() as int) =~= digits);
    if negative {
        Some((0 - (value as i64)) as i32)
    } else if value <= 0x7fff_ffff {
        Some(value as i32)
    } else {
        None
    }
}

proof fn lemma_decimal(n: nat)
    ensures
        decimal(n).len() > 0,
        all_digits(decimal(n)),
        digits_value(decimal(n)) == n,
    decreases n,
{
    let text = decimal(n);
    if n < 10 {
        assert(text =~= seq![digit_char(n as int)]);
        assert(text.subrange(0, 0) =~= Seq::empty());
        assert(digits_value(text.subrange(0, 0)) == 0);
        assert(text[0] as int - '0' as int == n);
    } else {
        lemma_decimal(n / 10);
        let init = decimal(n / 10);
        assert(text.subrange(0, text.len() - 1) =~= init);
        assert(text[text.len() - 1] as int - '0' as int == n % 10);
        assert forall|i: int| 0 <= i < text.len() implies '0' <= #[trigger] text[i] && text[i]
            <= '9' by {
            if i < init.len() {
                assert(text[i] == init[i]);
            }
        }
    }
}

/// A number of 32 bits that was written in decimal reads as itself.
pub proof fn law_numbers_read_back(n: i32)
    ensures
        parsed_number(signed_decimal(n as int)) == Some(n as int),
{
    if n < 0 {
        let digits = decimal((-n) as nat);
        lemma_decimal((-n) as nat);
        let text = signed_decimal(n as int);
        assert(text[0] == '-');
        assert(text.subrange(1, text.len() as int) =~= digits);
    } else {
        let digits = decimal(n as nat);
        lemma_decimal(n as nat);
        assert('0' <= digits[0] && digits[0] <= '9');
    }
}

/// What the supervisor's report is signed with: a digest of the secret and the code.
pub open spec fn signature(secret: Seq<char>, exit_code: int) -> Seq<char> {
    hex(sha256(encode_utf8(secret + ":"@ + signed_decimal(exit_code))))
}

/// What the supervisor's report is signed with.
pub fn completion_digest(secret: &str, exit_code: i32) -> (result: String)
    ensures
        result@ == signature(secret@, exit_code as int),
{
    let number = signed_decimal_text(exit_code);
    let text = concat3(secret, ":", number.as_str());
    hex_sha256(text.as_str().as_bytes())
}

/// The text of the supervisor's report.
pub open spec fn report(secret: Seq<char>, exit_code: int) -> Seq<char> {
    signed_decimal(exit_code) + ":"@ + signature(secret, exit_code) + "\n"@
}

/// The text of the supervisor's report.
pub fn completion_report(secret: &str, exit_code: i32) -> (result: String)
    ensures
        result@ == report(secret@, exit_code as int),
{
    let number = signed_decimal_text(exit_code);
    let digest = completion_digest(secret, exit_code);
    let mut text = concat3(number.as_str(), ":", digest.as_str());
    text.append("\n");
    text
}

/// The code that a report holds, where it is signed with the secret.
pub open spec fn reported_code(text: Seq<char>, secret: Seq<char>) -> Option<int> {
    match split_at_first(trimmed(text), ':') {
        None => None,
        Some((number, digest)) => match parsed_number(number) {
            None => None,
            Some(exit_code) => if digest == signature(secret, exit_code) {
                Some(exit_code)
            } else {
                None
            },
        },
    }
}

/// The code that a report holds, where it is signed with the secret.
pub fn read_completion_report(text: &str, secret: &str) -> (result: Option<i32>)
    ensures
        match result {
            Some(code) => reported_code(text@, secret@) == Some(code as int),
            None => reported_code(text@, secret@) == None::<int>,
        },
{
    let content = trim(text);
    match split_once(content, ':') {
        None => None,
        Some((number, digest)) => match parse_number(number) {
            None => None,
            Some(exit_code) => {
                let expected = completion_digest(secret, exit_code);
                if text_equals(digest, expected.as_str()) {
                    Some(exit_code)
                } else {
                    None
                }
            },
        },
    }
}

proof fn lemma_hex_chars(bytes: Seq<u8>, i: int)
    requires
        0 <= i < hex(bytes).len(),
    ensures
        !white_space(hex(bytes)[i]),
{
    let d = if i % 2 == 0 {
        bytes[i / 2] as int / 16
    } else {
        bytes[i / 2] as int % 16
    };
    assert(0 <= d < 16);
    assert(hex(bytes)[i] == hex_digit(d));
}

/// The code that the supervisor reports is the code that is read from its report.
pub proof fn law_report_reads_back(secret: Seq<char>, exit_code: i32)
    ensures
        reported_code(report(secret, exit_code as int), secret) == Some(exit_code as int),
{
    reveal_strlit(":");
    reveal_strlit("\n");
    let number = signed_decimal(exit_code as int);
    let digest = signature(secret, exit_code as int);
    let bytes = sha256(encode_utf8(secret + ":"@ + number));
    let text = report(secret, exit_code as int);
    let content = number + ":"@ + digest;
    law_numbers_read_back(exit_code);
    if exit_code < 0 {
        lemma_decimal((-exit_code) as nat);
        let digits = decimal((-exit_code) as nat);
        assert forall|i: int| 0 <= i < number.len() implies number[i] != ':' && !white_space(
            number[i],
        ) by {
            if i > 0 {
                assert(number[i] == digits[i - 1]);
            }
        }
    } else {
        lemma_decimal(exit_code as nat);
        assert forall|i: int| 0 <= i < number.len() implies number[i] != ':' && !white_space(
            number[i],
        ) by {
            assert('0' <= number[i] && number[i] <= '9');
        }
    }
    assert(number.len() > 0);
    assert(text[0] == number[0]);
    assert(trimmed_start(text) == text);
    assert(text[text.len() - 1] == '\n');
    assert(text.subrange(0, text.len() - 1) =~= content);
    let last = content[content.len() - 1];
    assert(!white_space(last)) by {
        if digest.len() > 0 {
            lemma_hex_chars(bytes, digest.len() - 1);
            assert(last == digest[digest.len() - 1]);
        } else {
            assert(last == ':');
        }
    }
    assert(trimmed_end(content) == content);
    assert(trimmed(text) == content);
    let at = number.len() as int;
    assert(content[at] == ':');
    assert(content.contains(':'));
    content.index_of_first_ensures(':');
    let first = content.index_of_first(':')->0;
    assert(first == at) by {
        if first < at {
            assert(content[first] == number[first]);
        }
    }
    assert(content.subrange(0, at) =~= number);
    assert(content.subrange(at + 1, content.len() as int) =~= digest);
}

/// What the file of the marker came to.
#[derive(Debug)]
pub enum MarkerFile {
    Missing,
    Unreadable(String),
    Text(String),
}

/// The code that the supervisor has reported, for what the file of the marker came to.
pub fn read_completion_marker(file: &MarkerFile, secret: &str) -> (result: Result<
    Option<i32>,
    ExecutionError,
>)
    ensures
        match file {
            MarkerFile::Missing => result matches Ok(code) && code is None,
            MarkerFile::Unreadable(error) => result matches Err(failure) && failure@
                == ExecutionErrorView::Io(
                "read sandbox supervisor completion failed: "@ + error@,
            ),
            MarkerFile::Text(text) => match result {
                Ok(Some(code)) => reported_code(text@, secret@) == Some(code as int),
                Ok(None) => reported_code(text@, secret@) == None::<int>,
                Err(_) => false,
            },
        },
{
    match file {
        MarkerFile::Missing => Ok(None),
        MarkerFile::Unreadable(error) => Err(
            ExecutionError::io(
                concat2("read sandbox supervisor completion failed: ", error.as_str()).as_str(),
            ),
        ),
        MarkerFile::Text(text) => Ok(read_completion_report(text.as_str(), secret)),
    }
}

/// A command under supervision.
#[derive(Debug)]
pub struct SupervisedCommand {
    pub secret: String,
    /// The path of the marker.
    pub marker: String,
    pub program: String,
    pub args: Vec<String>,
}

pub struct SupervisedView {
    pub secret: Seq<char>,
    pub marker: Seq<char>,
    pub program: Seq<char>,
    pub args: Seq<Seq<char>>,
}

impl View for SupervisedCommand {
    type V = SupervisedView;

    open spec fn view(&self) -> SupervisedView {
        SupervisedView {
            secret: self.secret@,
            marker: self.marker@,
            program: self.program@,
            args: texts(self.args@),
        }
    }
}

/// `line` without the line end behind it.
pub open spec fn without_line_end(line: Seq<char>) -> Seq<char>
    decreases line.len(),
{
    if line.len() > 0 && (line[line.len() - 1] == '\r' || line[line.len() - 1] == '\n') {
        without_line_end(line.subrange(0, line.len() - 1))
    } else {
        line
    }
}

/// Whether a character is a hexadecimal digit.
pub open spec fn hex_digit_of_any_case(c: char) -> bool {
    ('0' <= c && c <= '9') || ('a' <= c && c <= 'f') || ('A' <= c && c <= 'F')
}

/// Whether a secret is 64 hexadecimal digits.
pub open spec fn valid_secret(secret: Seq<char>) -> bool {
    secret.len() == 64 && forall|i: int|
        0 <= i < secret.len() ==> hex_digit_of_any_case(#[trigger] secret[i])
}

/// What the supervisor is started with: the line with the secret, and the path of the marker, a
/// separator, the program and its arguments.
pub open spec fn supervised(arguments: Seq<Seq<char>>, line: Seq<char>) -> Result<
    SupervisedView,
    Seq<char>,
> {
    let secret = without_line_end(line);
    if !valid_secret(secret) {
        Err("sandbox supervisor completion secret is invalid"@)
    } else if arguments.len() == 0 {
        Err("sandbox supervisor completion path is required"@)
    } else if arguments.len() == 1 || arguments[1] != "--"@ {
        Err("sandbox supervisor command separator is required"@)
    } else if arguments.len() == 2 {
        Err("sandbox supervisor command is required"@)
    } else {
        Ok(
            SupervisedView {
                secret,
                marker: arguments[0],
                program: arguments[2],
                args: arguments.subrange(3, arguments.len() as int),
            },
        )
    }
}

fn strip_line_end(line: &str) -> (result: String)
    ensures
        result@ == without_line_end(line@),
{
    let chars = chars_of(line);
    let mut end: usize = chars.len();
    assert(line@.subrange(0, line@.len() as int) =~= line@);
    while end > 0 && (chars[end - 1] == '\r' || chars[end - 1] == '\n')
        invariant
            end <= chars.len(),
            chars@ == line@,
            without_line_end(line@) == without_line_end(line@.subrange(0, end as int)),
        decreases end,
    {
        proof {
            let now = line@.subrange(0, end as int);
            assert(now.subrange(0, end - 1) =~= line@.subrange(0, end - 1));
        }
        end = end - 1;
    }
    line.substring_char(0, end).to_owned()
}

fn is_valid_secret(secret: &str) -> (result: bool)
    ensures
        result == valid_secret(secret@),
{
    let chars = chars_of(secret);
    if chars.len() != 64 {
        return false;
    }
    let mut i: usize = 0;
    while i < 64
        invariant
            i <= 64,
            chars.len() == 64,
            chars@ == secret@,
            forall|j: int| 0 <= j < i ==> hex_digit_of_any_case(#[trigger] secret@[j]),
        decreases 64 - i,
    {
        let c: char = chars[i];
        if !(('0' <= c && c <= '9') || ('a' <= c && c <= 'f') || ('A' <= c && c <= 'F')) {
            return false;
        }
        i = i + 1;
    }
    true
}

fn texts_from(list: &Vec<String>, start: usize) -> (result: Vec<String>)
    requires
        start <= list.len(),
    ensures
        texts(result@) == texts(list@).subrange(start as int, list@.len() as int),
{
    let mut result: Vec<String> = Vec::new();
    let mut i: usize = start;
    while i < list.len()
        invariant
            start <= i <= list.len(),
            result.len() == i - start,
            forall|j: int| 0 <= j < i - start ==> (#[trigger] result@[j])@ == list@[start + j]@,
        decreases list.len() - i,
    {
        result.push(list[i].clone());
        i = i + 1;
    }
    assert(texts(result@) =~= texts(list@).subrange(start as int, list@.len() as int));
    result
}

/// Reads what the supervisor is started with: the line with the secret, and the path of the
/// marker, a separator, the program and its arguments.
pub fn run_linux_supervisor(arguments: &Vec<String>, secret_line: &str) -> (result: Result<
    SupervisedCommand,
    String,
>)
    ensures
        agrees(
            result,
            |command: SupervisedCommand| command@,
            supervised(texts(arguments@), secret_line@),
        ),
{
    let secret = strip_line_end(secret_line);
    if !is_valid_secret(secret.as_str()) {
        return Err("sandbox supervisor completion secret is invalid".to_owned());
    }
    if arguments.len() == 0 {
        return Err("sandbox supervisor completion path is required".to_owned());
    }
    if arguments.len() == 1 || !text_equals(arguments[1].as_str(), "--") {
        return Err("sandbox supervisor command separator is required".to_owned());
    }
    if arguments.len() == 2 {
        return Err("sandbox supervisor command is required".to_owned());
    }
    Ok(
        SupervisedCommand {
            secret,
            marker: arguments[0].clone(),
            program: arguments[2].clone(),
            args: texts_from(arguments, 3),
        },
    )
}

/// A command to be run under a policy.
#[derive(Debug)]
pub struct LauncherCommand {
    /// The policy as JSON text.
    pub policy: String,
    pub program: String,
    pub args: Vec<String>,
}

/// Reads what the launcher is started with: the policy, a separator, the program and its
/// arguments.
pub fn run_macos_launcher(arguments: &Vec<String>) -> (result: Result<LauncherCommand, String>)
    ensures
        match result {
            Ok(command) => arguments@.len() >= 3 && arguments@[1]@ == "--"@ && command.policy@
                == arguments@[0]@ && command.program@ == arguments@[2]@ && texts(command.args@)
                == texts(arguments@).subrange(3, arguments@.len() as int),
            Err(message) => (arguments@.len() < 3 || arguments@[1]@ != "--"@) && message@
                == "macOS launcher requires a policy and a command after --"@,
        },
{
    if arguments.len() < 3 || !text_equals(arguments[1].as_str(), "--") {
        return Err("macOS launcher requires a policy and a command after --".to_owned());
    }
    Ok(
        LauncherCommand {
            policy: arguments[0].clone(),
            program: arguments[2].clone(),
            args: texts_from(arguments, 3),
        },
    )
}

/// The code that a supervised command ended with: its own, or one that tells the signal that ended
/// it.
pub fn supervised_exit_code(code: Option<i32>, signal: Option<i32>) -> (result: i32)
    requires
        signal matches Some(signal) ==> 128 + signal <= i32::MAX,
    ensures
        result == match code {
            Some(code) => code as int,
            None => match signal {
                Some(signal) => 128 + signal,
                None => 137,
            },
        },
{
    match code {
        Some(code) => code,
        None => match signal {
            Some(signal) => 128 + signal,
            None => 137,
        },
    }
}

/// What waiting for any descendant came to.
#[derive(Debug)]
pub enum WaitOutcome {
    Reaped,
    Interrupted,
    /// There is no descendant left.
    NoneLeft,
    Failed(String),
}

/// Whether the supervisor goes on waiting for descendants.
pub fn keep_reaping(outcome: &WaitOutcome) -> (result: Result<bool, String>)
    ensures
        match outcome {
            WaitOutcome::Reaped => result matches Ok(more) && more,
            WaitOutcome::Interrupted => result matches Ok(more) && more,
            WaitOutcome::NoneLeft => result matches Ok(more) && !more,
            WaitOutcome::Failed(error) => result matches Err(message) && message@
                == "sandbox supervisor failed to reap descendants: "@ + error@,
        },
{
    match outcome {
        WaitOutcome::Reaped => Ok(true),
        WaitOutcome::Interrupted => Ok(true),
        WaitOutcome::NoneLeft => Ok(false),
        WaitOutcome::Failed(error) => Err(
            concat2("sandbox supervisor failed to reap descendants: ", error.as_str()),
        ),
    }
}

/// The end of a command is believed only where it is signed: a report names a code, and what stands
/// behind the colon is the signature of that code with the secret.
pub proof fn law_only_signed_reports_are_believed(text: Seq<char>, secret: Seq<char>, code: int)
    requires
        reported_code(text, secret) == Some(code),
    ensures
        exists|number: Seq<char>|
            parsed_number(number) == Some(code) && trimmed(text) == #[trigger] (number + seq![':'])
                + signature(secret, code),
        i32::MIN <= code <= i32::MAX,
{
    let line = trimmed(text);
    let (number, digest) = split_at_first(line, ':')->0;
    line.index_of_first_ensures(':');
    assert(line =~= (number + seq![':']) + digest);
}

/// A secret is 64 hexadecimal digits.
pub proof fn law_secrets_are_digits(secret: Seq<char>)
    ensures
        valid_secret(secret) <==> secret.len() == 64 && forall|i: int|
            0 <= i < secret.len() ==> ('0' <= #[trigger] secret[i] && secret[i] <= '9') || ('a'
                <= secret[i] && secret[i] <= 'f') || ('A' <= secret[i] && secret[i] <= 'F'),
{
    if valid_secret(secret) {
        assert forall|i: int| 0 <= i < secret.len() implies ('0' <= #[trigger] secret[i]
            && secret[i] <= '9') || ('a' <= secret[i] && secret[i] <= 'f') || ('A' <= secret[i]
            && secret[i] <= 'F') by {
            assert(hex_digit_of_any_case(secret[i]));
        }
    }
}

/// A supervised command is read exactly from a secret on a line and the arguments that name a marker,
/// the separator and the command: the program is the first behind the separator, and the rest are its
/// arguments, in their order.
pub proof fn law_supervised_commands_are_read_as_given(
    arguments: Seq<Seq<char>>,
    line: Seq<char>,
    command: SupervisedCommand,
)
    ensures
        supervised(arguments, line) is Ok <==> valid_secret(without_line_end(line))
            && arguments.len() >= 3 && arguments[1] == "--"@,
        supervised(arguments, line) == Ok::<SupervisedView, Seq<char>>(command@)
            ==> command.secret@ == without_line_end(line) && arguments == seq![
            command.marker@,
            "--"@,
            command.program@,
        ] + texts(command.args@),
{
    if supervised(arguments, line) == Ok::<SupervisedView, Seq<char>>(command@) {
        let rest = texts(command.args@);
        assert(rest == arguments.subrange(3, arguments.len() as int));
        assert(arguments =~= seq![command.marker@, "--"@, command.program@] + rest);
    }
}

/// The end of a line is taken off, all of it, and nothing else.
pub proof fn law_line_ends_are_taken_off(text: Seq<char>, end: Seq<char>)
    requires
        forall|i: int| 0 <= i < end.len() ==> (#[trigger] end[i]) == '\r' || end[i] == '\n',
        text.len() == 0 || (text[text.len() - 1] != '\r' && text[text.len() - 1] != '\n'),
    ensures
        without_line_end(text + end) == text,
    decreases end.len(),
{
    let line = text + end;
    if end.len() > 0 {
        let fewer = end.subrange(0, end.len() - 1);
        assert(line[line.len() - 1] == end[end.len() - 1]);
        assert forall|i: int| 0 <= i < fewer.len() implies (#[trigger] fewer[i]) == '\r' || fewer[i]
            == '\n' by {
            assert(fewer[i] == end[i]);
        }
        law_line_ends_are_taken_off(text, fewer);
        assert(line.subrange(0, line.len() - 1) =~= text + fewer);
    } else {
        assert(line =~= text);
    }
}

} // verus!
