//! Text primitives: whitespace trimming, searching, joining and number formatting.

use vstd::prelude::*;

verus! {

/// The characters with the Unicode property White_Space.
pub open spec fn white_space(c: char) -> bool {
    let n = c as u32;
    ||| 0x9 <= n <= 0xd
    ||| n == 0x20
    ||| n == 0x85
    ||| n == 0xa0
    ||| n == 0x1680
    ||| 0x2000 <= n <= 0x200a
    ||| n == 0x2028
    ||| n == 0x2029
    ||| n == 0x202f
    ||| n == 0x205f
    ||| n == 0x3000
}

/// `s` without its leading whitespace.
pub open spec fn trimmed_start(s: Seq<char>) -> Seq<char>
    decreases s.len(),
{
    if s.len() > 0 && white_space(s[0]) {
        trimmed_start(s.subrange(1, s.len() as int))
    } else {
        s
    }
}

/// `s` without its trailing whitespace.
pub open spec fn trimmed_end(s: Seq<char>) -> Seq<char>
    decreases s.len(),
{
    if s.len() > 0 && white_space(s[s.len() - 1]) {
        trimmed_end(s.subrange(0, s.len() - 1))
    } else {
        s
    }
}

/// `s` without leading and trailing whitespace.
pub open spec fn trimmed(s: Seq<char>) -> Seq<char> {
    trimmed_end(trimmed_start(s))
}

pub fn is_white_space(c: char) -> (result: bool)
    ensures
        result == white_space(c),
{
    let n: u32 = c as u32;
    (0x9 <= n && n <= 0xd) || n == 0x20 || n == 0x85 || n == 0xa0 || n == 0x1680 || (0x2000 <= n
        && n <= 0x200a) || n == 0x2028 || n == 0x2029 || n == 0x202f || n == 0x205f || n == 0x3000
}

/// The characters of `s`, in order.
pub fn chars_of(s: &str) -> (result: Vec<char>)
    ensures
        result@ == s@,
{
    let mut result: Vec<char> = Vec::new();
    for c in iter: s.chars()
        invariant
            iter.seq() == s@,
            result@ == s@.subrange(0, iter.index() as int),
    {
        result.push(c);
    }
    result
}

pub fn trim(s: &str) -> (result: &str)
    ensures
        result@ == trimmed(s@),
{
    let chars = chars_of(s);
    let n: usize = chars.len();
    let mut start: usize = 0;
    assert(s@.subrange(0, n as int) =~= s@);
    while start < n && is_white_space(chars[start])
        invariant
            start <= n,
            n == chars.len(),
            chars@ == s@,
            trimmed_start(s@) == trimmed_start(s@.subrange(start as int, n as int)),
        decreases n - start,
    {
        assert(s@.subrange(start as int, n as int).subrange(1, n - start) =~= s@.subrange(
            start + 1,
            n as int,
        ));
        start = start + 1;
    }
    let mut end: usize = n;
    while start < end && is_white_space(chars[end - 1])
        invariant
            start <= end <= n,
            n == chars.len(),
            chars@ == s@,
            trimmed_end(s@.subrange(start as int, n as int)) == trimmed_end(
                s@.subrange(start as int, end as int),
            ),
        decreases end,
    {
        assert(s@.subrange(start as int, end as int).subrange(0, end - start - 1) =~= s@.subrange(
            start as int,
            end - 1,
        ));
        end = end - 1;
    }
    s.substring_char(start, end)
}

/// Whether two texts hold the same characters, by `str`'s `==`.
#[verifier::external_body]
pub(crate) fn text_equals(a: &str, b: &str) -> (result: bool)
    ensures
        result == (a@ == b@),
{
    a == b
}

/// Appends one character, by `String::push`.
#[verifier::external_body]
pub(crate) fn push_char(out: &mut String, c: char)
    ensures
        final(out)@ == old(out)@.push(c),
{
    out.push(c);
}

/// `a` followed by `b`.
pub fn concat2(a: &str, b: &str) -> (result: String)
    ensures
        result@ == a@ + b@,
{
    let mut out = a.to_owned();
    out.append(b);
    out
}

/// `a`, `b` and `c` in a row.
pub fn concat3(a: &str, b: &str, c: &str) -> (result: String)
    ensures
        result@ == a@ + b@ + c@,
{
    let mut out = a.to_owned();
    out.append(b);
    out.append(c);
    out
}

/// The contents of a list of strings.
pub open spec fn texts(list: Seq<String>) -> Seq<Seq<char>> {
    Seq::new(list.len(), |i: int| list[i]@)
}

/// Whether one of the strings in `list` holds exactly `text`.
pub open spec fn lists(list: Seq<String>, text: Seq<char>) -> bool {
    exists|i: int| 0 <= i < list.len() && (#[trigger] list[i])@ == text
}

/// Whether one of the strings in `list` holds exactly `text`.
pub fn contains_text(list: &Vec<String>, text: &str) -> (result: bool)
    ensures
        result == lists(list@, text@),
{
    let mut i: usize = 0;
    while i < list.len()
        invariant
            i <= list.len(),
            forall|j: int| 0 <= j < i ==> (#[trigger] list@[j])@ != text@,
        decreases list.len() - i,
    {
        if text_equals(list[i].as_str(), text) {
            return true;
        }
        i = i + 1;
    }
    false
}

/// A list of three strings.
pub fn three_texts(a: &str, b: &str, c: &str) -> (result: Vec<String>)
    ensures
        texts(result@) == seq![a@, b@, c@],
{
    let mut result: Vec<String> = Vec::new();
    result.push(a.to_owned());
    result.push(b.to_owned());
    result.push(c.to_owned());
    assert(texts(result@) =~= seq![a@, b@, c@]);
    result
}

/// Copies a list of strings.
pub fn clone_texts(list: &Vec<String>) -> (result: Vec<String>)
    ensures
        texts(result@) == texts(list@),
        result.len() == list.len(),
        forall|i: int| 0 <= i < list.len() ==> (#[trigger] result@[i])@ == list@[i]@,
{
    let mut result: Vec<String> = Vec::new();
    let mut i: usize = 0;
    while i < list.len()
        invariant
            i <= list.len(),
            result.len() == i,
            forall|j: int| 0 <= j < i ==> (#[trigger] result@[j])@ == list@[j]@,
        decreases list.len() - i,
    {
        result.push(list[i].clone());
        i = i + 1;
    }
    assert(texts(result@) =~= texts(list@));
    result
}

/// Whether `s` begins with `prefix`.
pub open spec fn begins_with(s: Seq<char>, prefix: Seq<char>) -> bool {
    prefix.len() <= s.len() && s.subrange(0, prefix.len() as int) == prefix
}

/// Whether `s` ends with `suffix`.
pub open spec fn ends_with_text(s: Seq<char>, suffix: Seq<char>) -> bool {
    suffix.len() <= s.len() && s.subrange(s.len() - suffix.len(), s.len() as int) == suffix
}

/// `s` after `prefix`, or `None` where it does not begin with it.
pub open spec fn after_prefix(s: Seq<char>, prefix: Seq<char>) -> Option<Seq<char>> {
    if begins_with(s, prefix) {
        Some(s.subrange(prefix.len() as int, s.len() as int))
    } else {
        None
    }
}

/// `s` before `suffix`, or `None` where it does not end with it.
pub open spec fn before_suffix(s: Seq<char>, suffix: Seq<char>) -> Option<Seq<char>> {
    if ends_with_text(s, suffix) {
        Some(s.subrange(0, s.len() - suffix.len()))
    } else {
        None
    }
}

/// Whether `needle` stands in `haystack` at index `at`.
pub open spec fn occurs_at(haystack: Seq<char>, needle: Seq<char>, at: int) -> bool {
    0 <= at && at + needle.len() <= haystack.len() && haystack.subrange(at, at + needle.len())
        == needle
}

/// Whether `needle` stands in `haystack`.
pub open spec fn occurs_in(haystack: Seq<char>, needle: Seq<char>) -> bool {
    exists|at: int| occurs_at(haystack, needle, at)
}

/// Whether `at` is the least index at which `needle` stands in `haystack`.
pub open spec fn first_at(haystack: Seq<char>, needle: Seq<char>, at: int) -> bool {
    occurs_at(haystack, needle, at) && forall|j: int|
        0 <= j < at ==> !#[trigger] occurs_at(haystack, needle, j)
}

/// The least index at which `needle` stands in `haystack`.
pub open spec fn first_occurrence(haystack: Seq<char>, needle: Seq<char>) -> Option<int> {
    if exists|at: int| first_at(haystack, needle, at) {
        Some(choose|at: int| first_at(haystack, needle, at))
    } else {
        None
    }
}

pub proof fn lemma_first_unique(haystack: Seq<char>, needle: Seq<char>, at: int)
    requires
        first_at(haystack, needle, at),
    ensures
        first_occurrence(haystack, needle) == Some(at),
{
    let other = choose|j: int| first_at(haystack, needle, j);
    assert(first_at(haystack, needle, other));
    if other < at {
        assert(!occurs_at(haystack, needle, other));
    }
    if at < other {
        assert(!occurs_at(haystack, needle, at));
    }
}

/// Whether `needle` stands in `haystack` at index `at`.
pub(crate) fn matches_at(haystack: &Vec<char>, needle: &Vec<char>, at: usize) -> (result: bool)
    requires
        at <= haystack.len(),
    ensures
        result == occurs_at(haystack@, needle@, at as int),
{
    if needle.len() > haystack.len() - at {
        return false;
    }
    let mut i: usize = 0;
    while i < needle.len()
        invariant
            i <= needle.len(),
            at + needle.len() <= haystack.len(),
            forall|j: int| 0 <= j < i ==> haystack@[at + j] == needle@[j],
        decreases needle.len() - i,
    {
        if haystack[at + i] != needle[i] {
            assert(haystack@.subrange(at as int, at + needle@.len())[i as int] != needle@[i as int]);
            return false;
        }
        i = i + 1;
    }
    assert(haystack@.subrange(at as int, at + needle@.len()) =~= needle@);
    true
}

/// The least index at which `needle` stands in `haystack`.
pub(crate) fn find_chars(haystack: &Vec<char>, needle: &Vec<char>) -> (result: Option<usize>)
    ensures
        match result {
            Some(at) => first_at(haystack@, needle@, at as int) && first_occurrence(
                haystack@,
                needle@,
            ) == Some(at as int),
            None => !occurs_in(haystack@, needle@) && first_occurrence(haystack@, needle@)
                == None::<int>,
        },
{
    let mut at: usize = 0;
    loop
        invariant
            at <= haystack.len(),
            forall|j: int| 0 <= j < at ==> !#[trigger] occurs_at(haystack@, needle@, j),
        decreases haystack.len() - at,
    {
        if matches_at(haystack, needle, at) {
            proof {
                lemma_first_unique(haystack@, needle@, at as int);
            }
            return Some(at);
        }
        if at >= haystack.len() {
            assert forall|j: int| !#[trigger] occurs_at(haystack@, needle@, j) by {
                if j == at {
                }
            }
            return None;
        }
        at = at + 1;
    }
}

/// Whether `needle` stands in `haystack`.
pub fn contains(haystack: &str, needle: &str) -> (result: bool)
    ensures
        result == occurs_in(haystack@, needle@),
{
    let h = chars_of(haystack);
    let n = chars_of(needle);
    find_chars(&h, &n).is_some()
}

/// Whether `s` begins with `prefix`.
pub fn starts_with(s: &str, prefix: &str) -> (result: bool)
    ensures
        result == begins_with(s@, prefix@),
{
    let h = chars_of(s);
    let n = chars_of(prefix);
    matches_at(&h, &n, 0)
}

/// `s` after `prefix`, or `None` where it does not begin with it.
pub fn strip_prefix<'a>(s: &'a str, prefix: &str) -> (result: Option<&'a str>)
    ensures
        match result {
            Some(rest) => after_prefix(s@, prefix@) == Some(rest@),
            None => after_prefix(s@, prefix@) == None::<Seq<char>>,
        },
{
    let h = chars_of(s);
    let n = chars_of(prefix);
    if matches_at(&h, &n, 0) {
        Some(s.substring_char(n.len(), h.len()))
    } else {
        None
    }
}

/// `s` before `suffix`, or `None` where it does not end with it.
pub fn strip_suffix<'a>(s: &'a str, suffix: &str) -> (result: Option<&'a str>)
    ensures
        match result {
            Some(rest) => before_suffix(s@, suffix@) == Some(rest@),
            None => before_suffix(s@, suffix@) == None::<Seq<char>>,
        },
{
    let h = chars_of(s);
    let n = chars_of(suffix);
    if n.len() <= h.len() && matches_at(&h, &n, h.len() - n.len()) {
        Some(s.substring_char(0, h.len() - n.len()))
    } else {
        None
    }
}

/// The text before and the text after the first `mark` in `s`.
pub open spec fn split_at_first(s: Seq<char>, mark: char) -> Option<(Seq<char>, Seq<char>)> {
    if s.contains(mark) {
        let at = s.index_of_first(mark)->0;
        Some((s.subrange(0, at), s.subrange(at + 1, s.len() as int)))
    } else {
        None
    }
}

/// The text before and the text after the first `mark` in `s`.
pub fn split_once(s: &str, mark: char) -> (result: Option<(&str, &str)>)
    ensures
        match result {
            Some((before, after)) => split_at_first(s@, mark) == Some((before@, after@)),
            None => split_at_first(s@, mark) == None::<(Seq<char>, Seq<char>)>,
        },
{
    let chars = chars_of(s);
    let mut i: usize = 0;
    while i < chars.len()
        invariant
            i <= chars.len(),
            chars@ == s@,
            forall|j: int| 0 <= j < i ==> s@[j] != mark,
        decreases chars.len() - i,
    {
        if chars[i] == mark {
            proof {
                assert(s@[i as int] == mark);
                s@.index_of_first_ensures(mark);
                let at = s@.index_of_first(mark)->0;
                assert(at == i);
            }
            return Some((s.substring_char(0, i), s.substring_char(i + 1, chars.len())));
        }
        i = i + 1;
    }
    None
}

/// What stands before and after the first place of `mark`.
pub open spec fn split_at_text(s: Seq<char>, mark: Seq<char>) -> Option<(Seq<char>, Seq<char>)> {
    match first_occurrence(s, mark) {
        Some(at) => Some((s.subrange(0, at), s.subrange(at + mark.len(), s.len() as int))),
        None => None,
    }
}

/// What stands before and after the first place of `mark`.
pub fn split_text<'a>(s: &'a str, mark: &str) -> (result: Option<(&'a str, &'a str)>)
    ensures
        match result {
            Some((before, after)) => split_at_text(s@, mark@) == Some((before@, after@)),
            None => split_at_text(s@, mark@) == None::<(Seq<char>, Seq<char>)>,
        },
{
    let chars = chars_of(s);
    let wanted = chars_of(mark);
    let total: usize = chars.len();
    match find_chars(&chars, &wanted) {
        Some(at) => {
            let after: usize = at + wanted.len();
            Some((s.substring_char(0, at), s.substring_char(after, total)))
        },
        None => None,
    }
}

/// `parts` in a row with `separator` between neighbours.
pub open spec fn joined(parts: Seq<Seq<char>>, separator: Seq<char>) -> Seq<char>
    decreases parts.len(),
{
    if parts.len() == 0 {
        Seq::empty()
    } else if parts.len() == 1 {
        parts[0]
    } else {
        joined(parts.subrange(0, parts.len() - 1), separator) + separator + parts[parts.len() - 1]
    }
}

/// `parts` in a row with `separator` between neighbours.
pub fn join(parts: &Vec<String>, separator: &str) -> (result: String)
    ensures
        result@ == joined(texts(parts@), separator@),
{
    let mut out = String::new();
    let mut i: usize = 0;
    assert(texts(parts@).subrange(0, 0) =~= Seq::<Seq<char>>::empty());
    while i < parts.len()
        invariant
            i <= parts.len(),
            out@ == joined(texts(parts@).subrange(0, i as int), separator@),
        decreases parts.len() - i,
    {
        proof {
            let all = texts(parts@);
            assert(all.subrange(0, i + 1).subrange(0, i as int) =~= all.subrange(0, i as int));
            assert(all.subrange(0, i + 1)[i as int] == parts@[i as int]@);
            if i == 0 {
                assert(out@ + parts@[0]@ =~= parts@[0]@);
            }
        }
        if i > 0 {
            out.append(separator);
        }
        out.append(parts[i].as_str());
        i = i + 1;
    }
    assert(texts(parts@).subrange(0, parts@.len() as int) =~= texts(parts@));
    out
}

/// The character of a decimal digit.
pub open spec fn digit_char(d: int) -> char {
    ('0' as u32 + d) as char
}

/// `n` in decimal.
pub open spec fn decimal(n: nat) -> Seq<char>
    decreases n,
{
    if n < 10 {
        seq![digit_char(n as int)]
    } else {
        decimal(n / 10).push(digit_char((n % 10) as int))
    }
}

/// `n` in decimal, with a leading minus where it is negative.
pub open spec fn signed_decimal(n: int) -> Seq<char> {
    if n < 0 {
        seq!['-'] + decimal((-n) as nat)
    } else {
        decimal(n as nat)
    }
}

/// `n` in decimal.
pub fn decimal_text(n: u64) -> (result: String)
    ensures
        result@ == decimal(n as nat),
    decreases n,
{
    let digit: u8 = 48 + (n % 10) as u8;
    let c: char = digit as char;
    if n < 10 {
        let mut out = String::new();
        push_char(&mut out, c);
        assert(out@ =~= seq![digit_char(n as int)]);
        out
    } else {
        let mut out = decimal_text(n / 10);
        push_char(&mut out, c);
        out
    }
}

/// `n` in decimal, with a leading minus where it is negative.
pub fn signed_decimal_text(n: i32) -> (result: String)
    ensures
        result@ == signed_decimal(n as int),
{
    if n < 0 {
        let magnitude: u64 = (0 - (n as i64)) as u64;
        proof {
            reveal_strlit("-");
            assert("-"@ =~= seq!['-']);
        }
        concat2("-", decimal_text(magnitude).as_str())
    } else {
        decimal_text(n as u64)
    }
}

/// The lower-case character of a hexadecimal digit.
pub open spec fn hex_digit(d: int) -> char {
    if d < 10 {
        ('0' as u32 + d) as char
    } else {
        ('a' as u32 + d - 10) as char
    }
}

/// `bytes` in lower-case hexadecimal, two characters for each byte.
pub open spec fn hex(bytes: Seq<u8>) -> Seq<char> {
    Seq::new(
        2 * bytes.len(),
        |i: int|
            if i % 2 == 0 {
                hex_digit(bytes[i / 2] as int / 16)
            } else {
                hex_digit(bytes[i / 2] as int % 16)
            },
    )
}

fn hex_digit_char(d: u8) -> (result: char)
    requires
        d < 16,
    ensures
        result == hex_digit(d as int),
{
    if d < 10 {
        (48 + d) as char
    } else {
        (87 + d) as char
    }
}

/// `bytes` in lower-case hexadecimal, two characters for each byte.
pub fn hex_text(bytes: &[u8]) -> (result: String)
    ensures
        result@ == hex(bytes@),
{
    let mut out = String::new();
    let mut i: usize = 0;
    assert(hex(bytes@.subrange(0, 0)) =~= Seq::<char>::empty());
    while i < bytes.len()
        invariant
            i <= bytes.len(),
            out@ == hex(bytes@.subrange(0, i as int)),
        decreases bytes.len() - i,
    {
        let b: u8 = bytes[i];
        let ghost before = out@;
        push_char(&mut out, hex_digit_char(b / 16));
        push_char(&mut out, hex_digit_char(b % 16));
        assert(out@ =~= hex(bytes@.subrange(0, i + 1))) by {
            assert forall|j: int| 0 <= j < out@.len() implies out@[j] == hex(
                bytes@.subrange(0, i + 1),
            )[j] by {
                if j < 2 * i {
                    assert(before[j] == hex(bytes@.subrange(0, i as int))[j]);
                }
            }
        }
        i = i + 1;
    }
    assert(bytes@.subrange(0, bytes@.len() as int) =~= bytes@);
    out
}

/// The length of the run without whitespace that `s` begins with.
pub open spec fn word_end(s: Seq<char>) -> int
    decreases s.len(),
{
    if s.len() == 0 || white_space(s[0]) {
        0
    } else {
        1 + word_end(s.subrange(1, s.len() as int))
    }
}

pub proof fn lemma_word_end(s: Seq<char>)
    ensures
        0 <= word_end(s) <= s.len(),
    decreases s.len(),
{
    if s.len() > 0 && !white_space(s[0]) {
        lemma_word_end(s.subrange(1, s.len() as int));
    }
}

/// The words of `s`: its longest runs without whitespace.
pub open spec fn words(s: Seq<char>) -> Seq<Seq<char>>
    decreases s.len(),
{
    if s.len() == 0 {
        Seq::empty()
    } else if white_space(s[0]) {
        words(s.subrange(1, s.len() as int))
    } else {
        let end = word_end(s);
        proof {
            lemma_word_end(s.subrange(1, s.len() as int));
        }
        seq![s.subrange(0, end)] + words(s.subrange(end, s.len() as int))
    }
}

/// Whether the only whitespace in `s` are single spaces between characters that are none.
pub open spec fn single_spaced(s: Seq<char>) -> bool {
    forall|i: int|
        0 <= i < s.len() && white_space(#[trigger] s[i]) ==> s[i] == ' ' && 0 < i && i + 1 < s.len()
            && !white_space(s[i - 1]) && !white_space(s[i + 1])
}

/// Whether `s` is a word.
pub open spec fn is_word(s: Seq<char>) -> bool {
    s.len() > 0 && forall|i: int| 0 <= i < s.len() ==> !white_space(#[trigger] s[i])
}

proof fn lemma_word(s: Seq<char>)
    ensures
        forall|i: int| 0 <= i < word_end(s) ==> !white_space(#[trigger] s[i]),
        word_end(s) < s.len() ==> white_space(s[word_end(s)]),
    decreases s.len(),
{
    lemma_word_end(s);
    if s.len() > 0 && !white_space(s[0]) {
        let rest = s.subrange(1, s.len() as int);
        lemma_word_end(rest);
        lemma_word(rest);
        assert forall|i: int| 0 <= i < word_end(s) implies !white_space(#[trigger] s[i]) by {
            if i > 0 {
                assert(rest[i - 1] == s[i]);
            }
        }
        if word_end(s) < s.len() {
            assert(rest[word_end(rest)] == s[word_end(s)]);
        }
    }
}

proof fn lemma_words(s: Seq<char>)
    ensures
        forall|i: int| 0 <= i < words(s).len() ==> is_word(#[trigger] words(s)[i]),
    decreases s.len(),
{
    if s.len() > 0 {
        if white_space(s[0]) {
            let rest = s.subrange(1, s.len() as int);
            lemma_words(rest);
            assert(words(s) == words(rest));
        } else {
            let end = word_end(s);
            lemma_word_end(s);
            lemma_word(s);
            lemma_word_end(s.subrange(1, s.len() as int));
            let first = s.subrange(0, end);
            let rest = s.subrange(end, s.len() as int);
            lemma_words(rest);
            assert(is_word(first));
            assert(words(s) == seq![first] + words(rest));
            assert forall|i: int| 0 <= i < words(s).len() implies is_word(
                #[trigger] words(s)[i],
            ) by {
                if i > 0 {
                    assert(words(s)[i] == words(rest)[i - 1]);
                }
            }
        }
    }
}

/// Words that are joined by spaces are single-spaced.
proof fn lemma_joined_words(parts: Seq<Seq<char>>)
    requires
        forall|i: int| 0 <= i < parts.len() ==> is_word(#[trigger] parts[i]),
    ensures
        single_spaced(joined(parts, " "@)),
        parts.len() > 0 ==> joined(parts, " "@).len() > 0,
    decreases parts.len(),
{
    reveal_strlit(" ");
    assert(" "@ =~= seq![' ']);
    if parts.len() == 1 {
        assert(is_word(parts[0]));
    } else if parts.len() > 1 {
        let init = parts.subrange(0, parts.len() - 1);
        let last = parts[parts.len() - 1];
        assert forall|i: int| 0 <= i < init.len() implies is_word(#[trigger] init[i]) by {
            assert(init[i] == parts[i]);
        }
        lemma_joined_words(init);
        assert(is_word(last));
        let before = joined(init, " "@);
        let n = before.len() as int;
        let line = before + " "@ + last;
        assert(joined(parts, " "@) == line);
        assert(!white_space(before[n - 1]));
        assert forall|i: int| 0 <= i < line.len() && white_space(#[trigger] line[i]) implies line[i]
            == ' ' && 0 < i && i + 1 < line.len() && !white_space(line[i - 1]) && !white_space(
            line[i + 1],
        ) by {
            if i < n {
                assert(line[i] == before[i]);
                assert(line[i - 1] == before[i - 1] && line[i + 1] == before[i + 1]);
            } else if i == n {
                assert(line[i - 1] == before[n - 1] && line[i + 1] == last[0]);
            } else {
                assert(line[i] == last[i - n - 1]);
            }
        }
    }
}

proof fn lemma_joined_front(first: Seq<char>, parts: Seq<Seq<char>>, separator: Seq<char>)
    requires
        parts.len() > 0,
    ensures
        joined(seq![first] + parts, separator) == first + separator + joined(parts, separator),
    decreases parts.len(),
{
    let all = seq![first] + parts;
    let init = all.subrange(0, all.len() - 1);
    if parts.len() == 1 {
        assert(init =~= seq![first]);
        assert(joined(init, separator) == first);
        assert(joined(parts, separator) == parts[0]);
        assert(all[1] == parts[0]);
    } else {
        let shorter = parts.subrange(0, parts.len() - 1);
        lemma_joined_front(first, shorter, separator);
        assert(init =~= seq![first] + shorter);
        assert(joined(all, separator) == joined(init, separator) + separator + all[all.len() - 1]);
        assert(all[all.len() - 1] == parts[parts.len() - 1]);
        assert(first + separator + joined(shorter, separator) + separator + parts[parts.len() - 1]
            =~= first + separator + (joined(shorter, separator) + separator + parts[parts.len()
            - 1]));
    }
}

/// The words of a text on one line are single-spaced, and a single-spaced text is its own words on
/// one line.
pub proof fn lemma_single_spaced(s: Seq<char>)
    ensures
        single_spaced(joined(words(s), " "@)),
        single_spaced(s) ==> joined(words(s), " "@) == s,
    decreases s.len(),
{
    lemma_words(s);
    lemma_joined_words(words(s));
    if single_spaced(s) && s.len() > 0 {
        assert(!white_space(s[0]));
        reveal_strlit(" ");
        assert(" "@ =~= seq![' ']);
        let end = word_end(s);
        lemma_word_end(s);
        lemma_word(s);
        lemma_word_end(s.subrange(1, s.len() as int));
        let first = s.subrange(0, end);
        let rest = s.subrange(end, s.len() as int);
        if end == s.len() {
            assert(rest.len() == 0);
            assert(words(rest) =~= Seq::empty());
            assert(words(s) =~= seq![first]);
            assert(first =~= s);
        } else {
            let after = s.subrange(end + 1, s.len() as int);
            assert(rest[0] == s[end]);
            assert(rest.subrange(1, rest.len() as int) =~= after);
            assert(words(rest) == words(after));
            assert(white_space(s[end]));
            assert(single_spaced(after)) by {
                assert forall|i: int| 0 <= i < after.len() && white_space(
                    #[trigger] after[i],
                ) implies after[i] == ' ' && 0 < i && i + 1 < after.len() && !white_space(
                    after[i - 1],
                ) && !white_space(after[i + 1]) by {
                    assert(after[i] == s[end + 1 + i]);
                    assert(!white_space(s[end + 1]));
                    assert(after[i - 1] == s[end + i] && after[i + 1] == s[end + 2 + i]);
                }
            }
            lemma_single_spaced(after);
            assert(after.len() > 0);
            if words(after).len() == 0 {
                assert(joined(words(after), " "@).len() == 0);
            }
            lemma_joined_front(first, words(after), " "@);
            assert(first + " "@ + after =~= s);
        }
    } else if s.len() == 0 {
        assert(joined(words(s), " "@) =~= s);
    }
}

/// The words of `s`: its longest runs without whitespace.
pub fn words_of(s: &str) -> (result: Vec<String>)
    ensures
        texts(result@) == words(s@),
{
    let chars = chars_of(s);
    let n: usize = chars.len();
    let mut result: Vec<String> = Vec::new();
    let mut i: usize = 0;
    assert(s@.subrange(0, n as int) =~= s@);
    assert(texts(result@) + words(s@) =~= words(s@));
    while i < n
        invariant
            i <= n,
            n == chars.len(),
            chars@ == s@,
            texts(result@) + words(s@.subrange(i as int, n as int)) == words(s@),
        decreases n - i,
    {
        let ghost rest = s@.subrange(i as int, n as int);
        if is_white_space(chars[i]) {
            assert(rest.subrange(1, rest.len() as int) =~= s@.subrange(i + 1, n as int));
            i = i + 1;
        } else {
            let mut end: usize = i + 1;
            assert(rest.subrange(1, rest.len() as int) =~= s@.subrange(i + 1, n as int));
            while end < n && !is_white_space(chars[end])
                invariant
                    i < end <= n,
                    n == chars.len(),
                    chars@ == s@,
                    rest == s@.subrange(i as int, n as int),
                    word_end(rest) == end - i + word_end(s@.subrange(end as int, n as int)),
                decreases n - end,
            {
                let ghost tail = s@.subrange(end as int, n as int);
                assert(tail.subrange(1, tail.len() as int) =~= s@.subrange(end + 1, n as int));
                end = end + 1;
            }
            proof {
                assert(word_end(rest) == end - i);
                let old_texts = texts(result@);
                assert(rest.subrange(0, end - i) =~= s@.subrange(i as int, end as int));
                assert(rest.subrange(end - i, rest.len() as int) =~= s@.subrange(
                    end as int,
                    n as int,
                ));
            }
            let ghost before = result@;
            result.push(s.substring_char(i, end).to_owned());
            assert(texts(result@) =~= texts(before).push(s@.subrange(i as int, end as int)));
            assert(texts(result@) + words(s@.subrange(end as int, n as int)) =~= texts(before) + (
            seq![s@.subrange(i as int, end as int)] + words(s@.subrange(end as int, n as int))));
            i = end;
        }
    }
    assert(texts(result@) + words(s@.subrange(n as int, n as int)) =~= texts(result@));
    result
}

/// The number of times that `needle` stands in `haystack`, counted from the front without
/// overlaps.
pub open spec fn occurrences(haystack: Seq<char>, needle: Seq<char>) -> nat
    decreases haystack.len(),
{
    match first_occurrence(haystack, needle) {
        Some(at) => if needle.len() > 0 && 0 <= at && at + needle.len() <= haystack.len() {
            1 + occurrences(
                haystack.subrange(at + needle.len(), haystack.len() as int),
                needle,
            )
        } else {
            0
        },
        None => 0,
    }
}

/// The number of times that `needle` stands in `haystack`, counted from the front without
/// overlaps.
pub fn count_occurrences(haystack: &str, needle: &str) -> (result: usize)
    requires
        needle@.len() > 0,
    ensures
        result == occurrences(haystack@, needle@),
{
    let n = chars_of(needle);
    let mut rest: Vec<char> = chars_of(haystack);
    let mut count: usize = 0;
    let ghost total = rest.len();
    loop
        invariant
            n@ == needle@,
            n@.len() > 0,
            count + rest.len() <= total,
            total <= usize::MAX,
            count + occurrences(rest@, needle@) == occurrences(haystack@, needle@),
        decreases rest.len(),
    {
        match find_chars(&rest, &n) {
            None => {
                return count;
            },
            Some(at) => {
                let tail = rest.split_off(at + n.len());
                rest = tail;
                count = count + 1;
            },
        }
    }
}

/// `s` with every carriage return that a line feed follows removed.
pub open spec fn line_feeds_only(s: Seq<char>) -> Seq<char>
    decreases s.len(),
{
    if s.len() == 0 {
        Seq::empty()
    } else {
        let last = s[s.len() - 1];
        let init = s.subrange(0, s.len() - 1);
        if last == '\n' && init.len() > 0 && init[init.len() - 1] == '\r' {
            line_feeds_only(init.subrange(0, init.len() - 1)).push('\n')
        } else {
            line_feeds_only(init).push(last)
        }
    }
}

/// Whether no line feed in `s` follows a carriage return.
pub open spec fn without_returns(s: Seq<char>) -> bool {
    forall|i: int, j: int|
        #![trigger s[i], s[j]]
        0 <= i && j == i + 1 && j < s.len() ==> !(s[i] == '\r' && s[j] == '\n')
}

/// Whether a line feed in `s` follows two carriage returns.
pub open spec fn doubled_return(s: Seq<char>) -> bool {
    exists|i: int, j: int, k: int|
        #![trigger s[i], s[j], s[k]]
        0 <= i && j == i + 1 && k == i + 2 && k < s.len() && s[i] == '\r' && s[j] == '\r' && s[k]
            == '\n'
}

/// A text without carriage returns before line feeds is kept as it is.
pub proof fn lemma_line_feeds_kept(s: Seq<char>)
    requires
        without_returns(s),
    ensures
        line_feeds_only(s) == s,
    decreases s.len(),
{
    if s.len() > 0 {
        let init = s.subrange(0, s.len() - 1);
        assert forall|i: int, j: int|
            #![trigger init[i], init[j]]
            0 <= i && j == i + 1 && j < init.len() implies !(init[i] == '\r' && init[j] == '\n') by {
            assert(init[i] == s[i] && init[j] == s[j]);
        }
        lemma_line_feeds_kept(init);
        if init.len() > 0 {
            assert(init[init.len() - 1] == s[s.len() - 2]);
        }
        assert(init.push(s[s.len() - 1]) =~= s);
    } else {
        assert(line_feeds_only(s) =~= s);
    }
}

/// What is left of a text has no carriage return before a line feed, unless two stood there.
pub proof fn lemma_line_feeds_only(s: Seq<char>)
    requires
        !doubled_return(s),
    ensures
        without_returns(line_feeds_only(s)),
        s.len() > 0 ==> line_feeds_only(s).len() > 0 && line_feeds_only(s)[line_feeds_only(s).len()
            - 1] == s[s.len() - 1],
        s.len() == 0 ==> line_feeds_only(s).len() == 0,
    decreases s.len(),
{
    if s.len() > 0 {
        let last = s[s.len() - 1];
        let init = s.subrange(0, s.len() - 1);
        assert(!doubled_return(init)) by {
            if doubled_return(init) {
                let (i, j, k) = choose|i: int, j: int, k: int|
                    #![trigger init[i], init[j], init[k]]
                    0 <= i && j == i + 1 && k == i + 2 && k < init.len() && init[i] == '\r'
                        && init[j] == '\r' && init[k] == '\n';
                assert(s[i] == '\r' && s[j] == '\r' && s[k] == '\n');
            }
        }
        lemma_line_feeds_only(init);
        if last == '\n' && init.len() > 0 && init[init.len() - 1] == '\r' {
            let kept = init.subrange(0, init.len() - 1);
            assert(!doubled_return(kept)) by {
                if doubled_return(kept) {
                    let (i, j, k) = choose|i: int, j: int, k: int|
                        #![trigger kept[i], kept[j], kept[k]]
                        0 <= i && j == i + 1 && k == i + 2 && k < kept.len() && kept[i] == '\r'
                            && kept[j] == '\r' && kept[k] == '\n';
                    assert(s[i] == '\r' && s[j] == '\r' && s[k] == '\n');
                }
            }
            lemma_line_feeds_only(kept);
            let n = s.len() as int;
            if kept.len() > 0 && kept[kept.len() - 1] == '\r' {
                assert(s[n - 3] == '\r' && s[n - 2] == '\r' && s[n - 1] == '\n');
            }
        }
    }
}

/// `s` with every carriage return that a line feed follows removed.
pub fn normalize_line_feeds(s: &str) -> (result: String)
    ensures
        result@ == line_feeds_only(s@),
{
    let chars = chars_of(s);
    let mut out = String::new();
    let mut i: usize = 0;
    assert(s@.subrange(0, 0) =~= Seq::<char>::empty());
    while i < chars.len()
        invariant
            i <= chars.len(),
            chars@ == s@,
            0 < i < chars.len() && s@[i - 1] == '\r' ==> s@[i as int] != '\n',
            out@ == line_feeds_only(s@.subrange(0, i as int)),
        decreases chars.len() - i,
    {
        let c: char = chars[i];
        let ghost done = s@.subrange(0, i as int);
        if c == '\r' && i + 1 < chars.len() && chars[i + 1] == '\n' {
            proof {
                let next = s@.subrange(0, i + 2);
                let init = next.subrange(0, next.len() - 1);
                assert(init[init.len() - 1] == '\r');
                assert(init.subrange(0, init.len() - 1) =~= done);
            }
            push_char(&mut out, '\n');
            i = i + 2;
        } else {
            proof {
                let next = s@.subrange(0, i + 1);
                assert(next.subrange(0, next.len() - 1) =~= done);
            }
            push_char(&mut out, c);
            i = i + 1;
        }
    }
    assert(s@.subrange(0, chars@.len() as int) =~= s@);
    out
}

/// Whether `a` stands before `b` in the order of their characters' code points.
pub open spec fn text_less(a: Seq<char>, b: Seq<char>) -> bool
    decreases a.len(),
{
    if b.len() == 0 {
        false
    } else if a.len() == 0 {
        true
    } else if a[0] == b[0] {
        text_less(a.subrange(1, a.len() as int), b.subrange(1, b.len() as int))
    } else {
        a[0] < b[0]
    }
}

/// Whether `a` stands before `b` in the order of their characters' code points.
pub fn text_precedes(a: &str, b: &str) -> (result: bool)
    ensures
        result == text_less(a@, b@),
{
    let left = chars_of(a);
    let right = chars_of(b);
    let mut i: usize = 0;
    assert(a@.subrange(0, a@.len() as int) =~= a@);
    assert(b@.subrange(0, b@.len() as int) =~= b@);
    loop
        invariant
            left@ == a@,
            right@ == b@,
            i <= left.len(),
            i <= right.len(),
            text_less(a@, b@) == text_less(
                a@.subrange(i as int, a@.len() as int),
                b@.subrange(i as int, b@.len() as int),
            ),
        decreases left.len() - i,
    {
        if i == right.len() {
            return false;
        }
        if i == left.len() {
            return true;
        }
        let x: char = left[i];
        let y: char = right[i];
        if x != y {
            return x < y;
        }
        proof {
            let l = a@.subrange(i as int, a@.len() as int);
            let r = b@.subrange(i as int, b@.len() as int);
            assert(l.subrange(1, l.len() as int) =~= a@.subrange(i + 1, a@.len() as int));
            assert(r.subrange(1, r.len() as int) =~= b@.subrange(i + 1, b@.len() as int));
        }
        i = i + 1;
    }
}

/// The order of texts is total: of two different texts one stands before the other.
pub proof fn lemma_text_order_total(a: Seq<char>, b: Seq<char>)
    ensures
        a == b || text_less(a, b) || text_less(b, a),
        !(text_less(a, b) && text_less(b, a)),
        !text_less(a, a),
    decreases a.len(),
{
    if a.len() > 0 && b.len() > 0 {
        let l = a.subrange(1, a.len() as int);
        let r = b.subrange(1, b.len() as int);
        lemma_text_order_total(l, r);
        if a[0] == b[0] && l == r {
            assert(a =~= seq![a[0]] + l);
            assert(b =~= seq![b[0]] + r);
            assert(a =~= b);
        }
        lemma_text_order_total(l, l);
    } else if a.len() == 0 && b.len() == 0 {
        assert(a =~= b);
    } else if a.len() > 0 {
        lemma_text_order_total(a.subrange(1, a.len() as int), a.subrange(1, a.len() as int));
    }
}

/// What stands before a text that stands before a third one stands before the third.
pub proof fn lemma_text_order_transitive(a: Seq<char>, b: Seq<char>, c: Seq<char>)
    requires
        text_less(a, b),
        text_less(b, c),
    ensures
        text_less(a, c),
    decreases a.len(),
{
    if a.len() > 0 && a[0] == b[0] && b[0] == c[0] {
        lemma_text_order_transitive(
            a.subrange(1, a.len() as int),
            b.subrange(1, b.len() as int),
            c.subrange(1, c.len() as int),
        );
    }
}

/// A text that has to be given: its trimmed form, or the message that `field` is required.
pub open spec fn required(raw: Seq<char>, field: Seq<char>) -> Result<Seq<char>, Seq<char>> {
    if trimmed(raw).len() == 0 {
        Err(field + " is required"@)
    } else {
        Ok(trimmed(raw))
    }
}

/// A text that has to be given: its trimmed form, or the message that `field` is required.
pub fn required_string(raw: &str, field: &str) -> (result: Result<String, String>)
    ensures
        match result {
            Ok(value) => required(raw@, field@) == Ok::<Seq<char>, Seq<char>>(value@),
            Err(message) => required(raw@, field@) == Err::<Seq<char>, Seq<char>>(message@),
        },
{
    let value = trim(raw);
    if value.is_empty() {
        Err(concat2(field, " is required"))
    } else {
        Ok(value.to_owned())
    }
}

/// The contents of an optional string.
pub open spec fn optional_text(value: Option<String>) -> Option<Seq<char>> {
    match value {
        Some(s) => Some(s@),
        None => None,
    }
}

/// An optional text, trimmed; one of nothing but whitespace counts as none.
pub open spec fn normalized(value: Option<Seq<char>>) -> Option<Seq<char>> {
    match value {
        Some(s) => if trimmed(s).len() == 0 {
            None
        } else {
            Some(trimmed(s))
        },
        None => None,
    }
}

/// An optional text, trimmed; one of nothing but whitespace counts as none.
pub fn normalize_optional_string(value: &Option<String>) -> (result: Option<String>)
    ensures
        optional_text(result) == normalized(optional_text(*value)),
{
    match value {
        Some(s) => {
            let t = trim(s.as_str());
            if t.is_empty() {
                None
            } else {
                Some(t.to_owned())
            }
        },
        None => None,
    }
}

/// Whether two optional strings hold the same.
pub fn same_optional(a: &Option<String>, b: &Option<String>) -> (result: bool)
    ensures
        result == (optional_text(*a) == optional_text(*b)),
{
    match (a, b) {
        (Some(x), Some(y)) => text_equals(x.as_str(), y.as_str()),
        (None, None) => true,
        _ => false,
    }
}

/// Copies an optional string.
pub fn copy_optional(value: &Option<String>) -> (result: Option<String>)
    ensures
        optional_text(result) == optional_text(*value),
{
    match value {
        Some(s) => Some(s.clone()),
        None => None,
    }
}

/// The lines of `s`: what stands before each line feed, without a carriage return at its end, and
/// what stands after the last line feed where that is not empty.
pub open spec fn lines(s: Seq<char>) -> Seq<Seq<char>>
    decreases s.len(),
{
    if s.len() == 0 {
        Seq::empty()
    } else {
        match split_at_first(s, '\n') {
            None => seq![s],
            Some((line, rest)) => if rest.len() < s.len() {
                seq![
                    if line.len() > 0 && line[line.len() - 1] == '\r' {
                        line.subrange(0, line.len() - 1)
                    } else {
                        line
                    },
                ] + lines(rest)
            } else {
                Seq::empty()
            },
        }
    }
}

/// The lines of `s`.
pub fn lines_of(s: &str) -> (result: Vec<String>)
    ensures
        texts(result@) == lines(s@),
{
    let mut rest: String = s.to_owned();
    let mut result: Vec<String> = Vec::new();
    assert(texts(result@) + lines(s@) =~= lines(s@));
    loop
        invariant
            texts(result@) + lines(rest@) == lines(s@),
        decreases rest@.len(),
    {
        if rest.as_str().is_empty() {
            assert(texts(result@) + lines(rest@) =~= texts(result@));
            return result;
        }
        let ghost before = texts(result@);
        let (line, tail): (String, String) = match split_once(rest.as_str(), '\n') {
            None => {
                let ghost last = rest@;
                result.push(rest);
                assert(texts(result@) =~= before + seq![last]);
                return result;
            },
            Some((line, tail)) => (line.to_owned(), tail.to_owned()),
        };
        proof {
            rest@.index_of_first_ensures('\n');
        }
        let kept: String = match strip_suffix(line.as_str(), "\r") {
            Some(kept) => kept.to_owned(),
            None => line.clone(),
        };
        proof {
            reveal_strlit("\r");
            let l = line@;
            assert("\r"@ =~= seq!['\r']);
            if l.len() > 0 {
                assert(l.subrange(l.len() - 1, l.len() as int) =~= seq![l[l.len() - 1]]);
                if l[l.len() - 1] != '\r' {
                    assert(l.subrange(l.len() - 1, l.len() as int)[0] != "\r"@[0]);
                }
            }
        }
        let ghost shown = kept@;
        result.push(kept);
        assert(texts(result@) =~= before.push(shown));
        assert(texts(result@) + lines(tail@) =~= before + (seq![shown] + lines(tail@)));
        rest = tail;
    }
}

/// The first `n` characters of `s`, or all of them where there are fewer.
pub open spec fn limited(s: Seq<char>, n: int) -> Seq<char> {
    if s.len() <= n {
        s
    } else {
        s.subrange(0, n)
    }
}

/// The first `n` characters of `s`, or all of them where there are fewer.
pub fn first_chars(s: &str, n: usize) -> (result: String)
    ensures
        result@ == limited(s@, n as int),
{
    let chars = chars_of(s);
    if chars.len() <= n {
        s.to_owned()
    } else {
        s.substring_char(0, n).to_owned()
    }
}

/// `n` in decimal, with a leading minus where it is negative.
pub fn signed_long_text(n: i64) -> (result: String)
    ensures
        result@ == signed_decimal(n as int),
{
    if n < 0 {
        let magnitude: u64 = (0 - (n as i128)) as u64;
        proof {
            reveal_strlit("-");
            assert("-"@ =~= seq!['-']);
        }
        concat2("-", decimal_text(magnitude).as_str())
    } else {
        decimal_text(n as u64)
    }
}

/// A character with an upper-case ASCII letter in lower case.
pub open spec fn lowered_char(c: char) -> char {
    if 'A' <= c && c <= 'Z' {
        (c as u32 + 32) as char
    } else {
        c
    }
}

/// `s` with its upper-case ASCII letters in lower case.
pub open spec fn lowered(s: Seq<char>) -> Seq<char> {
    Seq::new(s.len(), |i: int| lowered_char(s[i]))
}

/// `s` with its upper-case ASCII letters in lower case.
pub fn ascii_lowercase(s: &str) -> (result: String)
    ensures
        result@ == lowered(s@),
{
    let chars = chars_of(s);
    let mut out = String::new();
    let mut i: usize = 0;
    while i < chars.len()
        invariant
            i <= chars.len(),
            chars@ == s@,
            out@ == lowered(s@.subrange(0, i as int)),
        decreases chars.len() - i,
    {
        let c: char = chars[i];
        let lower: char = if 'A' <= c && c <= 'Z' {
            ((c as u8) + 32) as char
        } else {
            c
        };
        assert(lowered(s@.subrange(0, i as int)).push(lowered_char(c)) =~= lowered(
            s@.subrange(0, i + 1),
        ));
        push_char(&mut out, lower);
        i = i + 1;
    }
    assert(s@.subrange(0, s@.len() as int) =~= s@);
    out
}

/// `s` without every `prefix` before it.
pub open spec fn without_prefixes(s: Seq<char>, prefix: Seq<char>) -> Seq<char>
    decreases s.len(),
{
    if prefix.len() > 0 && begins_with(s, prefix) {
        without_prefixes(s.subrange(prefix.len() as int, s.len() as int), prefix)
    } else {
        s
    }
}

/// `s` without every `prefix` before it.
pub fn strip_prefixes<'a>(s: &'a str, prefix: &str) -> (result: &'a str)
    requires
        prefix@.len() > 0,
    ensures
        result@ == without_prefixes(s@, prefix@),
{
    let mut rest: &'a str = s;
    loop
        invariant
            prefix@.len() > 0,
            without_prefixes(s@, prefix@) == without_prefixes(rest@, prefix@),
        ensures
            rest@ == without_prefixes(s@, prefix@),
        decreases rest@.len(),
    {
        match strip_prefix(rest, prefix) {
            Some(next) => {
                rest = next;
            },
            None => {
                break;
            },
        }
    }
    rest
}

/// The text that `Debug` of an optional string writes.
pub uninterp spec fn debug_text(value: Option<Seq<char>>) -> Seq<char>;

/// Writes an optional string with its `Debug` implementation of the standard library, by `format!`.
/// The result is named by `debug_text`; the quotes and escapes of that form are left unsaid.
#[verifier::external_body]
pub(crate) fn show_optional(value: &Option<String>) -> (result: String)
    ensures
        result@ == debug_text(optional_text(*value)),
{
    format!("{:?}", value)
}

/// Whether a text holds nothing but whitespace.
pub open spec fn blank(s: Seq<char>) -> bool {
    forall|i: int| 0 <= i < s.len() ==> white_space(#[trigger] s[i])
}

/// The ASCII characters that count as whitespace are the space and the five controls that move the
/// cursor along a line or to another one.
pub proof fn law_ascii_white_space(c: char)
    ensures
        (c as u32) < 0x80 ==> (white_space(c) <==> c == ' ' || c == '\t' || c == '\n' || c == '\r'
            || c as u32 == 0xb || c as u32 == 0xc),
{
}

proof fn lemma_trimmed_start(s: Seq<char>)
    ensures
        trimmed_start(s).len() <= s.len(),
        trimmed_start(s) == s.subrange(s.len() - trimmed_start(s).len(), s.len() as int),
        blank(s.subrange(0, s.len() - trimmed_start(s).len())),
        trimmed_start(s).len() > 0 ==> !white_space(trimmed_start(s)[0]),
    decreases s.len(),
{
    if s.len() > 0 && white_space(s[0]) {
        let rest = s.subrange(1, s.len() as int);
        lemma_trimmed_start(rest);
        let n = s.len() - trimmed_start(s).len();
        assert forall|i: int| 0 <= i < n implies white_space(#[trigger] s.subrange(0, n)[i]) by {
            if i > 0 {
                assert(rest.subrange(0, n - 1)[i - 1] == s[i]);
            }
        }
    }
}

proof fn lemma_trimmed_end(s: Seq<char>)
    ensures
        trimmed_end(s).len() <= s.len(),
        trimmed_end(s) == s.subrange(0, trimmed_end(s).len() as int),
        blank(s.subrange(trimmed_end(s).len() as int, s.len() as int)),
        trimmed_end(s).len() > 0 ==> !white_space(trimmed_end(s)[trimmed_end(s).len() - 1]),
    decreases s.len(),
{
    if s.len() > 0 && white_space(s[s.len() - 1]) {
        let rest = s.subrange(0, s.len() - 1);
        lemma_trimmed_end(rest);
        let n = trimmed_end(s).len() as int;
        assert forall|i: int| 0 <= i < s.len() - n implies white_space(
            #[trigger] s.subrange(n, s.len() as int)[i],
        ) by {
            if i < s.len() - n - 1 {
                assert(rest.subrange(n, s.len() - 1)[i] == s[n + i]);
            }
        }
    }
}

/// Trimming takes off only whitespace, at either end, and all of it: a text is its trimmed text
/// between two blank texts, nothing is left of a blank text, and what is left of another begins and
/// ends with something else than whitespace.
pub proof fn law_trimming_takes_off_the_whitespace_around(s: Seq<char>)
    ensures
        exists|before: Seq<char>, after: Seq<char>|
            blank(before) && blank(after) && s == #[trigger] (before + trimmed(s) + after),
        trimmed(s).len() == 0 <==> blank(s),
        trimmed(s).len() > 0 ==> !white_space(trimmed(s)[0]) && !white_space(
            trimmed(s)[trimmed(s).len() - 1],
        ),
{
    let start = trimmed_start(s);
    let end = trimmed(s);
    lemma_trimmed_start(s);
    lemma_trimmed_end(start);
    let before = s.subrange(0, s.len() - start.len());
    let after = start.subrange(end.len() as int, start.len() as int);
    assert(s =~= before + end + after);
    if end.len() > 0 {
        assert(end[0] == start[0]);
        let at = s.len() - start.len();
        assert(s[at] == end[0]);
        assert(!white_space(s[at]));
    } else {
        assert forall|i: int| 0 <= i < s.len() implies white_space(#[trigger] s[i]) by {
            if i < before.len() {
                assert(before[i] == s[i]);
            } else {
                assert(after[i - before.len()] == s[i]);
            }
        }
    }
}

/// A text that is its own trimmed text between two blank texts is trimmed to just that text: how
/// much whitespace stands around a text makes no difference.
pub proof fn law_trimming_depends_on_nothing_around(
    before: Seq<char>,
    middle: Seq<char>,
    after: Seq<char>,
)
    requires
        blank(before),
        blank(after),
        middle.len() > 0,
        !white_space(middle[0]),
        !white_space(middle[middle.len() - 1]),
    ensures
        trimmed(before + middle + after) == middle,
    decreases before.len() + after.len(),
{
    let s = before + middle + after;
    lemma_trimmed_start(s);
    lemma_trimmed_end(trimmed_start(s));
    let cut = s.len() - trimmed_start(s).len();
    assert(s[before.len() as int] == middle[0]);
    if cut > before.len() {
        assert(s.subrange(0, cut)[before.len() as int] == s[before.len() as int]);
    }
    if cut < before.len() {
        assert(trimmed_start(s)[0] == s[cut]);
        assert(s[cut] == before[cut]);
    }
    let start = trimmed_start(s);
    assert(start =~= middle + after);
    let end = trimmed_end(start);
    let last = middle.len() - 1;
    assert(start[last] == middle[last]);
    if end.len() <= last {
        assert(start.subrange(end.len() as int, start.len() as int)[last - end.len()]
            == start[last]);
    }
    if end.len() > middle.len() {
        assert(end[end.len() - 1] == start[end.len() - 1]);
        assert(start[end.len() - 1] == after[end.len() - 1 - middle.len()]);
    }
    assert(end =~= middle);
}

/// A text is split at the first mark that it holds: what stands before and after the mark, with the
/// mark between them, is the text, and the mark does not stand before. A text without the mark is
/// not split.
pub proof fn law_texts_split_at_the_first_mark(before: Seq<char>, mark: char, after: Seq<char>)
    requires
        forall|i: int| 0 <= i < before.len() ==> (#[trigger] before[i]) != mark,
    ensures
        split_at_first(before + seq![mark] + after, mark) == Some((before, after)),
        split_at_first(before, mark) is None,
{
    let s = before + seq![mark] + after;
    let n = before.len() as int;
    assert(s[n] == mark);
    assert(s.contains(mark));
    s.index_of_first_ensures(mark);
    let at = s.index_of_first(mark)->0;
    if at < n {
        assert(s[at] == before[at]);
    }
    assert(at == n);
    assert(s.subrange(0, n) =~= before);
    assert(s.subrange(n + 1, s.len() as int) =~= after);
    if before.contains(mark) {
        let i = choose|i: int| 0 <= i < before.len() && before[i] == mark;
        assert(before[i] != mark);
    }
}

/// Texts are joined in their order with the separator between each two of them, and with nothing
/// before the first or behind the last.
pub proof fn law_joined_texts_are_separated(
    parts: Seq<Seq<char>>,
    part: Seq<char>,
    separator: Seq<char>,
)
    ensures
        joined(seq![], separator) == Seq::<char>::empty(),
        joined(seq![part], separator) == part,
        parts.len() > 0 ==> joined(parts.push(part), separator) == joined(parts, separator)
            + separator + part,
{
    let one = seq![part];
    assert(one.subrange(0, 0) =~= Seq::empty());
    let more = parts.push(part);
    assert(more.subrange(0, more.len() - 1) =~= parts);
}

/// The lines of a text: a text that begins with a line and a line feed has that line, without one
/// carriage return at its end, and then the lines of what follows; a text without a line feed is one
/// line, and the empty text has none.
pub proof fn law_lines_end_at_line_feeds(line: Seq<char>, rest: Seq<char>)
    requires
        forall|i: int| 0 <= i < line.len() ==> (#[trigger] line[i]) != '\n',
    ensures
        lines(Seq::empty()) == Seq::<Seq<char>>::empty(),
        line.len() > 0 ==> lines(line) == seq![line],
        line.len() > 0 && line[line.len() - 1] == '\r' ==> lines(line + seq!['\n'] + rest) == seq![
            line.subrange(0, line.len() - 1),
        ] + lines(rest),
        line.len() == 0 || line[line.len() - 1] != '\r' ==> lines(line + seq!['\n'] + rest) == seq![
            line,
        ] + lines(rest),
{
    law_texts_split_at_the_first_mark(line, '\n', rest);
}

/// Lower case changes only the capital letters of ASCII, each to its small letter, and keeps the
/// length of a text.
pub proof fn law_lower_case_changes_capital_letters(s: Seq<char>, i: int)
    requires
        0 <= i < s.len(),
    ensures
        lowered(s).len() == s.len(),
        !('A' <= s[i] && s[i] <= 'Z') ==> lowered(s)[i] == s[i],
        'A' <= s[i] && s[i] <= 'Z' ==> lowered(s)[i] as int == s[i] as int + 32,
        lowered(lowered(s))[i] == lowered(s)[i],
{
}

/// Every copy of a prefix that a text begins with is taken off, and a text that does not begin with
/// it stays as it is.
pub proof fn law_prefixes_are_all_taken_off(s: Seq<char>, prefix: Seq<char>)
    requires
        prefix.len() > 0,
    ensures
        without_prefixes(prefix + s, prefix) == without_prefixes(s, prefix),
        !begins_with(s, prefix) ==> without_prefixes(s, prefix) == s,
{
    let longer = prefix + s;
    assert(longer.subrange(0, prefix.len() as int) =~= prefix);
    assert(longer.subrange(prefix.len() as int, longer.len() as int) =~= s);
}

/// A text is counted from its first place on: behind a place that is the first, it is counted again
/// in what follows; it is not counted where it does not stand.
pub proof fn law_occurrences_are_counted_one_by_one(
    before: Seq<char>,
    needle: Seq<char>,
    after: Seq<char>,
)
    requires
        needle.len() > 0,
        forall|j: int|
            0 <= j < before.len() ==> !#[trigger] occurs_at(before + needle + after, needle, j),
    ensures
        occurrences(before + needle + after, needle) == 1 + occurrences(after, needle),
        !occurs_in(after, needle) ==> occurrences(after, needle) == 0,
{
    let s = before + needle + after;
    let n = before.len() as int;
    assert(s.subrange(n, n + needle.len()) =~= needle);
    lemma_first_unique(s, needle, n);
    assert(s.subrange(n + needle.len(), s.len() as int) =~= after);
    if !occurs_in(after, needle) {
        if exists|at: int| first_at(after, needle, at) {
            let at = choose|at: int| first_at(after, needle, at);
            assert(occurs_at(after, needle, at));
        }
    }
}

/// A text stands before another where it is the beginning of it, or where the first character in
/// which they differ has the smaller code point.
pub proof fn law_texts_are_ordered_by_their_first_difference(
    common: Seq<char>,
    a: Seq<char>,
    b: Seq<char>,
)
    ensures
        a.len() > 0 && b.len() > 0 && a[0] != b[0] ==> (text_less(common + a, common + b) <==> a[0]
            < b[0]),
        text_less(common, common + b) <==> b.len() > 0,
        !text_less(common + a, common),
    decreases common.len(),
{
    if common.len() > 0 {
        let fewer = common.subrange(1, common.len() as int);
        law_texts_are_ordered_by_their_first_difference(fewer, a, b);
        let x = common + a;
        let y = common + b;
        assert(x.subrange(1, x.len() as int) =~= fewer + a);
        assert(y.subrange(1, y.len() as int) =~= fewer + b);
    } else {
        assert(common + a =~= a);
        assert(common + b =~= b);
    }
}

/// The number that a lower-case hexadecimal digit stands for.
pub open spec fn hex_value(c: char) -> int {
    if '0' <= c && c <= '9' {
        c as int - '0' as int
    } else {
        c as int - 'a' as int + 10
    }
}

/// Every byte is written as two digits, the higher first, and is read back from them.
pub proof fn law_bytes_are_two_digits(bytes: Seq<u8>, i: int)
    requires
        0 <= i < bytes.len(),
    ensures
        hex(bytes).len() == 2 * bytes.len(),
        hex_value(hex(bytes)[2 * i]) * 16 + hex_value(hex(bytes)[2 * i + 1]) == bytes[i],
{
    let high = bytes[i] as int / 16;
    let low = bytes[i] as int % 16;
    assert((2 * i) / 2 == i && (2 * i) % 2 == 0);
    assert((2 * i + 1) / 2 == i && (2 * i + 1) % 2 == 1);
    assert(hex(bytes)[2 * i] == hex_digit(high));
    assert(hex(bytes)[2 * i + 1] == hex_digit(low));
    assert(hex_value(hex_digit(high)) == high);
    assert(hex_value(hex_digit(low)) == low);
}

/// A text that has to be given is given exactly where it says something, and is taken without the
/// whitespace around it; one that may be missing counts as missing where it is blank.
pub proof fn law_blank_texts_count_as_missing(text: Seq<char>, field: Seq<char>)
    ensures
        !blank(text) ==> required(text, field) == Ok::<Seq<char>, Seq<char>>(trimmed(text)),
        blank(text) ==> required(text, field) == Err::<Seq<char>, Seq<char>>(
            field + " is required"@,
        ),
        !blank(text) ==> normalized(Some(text)) == Some(trimmed(text)),
        blank(text) ==> normalized(Some(text)) is None,
        normalized(None) is None,
{
    law_trimming_takes_off_the_whitespace_around(text);
}

/// A text is cut to its first characters where it is longer than it may be, and else left as it is.
pub proof fn law_long_texts_are_cut(s: Seq<char>, n: int)
    requires
        0 <= n,
    ensures
        limited(s, n).len() <= n,
        s.len() <= n ==> limited(s, n) == s,
        s.len() > n ==> limited(s, n).len() == n && limited(s, n) == s.subrange(0, n),
{
}

} // verus!
