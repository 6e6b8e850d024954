//! The configuration file format.
//!
//! A file holds one entry per line, written `key = value`. A value is a
//! string in double quotes, an integer, or `true` or `false`. Empty lines and
//! lines that start with `#` say nothing. White space around a line, a key or
//! a value does not count.

use vstd::prelude::*;
use crate::line::{line_at, line_span, lines_from, lines_of, trim_span, trimmed};
use crate::sample::config::{Config, Datum, Value};
use crate::text::{chars_of, decimal, push_decimal, same_str, substring};

verus! {

/// A parsing failure, as contracts speak of it: the number of the line, from
/// 1, and what is wrong with it.
pub struct Fault {
    pub line: nat,
    pub message: Seq<char>,
}

impl Fault {
    /// The line shown to the user.
    pub open spec fn message(self) -> Seq<char> {
        "line "@ + decimal(self.line) + ": "@ + self.message
    }
}

/// A parsing failure: the number of the line, from 1, and what is wrong with
/// it.
#[derive(Clone, Debug, PartialEq, Eq)]
pub struct ParseError {
    pub line: usize,
    pub message: String,
}

impl View for ParseError {
    type V = Fault;

    open spec fn view(&self) -> Fault {
        Fault { line: self.line as nat, message: self.message@ }
    }
}

impl ParseError {
    /// The line shown to the user.
    pub fn message(&self) -> (out: String)
        ensures
            out@ == self@.message(),
    {
        let mut out = String::new();
        out.append("line ");
        push_decimal(&mut out, self.line as u64);
        out.append(": ");
        out.append(self.message.as_str());
        out
    }
}

/// `c` is a decimal digit.
pub open spec fn is_digit(c: char) -> bool {
    '0' <= c && c <= '9'
}

/// The number that the digit `c` stands for.
pub open spec fn digit_value(c: char) -> nat {
    if c == '1' {
        1
    } else if c == '2' {
        2
    } else if c == '3' {
        3
    } else if c == '4' {
        4
    } else if c == '5' {
        5
    } else if c == '6' {
        6
    } else if c == '7' {
        7
    } else if c == '8' {
        8
    } else if c == '9' {
        9
    } else {
        0
    }
}

/// Every character of `s` is a digit.
pub open spec fn all_digits(s: Seq<char>) -> bool {
    forall|i: int| 0 <= i < s.len() ==> is_digit(#[trigger] s[i])
}

/// The number that the digits `s` stand for.
pub open spec fn digits_value(s: Seq<char>) -> nat
    decreases s.len(),
{
    if s.len() == 0 {
        0
    } else {
        digits_value(s.drop_last()) * 10 + digit_value(s.last())
    }
}

/// `s` starts with a sign.
pub open spec fn has_sign(s: Seq<char>) -> bool {
    s.len() > 0 && (s[0] == '-' || s[0] == '+')
}

/// The integer that `s` stands for: an optional sign and then at least one
/// digit, with a value that a 64-bit integer holds.
pub open spec fn number_of(s: Seq<char>) -> Option<int> {
    let body = if has_sign(s) {
        s.skip(1)
    } else {
        s
    };
    let magnitude = digits_value(body) as int;
    let n = if has_sign(s) && s[0] == '-' {
        -magnitude
    } else {
        magnitude
    };
    if body.len() > 0 && all_digits(body) && i64::MIN <= n <= i64::MAX {
        Some(n)
    } else {
        None
    }
}

/// The value that `raw` stands for: what stands between double quotes is a
/// string, `true` and `false` are booleans, and a number is an integer.
pub open spec fn value_of(raw: Seq<char>) -> Option<Datum> {
    if raw.len() >= 2 && raw[0] == '"' && raw.last() == '"' {
        Some(Datum::Text(raw.subrange(1, raw.len() - 1)))
    } else if raw == "true"@ {
        Some(Datum::Flag(true))
    } else if raw == "false"@ {
        Some(Datum::Flag(false))
    } else {
        match number_of(raw) {
            Some(n) => Some(Datum::Number(n)),
            None => None,
        }
    }
}

/// The index of the first `c` in `s`; the length of `s` where there is none.
pub open spec fn first_index_of(s: Seq<char>, c: char, from: int) -> int
    decreases s.len() - from,
{
    if from < 0 || from >= s.len() || s[from] == c {
        from
    } else {
        first_index_of(s, c, from + 1)
    }
}

/// What a line says, as contracts speak of it.
pub enum Reading {
    Nothing,
    Entry(Seq<char>, Datum),
    Wrong(Seq<char>),
}

/// What the line `line` says: nothing, an entry, or what is wrong with it.
pub open spec fn reading_of(line: Seq<char>) -> Reading {
    let text = trimmed(line);
    let cut = first_index_of(text, '=', 0);
    if text.len() == 0 || text[0] == '#' {
        Reading::Nothing
    } else if cut >= text.len() {
        Reading::Wrong("expected `key = value`, got: "@ + text)
    } else {
        let raw = trimmed(text.skip(cut + 1));
        match value_of(raw) {
            Some(value) => Reading::Entry(trimmed(text.take(cut)), value),
            None => Reading::Wrong("unrecognized value: "@ + raw),
        }
    }
}

/// The configuration that `lines` hold, or the first failure: a later entry
/// for a key replaces an earlier one.
pub open spec fn parsed_lines(lines: Seq<Seq<char>>) -> Result<Map<Seq<char>, Datum>, Fault>
    decreases lines.len(),
{
    if lines.len() == 0 {
        Ok(Map::empty())
    } else {
        match parsed_lines(lines.drop_last()) {
            Err(fault) => Err(fault),
            Ok(entries) => match reading_of(lines.last()) {
                Reading::Nothing => Ok(entries),
                Reading::Entry(key, value) => Ok(entries.insert(key, value)),
                Reading::Wrong(message) => Err(Fault { line: lines.len(), message }),
            },
        }
    }
}

/// The configuration that the text `input` holds, or the first failure.
pub open spec fn parsed(input: Seq<char>) -> Result<Map<Seq<char>, Datum>, Fault> {
    parsed_lines(lines_of(input))
}

/// The number that a digit stands for; `None` for another character.
fn digit_of(c: char) -> (d: Option<u64>)
    ensures
        d is Some == is_digit(c),
        d matches Some(v) ==> v == digit_value(c) && v <= 9,
{
    if c == '0' {
        Some(0)
    } else if c == '1' {
        Some(1)
    } else if c == '2' {
        Some(2)
    } else if c == '3' {
        Some(3)
    } else if c == '4' {
        Some(4)
    } else if c == '5' {
        Some(5)
    } else if c == '6' {
        Some(6)
    } else if c == '7' {
        Some(7)
    } else if c == '8' {
        Some(8)
    } else if c == '9' {
        Some(9)
    } else {
        None
    }
}

/// The value of the digits `s` grows with every digit.
proof fn lemma_digits_grow(s: Seq<char>, n: int)
    requires
        0 <= n <= s.len(),
    ensures
        digits_value(s.take(n)) <= digits_value(s),
    decreases s.len() - n,
{
    if n < s.len() {
        lemma_digits_grow(s, n + 1);
        assert(s.take(n + 1).drop_last() =~= s.take(n));
    } else {
        assert(s.take(n) =~= s);
    }
}

/// Reads an integer.
pub fn parse_number(s: &str) -> (n: Option<i64>)
    ensures
        n matches Some(v) ==> number_of(s@) == Some(v as int),
        n is None ==> number_of(s@) is None,
{
    let chars = chars_of(s);
    let signed = chars.len() > 0 && (chars[0] == '-' || chars[0] == '+');
    let negative = signed && chars[0] == '-';
    let start: usize = if signed {
        1
    } else {
        0
    };
    let ghost body = if has_sign(s@) {
        s@.skip(1)
    } else {
        s@
    };
    assert(body =~= chars@.skip(start as int));
    if start >= chars.len() {
        return None;
    }
    let limit: u64 = if negative {
        9223372036854775808u64
    } else {
        9223372036854775807u64
    };
    let mut acc: u64 = 0;
    let mut i: usize = start;
    assert(body.take(0) =~= Seq::<char>::empty());
    while i < chars.len()
        invariant
            start <= i <= chars.len(),
            chars@ == s@,
            body == chars@.skip(start as int),
            body == if has_sign(s@) {
                s@.skip(1)
            } else {
                s@
            },
            negative == (has_sign(s@) && s@[0] == '-'),
            negative ==> limit == 9223372036854775808u64,
            !negative ==> limit == 9223372036854775807u64,
            all_digits(body.take(i - start)),
            acc == digits_value(body.take(i - start)),
            acc <= limit,
        decreases chars.len() - i,
    {
        let ghost seen = body.take(i - start);
        let ghost next = body.take(i - start + 1);
        proof {
            assert(next.drop_last() =~= seen);
            assert(next.last() == chars@[i as int]);
        }
        match digit_of(chars[i]) {
            None => {
                proof {
                    assert(body[i - start] == chars@[i as int]);
                    assert(!all_digits(body));
                }
                return None;
            },
            Some(d) => {
                if acc > (limit - d) / 10 {
                    proof {
                        assert(digits_value(next) > limit);
                        lemma_digits_grow(body, i - start + 1);
                    }
                    return None;
                }
                acc = acc * 10 + d;
                proof {
                    assert forall|j: int| 0 <= j < next.len() implies is_digit(
                        #[trigger] next[j],
                    ) by {
                        if j < seen.len() {
                            assert(next[j] == seen[j]);
                        }
                    }
                }
            },
        }
        i += 1;
    }
    assert(body.take(i - start) =~= body);
    if negative {
        if acc == 9223372036854775808u64 {
            Some(i64::MIN)
        } else {
            Some(-(acc as i64))
        }
    } else {
        Some(acc as i64)
    }
}

/// Reads a value.
pub fn parse_value(raw: &str) -> (value: Option<Value>)
    ensures
        value.deep_view() == value_of(raw@),
{
    let chars = chars_of(raw);
    let len = chars.len();
    if len >= 2 && chars[0] == '"' && chars[len - 1] == '"' {
        return Some(Value::Str(substring(raw, 1, len - 1)));
    }
    if same_str(raw, "true") {
        return Some(Value::Bool(true));
    }
    if same_str(raw, "false") {
        return Some(Value::Bool(false));
    }
    match parse_number(raw) {
        Some(n) => Some(Value::Int(n)),
        None => None,
    }
}

/// Finds the first `c` within the characters `from..to` of `s`.
fn find_char(s: &Vec<char>, from: usize, to: usize, c: char) -> (at: usize)
    requires
        from <= to <= s.len(),
    ensures
        from <= at <= to,
        at - from == first_index_of(s@.subrange(from as int, to as int), c, 0),
{
    let ghost piece = s@.subrange(from as int, to as int);
    let mut at = from;
    while at < to && s[at] != c
        invariant
            from <= at <= to <= s.len(),
            piece == s@.subrange(from as int, to as int),
            first_index_of(piece, c, 0) == first_index_of(piece, c, at - from),
        decreases to - at,
    {
        assert(piece[at - from] == s@[at as int]);
        at += 1;
    }
    proof {
        if at < to {
            assert(piece[at - from] == s@[at as int]);
        }
    }
    at
}

/// What one line says.
#[derive(Clone, Debug, PartialEq, Eq)]
pub enum Line {
    Nothing,
    Entry(String, Value),
    Wrong(String),
}

impl View for Line {
    type V = Reading;

    open spec fn view(&self) -> Reading {
        match self {
            Line::Nothing => Reading::Nothing,
            Line::Entry(key, value) => Reading::Entry(key@, value@),
            Line::Wrong(message) => Reading::Wrong(message@),
        }
    }
}

/// Reads the line that stands in the characters `from..to` of `input`.
fn read_line(input: &str, text: &Vec<char>, from: usize, to: usize) -> (line: Line)
    requires
        text@ == input@,
        from <= to <= text.len(),
    ensures
        line@ == reading_of(text@.subrange(from as int, to as int)),
{
    let (a, b) = trim_span(text, from, to);
    let ghost shown = text@.subrange(a as int, b as int);
    if a == b {
        return Line::Nothing;
    }
    assert(shown[0] == text@[a as int]);
    if text[a] == '#' {
        return Line::Nothing;
    }
    let cut = find_char(text, a, b, '=');
    if cut >= b {
        let mut message = String::from_str("expected `key = value`, got: ");
        message.append(input.substring_char(a, b));
        return Line::Wrong(message);
    }
    let (ka, kb) = trim_span(text, a, cut);
    let (va, vb) = trim_span(text, cut + 1, b);
    proof {
        assert(shown.take(cut - a) =~= text@.subrange(a as int, cut as int));
        assert(shown.skip(cut - a + 1) =~= text@.subrange(cut + 1, b as int));
    }
    let raw = substring(input, va, vb);
    match parse_value(raw.as_str()) {
        Some(value) => Line::Entry(substring(input, ka, kb), value),
        None => {
            let mut message = String::from_str("unrecognized value: ");
            message.append(raw.as_str());
            Line::Wrong(message)
        },
    }
}

/// Reads a configuration: the entries of `input`, or the first line that is
/// wrong.
pub fn parse(input: &str) -> (result: Result<Config, ParseError>)
    ensures
        match result {
            Ok(config) => config.wf() && parsed(input@) == Ok::<Map<Seq<char>, Datum>, Fault>(
                config@,
            ),
            Err(error) => parsed(input@) == Err::<Map<Seq<char>, Datum>, Fault>(error@),
        },
{
    let text = chars_of(input);
    let mut config = Config::empty();
    let mut from: usize = 0;
    let mut count: usize = 0;
    let ghost mut seen: Seq<Seq<char>> = Seq::empty();
    assert(seen + lines_from(text@, 0) =~= lines_of(input@));
    while from < text.len()
        invariant
            from <= text.len(),
            count <= from,
            count == seen.len(),
            text@ == input@,
            config.wf(),
            lines_of(input@) == seen + lines_from(text@, from as int),
            parsed_lines(seen) == Ok::<Map<Seq<char>, Datum>, Fault>(config@),
        decreases text.len() - from,
    {
        let span = line_span(&text, from);
        let ghost line = line_at(text@, from as int);
        let ghost rest = lines_from(text@, span.next as int);
        let ghost next = seen.push(line);
        proof {
            assert(next.drop_last() =~= seen);
            assert(next + rest =~= seen + (seq![line] + rest));
        }
        count += 1;
        match read_line(input, &text, from, span.end) {
            Line::Nothing => {},
            Line::Entry(key, value) => {
                config.set(key.as_str(), value);
            },
            Line::Wrong(message) => {
                proof {
                    lemma_failure_stays(next, rest);
                }
                return Err(ParseError { line: count, message });
            },
        }
        proof {
            seen = next;
        }
        from = span.next;
    }
    proof {
        assert(lines_from(text@, from as int) =~= Seq::<Seq<char>>::empty());
        assert(seen + Seq::<Seq<char>>::empty() =~= seen);
    }
    Ok(config)
}

/// The first failure is the failure of the whole: lines that follow a line
/// that is wrong change nothing.
pub proof fn lemma_failure_stays(lines: Seq<Seq<char>>, more: Seq<Seq<char>>)
    requires
        parsed_lines(lines) is Err,
    ensures
        parsed_lines(lines + more) == parsed_lines(lines),
    decreases more.len(),
{
    if more.len() == 0 {
        assert(lines + more =~= lines);
    } else {
        lemma_failure_stays(lines, more.drop_last());
        assert((lines + more).drop_last() =~= lines + more.drop_last());
    }
}

} // verus!
