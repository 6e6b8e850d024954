//! Lines and white space.
//!
//! Text that comes in lines, such as an engine's report or a configuration
//! file, is cut at line feeds; a carriage return just before a line feed
//! belongs to the line's end. White space is what Unicode calls white space.

use vstd::prelude::*;

verus! {

/// `c` is white space: a character with the Unicode property `White_Space`.
pub open spec fn is_space(c: char) -> bool {
    ||| ('\u{9}' <= c && c <= '\u{d}')
    ||| c == ' '
    ||| c == '\u{85}'
    ||| c == '\u{a0}'
    ||| c == '\u{1680}'
    ||| ('\u{2000}' <= c && c <= '\u{200a}')
    ||| c == '\u{2028}'
    ||| c == '\u{2029}'
    ||| c == '\u{202f}'
    ||| c == '\u{205f}'
    ||| c == '\u{3000}'
}

/// Tests whether `c` is white space.
pub fn is_whitespace(c: char) -> (space: bool)
    ensures
        space == is_space(c),
{
    ('\u{9}' <= c && c <= '\u{d}') || c == ' ' || c == '\u{85}' || c == '\u{a0}' || c
        == '\u{1680}' || ('\u{2000}' <= c && c <= '\u{200a}') || c == '\u{2028}' || c == '\u{2029}'
        || c == '\u{202f}' || c == '\u{205f}' || c == '\u{3000}'
}

/// The first index at or after `from` at which `s` holds no white space; the
/// length of `s` where there is none.
pub open spec fn space_end(s: Seq<char>, from: int) -> int
    decreases s.len() - from,
{
    if from < 0 || from >= s.len() || !is_space(s[from]) {
        from
    } else {
        space_end(s, from + 1)
    }
}

/// The length of `s` without the white space at its end.
pub open spec fn text_end(s: Seq<char>) -> int
    decreases s.len(),
{
    if s.len() > 0 && is_space(s.last()) {
        text_end(s.drop_last())
    } else {
        s.len() as int
    }
}

/// `s` without the white space at its end.
pub open spec fn trimmed_end(s: Seq<char>) -> Seq<char> {
    s.take(text_end(s))
}

/// `s` without the white space at its start.
pub open spec fn trimmed_start(s: Seq<char>) -> Seq<char> {
    s.skip(space_end(s, 0))
}

/// `s` without the white space at its start and at its end.
pub open spec fn trimmed(s: Seq<char>) -> Seq<char> {
    trimmed_start(trimmed_end(s))
}

/// The index of the first line feed at or after `from`; the length of `text`
/// where there is none.
pub open spec fn line_feed(text: Seq<char>, from: int) -> int
    decreases text.len() - from,
{
    if from < 0 || from >= text.len() || text[from] == '\n' {
        from
    } else {
        line_feed(text, from + 1)
    }
}

/// A line without the carriage return that ended it.
pub open spec fn without_return(line: Seq<char>) -> Seq<char> {
    if line.len() > 0 && line.last() == '\r' {
        line.drop_last()
    } else {
        line
    }
}

/// The line that starts at `from`, which is an index into `text`. A line
/// ends before its line feed, and before the carriage return in front of
/// that; the last line may end with the text, and then it is taken as it is.
pub open spec fn line_at(text: Seq<char>, from: int) -> Seq<char> {
    let end = line_feed(text, from);
    if end >= text.len() {
        text.subrange(from, text.len() as int)
    } else {
        without_return(text.subrange(from, end))
    }
}

/// The lines of `text` from index `from` on. What follows the last line feed
/// is a line unless it is empty.
pub open spec fn lines_from(text: Seq<char>, from: int) -> Seq<Seq<char>>
    decreases text.len() + 1 - from,
{
    if from < 0 || from >= text.len() {
        Seq::empty()
    } else {
        proof {
            lemma_line_feed_bounds(text, from);
        }
        seq![line_at(text, from)] + lines_from(text, line_feed(text, from) + 1)
    }
}

/// The lines of `text`.
pub open spec fn lines_of(text: Seq<char>) -> Seq<Seq<char>> {
    lines_from(text, 0)
}

/// `line_feed` does not go back, and does not pass the end.
pub proof fn lemma_line_feed_bounds(text: Seq<char>, from: int)
    requires
        0 <= from <= text.len(),
    ensures
        from <= line_feed(text, from) <= text.len(),
    decreases text.len() - from,
{
    if from < text.len() && text[from] != '\n' {
        lemma_line_feed_bounds(text, from + 1);
    }
}

/// A line of `text`, by the index after its last character and the index
/// at which the text after the line starts.
pub struct LineSpan {
    pub end: usize,
    pub next: usize,
}

/// Finds the line of `text` that starts at `from`.
pub fn line_span(text: &Vec<char>, from: usize) -> (span: LineSpan)
    requires
        from < text.len(),
    ensures
        from <= span.end <= text.len(),
        from < span.next <= text.len(),
        text@.subrange(from as int, span.end as int) == line_at(text@, from as int),
        lines_from(text@, from as int) == seq![line_at(text@, from as int)] + lines_from(
            text@,
            span.next as int,
        ),
{
    let mut feed = from;
    while feed < text.len() && text[feed] != '\n'
        invariant
            from <= feed <= text.len(),
            line_feed(text@, from as int) == line_feed(text@, feed as int),
        decreases text.len() - feed,
    {
        feed += 1;
    }
    proof {
        lemma_line_feed_bounds(text@, from as int);
        assert(line_feed(text@, feed as int) == feed);
    }
    if feed >= text.len() {
        assert(lines_from(text@, feed as int) =~= Seq::<Seq<char>>::empty());
        assert(lines_from(text@, feed + 1) =~= Seq::<Seq<char>>::empty());
        return LineSpan { end: feed, next: feed };
    }
    let ghost raw = text@.subrange(from as int, feed as int);
    if feed > from && text[feed - 1] == '\r' {
        assert(raw.last() == text@[feed - 1]);
        assert(raw.drop_last() =~= text@.subrange(from as int, feed - 1));
        LineSpan { end: feed - 1, next: feed + 1 }
    } else {
        if feed > from {
            assert(raw.last() == text@[feed - 1]);
        }
        LineSpan { end: feed, next: feed + 1 }
    }
}

/// Trims the characters `from..to` of `s`: the indices between which the
/// trimmed text stands.
pub fn trim_span(s: &Vec<char>, from: usize, to: usize) -> (span: (usize, usize))
    requires
        from <= to <= s.len(),
    ensures
        from <= span.0 <= span.1 <= to,
        s@.subrange(span.0 as int, span.1 as int) == trimmed(s@.subrange(from as int, to as int)),
{
    let ghost piece = s@.subrange(from as int, to as int);
    let mut end = to;
    assert(piece.take(end - from) =~= piece);
    while end > from && is_whitespace(s[end - 1])
        invariant
            from <= end <= to <= s.len(),
            piece == s@.subrange(from as int, to as int),
            text_end(piece) == text_end(piece.take(end - from)),
        decreases end,
    {
        assert(piece.take(end - from).last() == s@[end - 1]);
        assert(piece.take(end - from).drop_last() =~= piece.take(end - from - 1));
        end -= 1;
    }
    let ghost kept = piece.take(end - from);
    proof {
        if end > from {
            assert(kept.last() == s@[end - 1]);
        }
        assert(text_end(piece) == end - from);
        assert(kept == trimmed_end(piece));
    }
    let mut start = from;
    while start < end && is_whitespace(s[start])
        invariant
            from <= start <= end <= to <= s.len(),
            kept == s@.subrange(from as int, end as int),
            space_end(kept, 0) == space_end(kept, start - from),
        decreases end - start,
    {
        assert(kept[start - from] == s@[start as int]);
        start += 1;
    }
    proof {
        if start < end {
            assert(kept[start - from] == s@[start as int]);
        }
        assert(space_end(kept, 0) == start - from);
        assert(s@.subrange(start as int, end as int) =~= kept.skip(start - from));
    }
    (start, end)
}

} // verus!
