//! Status lines.
//!
//! After an engine has applied a modification, the user is told so in the
//! build tool's own style: a label, set flush right in a column and shown in
//! bold yellow, and then a message. What the rewrite engine reported is shown
//! line by line. The text of a report is only shown; nothing is decided by it.

use vstd::prelude::*;
use crate::line::{line_at, line_span, lines_from, lines_of, trim_span, trimmed};
use crate::path::{file_name, file_name_of};
use crate::stitch::{Modification, Stitch};
use crate::text::{chars_of, matches_at, occurs_at, substring};

verus! {

/// The width of the column that holds the label.
pub open spec fn label_width() -> nat {
    12
}

/// `n` spaces.
pub open spec fn spaces(n: nat) -> Seq<char> {
    Seq::new(n, |i: int| ' ')
}

/// `label` set flush right in the label column; a label that is wider than
/// the column is left as it is.
pub open spec fn flush_right(label: Seq<char>) -> Seq<char> {
    if label.len() < label_width() {
        spaces((label_width() - label.len()) as nat) + label
    } else {
        label
    }
}

/// The status line for `label` and `message`.
pub open spec fn status_line(label: Seq<char>, message: Seq<char>) -> Seq<char> {
    "\x1b[1;33m"@ + flush_right(label) + "\x1b[0m "@ + message
}

/// Formats a status line in the build tool's style.
pub fn cargo_status(status: &str, message: &str) -> (line: String)
    ensures
        line@ == status_line(status@, message@),
{
    let mut line = String::new();
    line.append("\x1b[1;33m");
    let width = status.unicode_len();
    let mut pad: usize = 0;
    let ghost start = line@;
    assert(line@ =~= start + spaces(0));
    while pad < 12 && width < 12 - pad
        invariant
            pad <= 12,
            width == status@.len(),
            width < 12 ==> pad + width <= 12,
            width >= 12 ==> pad == 0,
            line@ == start + spaces(pad as nat),
        decreases 12 - pad,
    {
        line.append(" ");
        proof {
            reveal_strlit(" ");
            assert(spaces(pad as nat) + " "@ =~= spaces((pad + 1) as nat));
            assert(line@ =~= start + spaces((pad + 1) as nat));
        }
        pad += 1;
    }
    proof {
        if status@.len() >= 12 {
            assert(start + spaces(0) + status@ =~= start + status@);
        }
    }
    line.append(status);
    line.append("\x1b[0m ");
    line.append(message);
    assert(line@ =~= status_line(status@, message@));
    line
}

/// What the user is told, as contracts speak of it: a label and a message.
pub struct Notice {
    pub label: Seq<char>,
    pub message: Seq<char>,
}

/// What the user is told: a label and a message.
#[derive(Debug, PartialEq, Eq)]
pub struct Status {
    pub label: &'static str,
    pub message: String,
}

impl DeepView for Status {
    type V = Notice;

    open spec fn deep_view(&self) -> Notice {
        Notice { label: self.label@, message: self.message@ }
    }
}

impl Status {
    /// The status line for this notice.
    pub fn line(&self) -> (line: String)
        ensures
            line@ == status_line(self.label@, self.message@),
    {
        cargo_status(self.label, self.message.as_str())
    }
}

/// The index after the occurrences of `pat` that follow one another in `s`
/// from index `from` on.
pub open spec fn repeats_end(s: Seq<char>, pat: Seq<char>, from: int) -> int
    decreases s.len() - from,
{
    if pat.len() > 0 && occurs_at(s, pat, from) {
        repeats_end(s, pat, from + pat.len())
    } else {
        from
    }
}

/// `s` without the occurrences of `pat` that it starts with.
pub open spec fn without_leading(s: Seq<char>, pat: Seq<char>) -> Seq<char> {
    s.skip(repeats_end(s, pat, 0))
}

/// The notice for one line of the rewrite engine's report: a line that
/// reports an applied rule is shown as such, any other line that is not
/// empty is shown as progress, and an empty line is not shown.
pub open spec fn rule_notice() -> spec_fn(Seq<char>) -> Option<Notice> {
    |line: Seq<char>|
        if occurs_at(line, "Applied"@, 0) {
            Some(
                Notice {
                    label: "Applied"@,
                    message: trimmed(without_leading(line, "Applied"@)),
                },
            )
        } else if line.len() > 0 {
            Some(Notice { label: "Stitching"@, message: trimmed(line) })
        } else {
            None
        }
}

/// What the user is told once `m` has been applied and its engine has
/// reported `diagnostics`: for a patch its file name, for a rule what the
/// engine reported.
pub open spec fn notices(m: Modification, diagnostics: Seq<char>) -> Seq<Notice> {
    match m {
        Modification::DiffPatch(file) => seq![
            Notice {
                label: "Patching"@,
                message: match file_name_of(file) {
                    Some(name) => name,
                    None => Seq::empty(),
                },
            },
        ],
        Modification::StructuralRule(_) => lines_of(diagnostics).filter_map(rule_notice()),
    }
}

/// Finds the end of the occurrences of `pat` that follow one another from
/// `from` on within the characters `from..to` of `text`.
fn skip_repeats(text: &Vec<char>, from: usize, to: usize, pat: &Vec<char>) -> (end: usize)
    requires
        from <= to <= text.len(),
    ensures
        from <= end <= to,
        end - from == repeats_end(text@.subrange(from as int, to as int), pat@, 0),
{
    let ghost line = text@.subrange(from as int, to as int);
    if pat.len() == 0 {
        return from;
    }
    let mut at = from;
    while pat.len() <= to - at && matches_at(text, at, pat)
        invariant
            from <= at <= to <= text.len(),
            pat.len() > 0,
            line == text@.subrange(from as int, to as int),
            repeats_end(line, pat@, 0) == repeats_end(line, pat@, at - from),
        decreases to - at,
    {
        proof {
            assert(line.subrange(at - from, at - from + pat@.len()) =~= text@.subrange(
                at as int,
                at + pat@.len(),
            ));
        }
        at += pat.len();
    }
    proof {
        if pat.len() <= to - at {
            assert(line.subrange(at - from, at - from + pat@.len()) =~= text@.subrange(
                at as int,
                at + pat@.len(),
            ));
        }
    }
    at
}

/// The notices for the rewrite engine's report.
fn rule_notices(diagnostics: &str) -> (out: Vec<Status>)
    ensures
        out.deep_view() == lines_of(diagnostics@).filter_map(rule_notice()),
{
    let text = chars_of(diagnostics);
    let applied = chars_of("Applied");
    let mut out: Vec<Status> = Vec::new();
    let mut from: usize = 0;
    let ghost mut seen: Seq<Seq<char>> = Seq::empty();
    assert(seen.filter_map(rule_notice()) =~= out.deep_view());
    assert(seen + lines_from(text@, 0) =~= lines_of(diagnostics@));
    while from < text.len()
        invariant
            from <= text.len(),
            text@ == diagnostics@,
            applied@ == "Applied"@,
            lines_of(diagnostics@) == seen + lines_from(text@, from as int),
            out.deep_view() == seen.filter_map(rule_notice()),
        decreases text.len() - from,
    {
        let span = line_span(&text, from);
        let ghost line = line_at(text@, from as int);
        let ghost before = out.deep_view();
        proof {
            let next = seen.push(line);
            assert(next.drop_last() =~= seen);
            assert(next + lines_from(text@, span.next as int) =~= seen + (seq![line] + lines_from(
                text@,
                span.next as int,
            )));
            if applied@.len() <= span.end - from {
                assert(line.subrange(0, applied@.len() as int) =~= text@.subrange(
                    from as int,
                    from + applied@.len(),
                ));
            }
        }
        if applied.len() <= span.end - from && matches_at(&text, from, &applied) {
            let start = skip_repeats(&text, from, span.end, &applied);
            let (a, b) = trim_span(&text, start, span.end);
            assert(text@.subrange(start as int, span.end as int) =~= without_leading(
                line,
                "Applied"@,
            ));
            let status = Status { label: "Applied", message: substring(diagnostics, a, b) };
            out.push(status);
            assert(out.deep_view() =~= before + seq![status.deep_view()]);
        } else if span.end > from {
            let (a, b) = trim_span(&text, from, span.end);
            let status = Status { label: "Stitching", message: substring(diagnostics, a, b) };
            out.push(status);
            assert(out.deep_view() =~= before + seq![status.deep_view()]);
        }
        proof {
            seen = seen.push(line);
        }
        from = span.next;
    }
    proof {
        assert(lines_from(text@, from as int) =~= Seq::<Seq<char>>::empty());
        assert(seen + Seq::<Seq<char>>::empty() =~= seen);
    }
    out
}

impl Stitch {
    /// What to tell the user once this modification has been applied and its
    /// engine has reported `diagnostics`.
    pub fn progress(&self, diagnostics: &str) -> (out: Vec<Status>)
        ensures
            out.deep_view() == notices(self@, diagnostics@),
    {
        match self {
            Stitch::Patch(file) => {
                let message = match file_name(file.as_str()) {
                    Some(name) => name,
                    None => String::new(),
                };
                let mut out: Vec<Status> = Vec::new();
                let status = Status { label: "Patching", message };
                out.push(status);
                assert(out.deep_view() =~= notices(self@, diagnostics@));
                out
            },
            Stitch::SgRule(_) => rule_notices(diagnostics),
        }
    }
}

} // verus!
