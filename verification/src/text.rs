//! Text as sequences of characters.
//!
//! Strings cross the library's boundary as `&str` and `String`; contracts speak
//! of their views, which are `Seq<char>`. The scanning routines work on a
//! `Vec<char>` taken once per string, so that indexing costs constant time, and
//! results are cut out of the given string by character positions.

use vstd::prelude::*;
use vstd::relations::*;
use vstd::seq_lib::{to_multiset_build, to_multiset_insert};

verus! {

/// The characters of `s`, in order.
pub fn chars_of(s: &str) -> (out: Vec<char>)
    ensures
        out@ == s@,
{
    broadcast use vstd::string::group_string_axioms;

    let mut out: Vec<char> = Vec::new();
    for c in it: s.chars()
        invariant
            it.seq() == s@,
            out@ == s@.take(it.index()),
    {
        out.push(c);
    }
    out
}

/// A fresh string that holds the characters `from..to` of `s`.
pub fn substring(s: &str, from: usize, to: usize) -> (out: String)
    requires
        from <= to <= s@.len(),
    ensures
        out@ == s@.subrange(from as int, to as int),
{
    let mut out = String::new();
    out.append(s.substring_char(from, to));
    out
}

/// `pat` occurs in `text` at index `at`.
pub open spec fn occurs_at(text: Seq<char>, pat: Seq<char>, at: int) -> bool {
    &&& 0 <= at
    &&& at + pat.len() <= text.len()
    &&& text.subrange(at, at + pat.len()) == pat
}

/// Tests whether `pat` occurs in `text` at index `at`.
pub fn matches_at(text: &Vec<char>, at: usize, pat: &Vec<char>) -> (found: bool)
    ensures
        found == occurs_at(text@, pat@, at as int),
{
    if at > text.len() || pat.len() > text.len() - at {
        return false;
    }
    let mut k: usize = 0;
    while k < pat.len()
        invariant
            at + pat.len() <= text.len(),
            k <= pat.len(),
            forall|j: int| 0 <= j < k ==> text@[at + j] == pat@[j],
        decreases pat.len() - k,
    {
        if text[at + k] != pat[k] {
            proof {
                let window = text@.subrange(at as int, at + pat.len());
                assert(window[k as int] == text@[at + k]);
            }
            return false;
        }
        k += 1;
    }
    assert(text@.subrange(at as int, at + pat.len()) =~= pat@);
    true
}

/// Tests whether two texts hold the same characters.
pub fn same(a: &Vec<char>, b: &Vec<char>) -> (eq: bool)
    ensures
        eq == (a@ == b@),
{
    if a.len() != b.len() {
        return false;
    }
    let found = matches_at(a, 0, b);
    proof {
        assert(a@.subrange(0, a@.len() as int) =~= a@);
    }
    found
}

/// Tests whether two strings hold the same characters.
pub fn same_str(a: &str, b: &str) -> (eq: bool)
    ensures
        eq == (a@ == b@),
{
    let x = chars_of(a);
    let y = chars_of(b);
    same(&x, &y)
}

/// Lexicographic order by code point, from index `i` on: the order of the
/// strings' UTF-8 bytes.
pub open spec fn lex_le_from(a: Seq<char>, b: Seq<char>, i: int) -> bool
    decreases a.len() - i,
{
    if i < 0 || i >= a.len() {
        true
    } else if i >= b.len() {
        false
    } else if a[i] == b[i] {
        lex_le_from(a, b, i + 1)
    } else {
        a[i] < b[i]
    }
}

/// `a` comes before `b`, or equals it, in lexicographic order by code point.
pub open spec fn lex_le(a: Seq<char>, b: Seq<char>) -> bool {
    lex_le_from(a, b, 0)
}

/// The order in which names are listed.
pub open spec fn by_name() -> spec_fn(Seq<char>, Seq<char>) -> bool {
    |a: Seq<char>, b: Seq<char>| lex_le(a, b)
}

/// Decides `lex_le`.
pub fn precedes(a: &Vec<char>, b: &Vec<char>) -> (le: bool)
    ensures
        le == lex_le(a@, b@),
{
    let mut i: usize = 0;
    while i < a.len() && i < b.len()
        invariant
            i <= a.len(),
            i <= b.len(),
            lex_le(a@, b@) == lex_le_from(a@, b@, i as int),
        decreases a.len() - i,
    {
        if a[i] != b[i] {
            return a[i] < b[i];
        }
        i += 1;
    }
    i >= a.len()
}

proof fn lemma_lex_reflexive(a: Seq<char>, i: int)
    requires
        0 <= i,
    ensures
        lex_le_from(a, a, i),
    decreases a.len() - i,
{
    if i < a.len() {
        lemma_lex_reflexive(a, i + 1);
    }
}

proof fn lemma_lex_total(a: Seq<char>, b: Seq<char>, i: int)
    requires
        0 <= i,
    ensures
        lex_le_from(a, b, i) || lex_le_from(b, a, i),
    decreases a.len() - i,
{
    if i < a.len() && i < b.len() && a[i] == b[i] {
        lemma_lex_total(a, b, i + 1);
    }
}

proof fn lemma_lex_antisymmetric(a: Seq<char>, b: Seq<char>, i: int)
    requires
        0 <= i <= a.len(),
        i <= b.len(),
        lex_le_from(a, b, i),
        lex_le_from(b, a, i),
    ensures
        a.skip(i) == b.skip(i),
    decreases a.len() - i,
{
    if i < a.len() {
        lemma_lex_antisymmetric(a, b, i + 1);
        assert(a.skip(i) =~= seq![a[i]] + a.skip(i + 1));
        assert(b.skip(i) =~= seq![b[i]] + b.skip(i + 1));
    } else {
        assert(a.skip(i) =~= b.skip(i));
    }
}

proof fn lemma_lex_transitive(a: Seq<char>, b: Seq<char>, c: Seq<char>, i: int)
    requires
        0 <= i,
        lex_le_from(a, b, i),
        lex_le_from(b, c, i),
    ensures
        lex_le_from(a, c, i),
    decreases a.len() - i,
{
    if i < a.len() && a[i] == b[i] && b[i] == c[i] {
        lemma_lex_transitive(a, b, c, i + 1);
    }
}

/// `lex_le` is a total order on texts.
pub proof fn lemma_by_name_total_ordering()
    ensures
        total_ordering(by_name()),
{
    let r = by_name();
    assert forall|x: Seq<char>| #[trigger] r(x, x) by {
        lemma_lex_reflexive(x, 0);
    }
    assert forall|x: Seq<char>, y: Seq<char>| #[trigger] r(x, y) && #[trigger] r(y, x) implies x
        == y by {
        lemma_lex_antisymmetric(x, y, 0);
        assert(x.skip(0) =~= x);
        assert(y.skip(0) =~= y);
    }
    assert forall|x: Seq<char>, y: Seq<char>, z: Seq<char>| #[trigger]
        r(x, y) && #[trigger] r(y, z) implies r(x, z) by {
        lemma_lex_transitive(x, y, z, 0);
    }
    assert forall|x: Seq<char>, y: Seq<char>| #[trigger] r(x, y) || #[trigger] r(y, x) by {
        lemma_lex_total(x, y, 0);
    }
}

/// The decimal digit for `d`.
pub open spec fn digit(d: nat) -> char {
    if d == 0 {
        '0'
    } else if d == 1 {
        '1'
    } else if d == 2 {
        '2'
    } else if d == 3 {
        '3'
    } else if d == 4 {
        '4'
    } else if d == 5 {
        '5'
    } else if d == 6 {
        '6'
    } else if d == 7 {
        '7'
    } else if d == 8 {
        '8'
    } else {
        '9'
    }
}

/// `n` in decimal, without leading zeros.
pub open spec fn decimal(n: nat) -> Seq<char>
    decreases n,
{
    if n < 10 {
        seq![digit(n)]
    } else {
        decimal(n / 10).push(digit(n % 10))
    }
}

/// `n` in decimal, with a minus sign where it is negative.
pub open spec fn signed_decimal(n: int) -> Seq<char> {
    if n < 0 {
        seq!['-'] + decimal((-n) as nat)
    } else {
        decimal(n as nat)
    }
}

/// The one-character string for a digit.
fn digit_str(d: u64) -> (s: &'static str)
    requires
        d < 10,
    ensures
        s@ == seq![digit(d as nat)],
{
    proof {
        reveal_strlit("0");
        reveal_strlit("1");
        reveal_strlit("2");
        reveal_strlit("3");
        reveal_strlit("4");
        reveal_strlit("5");
        reveal_strlit("6");
        reveal_strlit("7");
        reveal_strlit("8");
        reveal_strlit("9");
    }
    let s = if d == 0 {
        "0"
    } else if d == 1 {
        "1"
    } else if d == 2 {
        "2"
    } else if d == 3 {
        "3"
    } else if d == 4 {
        "4"
    } else if d == 5 {
        "5"
    } else if d == 6 {
        "6"
    } else if d == 7 {
        "7"
    } else if d == 8 {
        "8"
    } else {
        "9"
    };
    assert(s@ =~= seq![digit(d as nat)]);
    s
}

/// Appends `n` in decimal to `out`.
pub fn push_decimal(out: &mut String, n: u64)
    ensures
        final(out)@ == old(out)@ + decimal(n as nat),
    decreases n,
{
    if n >= 10 {
        push_decimal(out, n / 10);
    }
    out.append(digit_str(n % 10));
    proof {
        if n >= 10 {
            assert(old(out)@ + decimal((n / 10) as nat) + seq![digit((n % 10) as nat)] =~= old(
                out,
            )@ + decimal(n as nat));
        }
    }
}

/// Appends `n` in decimal to `out`, with a minus sign where it is negative.
pub fn push_signed_decimal(out: &mut String, n: i64)
    ensures
        final(out)@ == old(out)@ + signed_decimal(n as int),
{
    if n < 0 {
        out.append("-");
        let magnitude: u64 = if n == i64::MIN {
            9223372036854775808u64
        } else {
            (-n) as u64
        };
        push_decimal(out, magnitude);
        proof {
            reveal_strlit("-");
            assert(old(out)@ + "-"@ + decimal(magnitude as nat) =~= old(out)@ + (seq!['-']
                + decimal((-n) as nat)));
        }
    } else {
        push_decimal(out, n as u64);
    }
}

/// The names in `names`, in the order of `by_name`.
pub fn sort_names(names: &Vec<String>) -> (out: Vec<String>)
    ensures
        out.deep_view() == names.deep_view().sort_by(by_name()),
{
    let mut out: Vec<String> = Vec::new();
    let mut i: usize = 0;
    proof {
        lemma_by_name_total_ordering();
        assert(names.deep_view().take(0) =~= out.deep_view());
    }
    while i < names.len()
        invariant
            i <= names.len(),
            total_ordering(by_name()),
            sorted_by(out.deep_view(), by_name()),
            out.deep_view().to_multiset() == names.deep_view().take(i as int).to_multiset(),
        decreases names.len() - i,
    {
        let x = chars_of(names[i].as_str());
        let ghost before = out.deep_view();
        let mut at: usize = 0;
        let mut searching = true;
        while searching && at < out.len()
            invariant
                at <= out.len(),
                before == out.deep_view(),
                forall|j: int| 0 <= j < at ==> lex_le(#[trigger] before[j], x@),
                !searching ==> at < out.len() && !lex_le(before[at as int], x@),
            decreases out.len() - at + if searching { 1int } else { 0int },
        {
            let y = chars_of(out[at].as_str());
            if precedes(&y, &x) {
                at += 1;
            } else {
                searching = false;
            }
        }
        out.insert(at, names[i].clone());
        proof {
            let r = by_name();
            let after = out.deep_view();
            assert(after =~= before.insert(at as int, x@));
            assert forall|j: int| at <= j < before.len() implies lex_le(x@, #[trigger] before[j]) by {
                assert(r(x@, before[at as int]) || r(before[at as int], x@));
                if at < j {
                    assert(r(before[at as int], before[j]));
                }
                assert(r(x@, before[at as int]) && r(before[at as int], before[j]) ==> r(
                    x@,
                    before[j],
                ));
            }
            assert forall|a: int, b: int| 0 <= a < b < after.len() implies #[trigger] r(
                after[a],
                after[b],
            ) by {
                if b < at {
                    assert(r(before[a], before[b]));
                } else if b == at {
                    assert(lex_le(before[a], x@));
                } else if a < at {
                    assert(r(before[a], before[b - 1]) || b - 1 == a);
                    assert(lex_le(before[a], x@));
                    assert(lex_le(x@, before[b - 1]));
                    assert(r(before[a], x@) && r(x@, before[b - 1]) ==> r(before[a], before[b - 1]));
                } else if a == at {
                    assert(lex_le(x@, before[b - 1]));
                } else {
                    assert(r(before[a - 1], before[b - 1]));
                }
            }
            let seen = names.deep_view().take(i as int);
            assert(names.deep_view().take(i + 1) =~= seen.push(x@));
            to_multiset_insert(before, at as int, x@);
            to_multiset_build(seen, x@);
        }
        i += 1;
    }
    proof {
        let all = names.deep_view();
        assert(all.take(i as int) =~= all);
        all.lemma_sort_by_ensures(by_name());
        vstd::seq_lib::lemma_sorted_unique(out.deep_view(), all.sort_by(by_name()), by_name());
    }
    out
}

/// Copies of the strings of `list` from index `from` on.
pub fn copy_from(list: &Vec<String>, from: usize) -> (out: Vec<String>)
    requires
        from <= list.len(),
    ensures
        out.deep_view() == list.deep_view().skip(from as int),
{
    let mut out: Vec<String> = Vec::new();
    let mut i: usize = from;
    while i < list.len()
        invariant
            from <= i <= list.len(),
            out.len() == i - from,
            forall|j: int| 0 <= j < out.len() ==> (#[trigger] out@[j])@ == list@[from + j]@,
        decreases list.len() - i,
    {
        out.push(list[i].clone());
        i += 1;
    }
    assert(out.deep_view() =~= list.deep_view().skip(from as int));
    out
}

} // verus!
