//! Unix paths as text.
//!
//! A path is a string whose components are separated by `/`. The functions
//! here read and build such strings without touching the file system. They
//! follow the conventions of the platform's path handling: a trailing
//! separator or a trailing `.` component is not part of the last component, an
//! absolute second operand replaces the first in a join, and the extension is
//! what follows the last dot of the file name unless that dot leads the name.

use vstd::prelude::*;
use crate::text::{chars_of, matches_at, substring};

verus! {

/// The component separator.
pub open spec fn sep() -> char {
    '/'
}

/// `base` extended by `name`: an absolute `name` stands alone; otherwise one
/// separator is put between the two unless `base` is empty or ends in one.
pub open spec fn joined(base: Seq<char>, name: Seq<char>) -> Seq<char> {
    if name.len() > 0 && name[0] == sep() {
        name
    } else if base.len() == 0 || base.last() == sep() {
        base + name
    } else {
        base + seq![sep()] + name
    }
}

/// The length of `path` once trailing separators and trailing `.` components
/// are dropped.
pub open spec fn stem_len(path: Seq<char>) -> nat
    decreases path.len(),
{
    if path.len() == 0 {
        0
    } else if path.last() == sep() || (path.last() == '.' && path.len() >= 2 && path[path.len()
        - 2] == sep()) {
        stem_len(path.drop_last())
    } else {
        path.len()
    }
}

/// The index at which the component that ends at `end` starts.
pub open spec fn component_start(path: Seq<char>, end: int) -> int
    decreases end,
{
    if end <= 0 {
        0
    } else if path[end - 1] == sep() {
        end
    } else {
        component_start(path, end - 1)
    }
}

/// The last component of `path` as written, which may be `.` or `..`.
pub open spec fn last_component(path: Seq<char>) -> Seq<char> {
    let end = stem_len(path) as int;
    path.subrange(component_start(path, end), end)
}

/// A component that names the directory itself or its parent.
pub open spec fn is_dot_component(name: Seq<char>) -> bool {
    name == seq!['.'] || name == seq!['.', '.']
}

/// The file name of `path`: its last component, if that is an ordinary name.
pub open spec fn file_name_of(path: Seq<char>) -> Option<Seq<char>> {
    let name = last_component(path);
    if name.len() == 0 || is_dot_component(name) {
        None
    } else {
        Some(name)
    }
}

/// The index of the last `c` in `s`, or -1.
pub open spec fn last_index_of(s: Seq<char>, c: char) -> int
    decreases s.len(),
{
    if s.len() == 0 {
        -1
    } else if s.last() == c {
        s.len() - 1
    } else {
        last_index_of(s.drop_last(), c)
    }
}

/// The extension of a file name: what follows its last dot, provided that dot
/// is not the name's first character.
pub open spec fn name_extension(name: Seq<char>) -> Option<Seq<char>> {
    let dot = last_index_of(name, '.');
    if dot <= 0 {
        None
    } else {
        Some(name.skip(dot + 1))
    }
}

/// The extension of `path`: that of its file name.
pub open spec fn extension_of(path: Seq<char>) -> Option<Seq<char>> {
    match file_name_of(path) {
        Some(name) => name_extension(name),
        None => None,
    }
}

/// The length of the directory part `prefix` of a path: `prefix` without
/// trailing separators and `.` components, but never less than a leading root.
pub open spec fn dir_len(prefix: Seq<char>) -> nat {
    if stem_len(prefix) == 0 && prefix.len() > 0 && prefix[0] == sep() {
        1
    } else {
        stem_len(prefix)
    }
}

/// The path without its last component; `None` for the empty path and for a
/// path that is only a root.
pub open spec fn parent_of(path: Seq<char>) -> Option<Seq<char>> {
    let end = stem_len(path) as int;
    if end == 0 {
        None
    } else {
        let start = component_start(path, end);
        Some(path.take(dir_len(path.take(start)) as int))
    }
}

/// The length of `s` without its trailing separators.
pub open spec fn trimmed_len(s: Seq<char>) -> nat
    decreases s.len(),
{
    if s.len() > 0 && s.last() == sep() {
        trimmed_len(s.drop_last())
    } else {
        s.len()
    }
}

/// `path` starts with a root or with a `.` component: a lead that is a
/// component of its own.
pub open spec fn has_lead(path: Seq<char>) -> bool {
    path.len() > 0 && (path[0] == sep() || (path[0] == '.' && (path.len() == 1 || path[1]
        == sep())))
}

/// The index of the first character at or after `from` that starts a
/// component. Separators are passed over, and so are `.` components, which
/// say nothing after the lead.
pub open spec fn component_at(path: Seq<char>, from: int) -> int
    decreases path.len() - from,
{
    if from < 0 || from >= path.len() {
        from
    } else if path[from] == sep() || (path[from] == '.' && (from + 1 == path.len() || path[from
        + 1] == sep())) {
        component_at(path, from + 1)
    } else {
        from
    }
}

/// The index of the first separator at or after `from`; the length of `path`
/// where there is none.
pub open spec fn component_end(path: Seq<char>, from: int) -> int
    decreases path.len() - from,
{
    if from < 0 || from >= path.len() || path[from] == sep() {
        from
    } else {
        component_end(path, from + 1)
    }
}

/// `component_at` and `component_end` do not go back and stay within the
/// path, and a component holds at least one character.
pub proof fn lemma_component_bounds(path: Seq<char>, from: int)
    requires
        0 <= from <= path.len(),
    ensures
        from <= component_at(path, from) <= path.len(),
        from <= component_end(path, from) <= path.len(),
        component_at(path, from) < path.len() ==> component_at(path, from) < component_end(
            path,
            component_at(path, from),
        ),
    decreases path.len() - from,
{
    if from < path.len() {
        lemma_component_bounds(path, from + 1);
    }
}

/// Where `path`, read from index `i` on, is left once the components of
/// `base` from index `j` on have been taken off its front, one by one;
/// `None` where `path` does not start with those components.
pub open spec fn after_base(path: Seq<char>, i: int, base: Seq<char>, j: int) -> Option<int>
    decreases base.len() - j,
{
    let b = component_at(base, j);
    let p = component_at(path, i);
    if j < 0 || j > base.len() || b >= base.len() {
        Some(i)
    } else if i < 0 || i > path.len() || p >= path.len() {
        None
    } else {
        proof {
            lemma_component_bounds(base, j);
            lemma_component_bounds(base, b);
        }
        if path.subrange(p, component_end(path, p)) == base.subrange(b, component_end(base, b)) {
            after_base(path, component_end(path, p), base, component_end(base, b))
        } else {
            None
        }
    }
}

/// `path` written relative to `base`: what is left of `path` once the
/// components of `base` have been taken off its front. Paths are compared
/// component by component, so that repeated separators and `.` components
/// make no difference, and what is left is written without them at its ends.
/// An empty `base` takes nothing off; `None` where `path` does not start
/// with the components of `base`.
pub open spec fn relative_of(path: Seq<char>, base: Seq<char>) -> Option<Seq<char>> {
    if base.len() == 0 {
        Some(path.take(dir_len(path) as int))
    } else if has_lead(base) != has_lead(path) || (has_lead(base) && base[0] != path[0]) {
        None
    } else {
        let start: int = if has_lead(base) {
            1
        } else {
            0
        };
        match after_base(path, start, base, start) {
            None => None,
            Some(at) => {
                let from = component_at(path, at);
                Some(path.subrange(from, from + stem_len(path.skip(from))))
            },
        }
    }
}

/// Joins `name` onto `base`.
pub fn join(base: &str, name: &str) -> (out: String)
    ensures
        out@ == joined(base@, name@),
{
    let b = chars_of(base);
    let n = chars_of(name);
    let mut out = String::new();
    if n.len() > 0 && n[0] == '/' {
        out.append(name);
        assert(out@ =~= name@);
    } else if b.len() == 0 || b[b.len() - 1] == '/' {
        out.append(base);
        out.append(name);
    } else {
        out.append(base);
        out.append("/");
        out.append(name);
        proof {
            reveal_strlit("/");
            assert("/"@ =~= seq![sep()]);
        }
    }
    out
}

/// Computes `stem_len`.
fn stem_end(path: &Vec<char>) -> (end: usize)
    ensures
        end == stem_len(path@),
        end <= path.len(),
{
    let mut end = path.len();
    assert(path@.take(end as int) =~= path@);
    while end > 0 && (path[end - 1] == '/' || (path[end - 1] == '.' && end >= 2 && path[end - 2]
        == '/'))
        invariant
            end <= path.len(),
            stem_len(path@) == stem_len(path@.take(end as int)),
        decreases end,
    {
        assert(path@.take(end as int).drop_last() =~= path@.take(end - 1));
        end -= 1;
    }
    end
}

/// Computes `component_start`.
fn start_of_component(path: &Vec<char>, end: usize) -> (start: usize)
    requires
        end <= path.len(),
    ensures
        start == component_start(path@, end as int),
        start <= end,
{
    let mut start = end;
    while start > 0 && path[start - 1] != '/'
        invariant
            start <= end <= path.len(),
            component_start(path@, end as int) == component_start(path@, start as int),
        decreases start,
    {
        start -= 1;
    }
    start
}

/// Tests whether the characters `from..to` of `path` are `.` or `..`.
fn is_dots(path: &Vec<char>, from: usize, to: usize) -> (dots: bool)
    requires
        from <= to <= path.len(),
    ensures
        dots == is_dot_component(path@.subrange(from as int, to as int)),
{
    let ghost name = path@.subrange(from as int, to as int);
    proof {
        assert(seq!['.'].len() == 1 && seq!['.'][0] == '.');
        assert(seq!['.', '.'].len() == 2 && seq!['.', '.'][0] == '.' && seq!['.', '.'][1] == '.');
    }
    if to - from == 1 {
        let dots = path[from] == '.';
        proof {
            assert(name[0] == path@[from as int]);
            if dots {
                assert(name =~= seq!['.']);
            }
        }
        dots
    } else if to - from == 2 {
        let dots = path[from] == '.' && path[from + 1] == '.';
        proof {
            assert(name[0] == path@[from as int]);
            assert(name[1] == path@[from + 1]);
            if dots {
                assert(name =~= seq!['.', '.']);
            }
        }
        dots
    } else {
        false
    }
}

/// The file name of `path`.
pub fn file_name(path: &str) -> (name: Option<String>)
    ensures
        name.deep_view() == file_name_of(path@),
{
    let chars = chars_of(path);
    let end = stem_end(&chars);
    let start = start_of_component(&chars, end);
    if start == end || is_dots(&chars, start, end) {
        None
    } else {
        Some(substring(path, start, end))
    }
}

/// Computes `last_index_of` within the characters `from..to` of `s`, as an
/// index into `s`; `None` where there is none.
fn last_index_in(s: &Vec<char>, from: usize, to: usize, c: char) -> (found: Option<usize>)
    requires
        from <= to <= s.len(),
    ensures
        match found {
            Some(i) => from <= i < to && i - from == last_index_of(
                s@.subrange(from as int, to as int),
                c,
            ),
            None => last_index_of(s@.subrange(from as int, to as int), c) == -1,
        },
{
    let ghost whole = s@.subrange(from as int, to as int);
    let mut i = to;
    assert(s@.subrange(from as int, i as int) =~= whole);
    while i > from
        invariant
            from <= i <= to <= s.len(),
            whole == s@.subrange(from as int, to as int),
            last_index_of(whole, c) == last_index_of(s@.subrange(from as int, i as int), c),
        decreases i,
    {
        let ghost cur = s@.subrange(from as int, i as int);
        assert(cur.last() == s@[i - 1]);
        if s[i - 1] == c {
            return Some(i - 1);
        }
        assert(cur.drop_last() =~= s@.subrange(from as int, i - 1));
        i -= 1;
    }
    None
}

/// The extension of `path`.
pub fn extension(path: &str) -> (ext: Option<String>)
    ensures
        ext.deep_view() == extension_of(path@),
{
    let chars = chars_of(path);
    let end = stem_end(&chars);
    let start = start_of_component(&chars, end);
    if start == end || is_dots(&chars, start, end) {
        return None;
    }
    let ghost name = chars@.subrange(start as int, end as int);
    match last_index_in(&chars, start, end, '.') {
        Some(dot) => {
            if dot == start {
                None
            } else {
                assert(name.skip(dot - start + 1) =~= path@.subrange(dot + 1, end as int));
                Some(substring(path, dot + 1, end))
            }
        },
        None => None,
    }
}

/// The path without its last component.
pub fn parent(path: &str) -> (dir: Option<String>)
    ensures
        dir.deep_view() == parent_of(path@),
{
    let chars = chars_of(path);
    let end = stem_end(&chars);
    if end == 0 {
        return None;
    }
    let start = start_of_component(&chars, end);
    let prefix = chars_of(path.substring_char(0, start));
    assert(prefix@ =~= path@.take(start as int));
    let stem = stem_end(&prefix);
    let len = if stem == 0 && prefix.len() > 0 && prefix[0] == '/' {
        1
    } else {
        stem
    };
    assert(path@.subrange(0, len as int) =~= path@.take(len as int));
    Some(substring(path, 0, len))
}

/// Computes `trimmed_len`.
pub fn trim_end(s: &Vec<char>) -> (len: usize)
    ensures
        len == trimmed_len(s@),
        len <= s.len(),
{
    let mut len = s.len();
    assert(s@.take(len as int) =~= s@);
    while len > 0 && s[len - 1] == '/'
        invariant
            len <= s.len(),
            trimmed_len(s@) == trimmed_len(s@.take(len as int)),
        decreases len,
    {
        assert(s@.take(len as int).drop_last() =~= s@.take(len - 1));
        len -= 1;
    }
    len
}

/// Tests whether `path` starts with a lead.
fn leads(path: &Vec<char>) -> (lead: bool)
    ensures
        lead == has_lead(path@),
{
    path.len() > 0 && (path[0] == '/' || (path[0] == '.' && (path.len() == 1 || path[1] == '/')))
}

/// Computes `component_at`.
fn next_component(path: &Vec<char>, from: usize) -> (at: usize)
    requires
        from <= path.len(),
    ensures
        at == component_at(path@, from as int),
        from <= at <= path.len(),
{
    let mut at = from;
    while at < path.len() && (path[at] == '/' || (path[at] == '.' && (at + 1 == path.len()
        || path[at + 1] == '/')))
        invariant
            from <= at <= path.len(),
            component_at(path@, from as int) == component_at(path@, at as int),
        decreases path.len() - at,
    {
        at += 1;
    }
    at
}

/// Computes `component_end`.
fn end_of_component(path: &Vec<char>, from: usize) -> (end: usize)
    requires
        from <= path.len(),
    ensures
        end == component_end(path@, from as int),
        from <= end <= path.len(),
{
    let mut end = from;
    while end < path.len() && path[end] != '/'
        invariant
            from <= end <= path.len(),
            component_end(path@, from as int) == component_end(path@, end as int),
        decreases path.len() - end,
    {
        end += 1;
    }
    end
}

/// Tests whether the characters `a0..a1` of `a` are the characters `b0..b1`
/// of `b`.
fn same_range(a: &Vec<char>, a0: usize, a1: usize, b: &Vec<char>, b0: usize, b1: usize) -> (eq:
    bool)
    requires
        a0 <= a1 <= a.len(),
        b0 <= b1 <= b.len(),
    ensures
        eq == (a@.subrange(a0 as int, a1 as int) == b@.subrange(b0 as int, b1 as int)),
{
    let ghost x = a@.subrange(a0 as int, a1 as int);
    let ghost y = b@.subrange(b0 as int, b1 as int);
    if a1 - a0 != b1 - b0 {
        assert(x.len() != y.len());
        return false;
    }
    let mut k: usize = 0;
    while k < a1 - a0
        invariant
            a0 <= a1 <= a.len(),
            b0 <= b1 <= b.len(),
            a1 - a0 == b1 - b0,
            k <= a1 - a0,
            x == a@.subrange(a0 as int, a1 as int),
            y == b@.subrange(b0 as int, b1 as int),
            forall|j: int| 0 <= j < k ==> x[j] == y[j],
        decreases a1 - a0 - k,
    {
        assert(x[k as int] == a@[a0 + k]);
        assert(y[k as int] == b@[b0 + k]);
        if a[a0 + k] != b[b0 + k] {
            return false;
        }
        k += 1;
    }
    assert(x =~= y);
    true
}

/// Writes `path` relative to `base`.
pub fn relative_to(path: &str, base: &str) -> (rest: Option<String>)
    ensures
        rest.deep_view() == relative_of(path@, base@),
{
    let p = chars_of(path);
    let b = chars_of(base);
    if b.len() == 0 {
        let stem = stem_end(&p);
        let len = if stem == 0 && p.len() > 0 && p[0] == '/' {
            1
        } else {
            stem
        };
        assert(path@.subrange(0, len as int) =~= path@.take(len as int));
        return Some(substring(path, 0, len));
    }
    let lead = leads(&b);
    if lead != leads(&p) || (lead && b[0] != p[0]) {
        return None;
    }
    let start: usize = if lead {
        1
    } else {
        0
    };
    let mut i: usize = start;
    let mut j: usize = start;
    let mut done = false;
    while !done
        invariant
            i <= p.len(),
            j <= b.len(),
            p@ == path@,
            b@ == base@,
            base@.len() > 0,
            has_lead(base@) == has_lead(path@),
            has_lead(base@) ==> base@[0] == path@[0],
            start == if has_lead(base@) {
                1int
            } else {
                0int
            },
            after_base(path@, start as int, base@, start as int) == after_base(
                path@,
                i as int,
                base@,
                j as int,
            ),
            done ==> component_at(base@, j as int) >= base@.len(),
        decreases b.len() - j + if done { 0int } else { 1int },
    {
        let bs = next_component(&b, j);
        if bs >= b.len() {
            done = true;
        } else {
            let ps = next_component(&p, i);
            if ps >= p.len() {
                return None;
            }
            let be = end_of_component(&b, bs);
            let pe = end_of_component(&p, ps);
            proof {
                lemma_component_bounds(base@, j as int);
            }
            if !same_range(&p, ps, pe, &b, bs, be) {
                return None;
            }
            i = pe;
            j = be;
        }
    }
    let from = next_component(&p, i);
    let tail = chars_of(path.substring_char(from, p.len()));
    assert(tail@ =~= path@.skip(from as int));
    let keep = stem_end(&tail);
    Some(substring(path, from, from + keep))
}

} // verus!
