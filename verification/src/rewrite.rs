//! The argument rewriter.
//!
//! Once a package has been staged, the compiler must read the staged copy.
//! Each compiler argument is rewritten on its own: every occurrence of the
//! package's directory is replaced by the staged directory; an argument
//! without such an occurrence that starts with the package's directory
//! relative to the workspace root, followed by a separator, has that leading
//! directory replaced instead. Every other argument is left as it is.

use vstd::prelude::*;
use crate::path::{relative_of, relative_to, sep, trim_end, trimmed_len};
use crate::text::{chars_of, matches_at, occurs_at, same_str, substring};

verus! {

/// `text` from index `i` on, with each occurrence of `from` replaced by `to`:
/// occurrences are found from left to right and do not overlap. An empty
/// `from` occurs before each character and at the end.
pub open spec fn replaced_from(text: Seq<char>, from: Seq<char>, to: Seq<char>, i: int) -> Seq<
    char,
>
    decreases text.len() - i,
{
    if i < 0 || i >= text.len() {
        if from.len() == 0 {
            to
        } else {
            Seq::empty()
        }
    } else if from.len() == 0 {
        to + seq![text[i]] + replaced_from(text, from, to, i + 1)
    } else if occurs_at(text, from, i) {
        to + replaced_from(text, from, to, i + from.len())
    } else {
        seq![text[i]] + replaced_from(text, from, to, i + 1)
    }
}

/// `text` with each occurrence of `from` replaced by `to`.
pub open spec fn replaced(text: Seq<char>, from: Seq<char>, to: Seq<char>) -> Seq<char> {
    replaced_from(text, from, to, 0)
}

/// `arg` starts with the directory `rel` and a separator.
pub open spec fn starts_in(arg: Seq<char>, rel: Seq<char>) -> bool {
    (rel + seq![sep()]).is_prefix_of(arg)
}

/// One argument, rewritten. `source` is the package's directory, `staged`
/// the staged copy, `rel` the package's directory relative to the workspace
/// root where it has one.
pub open spec fn rewritten(
    arg: Seq<char>,
    source: Seq<char>,
    staged: Seq<char>,
    rel: Option<Seq<char>>,
) -> Seq<char> {
    let absolute = replaced(arg, source, staged);
    if absolute != arg {
        absolute
    } else {
        match rel {
            Some(dir) => if starts_in(arg, dir) {
                staged + arg.skip(trimmed_len(dir) as int)
            } else {
                arg
            },
            None => arg,
        }
    }
}

/// An argument list, each argument rewritten on its own.
pub open spec fn rewritten_all(
    args: Seq<Seq<char>>,
    source: Seq<char>,
    staged: Seq<char>,
    rel: Option<Seq<char>>,
) -> Seq<Seq<char>> {
    Seq::new(args.len(), |i: int| rewritten(args[i], source, staged, rel))
}

/// Replaces each occurrence of `from` in `text` by `to`.
pub fn replace_all(text: &str, from: &str, to: &str) -> (out: String)
    ensures
        out@ == replaced(text@, from@, to@),
{
    let t = chars_of(text);
    let f = chars_of(from);
    let mut out = String::new();
    let mut i: usize = 0;
    if f.len() == 0 {
        while i < t.len()
            invariant
                i <= t.len(),
                t@ == text@,
                from@.len() == 0,
                replaced(text@, from@, to@) == out@ + replaced_from(text@, from@, to@, i as int),
            decreases t.len() - i,
        {
            let ghost before = out@;
            out.append(to);
            out.append(text.substring_char(i, i + 1));
            proof {
                assert(text@.subrange(i as int, i + 1) =~= seq![text@[i as int]]);
                assert(before + (to@ + seq![text@[i as int]] + replaced_from(
                    text@,
                    from@,
                    to@,
                    i + 1,
                )) =~= out@ + replaced_from(text@, from@, to@, i + 1));
            }
            i += 1;
        }
        out.append(to);
        return out;
    }
    let mut seg: usize = 0;
    assert(text@.subrange(0, 0) =~= Seq::<char>::empty());
    while i < t.len()
        invariant
            seg <= i <= t.len(),
            t@ == text@,
            f@ == from@,
            from@.len() > 0,
            replaced(text@, from@, to@) == out@ + text@.subrange(seg as int, i as int)
                + replaced_from(text@, from@, to@, i as int),
        decreases t.len() - i,
    {
        let ghost before = out@;
        let ghost gap = text@.subrange(seg as int, i as int);
        if matches_at(&t, i, &f) {
            out.append(text.substring_char(seg, i));
            out.append(to);
            proof {
                let rest = replaced_from(text@, from@, to@, i + from@.len());
                assert(before + gap + (to@ + rest) =~= out@ + Seq::<char>::empty() + rest);
                assert(text@.subrange(i + from@.len(), i + from@.len()) =~= Seq::<char>::empty());
            }
            i += f.len();
            seg = i;
        } else {
            proof {
                let rest = replaced_from(text@, from@, to@, i + 1);
                assert(before + gap + (seq![text@[i as int]] + rest) =~= before + text@.subrange(
                    seg as int,
                    i + 1,
                ) + rest);
            }
            i += 1;
        }
    }
    out.append(text.substring_char(seg, i));
    out
}

/// Rewrites one argument.
pub fn rewrite_arg(arg: &str, source: &str, staged: &str, rel: Option<&str>) -> (out: String)
    ensures
        out@ == rewritten(arg@, source@, staged@, rel.deep_view()),
{
    let absolute = replace_all(arg, source, staged);
    if !same_str(absolute.as_str(), arg) {
        return absolute;
    }
    let mut out = String::new();
    match rel {
        Some(dir) => {
            let a = chars_of(arg);
            let d = chars_of(dir);
            let inside = matches_at(&a, 0, &d) && a.len() > d.len() && a[d.len()] == '/';
            proof {
                let prefix = dir@ + seq![sep()];
                if inside {
                    assert(arg@.subrange(0, prefix.len() as int) =~= prefix);
                }
                if starts_in(arg@, dir@) {
                    let head = arg@.subrange(0, prefix.len() as int);
                    assert(head[dir@.len() as int] == sep());
                    assert(arg@.subrange(0, dir@.len() as int) =~= head.subrange(
                        0,
                        dir@.len() as int,
                    ));
                    assert(head.subrange(0, dir@.len() as int) =~= dir@);
                }
            }
            if inside {
                let cut = trim_end(&d);
                out.append(staged);
                out.append(arg.substring_char(cut, a.len()));
                assert(arg@.subrange(cut as int, a.len() as int) =~= arg@.skip(cut as int));
            } else {
                out.append(arg);
                assert(out@ =~= arg@);
            }
        },
        None => {
            out.append(arg);
            assert(out@ =~= arg@);
        },
    }
    out
}

/// Rewrites each argument of a list; the list keeps its length and order.
pub fn rewrite_args(args: &Vec<String>, source: &str, staged: &str, rel: Option<&str>) -> (out:
    Vec<String>)
    ensures
        out.deep_view() == rewritten_all(args.deep_view(), source@, staged@, rel.deep_view()),
{
    let mut out: Vec<String> = Vec::new();
    let mut i: usize = 0;
    while i < args.len()
        invariant
            i <= args.len(),
            out.len() == i,
            forall|j: int|
                0 <= j < i ==> (#[trigger] out@[j])@ == rewritten(
                    args@[j]@,
                    source@,
                    staged@,
                    rel.deep_view(),
                ),
        decreases args.len() - i,
    {
        let one = rewrite_arg(args[i].as_str(), source, staged, rel);
        out.push(one);
        i += 1;
    }
    assert(out.deep_view() =~= rewritten_all(
        args.deep_view(),
        source@,
        staged@,
        rel.deep_view(),
    ));
    out
}

/// Rewrites the compiler's arguments for a package whose directory is
/// `source` and that was staged in `staged`, in a workspace rooted at
/// `workspace_root`.
pub fn rewrite(source: &str, staged: &str, workspace_root: &str, args: &Vec<String>) -> (out:
    Vec<String>)
    ensures
        out.deep_view() == rewritten_all(
            args.deep_view(),
            source@,
            staged@,
            relative_of(source@, workspace_root@),
        ),
{
    let rel = relative_to(source, workspace_root);
    match &rel {
        Some(dir) => rewrite_args(args, source, staged, Some(dir.as_str())),
        None => rewrite_args(args, source, staged, None),
    }
}

/// Each argument is rewritten on its own: the list keeps its length, and
/// what becomes of an argument depends on that argument alone, not on its
/// place nor on its neighbours.
pub proof fn lemma_each_argument_on_its_own(
    args: Seq<Seq<char>>,
    source: Seq<char>,
    staged: Seq<char>,
    rel: Option<Seq<char>>,
)
    ensures
        rewritten_all(args, source, staged, rel).len() == args.len(),
        forall|i: int|
            0 <= i < args.len() ==> #[trigger] rewritten_all(args, source, staged, rel)[i]
                == rewritten(args[i], source, staged, rel),
{
}

/// An argument that holds no occurrence of the package's directory and does
/// not start with its relative directory and a separator is left unchanged.
pub proof fn lemma_unrelated_argument_unchanged(
    arg: Seq<char>,
    source: Seq<char>,
    staged: Seq<char>,
    rel: Option<Seq<char>>,
)
    requires
        replaced(arg, source, staged) == arg,
        rel matches Some(dir) ==> !starts_in(arg, dir),
    ensures
        rewritten(arg, source, staged, rel) == arg,
{
}

/// Prefix safety. Let the relative directory `short` be a proper prefix of
/// the relative directory `long` that does not end at a separator of `long`,
/// as `foo` is of `foobar`. Then the relative rule of the one never rewrites
/// an argument that starts in the other: `in_long`, which starts in `long`,
/// passes the rule of `short` unchanged, and `in_short`, which starts in
/// `short`, passes the rule of `long` unchanged. The law speaks of arguments
/// that hold no occurrence of the rule's absolute directory.
pub proof fn lemma_prefix_safety(
    short: Seq<char>,
    long: Seq<char>,
    in_short: Seq<char>,
    in_long: Seq<char>,
    short_source: Seq<char>,
    short_staged: Seq<char>,
    long_source: Seq<char>,
    long_staged: Seq<char>,
)
    requires
        short.is_prefix_of(long),
        short.len() < long.len(),
        long[short.len() as int] != sep(),
        starts_in(in_short, short),
        starts_in(in_long, long),
        replaced(in_long, short_source, short_staged) == in_long,
        replaced(in_short, long_source, long_staged) == in_short,
    ensures
        rewritten(in_long, short_source, short_staged, Some(short)) == in_long,
        rewritten(in_short, long_source, long_staged, Some(long)) == in_short,
{
    let n = short.len() as int;
    let long_prefix = long + seq![sep()];
    let short_prefix = short + seq![sep()];
    assert(in_long[n] == long[n]) by {
        let head = in_long.subrange(0, long_prefix.len() as int);
        assert(head[n] == long_prefix[n]);
    }
    assert(!starts_in(in_long, short)) by {
        if starts_in(in_long, short) {
            let head = in_long.subrange(0, short_prefix.len() as int);
            assert(head[n] == short_prefix[n]);
        }
    }
    assert(in_short[n] == sep()) by {
        let head = in_short.subrange(0, short_prefix.len() as int);
        assert(head[n] == short_prefix[n]);
    }
    assert(!starts_in(in_short, long)) by {
        if starts_in(in_short, long) {
            let head = in_short.subrange(0, long_prefix.len() as int);
            assert(head[n] == long_prefix[n]);
        }
    }
}

} // verus!
