//! Suppressing-comment detection: a node is opted out of rewriting when a
//! recognized marker token stands in the few source lines directly above it.
use vstd::prelude::*;

verus! {

use vstd::string::StrSliceExecFns;
use crate::text::{contains_at, spec_contains};
use crate::utils::spec_is_component_name;

/// The marker token that every suppressing-comment spelling carries.
pub open spec fn marker() -> Seq<char> {
    "i18n-ignore"@
}

/// The line-comment spelling of the suppressing comment.
pub open spec fn marker_line_comment() -> Seq<char> {
    "// i18n-ignore"@
}

/// The block-comment spelling of the suppressing comment.
pub open spec fn marker_block_comment() -> Seq<char> {
    "/* i18n-ignore */"@
}

/// The JSX-comment spelling of the suppressing comment.
pub open spec fn marker_jsx_comment() -> Seq<char> {
    "{/* i18n-ignore */}"@
}

/// The text holds a suppressing comment in one of its recognized spellings.
pub open spec fn has_marker(s: Seq<char>) -> bool {
    ||| spec_contains(s, marker())
    ||| spec_contains(s, marker_line_comment())
    ||| spec_contains(s, marker_block_comment())
    ||| spec_contains(s, marker_jsx_comment())
}

/// The prefix of `s` up to and including its `k`-th newline (all of `s` when
/// it has fewer newlines).
pub open spec fn line_prefix(s: Seq<char>, k: nat) -> Seq<char>
    decreases s.len(),
{
    if k == 0 || s.len() == 0 {
        Seq::empty()
    } else if s[0] == '\n' {
        seq!['\n'] + line_prefix(s.skip(1), (k - 1) as nat)
    } else {
        seq![s[0]] + line_prefix(s.skip(1), k)
    }
}

/// A suppressing comment stands in the first three lines of the given text.
pub open spec fn spec_has_ignore_comment(source_code: Option<&str>) -> bool {
    match source_code {
        Some(code) => has_marker(line_prefix(code@, 3)),
        None => false,
    }
}

/// Naive verified substring search.
pub fn contains_sub(hay: &str, needle: &str) -> (r: bool)
    ensures
        r == spec_contains(hay@, needle@),
{
    let n = hay.unicode_len();
    let m = needle.unicode_len();
    if m > n {
        proof {
            assert forall|i: int| !contains_at(hay@, needle@, i) by {}
        }
        return false;
    }
    if m == 0 {
        proof {
            assert(hay@.subrange(0, 0) =~= needle@);
            assert(contains_at(hay@, needle@, 0));
        }
        return true;
    }
    let mut i: usize = 0;
    while i <= n - m
        invariant
            n == hay@.len(),
            m == needle@.len(),
            0 < m <= n,
            i <= n - m + 1,
            forall|p: int| 0 <= p < i ==> !contains_at(hay@, needle@, p),
        decreases n - i,
    {
        let mut j: usize = 0;
        let mut mismatch = false;
        while j < m
            invariant
                n == hay@.len(),
                m == needle@.len(),
                i + m <= n,
                j <= m,
                !mismatch ==> forall|q: int|
                    0 <= q < j ==> hay@[i + q] == needle@[q],
                mismatch ==> !contains_at(hay@, needle@, i as int),
            decreases m - j,
        {
            if !mismatch {
                let hc = hay.get_char(i + j);
                let nc = needle.get_char(j);
                if hc != nc {
                    proof {
                        assert(hay@.subrange(i as int, i + m as int)[j as int]
                            != needle@[j as int]);
                    }
                    mismatch = true;
                }
            }
            j += 1;
        }
        if !mismatch {
            proof {
                assert(hay@.subrange(i as int, i + m as int) =~= needle@);
                assert(contains_at(hay@, needle@, i as int));
            }
            return true;
        }
        i += 1;
    }
    proof {
        assert forall|p: int| !contains_at(hay@, needle@, p) by {
            if 0 <= p && p + needle@.len() <= hay@.len() {
                assert(p < i);
            }
        }
    }
    false
}

/// The prefix of `text` that covers its first three lines, as a borrowed
/// slice; the rest is cut off at the third newline.
fn first_three_lines<'a>(text: &'a str) -> (r: &'a str)
    ensures
        r@ == line_prefix(text@, 3),
{
    let n = text.unicode_len();
    let mut i: usize = 0;
    let mut seen: usize = 0;
    proof {
        assert(text@.skip(0) =~= text@);
        assert(text@.take(0) + line_prefix(text@, 3) =~= line_prefix(text@, 3));
    }
    while i < n && seen < 3
        invariant
            n == text@.len(),
            i <= n,
            seen <= 3,
            line_prefix(text@, 3) == text@.take(i as int) + line_prefix(
                text@.skip(i as int),
                (3 - seen) as nat,
            ),
        decreases n - i,
    {
        let c = text.get_char(i);
        proof {
            let rest = text@.skip(i as int);
            assert(rest[0] == text@[i as int]);
            assert(rest.skip(1) =~= text@.skip(i + 1));
            if c == '\n' {
                assert(line_prefix(rest, (3 - seen) as nat) == seq!['\n'] + line_prefix(
                    text@.skip(i + 1),
                    (3 - (seen + 1)) as nat,
                ));
            } else {
                assert(line_prefix(rest, (3 - seen) as nat) == seq![text@[i as int]]
                    + line_prefix(text@.skip(i + 1), (3 - seen) as nat));
            }
            assert(text@.take(i as int) + seq![text@[i as int]] =~= text@.take(i + 1));
            assert((text@.take(i as int) + seq![text@[i as int]]) + line_prefix(
                text@.skip(i + 1),
                if c == '\n' {
                    (3 - (seen + 1)) as nat
                } else {
                    (3 - seen) as nat
                },
            ) =~= text@.take(i as int) + (seq![text@[i as int]] + line_prefix(
                text@.skip(i + 1),
                if c == '\n' {
                    (3 - (seen + 1)) as nat
                } else {
                    (3 - seen) as nat
                },
            )));
        }
        if c == '\n' {
            seen += 1;
        }
        i += 1;
    }
    proof {
        if i == n {
            assert(text@.skip(i as int) =~= Seq::<char>::empty());
            assert(line_prefix(text@.skip(i as int), (3 - seen) as nat) =~= Seq::<
                char,
            >::empty());
        }
        assert(text@.take(i as int) + Seq::<char>::empty() =~= text@.take(i as int));
        assert(line_prefix(text@, 3) =~= text@.take(i as int));
    }
    let r = text.substring_char(0, i);
    proof {
        assert(text@.subrange(0, i as int) =~= text@.take(i as int));
    }
    r
}

/// Whether a suppressing comment stands in the first three lines of the
/// given source text. The scan recognizes the marker token itself and its
/// line-comment, block-comment and JSX-comment spellings; each spelling
/// carries the bare token, so each is found wherever it occurs.
pub fn has_ignore_comment(_path: (), source_code: Option<&str>) -> (r: bool)
    ensures
        r == spec_has_ignore_comment(source_code),
{
    match source_code {
        Some(code) => {
            let head = first_three_lines(code);
            contains_sub(head, "i18n-ignore") || contains_sub(head, "// i18n-ignore")
                || contains_sub(head, "/* i18n-ignore */") || contains_sub(
                head,
                "{/* i18n-ignore */}",
            )
        },
        None => false,
    }
}

/// Whether a candidate node must be skipped, as decided by the given
/// suppressing-comment predicate over the node's surrounding source text.
/// The structural skip conditions (already-wrapped call argument, import
/// declarations, object-property keys) are enforced by the walker itself.
pub fn should_skip_path<F: Fn((), Option<&str>) -> bool>(
    _path: (),
    has_ignore_comment_fn: F,
    source_code: Option<&str>,
) -> (r: bool)
    requires
        call_requires(has_ignore_comment_fn, ((), source_code)),
    ensures
        call_ensures(has_ignore_comment_fn, ((), source_code), r),
{
    has_ignore_comment_fn((), source_code)
}

/// Whether the name denotes a UI component or custom hook; the same
/// classification as the one in `utils`.
pub fn is_react_component(name: &str) -> (r: bool)
    ensures
        r == spec_is_component_name(name@),
{
    crate::utils::is_react_component(name)
}

} // verus!
