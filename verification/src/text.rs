//! Character classes and string predicates that the classifier and the
//! rewriters are specified with: the target-script range, whitespace
//! trimming, and substring containment.
use vstd::prelude::*;

verus! {

use vstd::string::StrSliceExecFns;

/// A code point of the target script (the Hangul syllable block).
pub open spec fn is_target_char(c: char) -> bool {
    0xAC00 <= c as u32 <= 0xD7A3
}

/// The text holds at least one target-script code point.
pub open spec fn has_target_script(s: Seq<char>) -> bool {
    exists|i: int| 0 <= i < s.len() && is_target_char(s[i])
}

/// The whitespace that trimming removes from either end.
pub open spec fn is_space_char(c: char) -> bool {
    c == ' ' || c == '\t' || c == '\n' || c == '\r'
}

pub open spec fn all_space(s: Seq<char>) -> bool {
    forall|i: int| 0 <= i < s.len() ==> is_space_char(#[trigger] s[i])
}

pub open spec fn trim_front(s: Seq<char>) -> Seq<char>
    decreases s.len(),
{
    if s.len() > 0 && is_space_char(s[0]) {
        trim_front(s.subrange(1, s.len() as int))
    } else {
        s
    }
}

pub open spec fn trim_back(s: Seq<char>) -> Seq<char>
    decreases s.len(),
{
    if s.len() > 0 && is_space_char(s[s.len() - 1]) {
        trim_back(s.subrange(0, s.len() - 1))
    } else {
        s
    }
}

/// The text with leading and trailing whitespace removed.
pub open spec fn spec_trim(s: Seq<char>) -> Seq<char> {
    trim_back(trim_front(s))
}

/// `sub` occurs in `s` starting at position `i`.
pub open spec fn contains_at(s: Seq<char>, sub: Seq<char>, i: int) -> bool {
    0 <= i && i + sub.len() <= s.len() && s.subrange(i, i + sub.len() as int) == sub
}

/// `sub` occurs somewhere in `s`.
pub open spec fn spec_contains(s: Seq<char>, sub: Seq<char>) -> bool {
    exists|i: int| contains_at(s, sub, i)
}

/// A target-script code point is never whitespace.
pub proof fn lemma_target_not_space(c: char)
    requires
        is_target_char(c),
    ensures
        !is_space_char(c),
{
}

/// If the text holds a target-script code point, trimming cannot empty it.
pub proof fn lemma_trim_keeps_nonspace(s: Seq<char>)
    requires
        !all_space(s),
    ensures
        spec_trim(s).len() > 0,
{
    lemma_trim_front_keeps_nonspace(s);
    lemma_trim_back_keeps_nonspace(trim_front(s));
}

proof fn lemma_trim_front_keeps_nonspace(s: Seq<char>)
    requires
        !all_space(s),
    ensures
        !all_space(trim_front(s)),
    decreases s.len(),
{
    if s.len() > 0 && is_space_char(s[0]) {
        let rest = s.subrange(1, s.len() as int);
        assert(!all_space(rest)) by {
            let i = choose|i: int| 0 <= i < s.len() && !is_space_char(s[i]);
            assert(rest[i - 1] == s[i]);
        }
        lemma_trim_front_keeps_nonspace(rest);
    }
}

proof fn lemma_trim_back_keeps_nonspace(s: Seq<char>)
    requires
        !all_space(s),
    ensures
        !all_space(trim_back(s)),
        trim_back(s).len() > 0,
    decreases s.len(),
{
    if s.len() > 0 && is_space_char(s[s.len() - 1]) {
        let rest = s.subrange(0, s.len() - 1);
        assert(!all_space(rest)) by {
            let i = choose|i: int| 0 <= i < s.len() && !is_space_char(s[i]);
            assert(rest[i] == s[i]);
        }
        lemma_trim_back_keeps_nonspace(rest);
    }
}

/// Whether any character of `text` lies in the target-script range.
pub fn str_has_target(text: &str) -> (r: bool)
    ensures
        r == has_target_script(text@),
{
    let n = text.unicode_len();
    let mut i: usize = 0;
    while i < n
        invariant
            n == text@.len(),
            i <= n,
            forall|j: int| 0 <= j < i ==> !is_target_char(#[trigger] text@[j]),
        decreases n - i,
    {
        let c = text.get_char(i);
        let u = c as u32;
        if 0xAC00 <= u && u <= 0xD7A3 {
            assert(is_target_char(text@[i as int]));
            return true;
        }
        i += 1;
    }
    false
}


/// The text split at every newline: always one more line than newlines,
/// so a trailing newline yields a final empty line.
pub open spec fn spec_lines(s: Seq<char>) -> Seq<Seq<char>>
    decreases s.len(),
{
    if s.len() == 0 {
        seq![Seq::empty()]
    } else if s[0] == '\n' {
        seq![Seq::<char>::empty()] + spec_lines(s.skip(1))
    } else {
        let r = spec_lines(s.skip(1));
        seq![seq![s[0]] + r[0]] + r.skip(1)
    }
}

pub proof fn lemma_spec_lines_len(s: Seq<char>)
    ensures
        spec_lines(s).len() >= 1,
    decreases s.len(),
{
    if s.len() > 0 {
        lemma_spec_lines_len(s.skip(1));
    }
}

/// Splitting at the first newline: when the first newline of `s` stands at
/// `p`, the first line is `s.take(p)` and the rest split on their own.
proof fn lemma_lines_split(s: Seq<char>, p: int)
    requires
        0 <= p <= s.len(),
        forall|j: int| 0 <= j < p ==> s[j] != '\n',
        p < s.len() ==> s[p] == '\n',
    ensures
        p == s.len() ==> spec_lines(s) =~~= seq![s],
        p < s.len() ==> spec_lines(s) =~~= seq![s.take(p)] + spec_lines(s.skip(p + 1)),
    decreases p,
{
    lemma_spec_lines_len(s);
    if p == 0 {
        if p < s.len() {
            assert(spec_lines(s) == seq![Seq::<char>::empty()] + spec_lines(s.skip(1)));
            assert(s.take(0) =~= Seq::<char>::empty());
        } else {
            assert(s =~= Seq::<char>::empty());
        }
    } else {
        let r = spec_lines(s.skip(1));
        lemma_spec_lines_len(s.skip(1));
        assert(spec_lines(s) == seq![seq![s[0]] + r[0]] + r.skip(1));
        assert(forall|j: int| 0 <= j < p - 1 ==> s.skip(1)[j] != '\n');
        assert(p - 1 < s.skip(1).len() ==> s.skip(1)[p - 1] == '\n');
        lemma_lines_split(s.skip(1), p - 1);
        if p == s.len() {
            assert(r =~~= seq![s.skip(1)]);
            assert(seq![s[0]] + s.skip(1) =~= s);
        } else {
            assert(r =~~= seq![s.skip(1).take(p - 1)] + spec_lines(s.skip(1).skip(p)));
            assert(seq![s[0]] + s.skip(1).take(p - 1) =~= s.take(p));
            assert(s.skip(1).skip(p) =~= s.skip(p + 1));
        }
    }
}

/// The position of the first newline at or after `start`, or the length.
fn find_newline(text: &str, start: usize, n: usize) -> (i: usize)
    requires
        n == text@.len(),
        start <= n,
    ensures
        start <= i <= n,
        forall|j: int| start <= j < i ==> text@[j] != '\n',
        i < n ==> text@[i as int] == '\n',
    decreases n - start,
{
    let mut i: usize = start;
    loop
        invariant
            n == text@.len(),
            start <= i <= n,
            forall|j: int| start <= j < i ==> text@[j] != '\n',
        decreases n - i,
    {
        if i == n {
            return i;
        }
        if text.get_char(i) == '\n' {
            return i;
        }
        i += 1;
    }
}

/// Split the text into its lines, one `String` per line.
pub fn split_lines(text: &str) -> (r: Vec<String>)
    ensures
        r.deep_view() == spec_lines(text@),
{
    let n = text.unicode_len();
    let mut out: Vec<String> = Vec::new();
    let mut start: usize = 0;
    proof {
        assert(text@.skip(0) =~= text@);
        assert(out.deep_view() =~~= Seq::<Seq<char>>::empty());
        assert(Seq::<Seq<char>>::empty() + spec_lines(text@) =~~= spec_lines(text@));
    }
    loop
        invariant
            n == text@.len(),
            start <= n,
            spec_lines(text@) =~~= out.deep_view() + spec_lines(text@.skip(start as int)),
        decreases n - start,
    {
        let i = find_newline(text, start, n);
        let piece = text.substring_char(start, i);
        let ghost out0 = out.deep_view();
        out.push(String::from_str(piece));
        proof {
            let suf = text@.skip(start as int);
            assert(forall|j: int|
                0 <= j < suf.len() ==> suf[j] == text@[j + start]);
            lemma_lines_split(suf, i as int - start as int);
            assert(suf.take(i as int - start as int) =~= text@.subrange(
                start as int,
                i as int,
            ));
            assert(out.deep_view() =~~= out0 + seq![piece@]);
        }
        if i < n {
            proof {
                let suf = text@.skip(start as int);
                assert(suf.skip(i as int - start as int + 1) =~= text@.skip(i + 1));
                assert((out0 + seq![piece@]) + spec_lines(text@.skip(i + 1)) =~~= out0 + (
                seq![piece@] + spec_lines(text@.skip(i + 1))));
            }
            start = i + 1;
        } else {
            proof {
                let suf = text@.skip(start as int);
                assert(spec_lines(suf) =~~= seq![suf]);
                assert(piece@ =~= suf);
                assert(out0 + seq![piece@] =~~= out.deep_view());
            }
            return out;
        }
    }
}

/// The position of the first non-whitespace character, or the length.
fn first_nonspace(text: &str, n: usize) -> (a: usize)
    requires
        n == text@.len(),
    ensures
        a <= n,
        forall|j: int| 0 <= j < a ==> is_space_char(#[trigger] text@[j]),
        a < n ==> !is_space_char(text@[a as int]),
    decreases n,
{
    let mut a: usize = 0;
    loop
        invariant
            n == text@.len(),
            a <= n,
            forall|j: int| 0 <= j < a ==> is_space_char(#[trigger] text@[j]),
        decreases n - a,
    {
        if a == n {
            return a;
        }
        let c = text.get_char(a);
        if !(c == ' ' || c == '\t' || c == '\n' || c == '\r') {
            return a;
        }
        a += 1;
    }
}

/// The position of the last non-whitespace character, given that the one
/// at `a` is not whitespace.
fn last_nonspace(text: &str, n: usize, a: usize) -> (b: usize)
    requires
        n == text@.len(),
        a < n,
        !is_space_char(text@[a as int]),
    ensures
        a <= b < n,
        !is_space_char(text@[b as int]),
        forall|j: int| b < j < n ==> is_space_char(#[trigger] text@[j]),
{
    let mut b: usize = n - 1;
    loop
        invariant
            n == text@.len(),
            a <= b < n,
            !is_space_char(text@[a as int]),
            forall|j: int| b < j < n ==> is_space_char(#[trigger] text@[j]),
        decreases b,
    {
        let c = text.get_char(b);
        if !(c == ' ' || c == '\t' || c == '\n' || c == '\r') {
            return b;
        }
        proof {
            assert(b > a) by {
                assert(is_space_char(text@[b as int]));
            }
        }
        b -= 1;
    }
}

/// The trimmed text, as an owned string.
pub fn trim_str(text: &str) -> (r: String)
    ensures
        r@ == spec_trim(text@),
{
    let n = text.unicode_len();
    let a = first_nonspace(text, n);
    if a == n {
        proof {
            lemma_trim_front_allspace(text@);
        }
        return String::new();
    }
    let b = last_nonspace(text, n, a);
    let piece = text.substring_char(a, b + 1);
    proof {
        lemma_trim_front_skip(text@, a as int);
        let suf = text@.skip(a as int);
        assert(forall|j: int| 0 <= j < suf.len() ==> suf[j] == text@[j + a]);
        lemma_trim_back_take(suf, b + 1 - a as int);
        assert(suf.take(b + 1 - a as int) =~= text@.subrange(a as int, b as int + 1));
    }
    String::from_str(piece)
}

proof fn lemma_trim_front_allspace(s: Seq<char>)
    requires
        all_space(s),
    ensures
        spec_trim(s).len() == 0,
    decreases s.len(),
{
    if s.len() > 0 {
        let rest = s.subrange(1, s.len() as int);
        assert(forall|j: int| 0 <= j < rest.len() ==> rest[j] == s[j + 1]);
        lemma_trim_front_allspace(rest);
        assert(trim_front(s) == trim_front(rest));
    }
}

/// When the first `a` characters are whitespace and the one at `a` is not,
/// front-trimming drops exactly those `a` characters.
proof fn lemma_trim_front_skip(s: Seq<char>, a: int)
    requires
        0 <= a < s.len(),
        forall|j: int| 0 <= j < a ==> is_space_char(#[trigger] s[j]),
        !is_space_char(s[a]),
    ensures
        trim_front(s) == s.skip(a),
    decreases a,
{
    if a == 0 {
        assert(s.skip(0) =~= s);
    } else {
        let rest = s.subrange(1, s.len() as int);
        assert(forall|j: int| 0 <= j < rest.len() ==> rest[j] == s[j + 1]);
        lemma_trim_front_skip(rest, a - 1);
        assert(rest.skip(a - 1) =~= s.skip(a));
    }
}

/// When everything after position `m - 1` is whitespace and the character
/// there is not, back-trimming keeps exactly the first `m` characters.
proof fn lemma_trim_back_take(s: Seq<char>, m: int)
    requires
        0 < m <= s.len(),
        forall|j: int| m <= j < s.len() ==> is_space_char(#[trigger] s[j]),
        !is_space_char(s[m - 1]),
    ensures
        trim_back(s) == s.take(m),
    decreases s.len(),
{
    if m == s.len() {
        assert(s.take(m) =~= s);
    } else {
        let rest = s.subrange(0, s.len() - 1);
        assert(forall|j: int| 0 <= j < rest.len() ==> rest[j] == s[j]);
        lemma_trim_back_take(rest, m);
        assert(rest.take(m) =~= s.take(m));
    }
}

/// Whether two string slices hold the same characters.
pub fn str_eq(a: &str, b: &str) -> (r: bool)
    ensures
        r == (a@ == b@),
{
    let n = a.unicode_len();
    let m = b.unicode_len();
    if n != m {
        return false;
    }
    let mut i: usize = 0;
    while i < n
        invariant
            n == a@.len(),
            n == b@.len(),
            i <= n,
            forall|j: int| 0 <= j < i ==> a@[j] == b@[j],
        decreases n - i,
    {
        if a.get_char(i) != b.get_char(i) {
            return false;
        }
        i += 1;
    }
    proof {
        assert(a@ =~= b@);
    }
    true
}

/// An owned copy of a string, equal in value.
pub fn string_clone(s: &String) -> (r: String)
    ensures
        r@ == s@,
{
    String::from_str(s.as_str())
}

} // verus!
