//! The text classifier: decides whether a span of text is translatable and
//! whether a function name denotes a UI component or a custom hook.
use vstd::prelude::*;

verus! {

use vstd::string::StrSliceExecFns;
use crate::text::{
    has_target_script, is_space_char, is_target_char, lemma_target_not_space,
    lemma_trim_keeps_nonspace, spec_trim, str_has_target,
};

/// The name qualifies as a UI component or a custom hook: it starts with an
/// ASCII capital letter (`A` through `Z`; a capital outside ASCII does not
/// qualify), or with the hook-naming prefix `use`.
pub open spec fn spec_is_component_name(s: Seq<char>) -> bool {
    (s.len() > 0 && 'A' as u32 <= s[0] as u32 <= 'Z' as u32) || (s.len() >= 3 && s.subrange(0, 3)
        == "use"@)
}

/// The text is worth translating: non-empty after trimming, and holding at
/// least one target-script code point.
pub open spec fn spec_should_translate(s: Seq<char>) -> bool {
    spec_trim(s).len() > 0 && has_target_script(s)
}

/// Whether the text holds any target-script (Korean) character.
pub fn contains_korean(text: &str) -> (r: bool)
    ensures
        r == has_target_script(text@),
{
    str_has_target(text)
}

/// Whether a candidate text should be rewritten into a translation call:
/// true exactly when the trimmed text is non-empty and holds at least one
/// target-script code point.
pub fn should_translate(text: &str) -> (r: bool)
    ensures
        r == spec_should_translate(text@),
{
    let k = str_has_target(text);
    proof {
        if k {
            let i = choose|i: int| 0 <= i < text@.len() && is_target_char(text@[i]);
            lemma_target_not_space(text@[i]);
            assert(!is_space_char(text@[i]));
            lemma_trim_keeps_nonspace(text@);
        }
    }
    k
}

/// Whether the name denotes a UI component or custom hook: an ASCII capital
/// first letter, or the `use` prefix.
pub fn is_react_component(name: &str) -> (r: bool)
    ensures
        r == spec_is_component_name(name@),
{
    let n = name.unicode_len();
    if n == 0 {
        return false;
    }
    let c0 = name.get_char(0);
    let u = c0 as u32;
    if 65 <= u && u <= 90 {
        return true;
    }
    if n >= 3 {
        let c1 = name.get_char(1);
        let c2 = name.get_char(2);
        proof {
            reveal_strlit("use");
        }
        if c0 == 'u' && c1 == 's' && c2 == 'e' {
            assert(name@.subrange(0, 3) =~= "use"@);
            return true;
        }
        assert(name@.subrange(0, 3) != "use"@) by {
            if name@.subrange(0, 3) == "use"@ {
                assert(name@.subrange(0, 3)[0] == 'u');
                assert(name@.subrange(0, 3)[1] == 's');
                assert(name@.subrange(0, 3)[2] == 'e');
            }
        }
        return false;
    }
    false
}

/// Whether the source text denotes a server-rendered component: it calls
/// the server-side translation retrieval function.
pub fn is_server_component(code: &str) -> (r: bool)
    ensures
        r == crate::text::spec_contains(code@, "getServerTranslation"@),
{
    crate::ast_helpers::contains_sub(code, "getServerTranslation")
}

} // verus!
