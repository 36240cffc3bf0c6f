//! One component at a time: classify a named function, rewrite its body,
//! and record its name when anything changed.
use vstd::prelude::*;

verus! {

use vstd::string::StringExecFns;
use crate::ast::{stmts_view, Stmt};
use crate::ast_transformers::{rewrite_stmts, tx_stmts};
use crate::text::{spec_lines, split_lines};
use crate::utils::{is_react_component, spec_is_component_name};

/// Tries to rewrite one named function as a component or custom hook: a
/// qualifying name has its body offered to the rewriters, and when that
/// changed anything the name is appended to the registry. A non-qualifying
/// name leaves the body untouched. Returns the body to use and whether it
/// was changed.
pub fn try_transform_component(
    name: &str,
    body: &Vec<Stmt>,
    source_code: &str,
    modified_functions: &mut Vec<String>,
) -> (r: (Vec<Stmt>, bool))
    ensures
        spec_is_component_name(name@) ==> stmts_view(r.0@) == tx_stmts(
            stmts_view(body@),
            spec_lines(source_code@),
            true,
        ),
        !spec_is_component_name(name@) ==> stmts_view(r.0@) == stmts_view(body@),
        r.1 == (spec_is_component_name(name@) && tx_stmts(
            stmts_view(body@),
            spec_lines(source_code@),
            true,
        ) != stmts_view(body@)),
        final(modified_functions).deep_view() == if spec_is_component_name(name@)
            && tx_stmts(stmts_view(body@), spec_lines(source_code@), true) != stmts_view(
            body@,
        ) {
            old(modified_functions).deep_view().push(name@)
        } else {
            old(modified_functions).deep_view()
        },
{
    if is_react_component(name) {
        let lines = split_lines(source_code);
        let (nb, changed) = rewrite_stmts(body, &lines, true);
        if changed {
            let ghost before = modified_functions.deep_view();
            modified_functions.push(String::from_str(name));
            proof {
                assert(modified_functions.deep_view() =~= before.push(name@));
            }
        }
        (nb, changed)
    } else {
        (crate::ast_transformers::copy_stmts(body), false)
    }
}

} // verus!
