//! Helpers around the translation-hook binding and its import.
use vstd::prelude::*;

verus! {

use vstd::string::StringExecFns;
use crate::ast::{Module, ModuleV, stmts_view};
use crate::translation_applier::{ensure_import, ensure_import_exec, find_import,
    has_import_from};

/// The source text of the hook-style binding that client mode inserts.
pub fn create_use_translation_hook() -> (r: String)
    ensures
        r@ == "const { t } = useTranslation();"@,
{
    String::from_str("const { t } = useTranslation();")
}

/// Ensures the module imports the hook accessor `useTranslation` from the
/// given source: merged into an existing import of that source rather than
/// duplicated, otherwise inserted as a new declaration after a leading
/// directive. Returns true exactly when no import of that source existed,
/// so a new declaration had to be inserted; repeated calls add nothing.
pub fn add_import_if_needed(ast: &mut Module, translation_import_source: &str) -> (r: bool)
    ensures
        final(ast)@ == (ModuleV {
            body: ensure_import(
                old(ast)@.body,
                "useTranslation"@,
                translation_import_source@,
            ),
        }),
        r == (find_import(old(ast)@.body, translation_import_source@, 0) is None),
{
    let ghost before = stmts_view(ast.body@);
    let existing = has_import_from(&ast.body, translation_import_source);
    ensure_import_exec(&mut ast.body, "useTranslation", translation_import_source);
    proof {
        assert(final(ast)@ =~~= (ModuleV {
            body: ensure_import(before, "useTranslation"@, translation_import_source@),
        }));
    }
    !existing
}

} // verus!
