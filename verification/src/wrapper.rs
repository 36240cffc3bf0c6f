//! The per-file pipeline: transform, then — when anything changed — apply
//! bindings, directive and imports. File enumeration, reading, printing and
//! writing are external collaborators around this core.
use vstd::prelude::*;

verus! {

use vstd::string::StringExecFns;
use crate::ast::{Module, ModuleV};
use crate::ast_transformers::{registry, transform_module, tx_module};
use crate::text::{spec_lines, string_clone};
use crate::translation_applier::{
    apply_module, apply_translations_to_ast, ApplierConfig, ApplierConfigV,
};

/// The run configuration.
#[derive(Debug)]
pub struct ScriptConfig {
    pub source_pattern: String,
    pub translation_import_source: String,
    /// `client` inserts the hook-style binding; `server` the awaited
    /// retrieval; unset inserts none.
    pub mode: Option<String>,
    /// Under `nextjs`, client mode also ensures the client directive.
    pub framework: Option<String>,
    pub server_translation_function: Option<String>,
}

impl Default for ScriptConfig {
    /// The defaults: common JS/TS/JSX/TSX extensions under `src`, the fixed
    /// import source, no mode, no framework, and the default server
    /// retrieval function.
    fn default() -> (r: Self)
        ensures
            r.source_pattern@ == "src/**/*.{js,jsx,ts,tsx}"@,
            r.translation_import_source@ == "i18nexus"@,
            r.mode is None,
            r.framework is None,
            r.server_translation_function matches Some(f) && f@ == "getTranslations"@,
    {
        ScriptConfig {
            source_pattern: String::from_str("src/**/*.{js,jsx,ts,tsx}"),
            translation_import_source: String::from_str("i18nexus"),
            mode: None,
            framework: None,
            server_translation_function: Some(String::from_str("getTranslations")),
        }
    }
}

/// What a whole run reports: the files that were rewritten, and the elapsed
/// time that the caller measured.
#[derive(Debug)]
pub struct WrapResult {
    pub processed_files: Vec<String>,
    pub total_time_ms: u128,
}

impl ScriptConfig {
    /// The applier's slice of the configuration.
    pub fn to_applier_config(&self) -> (r: ApplierConfig)
        ensures
            r@.mode == (match self.mode {
                Some(ref m) => Some(m@),
                None => None::<Seq<char>>,
            }),
            r@.framework == (match self.framework {
                Some(ref f) => Some(f@),
                None => None::<Seq<char>>,
            }),
            r@.server_translation_function == (match self.server_translation_function {
                Some(ref f) => Some(f@),
                None => None::<Seq<char>>,
            }),
            r@.translation_import_source == self.translation_import_source@,
    {
        ApplierConfig {
            mode: match &self.mode {
                Some(m) => Some(string_clone(m)),
                None => None,
            },
            framework: match &self.framework {
                Some(f) => Some(string_clone(f)),
                None => None,
            },
            server_translation_function: match &self.server_translation_function {
                Some(f) => Some(string_clone(f)),
                None => None,
            },
            translation_import_source: string_clone(&self.translation_import_source),
        }
    }
}

/// One file's pipeline over an already parsed module: the rewrite, and the
/// applier exactly when the rewrite changed something. An unchanged module
/// comes back as it was, so the caller leaves the file untouched.
pub open spec fn spec_process(m: ModuleV, lines: Seq<Seq<char>>, c: ApplierConfigV) -> ModuleV {
    let m1 = tx_module(m, lines);
    if m1 != m {
        apply_module(m1, registry(m.body, lines), c)
    } else {
        m
    }
}

/// Runs the transformation and, when it modified anything, the binding and
/// import applier. The flag says whether the file must be written back.
pub fn process_module(module: &Module, source_code: &str, config: &ApplierConfig) -> (r: (
    Module,
    bool,
))
    ensures
        r.0@ == spec_process(module@, spec_lines(source_code@), config@),
        r.1 == (tx_module(module@, spec_lines(source_code@)) != module@),
{
    let (m1, tr, names) = transform_module(module, source_code);
    if tr.was_modified {
        let mut m2 = m1;
        apply_translations_to_ast(&mut m2, &names, config);
        (m2, true)
    } else {
        (m1, false)
    }
}

} // verus!
