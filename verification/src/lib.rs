//! Source-to-source codemod core: finds natural-language text written in the
//! target script (the Hangul syllable block) inside a model of a UI component
//! source tree, rewrites each occurrence into a call to the translation
//! function `t`, and ensures the mutated components get the translation
//! binding and import they need.
//!
//! The concrete parser, printer, file enumeration and parallel dispatch are
//! external collaborators; this crate holds the verified transformation core
//! over its own syntax-tree model.
use vstd::prelude::*;

pub mod ast;
pub mod ast_helpers;
pub mod ast_transformers;
pub mod component_transformer;
pub mod import_manager;
pub mod laws;
pub mod parser;
pub mod translation_applier;
pub mod wrapper;
pub mod text;
pub mod utils;

verus! {

pub use crate::ast_helpers::has_ignore_comment;
pub use crate::import_manager::add_import_if_needed;
pub use crate::import_manager::create_use_translation_hook;
pub use crate::wrapper::ScriptConfig;
pub use crate::wrapper::WrapResult;
pub use crate::ast_helpers::should_skip_path;
pub use crate::utils::contains_korean;
pub use crate::utils::is_react_component;
pub use crate::utils::is_server_component;
pub use crate::utils::should_translate;

} // verus!
