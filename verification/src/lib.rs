use vstd::prelude::*;

pub mod comments;
pub mod content;
pub mod declarations;
pub mod dictionary;
pub mod directives;
pub mod emit;
pub mod features;
pub mod filetype;
pub mod identifiers;
pub mod jsx;
pub mod module_kind;
pub mod optimizer;
pub mod options;
pub mod plan;
pub mod trusted;
pub mod rewrite;
pub mod source_maps;
pub mod span;
pub mod template;
pub mod text;
pub mod transform;

pub use filetype::{
    filename_is_explicitly_cjs, filename_is_explicitly_esm, filename_is_jsx,
    filename_is_typescript,
};
