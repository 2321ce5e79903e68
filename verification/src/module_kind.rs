//! Module-kind inference: whether a file is treated as CommonJS or as an ES
//! module.

use vstd::prelude::*;

use crate::filetype::{filename_is_explicitly_cjs, filename_is_explicitly_esm,
    spec_is_explicitly_cjs_filename, spec_is_explicitly_esm_filename};
use crate::options::InstrumentationOptions;

verus! {

#[derive(Clone, Copy, Debug, PartialEq, Eq, Structural)]
pub enum ModuleKind {
    CJS,
    ESM,
}

/// Whether the program used CommonJS keywords (`require`, `exports`) or ES
/// module keywords (`import`, `export`).
#[derive(Clone, Copy, Debug, PartialEq, Eq, Structural)]
pub struct ModuleKeywordUsage {
    pub cjs: bool,
    pub esm: bool,
}

/// The module kind chosen for a file: the caller's explicit choice first,
/// then the filename's extension, then the keywords the program used, and ES
/// modules as the default.
pub open spec fn spec_module_kind_for(
    filename: Seq<char>,
    module_option: Option<ModuleKind>,
    keyword_usage: Option<ModuleKeywordUsage>,
) -> ModuleKind {
    if module_option is Some {
        module_option.unwrap()
    } else if spec_is_explicitly_cjs_filename(filename) {
        ModuleKind::CJS
    } else if spec_is_explicitly_esm_filename(filename) {
        ModuleKind::ESM
    } else if keyword_usage matches Some(u) && u.esm {
        ModuleKind::ESM
    } else if keyword_usage matches Some(u) && !u.esm && u.cjs {
        ModuleKind::CJS
    } else {
        ModuleKind::ESM
    }
}

pub fn module_kind_for(
    filename: &str,
    options: &InstrumentationOptions,
    keyword_usage: Option<ModuleKeywordUsage>,
) -> (r: ModuleKind)
    ensures
        r == spec_module_kind_for(filename@, options.input.module, keyword_usage),
{
    match options.input.module {
        Some(kind) => {
            return kind;
        },
        None => {},
    }
    if filename_is_explicitly_cjs(filename) {
        return ModuleKind::CJS;
    }
    if filename_is_explicitly_esm(filename) {
        return ModuleKind::ESM;
    }
    match keyword_usage {
        Some(usage) => {
            if usage.esm {
                ModuleKind::ESM
            } else if usage.cjs {
                ModuleKind::CJS
            } else {
                ModuleKind::ESM
            }
        },
        None => ModuleKind::ESM,
    }
}

} // verus!
