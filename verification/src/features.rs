//! Tracks which module-system keywords the program was observed to use.

use vstd::prelude::*;

use crate::module_kind::ModuleKeywordUsage;

verus! {

pub struct FeatureTracker {
    pub module_keyword_usage: ModuleKeywordUsage,
}

impl FeatureTracker {
    pub fn new() -> (r: FeatureTracker)
        ensures
            !r.module_keyword_usage.cjs,
            !r.module_keyword_usage.esm,
    {
        FeatureTracker { module_keyword_usage: ModuleKeywordUsage { cjs: false, esm: false } }
    }

    /// Record a CommonJS signal: `exports` or a `require(...)` call.
    pub fn observed_cjs_exports_or_require(&mut self)
        ensures
            final(self).module_keyword_usage.cjs,
            final(self).module_keyword_usage.esm == old(self).module_keyword_usage.esm,
    {
        self.module_keyword_usage.cjs = true;
    }

    /// Record an ES module signal: an `import` or `export` declaration.
    pub fn observed_esm_export_or_import(&mut self)
        ensures
            final(self).module_keyword_usage.esm,
            final(self).module_keyword_usage.cjs == old(self).module_keyword_usage.cjs,
    {
        self.module_keyword_usage.esm = true;
    }
}

} // verus!
