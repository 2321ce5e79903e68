//! The options and input/output records of the transform.

use vstd::prelude::*;

use crate::module_kind::ModuleKind;

verus! {

/// Options that control how the input is parsed.
#[derive(Clone, Copy)]
pub struct InputOptions {
    /// Some: use the given module kind when the filename does not decide it.
    /// None: default to ES modules.
    pub module: Option<ModuleKind>,
    /// True: enable JSX. False: disable JSX. None: guess from the filename.
    pub jsx: Option<bool>,
    /// True: enable TypeScript. False: disable. None: guess from the
    /// filename.
    pub typescript: Option<bool>,
}

/// Options that control the transform's output.
#[derive(Clone, Copy)]
pub struct OutputOptions {
    /// True: append the source map to the transformed file as a data URL.
    pub inline_source_map: bool,
    /// True: embed the original source text in the source map.
    pub embed_code_in_source_map: bool,
}

/// Where the helper function that builds the dictionary at runtime comes
/// from: an inline expression, or an import with per-module-kind sources.
pub enum HelperFunctionSource {
    Expression { code: String },
    Import { cjs_module: String, esm_module: String, func: String },
}

pub struct PrivacyOptions {
    pub add_to_dictionary_helper: HelperFunctionSource,
}

pub struct InstrumentationOptions {
    pub input: InputOptions,
    pub output: OutputOptions,
    pub privacy: PrivacyOptions,
}

/// The default helper import paths and function name.
pub open spec fn spec_default_helper() -> (Seq<char>, Seq<char>, Seq<char>) {
    (
        "datadog:privacy-helpers.cjs"@,
        "datadog:privacy-helpers.mjs"@,
        "$"@,
    )
}

impl Default for InstrumentationOptions {
    /// The defaults: guess nothing about the module kind, enable JSX and
    /// TypeScript, embed source text in the map but do not inline the map,
    /// and import the `$` helper from the privacy-helpers modules.
    fn default() -> (r: Self)
        ensures
            r.input.module is None,
            r.input.jsx == Some(true),
            r.input.typescript == Some(true),
            !r.output.inline_source_map,
            r.output.embed_code_in_source_map,
            r.privacy.add_to_dictionary_helper matches HelperFunctionSource::Import {
                cjs_module,
                esm_module,
                func,
            } && cjs_module@ == spec_default_helper().0 && esm_module@ == spec_default_helper().1
                && func@ == spec_default_helper().2,
    {
        InstrumentationOptions {
            input: InputOptions { module: None, jsx: Some(true), typescript: Some(true) },
            output: OutputOptions { inline_source_map: false, embed_code_in_source_map: true },
            privacy: PrivacyOptions {
                add_to_dictionary_helper: HelperFunctionSource::Import {
                    cjs_module: "datadog:privacy-helpers.cjs".to_owned(),
                    esm_module: "datadog:privacy-helpers.mjs".to_owned(),
                    func: "$".to_owned(),
                },
            },
        }
    }
}

/// Options for the core transform alone, without output handling.
pub struct TransformOptions {
    pub input: InputOptions,
    pub privacy: PrivacyOptions,
}

impl Default for TransformOptions {
    fn default() -> (r: Self)
        ensures
            r.input.module is None,
            r.input.jsx == Some(true),
            r.input.typescript == Some(true),
            r.privacy.add_to_dictionary_helper matches HelperFunctionSource::Import {
                cjs_module,
                esm_module,
                func,
            } && cjs_module@ == spec_default_helper().0 && esm_module@ == spec_default_helper().1
                && func@ == spec_default_helper().2,
    {
        TransformOptions {
            input: InputOptions { module: None, jsx: Some(true), typescript: Some(true) },
            privacy: PrivacyOptions {
                add_to_dictionary_helper: HelperFunctionSource::Import {
                    cjs_module: "datadog:privacy-helpers.cjs".to_owned(),
                    esm_module: "datadog:privacy-helpers.mjs".to_owned(),
                    func: "$".to_owned(),
                },
            },
        }
    }
}

/// One file to instrument.
pub struct InstrumentationInput {
    /// The filename or id of the code to instrument.
    pub id: String,
    /// The source code to instrument.
    pub code: String,
    /// The serialized source map of the code to instrument, if any.
    pub map: Option<String>,
}

/// The instrumented file.
pub struct InstrumentationOutput {
    /// The filename or id of the code that was instrumented.
    pub id: String,
    /// The instrumented source code.
    pub code: String,
    /// The source map for the instrumented code, chained under the input's
    /// own map when one was given; absent when an external map was detected.
    pub map: Option<String>,
}

/// The core transform's result.
pub struct TransformOutput {
    pub code: String,
    pub map: Option<String>,
}

} // verus!
