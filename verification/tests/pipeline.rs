use js_instrumentation::comments::{process_comments, Comment, SourceMapComment};
use js_instrumentation::dictionary::DictionaryTracker;
use js_instrumentation::features::FeatureTracker;
use js_instrumentation::filetype::{
    filename_is_explicitly_cjs, filename_is_explicitly_esm, filename_is_jsx,
    filename_is_typescript,
};
use js_instrumentation::identifiers::IdentifierTracker;
use js_instrumentation::module_kind::{module_kind_for, ModuleKeywordUsage, ModuleKind};
use js_instrumentation::options::InstrumentationOptions;
use js_instrumentation::source_maps::source_map_comment_span_to_delete;
use js_instrumentation::span::Span;
use js_instrumentation::template::replace_string_with_dictionary_ref;
use js_instrumentation::template::RewriteTracker;
use js_instrumentation::transform::{complete_transform, may_follow_keyword, next_char_pos};

fn fresh_trackers(
    code: &str,
    comments: Vec<Comment>,
) -> (
    DictionaryTracker,
    FeatureTracker,
    IdentifierTracker,
    RewriteTracker,
    Option<SourceMapComment>,
) {
    let (directives, smc) = process_comments(code.as_bytes(), &comments);
    (
        DictionaryTracker::new(directives),
        FeatureTracker::new(),
        IdentifierTracker::new(vec!["$", "D"]),
        RewriteTracker::new(),
        smc,
    )
}

#[test]
fn small_constant_becomes_dictionary_reference() {
    let code = "const x = \"a\"";
    let (mut dict, feats, mut idents, mut rewrites, smc) = fresh_trackers(code, vec![]);
    // The walk over `const x = "a"`: one identifier, one string literal.
    idents.add_ident("x");
    let span = Span { lo: 10, hi: 13 };
    let index = dict.maybe_add_string(&Some("\"a\"".to_owned()), &"a".to_owned(), &span);
    assert_eq!(index, Some(0));
    let follows = may_follow_keyword(code.as_bytes(), span.lo);
    assert!(!follows);
    rewrites.emit(replace_string_with_dictionary_ref(0, span, follows));
    rewrites.add_token_position(0);
    rewrites.add_token_position(10);
    rewrites.add_token_position(13);
    let out = complete_transform(
        "test.js",
        code,
        &None,
        &InstrumentationOptions::default(),
        smc,
        false,
        dict,
        feats,
        idents,
        rewrites,
    )
    .unwrap();
    assert_eq!(
        out.code,
        "import{$}from'datadog:privacy-helpers.mjs';const D=$([\"a\"]);const x = D[0]"
    );
    let map = out.map.expect("a source map is produced");
    assert!(map.contains("mappings"));
    assert!(map.contains("test.js"));
}

#[test]
fn exclude_file_directive_suppresses_everything() {
    let code = "// datadog-privacy-allowlist-exclude-file\nconst x = \"hello there\"";
    let comments = vec![Comment {
        text: " datadog-privacy-allowlist-exclude-file".to_owned(),
        span: Span { lo: 0, hi: 42 },
    }];
    let (mut dict, feats, mut idents, mut rewrites, smc) = fresh_trackers(code, comments);
    idents.add_ident("x");
    let span = Span { lo: 53, hi: 66 };
    // The directive excludes the whole file: nothing is collected.
    let index = dict.maybe_add_string(
        &Some("\"hello there\"".to_owned()),
        &"hello there".to_owned(),
        &span,
    );
    assert_eq!(index, None);
    assert_eq!(dict.strings.len(), 0);
    rewrites.add_token_position(43);
    let out = complete_transform(
        "test.js",
        code,
        &None,
        &InstrumentationOptions::default(),
        smc,
        false,
        dict,
        feats,
        idents,
        rewrites,
    )
    .unwrap();
    // Zero dictionary entries and zero rewrites: the code is unchanged.
    assert_eq!(out.code, code);
}

#[test]
fn exclude_begin_and_end_directives_bound_a_region() {
    let code = "aaaa bbbb cccc dddd";
    let comments = vec![
        Comment {
            text: "datadog-privacy-allowlist-exclude-begin".to_owned(),
            span: Span { lo: 5, hi: 6 },
        },
        Comment {
            text: "datadog-privacy-allowlist-exclude-end".to_owned(),
            span: Span { lo: 14, hi: 15 },
        },
    ];
    let (mut dict, _feats, _idents, _rewrites, _smc) = fresh_trackers(code, comments);
    // Inside the excluded region.
    assert_eq!(
        dict.maybe_add_string(
            &Some("\"hello there\"".to_owned()),
            &"hello there".to_owned(),
            &Span { lo: 8, hi: 12 },
        ),
        None
    );
    // After the region's end.
    assert_eq!(
        dict.maybe_add_string(
            &Some("\"hello there\"".to_owned()),
            &"hello there".to_owned(),
            &Span { lo: 16, hi: 18 },
        ),
        Some(0)
    );
}

#[test]
fn external_source_map_comment_yields_no_map() {
    let code = "const x = 1;";
    let comments = vec![Comment {
        text: "# sourceMappingURL=http://example.invalid/out.map".to_owned(),
        span: Span { lo: 0, hi: 12 },
    }];
    let (dict, feats, idents, rewrites, smc) = fresh_trackers(code, comments);
    assert!(matches!(smc, Some(SourceMapComment::External)));
    assert_eq!(source_map_comment_span_to_delete(&smc), None);
    let out = complete_transform(
        "test.js",
        code,
        &None,
        &InstrumentationOptions::default(),
        smc,
        false,
        dict,
        feats,
        idents,
        rewrites,
    )
    .unwrap();
    assert_eq!(out.map, None);
    assert_eq!(out.code, code);
}

#[test]
fn inline_source_map_comment_is_decoded_and_deleted() {
    let code = "const x = 1;\n//# sourceMappingURL=data:application/json,%7B%22version%22%3A3%2C%22sources%22%3A%5B%22a.js%22%5D%2C%22names%22%3A%5B%5D%2C%22mappings%22%3A%22AAAA%22%7D";
    let comment_span = Span { lo: 13, hi: code.len() };
    let comments = vec![Comment {
        text: code[15..].to_owned(),
        span: comment_span,
    }];
    let (dict, feats, idents, rewrites, smc) = fresh_trackers(code, comments);
    match &smc {
        Some(SourceMapComment::Inline(body, span)) => {
            let decoded = String::from_utf8(body.clone()).unwrap();
            assert!(decoded.contains("\"version\":3"));
            assert!(decoded.contains("a.js"));
            assert_eq!(*span, comment_span);
        }
        other => panic!("expected an inline source map comment, got {:?}", other.is_some()),
    }
    assert_eq!(source_map_comment_span_to_delete(&smc), Some(comment_span));
    let out = complete_transform(
        "test.js",
        code,
        &None,
        &InstrumentationOptions::default(),
        smc,
        false,
        dict,
        feats,
        idents,
        rewrites,
    )
    .unwrap();
    // The stale inline comment is removed and the chained map points back at
    // the original source named by the old map.
    assert_eq!(out.code, "const x = 1;\n");
    let map = out.map.expect("a chained map is produced");
    assert!(map.contains("a.js"));
}

#[test]
fn unparsable_input_map_is_a_fatal_error() {
    let code = "const x = 1;";
    let (dict, feats, idents, rewrites, smc) = fresh_trackers(code, vec![]);
    let result = complete_transform(
        "test.js",
        code,
        &Some("this is not a source map".to_owned()),
        &InstrumentationOptions::default(),
        smc,
        false,
        dict,
        feats,
        idents,
        rewrites,
    );
    assert!(result.is_err());
}

#[test]
fn module_kind_decision_table() {
    let mut options = InstrumentationOptions::default();
    assert_eq!(module_kind_for("a.js", &options, None), ModuleKind::ESM);
    assert_eq!(module_kind_for("a.cjs", &options, None), ModuleKind::CJS);
    assert_eq!(module_kind_for("a.mjs", &options, None), ModuleKind::ESM);
    assert_eq!(
        module_kind_for(
            "a.js",
            &options,
            Some(ModuleKeywordUsage { cjs: true, esm: false })
        ),
        ModuleKind::CJS
    );
    assert_eq!(
        module_kind_for(
            "a.js",
            &options,
            Some(ModuleKeywordUsage { cjs: true, esm: true })
        ),
        ModuleKind::ESM
    );
    options.input.module = Some(ModuleKind::CJS);
    assert_eq!(module_kind_for("a.mjs", &options, None), ModuleKind::CJS);
}

#[test]
fn filename_classification() {
    assert!(filename_is_jsx("a.tsx"));
    assert!(filename_is_jsx("a.cjsx"));
    assert!(!filename_is_jsx("a.ts"));
    assert!(filename_is_typescript("a.mts"));
    assert!(!filename_is_typescript("a.jsx"));
    assert!(filename_is_explicitly_cjs("a.ctsx"));
    assert!(!filename_is_explicitly_cjs("a.mjs"));
    assert!(filename_is_explicitly_esm("a.mjsx"));
    assert!(!filename_is_explicitly_esm("a.cts"));
}

#[test]
fn cjs_module_kind_shapes_the_helper_import() {
    let code = "const x = \"hello there\"";
    let (mut dict, mut feats, idents, mut rewrites, smc) = fresh_trackers(code, vec![]);
    feats.observed_cjs_exports_or_require();
    let span = Span { lo: 10, hi: 23 };
    let index = dict.maybe_add_string(
        &Some("\"hello there\"".to_owned()),
        &"hello there".to_owned(),
        &span,
    );
    assert_eq!(index, Some(0));
    rewrites.emit(replace_string_with_dictionary_ref(0, span, false));
    let out = complete_transform(
        "test.js",
        code,
        &None,
        &InstrumentationOptions::default(),
        smc,
        false,
        dict,
        feats,
        idents,
        rewrites,
    )
    .unwrap();
    assert_eq!(
        out.code,
        "const{$}=require('datadog:privacy-helpers.cjs');const D=$([\"hello there\"]);const x = D[0]"
    );
}

#[test]
fn shebang_moves_the_header_to_the_second_line() {
    let code = "#!/usr/bin/env node\nconst x = \"hello there\"";
    let (mut dict, feats, idents, mut rewrites, smc) = fresh_trackers(code, vec![]);
    let span = Span { lo: 30, hi: 43 };
    assert_eq!(
        dict.maybe_add_string(
            &Some("\"hello there\"".to_owned()),
            &"hello there".to_owned(),
            &span,
        ),
        Some(0)
    );
    rewrites.emit(replace_string_with_dictionary_ref(0, span, false));
    let out = complete_transform(
        "test.js",
        code,
        &None,
        &InstrumentationOptions::default(),
        smc,
        true,
        dict,
        feats,
        idents,
        rewrites,
    )
    .unwrap();
    assert_eq!(
        out.code,
        "#!/usr/bin/env node\nimport{$}from'datadog:privacy-helpers.mjs';const D=$([\"hello there\"]);const x = D[0]"
    );
}

#[test]
fn next_char_pos_steps_over_multibyte_characters() {
    let code = "a\u{00e9}z";
    let bytes = code.as_bytes();
    assert_eq!(next_char_pos(bytes, 0), 1);
    assert_eq!(next_char_pos(bytes, 1), 3);
    assert_eq!(next_char_pos(bytes, 3), 4);
    assert_eq!(next_char_pos(bytes, 4), 4);
}
