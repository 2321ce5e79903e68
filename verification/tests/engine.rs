use js_instrumentation::content::PrivacyRewriteContent;
use js_instrumentation::dictionary::DictionaryTracker;
use js_instrumentation::directives::DirectiveSet;
use js_instrumentation::module_kind::ModuleKind;
use js_instrumentation::optimizer::OptimizedDictionary;
use js_instrumentation::options::HelperFunctionSource;
use js_instrumentation::plan::build_rewrite_plan;
use js_instrumentation::rewrite::{Rewrite, RewriteError};
use js_instrumentation::span::{spans_intersect, Span};
use js_instrumentation::template::{LeftContext, PrivacyRewriteTemplate, TemplateParameters};
use js_instrumentation::text::usize_to_string;

fn replace(lo: usize, hi: usize, text: &str) -> Rewrite<PrivacyRewriteContent> {
    Rewrite::Replace {
        content: PrivacyRewriteContent::StringDictionaryReference(text.to_owned()),
        span: Span { lo, hi },
    }
}

fn insert(pos: usize, text: &str) -> Rewrite<PrivacyRewriteContent> {
    Rewrite::Insert {
        content: PrivacyRewriteContent::HelperImport(text.to_owned()),
        pos,
    }
}

fn apply_all(
    header: Vec<Rewrite<PrivacyRewriteContent>>,
    body: Vec<Rewrite<PrivacyRewriteContent>>,
    src: &str,
) -> String {
    let plan = build_rewrite_plan(header, body);
    let (bytes, _tokens) = plan.apply(src.as_bytes(), vec![]);
    String::from_utf8(bytes).unwrap()
}

#[test]
fn plan_applies_replacements_and_insertions() {
    let out = apply_all(
        vec![insert(0, "H;")],
        vec![replace(6, 11, "D[0]")],
        "hello world and more",
    );
    assert_eq!(out, "H;hello D[0] and more");
}

#[test]
fn plan_is_stable_under_insertion_order() {
    let src = "abcdefghij";
    let one = apply_all(
        vec![],
        vec![replace(0, 2, "X"), replace(4, 6, "Y"), replace(8, 10, "Z")],
        src,
    );
    let two = apply_all(
        vec![],
        vec![replace(8, 10, "Z"), replace(0, 2, "X"), replace(4, 6, "Y")],
        src,
    );
    let three = apply_all(
        vec![],
        vec![replace(4, 6, "Y"), replace(8, 10, "Z"), replace(0, 2, "X")],
        src,
    );
    assert_eq!(one, "XcdYghZ");
    assert_eq!(two, one);
    assert_eq!(three, one);
}

#[test]
fn overlapping_rewrites_keep_the_first_sorted() {
    let src = "0123456789";
    // The second replacement overlaps the first and is dropped.
    let out = apply_all(vec![], vec![replace(0, 5, "A"), replace(3, 8, "B")], src);
    assert_eq!(out, "A56789");
    // At one start position, the larger range wins.
    let out = apply_all(vec![], vec![replace(2, 5, "S"), replace(2, 8, "L")], src);
    assert_eq!(out, "01L89");
}

#[test]
fn kept_replacement_spans_never_intersect() {
    let plan = build_rewrite_plan(
        vec![],
        vec![replace(0, 5, "A"), replace(3, 8, "B"), replace(5, 9, "C")],
    );
    let spans: Vec<Span> = plan.rewrites.iter().map(|rw| rw.span()).collect();
    for i in 0..spans.len() {
        for j in 0..spans.len() {
            if i != j {
                assert!(!spans_intersect(&spans[i], &spans[j]));
            }
        }
    }
}

#[test]
fn inserts_at_one_point_keep_content_order() {
    let src = "body";
    let header = vec![
        Rewrite::Insert {
            content: PrivacyRewriteContent::DictionaryDeclarationOpener("const D=$([".to_owned()),
            pos: 0,
        },
        Rewrite::Insert {
            content: PrivacyRewriteContent::HelperImport("import $;".to_owned()),
            pos: 0,
        },
        Rewrite::Insert {
            content: PrivacyRewriteContent::DictionaryDeclarationCloser("]);".to_owned()),
            pos: 0,
        },
        Rewrite::Insert {
            content: PrivacyRewriteContent::DictionaryDeclarationEntry("\"b\"".to_owned(), 1, 9),
            pos: 0,
        },
        Rewrite::Insert {
            content: PrivacyRewriteContent::DictionaryDeclarationEntry("\"a\"".to_owned(), 0, 5),
            pos: 0,
        },
    ];
    // Whatever order they were built in, the helper import comes first, then
    // the opener, the entries in slot order, and the closer.
    let out = apply_all(header, vec![], src);
    assert_eq!(out, "import $;const D=$([\"a\"\"b\"]);body");
}

#[test]
fn emitter_covers_the_origin_and_maps_lines() {
    let src = "one\ntwo\nthree";
    let plan = build_rewrite_plan(vec![], vec![replace(4, 7, "TWO")]);
    let (bytes, tokens) = plan.apply(src.as_bytes(), vec![0, 4, 8]);
    assert_eq!(String::from_utf8(bytes).unwrap(), "one\nTWO\nthree");
    // A token anchors the origin of the output.
    assert!(tokens
        .iter()
        .any(|t| t.dst_line == 0 && t.dst_col == 0 && t.src_line == 0 && t.src_col == 0));
    // Every line of the output carries a mapping to the matching source line.
    for line in 0..3 {
        assert!(tokens.iter().any(|t| t.dst_line == line && t.src_line == line));
    }
    // Every token points at a line that exists in the source.
    for t in &tokens {
        assert!(t.src_line <= 2);
    }
}

#[test]
fn only_plain_references_may_be_dropped_for_size() {
    let reference = PrivacyRewriteContent::StringDictionaryReference("D[0]".to_owned());
    assert!(reference.should_only_replace_if_smaller());
    assert_eq!(reference.len(), 4);
    let import = PrivacyRewriteContent::HelperImport("import $;".to_owned());
    assert!(!import.should_only_replace_if_smaller());
    let opener = PrivacyRewriteContent::TaggedTemplateOpenerDictionaryReference("(D[0]".to_owned());
    assert!(!opener.should_only_replace_if_smaller());
}

#[test]
fn decimal_rendering_is_exact() {
    assert_eq!(usize_to_string(0), "0");
    assert_eq!(usize_to_string(7), "7");
    assert_eq!(usize_to_string(42), "42");
    assert_eq!(usize_to_string(907), "907");
    assert_eq!(usize_to_string(1000), "1000");
}

#[test]
fn rewrites_carry_their_content_and_range() {
    let rw = replace(3, 9, "D[2]");
    assert_eq!(rw.lo(), 3);
    assert_eq!(rw.hi(), 9);
    assert_eq!(rw.span(), Span { lo: 3, hi: 9 });
    let ins = insert(5, "H;");
    assert_eq!(ins.lo(), 5);
    assert_eq!(ins.hi(), 5);
    let mapped = ins.map_content(|c| c.len());
    assert_eq!(mapped.lo(), 5);
    let kept = rw.filter_map_content(|c| Some(c.len()));
    assert!(kept.is_some());
    let dropped: Option<js_instrumentation::rewrite::Rewrite<usize>> =
        rw.filter_map_content(|_| None);
    assert!(dropped.is_none());
    let err = RewriteError::new("went sideways".to_owned());
    assert_eq!(err.reason, "went sideways");
}

#[test]
fn template_evaluation_renders_references() {
    let mut t = DictionaryTracker::new(DirectiveSet::none());
    t.maybe_add_string(
        &Some("\"hello there\"".to_owned()),
        &"hello there".to_owned(),
        &Span { lo: 0, hi: 13 },
    );
    let od = OptimizedDictionary::build(&"D".to_owned(), t.strings);
    let source = HelperFunctionSource::Expression {
        code: "(x)=>x".to_owned(),
    };
    let params = TemplateParameters::new(
        od,
        "D".to_owned(),
        &source,
        "$".to_owned(),
        ModuleKind::ESM,
    );
    let text = |c: js_instrumentation::content::PrivacyRewriteContent| c.text().clone();
    assert_eq!(
        text(PrivacyRewriteTemplate::JSXStringDictionaryReference(0).evaluate(&params).unwrap()),
        "{D[0]}"
    );
    assert_eq!(
        text(PrivacyRewriteTemplate::PropertyKeyDictionaryReference(0).evaluate(&params).unwrap()),
        "[D[0]]"
    );
    assert_eq!(
        text(
            PrivacyRewriteTemplate::StringDictionaryReference(0, LeftContext::MaybeKeyword)
                .evaluate(&params)
                .unwrap()
        ),
        " D[0]"
    );
    assert_eq!(
        text(
            PrivacyRewriteTemplate::StringDictionaryReference(0, LeftContext::NonKeyword)
                .evaluate(&params)
                .unwrap()
        ),
        "D[0]"
    );
    assert_eq!(
        text(
            PrivacyRewriteTemplate::TaggedTemplateOpenerDictionaryReference(0)
                .evaluate(&params)
                .unwrap()
        ),
        "(D[0]"
    );
    assert_eq!(
        text(PrivacyRewriteTemplate::TemplateQuasiDictionaryReference(0).evaluate(&params).unwrap()),
        "${D[0]}"
    );
    // A template naming an entry the dictionary never produced fails.
    assert!(PrivacyRewriteTemplate::JSXStringDictionaryReference(7).evaluate(&params).is_err());
}

#[test]
fn placeholder_tokens_resolve_to_later_source_positions() {
    // A declaration entry inserted at the start maps back to the source
    // position of the entry's first occurrence, which the pass has not
    // visited yet when the insertion is emitted.
    let src = "ab\ncd";
    let header = vec![Rewrite::Insert {
        content: PrivacyRewriteContent::DictionaryDeclarationEntry("X".to_owned(), 0, 4),
        pos: 0,
    }];
    let plan = build_rewrite_plan(header, vec![]);
    let (bytes, tokens) = plan.apply(src.as_bytes(), vec![]);
    assert_eq!(String::from_utf8(bytes).unwrap(), "Xab\ncd");
    // The placeholder resolved: output origin maps to line 1, column 1,
    // where the entry's first occurrence lives.
    assert!(tokens
        .iter()
        .any(|t| t.dst_line == 0 && t.dst_col == 0 && t.src_line == 1 && t.src_col == 1));
}

#[test]
fn placeholders_past_the_end_of_file_are_dropped() {
    let src = "ab";
    let header = vec![Rewrite::Insert {
        content: PrivacyRewriteContent::DictionaryDeclarationEntry("X".to_owned(), 0, 99),
        pos: 0,
    }];
    let plan = build_rewrite_plan(header, vec![]);
    let (bytes, tokens) = plan.apply(src.as_bytes(), vec![]);
    assert_eq!(String::from_utf8(bytes).unwrap(), "Xab");
    // The key position 99 is never visited, so no token points at it; the
    // remaining tokens still map real positions.
    for t in &tokens {
        assert!(t.src_line == 0);
    }
}
