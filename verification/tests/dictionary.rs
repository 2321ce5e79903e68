use js_instrumentation::dictionary::{DictionaryEntry, DictionaryTracker};
use js_instrumentation::directives::DirectiveSet;
use js_instrumentation::optimizer::OptimizedDictionary;
use js_instrumentation::span::Span;

fn tracker() -> DictionaryTracker {
    DictionaryTracker::new(DirectiveSet::none())
}

fn add_plain(t: &mut DictionaryTracker, raw: &str, value: &str, lo: usize) -> Option<usize> {
    let hi = lo + raw.len();
    t.maybe_add_string(
        &Some(raw.to_owned()),
        &value.to_owned(),
        &Span { lo, hi },
    )
}

#[test]
fn indexing_is_idempotent_and_counts_additions() {
    let mut t = tracker();
    let first = add_plain(&mut t, "\"hello there\"", "hello there", 0);
    let second = add_plain(&mut t, "\"hello there\"", "hello there", 40);
    assert_eq!(first, Some(0));
    assert_eq!(second, Some(0));
    let entry = t.strings.get_index(0).unwrap();
    assert_eq!(entry.1.count, 2);
    assert_eq!(entry.1.index, 0);
    // The first position seen is kept.
    assert_eq!(entry.1.first_pos, 0);
    // A different candidate takes the next index.
    let third = add_plain(&mut t, "\"other words\"", "other words", 80);
    assert_eq!(third, Some(1));
}

#[test]
fn unwanted_candidates_are_skipped() {
    let mut t = tracker();
    // Whitespace-only.
    assert_eq!(add_plain(&mut t, "\"  \"", "  ", 0), None);
    // URL-like.
    assert_eq!(add_plain(&mut t, "\"https://x/y\"", "https://x/y", 0), None);
    assert_eq!(add_plain(&mut t, "\"//cdn/x\"", "//cdn/x", 0), None);
    assert_eq!(add_plain(&mut t, "\"url(abc)\"", "url(abc)", 0), None);
    // Filename-like.
    assert_eq!(add_plain(&mut t, "\"logo.png\"", "logo.png", 0), None);
    assert_eq!(add_plain(&mut t, "\"mod.mjs\"", "mod.mjs", 0), None);
    // Numeric-like.
    assert_eq!(add_plain(&mut t, "\"123-456\"", "123-456", 0), None);
    assert_eq!(add_plain(&mut t, "\"[7]\"", "[7]", 0), None);
    // Code-like.
    assert_eq!(
        add_plain(&mut t, "\"x\\\"use strict\\\"y\"", "x\"use strict\"y", 0),
        None
    );
    // Longer than the cap.
    let long = "a".repeat(4097);
    assert_eq!(add_plain(&mut t, &format!("\"{}\"", long), &long, 0), None);
    assert_eq!(t.strings.len(), 0);
    // A wanted candidate still lands.
    assert_eq!(add_plain(&mut t, "\"hello there\"", "hello there", 0), Some(0));
}

#[test]
fn uncollected_scopes_suspend_collection() {
    let mut t = tracker();
    t.enter_uncollected_scope();
    assert_eq!(add_plain(&mut t, "\"hello there\"", "hello there", 0), None);
    t.exit_uncollected_scope();
    assert_eq!(add_plain(&mut t, "\"hello there\"", "hello there", 0), Some(0));
    // Exiting more scopes than were entered stays at zero.
    t.exit_uncollected_scope();
    assert_eq!(add_plain(&mut t, "\"more words\"", "more words", 20), Some(1));
}

#[test]
fn directive_exclusions_suppress_collection() {
    let set = DirectiveSet {
        privacy_allowlist_excluded_file: false,
        privacy_allowlist_excluded_spans: vec![Span { lo: 10, hi: 20 }],
    };
    let mut t = DictionaryTracker::new(set);
    // Overlapping the excluded span: skipped.
    assert_eq!(add_plain(&mut t, "\"hello there\"", "hello there", 15), None);
    // Outside the excluded span: collected.
    assert_eq!(add_plain(&mut t, "\"hello there\"", "hello there", 30), Some(0));
}

#[test]
fn benefit_follows_length_and_count() {
    // A 26-byte quoted string occurring 3 times, with identifier D: the
    // shortest reference costs 4 bytes, so the benefit is (26 - 4) * 3.
    let entry = DictionaryEntry::Str("\"hello world this is long\"".to_owned());
    assert_eq!(entry.max_dict_ref_benefit("D", 3), 66);
    // A 10-byte string occurring once: (10 - 4) * 1.
    let small = DictionaryEntry::Str("\"12345678\"".to_owned());
    assert_eq!(small.max_dict_ref_benefit("D", 1), 6);
    // No benefit when the reference would not be shorter.
    let tiny = DictionaryEntry::Str("\"a\"".to_owned());
    assert_eq!(tiny.max_dict_ref_benefit("D", 3), 0);
    // Tagged templates get a deliberately small constant benefit.
    let tagged = DictionaryEntry::TaggedTemplate(vec!["x".to_owned()]);
    assert_eq!(tagged.max_dict_ref_benefit("D", 1), 1);
    assert_eq!(tagged.max_dict_ref_benefit("D", 2), 2);
}

#[test]
fn optimizer_orders_by_descending_benefit() {
    let mut t = tracker();
    // Low-benefit entry inserted first.
    add_plain(&mut t, "\"abc defg\"", "abc defg", 0);
    // High-benefit entry inserted second: three occurrences of a long string.
    add_plain(&mut t, "\"hello world this is long\"", "hello world this is long", 20);
    add_plain(&mut t, "\"hello world this is long\"", "hello world this is long", 60);
    add_plain(&mut t, "\"hello world this is long\"", "hello world this is long", 90);
    let od = OptimizedDictionary::build(&"D".to_owned(), t.strings);
    // The long string (insertion index 1) takes slot 0.
    assert_eq!(od.entry_for_index(1).unwrap(), 0);
    assert_eq!(od.entry_for_index(0).unwrap(), 1);
    assert_eq!(od.indices, vec![1, 0]);
}

#[test]
fn optimizer_breaks_ties_by_insertion_order() {
    let mut t = tracker();
    add_plain(&mut t, "\"first text\"", "first text", 0);
    add_plain(&mut t, "\"other text\"", "other text", 20);
    let od = OptimizedDictionary::build(&"D".to_owned(), t.strings);
    assert_eq!(od.indices, vec![0, 1]);
    assert_eq!(od.entry_for_index(0).unwrap(), 0);
    assert_eq!(od.entry_for_index(1).unwrap(), 1);
}

#[test]
fn entry_for_index_rejects_unknown_indices() {
    let t = tracker();
    let od = OptimizedDictionary::build(&"D".to_owned(), t.strings);
    match od.entry_for_index(0) {
        Err(e) => {
            assert_eq!(e.message(), "invalid dictionary index");
        }
        Ok(_) => panic!("an empty dictionary has no entries"),
    }
}

#[test]
fn jsx_attribute_values_are_normalized() {
    let mut t = tracker();
    // The entity decodes to a double quote, which must then be escaped.
    let r = t.maybe_add_jsx_attribute(
        &Some("\"a&quot;b and more\"".to_owned()),
        &"a&quot;b and more".to_owned(),
        &Span { lo: 0, hi: 18 },
    );
    assert_eq!(r, Some(0));
    match &t.strings.get_index(0).unwrap().0 {
        DictionaryEntry::Str(s) => assert_eq!(s, "\"a\\\"b and more\""),
        _ => panic!("expected a plain string entry"),
    }
}

#[test]
fn jsx_attribute_keeps_single_quote_style() {
    let mut t = tracker();
    let r = t.maybe_add_jsx_attribute(
        &Some("'it&apos;s here today'".to_owned()),
        &"it&apos;s here today".to_owned(),
        &Span { lo: 0, hi: 22 },
    );
    assert_eq!(r, Some(0));
    match &t.strings.get_index(0).unwrap().0 {
        DictionaryEntry::Str(s) => assert_eq!(s, "'it\\'s here today'"),
        _ => panic!("expected a plain string entry"),
    }
}

#[test]
fn jsx_text_collapses_line_continuations() {
    let mut t = tracker();
    let raw = "\n   first words\n   second words\n   ";
    let r = t.maybe_add_jsx_text(
        &raw.to_owned(),
        &"first words second words".to_owned(),
        &Span { lo: 0, hi: raw.len() },
    );
    assert_eq!(r, Some(0));
    match &t.strings.get_index(0).unwrap().0 {
        DictionaryEntry::Str(s) => assert_eq!(s, "\"first words second words\""),
        _ => panic!("expected a plain string entry"),
    }
}

#[test]
fn template_candidates_have_their_own_kinds() {
    let mut t = tracker();
    let quasi = t.maybe_add_template_quasi(&"hello world".to_owned(), &Span { lo: 0, hi: 11 });
    assert_eq!(quasi, Some(0));
    let tagged = t.maybe_add_tagged_template(
        vec!["hello world".to_owned()],
        &Span { lo: 20, hi: 33 },
    );
    // A tagged template with the same text is a distinct entry.
    assert_eq!(tagged, Some(1));
    match &t.strings.get_index(0).unwrap().0 {
        DictionaryEntry::TemplateQuasi(s) => assert_eq!(s, "hello world"),
        _ => panic!("expected a template quasi entry"),
    }
    match &t.strings.get_index(1).unwrap().0 {
        DictionaryEntry::TaggedTemplate(qs) => assert_eq!(qs, &vec!["hello world".to_owned()]),
        _ => panic!("expected a tagged template entry"),
    }
}
