//! The file-level transform: freeze the trackers the walker filled, pick
//! identifiers, optimize the dictionary, evaluate the planned rewrites,
//! apply them, and compose the source map.

use vstd::prelude::*;

use crate::comments::SourceMapComment;
use crate::content::PrivacyRewriteContent;
use crate::declarations::{build_dictionary_declaration, build_helper_declaration};
use crate::dictionary::DictionaryTracker;
use crate::features::FeatureTracker;
use crate::identifiers::IdentifierTracker;
use crate::module_kind::module_kind_for;
use crate::optimizer::OptimizedDictionary;
use crate::options::{HelperFunctionSource, InstrumentationOptions, InstrumentationOutput};
use crate::plan::build_rewrite_plan;
use crate::rewrite::{Rewrite, RewriteContent};
use crate::source_maps::{build_source_map, chain_source_map_if_needed, pack_tokens,
    serialize_source_map, source_map_comment_span_to_delete, source_map_to_data_url, ChainedMap};
use crate::template::{delete_source_map_comment, PrivacyRewriteTemplate, RewriteTracker,
    TemplateParameters};
use crate::trusted::string_from_utf8;

verus! {

/// The identifier the dictionary would like to have.
pub fn default_dictionary_identifier() -> (r: &'static str)
    ensures
        r@ == "D"@,
{
    "D"
}

/// The helper name the transform would like to bind: the imported function's
/// own name when it is a single character (renaming it would only cost
/// space), and the one-character default otherwise.
pub fn get_default_add_to_dictionary_helper<'a>(options: &'a InstrumentationOptions) -> (r:
    &'a str)
    ensures
        match options.privacy.add_to_dictionary_helper {
            HelperFunctionSource::Expression { .. } => r@ == "$"@,
            HelperFunctionSource::Import { func, .. } => if crate::optimizer::byte_len(func@)
                == 1 {
                r@ == func@
            } else {
                r@ == "$"@
            },
        },
{
    match &options.privacy.add_to_dictionary_helper {
        HelperFunctionSource::Expression { .. } => "$",
        HelperFunctionSource::Import { func, .. } => {
            if func.as_str().len() == 1 {
                func.as_str()
            } else {
                "$"
            }
        },
    }
}

/// True when the byte just before `pos` could end a keyword, so that a
/// replacement starting at `pos` needs a separating space.
pub fn may_follow_keyword(src: &[u8], pos: usize) -> (r: bool)
    ensures
        r == (0 < pos <= src@.len() && 97 <= src@[pos as int - 1] <= 122),
{
    if pos == 0 || pos > src.len() {
        return false;
    }
    let b = src[pos - 1];
    97 <= b && b <= 122
}

/// The width of the UTF-8 character starting at `pos`, judged from its
/// leading byte.
pub open spec fn spec_char_width(b: u8) -> int {
    if b < 0xC0 {
        1
    } else if b < 0xE0 {
        2
    } else if b < 0xF0 {
        3
    } else {
        4
    }
}

/// The position after the character at `pos`, clamped to the end.
pub open spec fn spec_next_char_pos(src: Seq<u8>, pos: usize) -> usize {
    if pos >= src.len() {
        src.len() as usize
    } else if pos + spec_char_width(src[pos as int]) > src.len() {
        src.len() as usize
    } else {
        (pos + spec_char_width(src[pos as int])) as usize
    }
}

pub fn next_char_pos(src: &[u8], pos: usize) -> (r: usize)
    ensures
        r == spec_next_char_pos(src@, pos),
{
    let n = src.len();
    if pos >= n {
        return n;
    }
    let b = src[pos];
    let width: usize = if b < 0xC0 {
        1
    } else if b < 0xE0 {
        2
    } else if b < 0xF0 {
        3
    } else {
        4
    };
    if width > n - pos {
        n
    } else {
        pos + width
    }
}

/// Where the synthesized header goes: the start of the file, or just after
/// the first line when it holds a shebang.
pub fn compute_start_of_first_line(src: &[u8], has_shebang: bool) -> (r: usize)
    ensures
        has_shebang ==> r == crate::comments::line_end_of(src@, 0),
        !has_shebang ==> r == 0,
        r <= src@.len(),
{
    if has_shebang {
        let e = crate::comments::line_end_position(src, 0);
        e
    } else {
        0
    }
}

/// Evaluate the walker's planned rewrites against the optimized dictionary,
/// dropping (fail-soft) each rewrite whose template names an unknown entry
/// or whose range does not fit the source.
fn evaluate_rewrites(
    rewrites: &Vec<Rewrite<PrivacyRewriteTemplate>>,
    params: &TemplateParameters,
    src_len: usize,
) -> (r: Vec<Rewrite<PrivacyRewriteContent>>)
    ensures
        forall|k: int|
            0 <= k < r@.len() ==> (#[trigger] r@[k]).wf() && r@[k].spec_hi() <= src_len,
        crate::plan::views_of(r@) == crate::template::spec_eval_views(
            rewrites@,
            params.dictionary.strings.entries@,
            params.dictionary_identifier@,
            src_len,
        ),
{
    let ghost entries = params.dictionary.strings.entries@;
    let ghost ident = params.dictionary_identifier@;
    let mut out: Vec<Rewrite<PrivacyRewriteContent>> = Vec::new();
    let mut i: usize = 0;
    proof {
        assert(rewrites@.skip(0) =~= rewrites@);
        assert(crate::plan::views_of(out@) + crate::template::spec_eval_views(
            rewrites@,
            entries,
            ident,
            src_len,
        ) =~= crate::template::spec_eval_views(rewrites@, entries, ident, src_len));
    }
    while i < rewrites.len()
        invariant
            0 <= i <= rewrites@.len(),
            entries == params.dictionary.strings.entries@,
            ident == params.dictionary_identifier@,
            forall|k: int|
                0 <= k < out@.len() ==> (#[trigger] out@[k]).wf() && out@[k].spec_hi() <= src_len,
            crate::plan::views_of(out@) + crate::template::spec_eval_views(
                rewrites@.skip(i as int),
                entries,
                ident,
                src_len,
            ) == crate::template::spec_eval_views(rewrites@, entries, ident, src_len),
        decreases rewrites@.len() - i,
    {
        let ghost rem = rewrites@.skip(i as int);
        proof {
            assert(rem[0] == rewrites@[i as int]);
            assert(rem.drop_first() =~= rewrites@.skip(i + 1));
        }
        let rw = &rewrites[i];
        let lo = rw.lo();
        let hi = rw.hi();
        let ghost pre_views = crate::plan::views_of(out@);
        if lo <= hi && hi <= src_len {
            match rw.content().evaluate(params) {
                Ok(content) => {
                    let ghost pre_out = out@;
                    match rw {
                        Rewrite::Insert { pos, .. } => {
                            out.push(Rewrite::Insert { content, pos: *pos });
                        },
                        Rewrite::Replace { span, .. } => {
                            out.push(Rewrite::Replace { content, span: *span });
                        },
                    }
                    proof {
                        assert(crate::plan::views_of(out@) =~= crate::plan::views_of(
                            pre_out,
                        ).push(crate::rewrite::rw_view(out@[out@.len() - 1])));
                        assert(crate::template::spec_eval_view(rem[0], entries, ident, src_len)
                            == Some(crate::rewrite::rw_view(out@[out@.len() - 1])));
                        assert(crate::plan::views_of(out@) + crate::template::spec_eval_views(
                            rewrites@.skip(i + 1),
                            entries,
                            ident,
                            src_len,
                        ) =~= crate::template::spec_eval_views(rewrites@, entries, ident, src_len));
                    }
                },
                Err(_) => {
                    // An unknown dictionary index is an internal defect: the
                    // affected span is left as original text and the
                    // transform continues.
                    proof {
                        assert(crate::template::spec_eval_view(rem[0], entries, ident, src_len)
                            is None);
                        assert(crate::plan::views_of(out@) + crate::template::spec_eval_views(
                            rewrites@.skip(i + 1),
                            entries,
                            ident,
                            src_len,
                        ) =~= crate::template::spec_eval_views(rewrites@, entries, ident, src_len));
                    }
                },
            }
        } else {
            proof {
                assert(crate::template::spec_eval_view(rem[0], entries, ident, src_len) is None);
                assert(crate::plan::views_of(out@) + crate::template::spec_eval_views(
                    rewrites@.skip(i + 1),
                    entries,
                    ident,
                    src_len,
                ) =~= crate::template::spec_eval_views(rewrites@, entries, ident, src_len));
            }
        }
        i += 1;
    }
    proof {
        assert(rewrites@.skip(rewrites@.len() as int) =~= Seq::<
            Rewrite<PrivacyRewriteTemplate>,
        >::empty());
        assert(crate::plan::views_of(out@) + Seq::<crate::rewrite::RewriteView>::empty()
            =~= crate::plan::views_of(out@));
    }
    out
}

/// The name the dictionary identifier is drawn from when still free.
pub open spec fn spec_default_dictionary_identifier() -> Seq<char> {
    "D"@
}

/// The helper name the transform asks for, per the helper source.
pub open spec fn spec_default_helper_name(source: HelperFunctionSource) -> Seq<char> {
    match source {
        HelperFunctionSource::Expression { .. } => "$"@,
        HelperFunctionSource::Import { func, .. } => if crate::optimizer::byte_len(func@) == 1 {
            func@
        } else {
            "$"@
        },
    }
}

/// The output text of the transform, given the identifiers and the
/// optimized dictionary it chose: the planned rewrites (plus the deletion of
/// a stale inline map comment) are evaluated against the dictionary, the
/// synthesized header is placed at the start of the first code line, the
/// whole set is planned, and the plan is folded over the source. `out_code`
/// matches when it decodes that fold, and the chosen dictionary agrees with
/// the tracker's entry for entry.
pub open spec fn transformed_code_matches(
    out_code: Seq<char>,
    id: Seq<char>,
    code: Seq<char>,
    module_option: Option<crate::module_kind::ModuleKind>,
    helper_source: HelperFunctionSource,
    source_map_comment: Option<SourceMapComment>,
    inline_source_map: bool,
    has_shebang: bool,
    tracker_entries: Seq<
        (crate::dictionary::DictionaryEntry, crate::dictionary::DictionaryEntryStats),
    >,
    keyword_usage: crate::module_kind::ModuleKeywordUsage,
    planned_rewrites: Seq<Rewrite<PrivacyRewriteTemplate>>,
    dict_ident: Seq<char>,
    helper_ident: Seq<char>,
    od_entries: Seq<
        (crate::dictionary::DictionaryEntry, crate::dictionary::DictionaryEntryStats),
    >,
    od_indices: Seq<usize>,
) -> bool {
    let src = vstd::utf8::encode_utf8(code);
    let start: usize = if has_shebang {
        crate::comments::line_end_of(src, 0) as usize
    } else {
        0
    };
    let planned = match source_map_comment {
        Some(SourceMapComment::Inline(_, span)) => planned_rewrites.push(
            Rewrite::Replace { content: PrivacyRewriteTemplate::DeleteSourceMapComment, span },
        ),
        _ => planned_rewrites,
    };
    let kind = crate::module_kind::spec_module_kind_for(id, module_option, Some(keyword_usage));
    let header = crate::declarations::spec_header_views(
        od_entries,
        od_indices,
        dict_ident,
        helper_ident,
        helper_source,
        kind,
        start,
    );
    let body = crate::template::spec_eval_views(
        planned,
        od_entries,
        dict_ident,
        src.len() as usize,
    );
    let emitted = crate::emit::spec_rewritten_views(
        src,
        crate::plan::spec_plan_views(header + body),
        0,
    );
    &&& od_entries.len() == tracker_entries.len()
    &&& (forall|k: int|
        0 <= k < od_entries.len() ==> (#[trigger] od_entries[k]).0 == tracker_entries[k].0
            && od_entries[k].1.count == tracker_entries[k].1.count && od_entries[k].1.first_pos
            == tracker_entries[k].1.first_pos)
    &&& (vstd::utf8::valid_utf8(emitted) ==> (if inline_source_map {
        exists|suffix: Seq<char>|
            #![auto]
            out_code == vstd::utf8::decode_utf8(emitted) + suffix && (suffix.len() == 0
                || crate::comments::chars_start_with(suffix, "//# sourceMappingURL="@))
    } else {
        out_code == vstd::utf8::decode_utf8(emitted)
    }))
}

/// Finish the transform once the walk is done. The trackers arrive as the
/// walker filled them; this chooses fresh identifiers for the dictionary and
/// the helper, orders the dictionary, renders and plans all rewrites, emits
/// the rewritten text with its mapping tokens, and composes the output map.
///
/// An external source-map comment always succeeds and yields no map; with no
/// older map to chain the transform always succeeds; otherwise it succeeds
/// exactly when the chosen older map parses. The result carries a map
/// exactly when no external map was detected, and its code is the
/// transformed text, followed (only when the map is inlined) by a
/// source-map-comment suffix.
#[verifier::rlimit(100)]
pub fn complete_transform(
    id: &str,
    code: &str,
    input_source_map: &Option<String>,
    options: &InstrumentationOptions,
    source_map_comment: Option<SourceMapComment>,
    has_shebang: bool,
    dictionary_tracker: DictionaryTracker,
    feature_tracker: FeatureTracker,
    identifier_tracker: IdentifierTracker,
    rewrite_tracker: RewriteTracker,
) -> (r: Result<InstrumentationOutput, String>)
    requires
        dictionary_tracker.wf(),
        identifier_tracker.wf(),
    ensures
        source_map_comment matches Some(SourceMapComment::External) ==> r is Ok,
        r matches Ok(out) ==> out.id@ == id@ && (out.map is None <==> source_map_comment matches
            Some(SourceMapComment::External)),
        match source_map_comment {
            Some(SourceMapComment::External) => r is Ok,
            Some(SourceMapComment::Inline(bytes, _)) => match *input_source_map {
                Some(supplied) => r is Ok <==> crate::source_maps::sourcemap_parse_ok(
                    vstd::utf8::encode_utf8(supplied@),
                ),
                None => r is Ok <==> crate::source_maps::sourcemap_parse_ok(bytes@),
            },
            None => match *input_source_map {
                Some(supplied) => r is Ok <==> crate::source_maps::sourcemap_parse_ok(
                    vstd::utf8::encode_utf8(supplied@),
                ),
                None => r is Ok,
            },
        },
        match r {
            Err(_) => true,
            Ok(out) => exists|
            dict_ident: Seq<char>,
            helper_ident: Seq<char>,
            od_entries: Seq<
                (crate::dictionary::DictionaryEntry, crate::dictionary::DictionaryEntryStats),
            >,
            od_indices: Seq<usize>,
        |
            #![auto]
            {
                &&& transformed_code_matches(
                    out.code@,
                    id@,
                    code@,
                    options.input.module,
                    options.privacy.add_to_dictionary_helper,
                    source_map_comment,
                    options.output.inline_source_map,
                    has_shebang,
                    dictionary_tracker.strings.entries@,
                    feature_tracker.module_keyword_usage,
                    rewrite_tracker.rewrites@,
                    dict_ident,
                    helper_ident,
                    od_entries,
                    od_indices,
                )
                &&& (identifier_tracker.spec_reserved_available(
                    spec_default_dictionary_identifier(),
                ) ==> dict_ident == spec_default_dictionary_identifier())
                &&& ({
                    let pick = spec_default_helper_name(options.privacy.add_to_dictionary_helper);
                    identifier_tracker.spec_reserved_available(pick) && pick != dict_ident
                        ==> helper_ident == pick
                })
            },
        },
{
    let src = code.as_bytes();
    let ghost tracker_entries = dictionary_tracker.strings.entries@;
    let ghost planned_rewrites = rewrite_tracker.rewrites@;
    let mut identifier_tracker = identifier_tracker;
    let dictionary_identifier = identifier_tracker.new_unused_identifier(
        default_dictionary_identifier(),
    );
    let ghost g_dict_ident = dictionary_identifier@;
    let dictionary = OptimizedDictionary::build(&dictionary_identifier, dictionary_tracker.strings);
    let helper_default = get_default_add_to_dictionary_helper(options);
    let helper_identifier = identifier_tracker.new_unused_identifier(helper_default);
    let ghost g_helper_ident = helper_identifier@;
    let module_kind = module_kind_for(id, options, Some(feature_tracker.module_keyword_usage));
    let params = TemplateParameters::new(
        dictionary,
        dictionary_identifier,
        &options.privacy.add_to_dictionary_helper,
        helper_identifier,
        module_kind,
    );
    let (mut rewrites, token_positions) = rewrite_tracker.take();
    match source_map_comment_span_to_delete(&source_map_comment) {
        Some(span) => {
            rewrites.push(delete_source_map_comment(span));
        },
        None => {},
    }
    proof {
        assert(rewrites@ == match source_map_comment {
            Some(SourceMapComment::Inline(_, span)) => planned_rewrites.push(
                Rewrite::Replace {
                    content: PrivacyRewriteTemplate::DeleteSourceMapComment,
                    span,
                },
            ),
            _ => planned_rewrites,
        });
    }
    let ghost g_planned = rewrites@;
    let start_of_first_line = compute_start_of_first_line(src, has_shebang);
    let mut header = build_helper_declaration(start_of_first_line, &params);
    let ghost helper_part = header@;
    let mut dictionary_declaration = build_dictionary_declaration(start_of_first_line, &params);
    let ghost dict_part = dictionary_declaration@;
    header.append(&mut dictionary_declaration);
    let ghost spec_header = crate::declarations::spec_header_views(
        params.dictionary.strings.entries@,
        params.dictionary.indices@,
        g_dict_ident,
        g_helper_ident,
        *params.add_to_dictionary_helper_source,
        params.module_kind,
        start_of_first_line,
    );
    proof {
        let n = params.dictionary.strings.entries@.len();
        assert forall|k: int| 0 <= k < header@.len() implies (#[trigger] header@[k]).wf()
            && header@[k].spec_hi() <= src@.len() by {
            if k < helper_part.len() {
                assert(header@[k] == helper_part[0]);
                assert(helper_part[0] is Insert);
            } else {
                let m = k - helper_part.len();
                assert(header@[k] == dict_part[m]);
                if m == 0 {
                    assert(dict_part[0] is Insert);
                } else if m <= n {
                    assert(dict_part[(m - 1) + 1] is Insert);
                } else {
                    assert(m == n + 1);
                    assert(dict_part[n as int + 1] is Insert);
                }
            }
        }
        if n == 0 {
            assert(crate::plan::views_of(header@) =~= spec_header);
        } else {
            assert(header@.len() == n + 3);
            assert(spec_header.len() == n + 3);
            assert forall|k: int| 0 <= k < header@.len() implies crate::plan::views_of(header@)[k]
                == spec_header[k] by {
                assert(crate::plan::views_of(header@)[k] == crate::rewrite::rw_view(header@[k]));
                if k == 0 {
                    assert(header@[k] == helper_part[0]);
                } else {
                    let m = k - 1;
                    assert(header@[k] == dict_part[m]);
                    if m == 0 {
                    } else if m <= n {
                        assert((dict_part[(m - 1) + 1] matches Rewrite::Insert { content, pos: p }
                            && p == start_of_first_line && (content matches
                        crate::content::PrivacyRewriteContent::DictionaryDeclarationEntry(
                            s,
                            slot,
                            first,
                        ) && slot == m - 1
                            && first
                            == params.dictionary.strings.entries@[params.dictionary.indices@[m - 1] as int].1.first_pos
                            && s@ == crate::declarations::declaration_entry_text(
                            params.dictionary.strings.entries@[params.dictionary.indices@[m
                                - 1] as int].0,
                            g_helper_ident,
                            m - 1,
                        ))));
                    } else {
                        assert(m == n + 1);
                    }
                }
            }
            assert(crate::plan::views_of(header@) =~= spec_header);
        }
    }
    let body = evaluate_rewrites(&rewrites, &params, src.len());
    let ghost header_all = header@;
    let ghost body_all = body@;
    let plan = build_rewrite_plan(header, body);
    proof {
        let all = header_all + body_all;
        assert forall|k: int| 0 <= k < plan.rewrites@.len() implies (
        #[trigger] plan.rewrites@[k]).spec_hi() <= src@.len() by {
            assert(crate::plan::views_of(all).contains(crate::rewrite::rw_view(
                plan.rewrites@[k],
            )));
            let m = choose|m: int|
                0 <= m < crate::plan::views_of(all).len() && crate::plan::views_of(all)[m]
                    == crate::rewrite::rw_view(plan.rewrites@[k]);
            assert(crate::plan::views_of(all)[m] == crate::rewrite::rw_view(all[m]));
            if m < header_all.len() {
                assert(all[m] == header_all[m]);
            } else {
                assert(all[m] == body_all[m - header_all.len()]);
            }
        }
    }
    let (out_bytes, tokens) = plan.apply(src, token_positions);
    let packed = pack_tokens(&tokens);
    let transform_map = if options.output.embed_code_in_source_map {
        build_source_map(&packed, id, Some(code))
    } else {
        build_source_map(&packed, id, None)
    };
    let chained = match chain_source_map_if_needed(
        &source_map_comment,
        input_source_map,
        transform_map,
    ) {
        Ok(c) => c,
        Err(e) => {
            return Err(e);
        },
    };
    let ghost g_out_bytes = out_bytes@;
    proof {
        let all = header_all + body_all;
        assert forall|k: int| 0 <= k < plan.rewrites@.len() implies (
        #[trigger] plan.rewrites@[k]).spec_content().rendered() == vstd::utf8::encode_utf8(
            plan.rewrites@[k].spec_content().key().text,
        ) by {}
        crate::emit::lemma_rewritten_views_agree(src@, plan.rewrites@, 0);
        assert(crate::plan::views_of(all) =~= crate::plan::views_of(header_all)
            + crate::plan::views_of(body_all));
        assert(crate::plan::views_of(body_all) == crate::template::spec_eval_views(
            g_planned,
            params.dictionary.strings.entries@,
            g_dict_ident,
            src@.len() as usize,
        ));
        assert(g_out_bytes == crate::emit::spec_rewritten_views(
            src@,
            crate::plan::spec_plan_views(
                spec_header + crate::template::spec_eval_views(
                    g_planned,
                    params.dictionary.strings.entries@,
                    g_dict_ident,
                    src@.len() as usize,
                ),
            ),
            0,
        ));
    }
    let mut out_code = string_from_utf8(out_bytes);
    let ghost g_base = out_code@;
    let ghost mut g_suffix: Seq<char> = Seq::empty();
    proof {
        assert(out_code@ =~= g_base + g_suffix);
    }
    let map: Option<String> = match chained {
        ChainedMap::NoMap => None,
        ChainedMap::TransformMap(m) => {
            if options.output.inline_source_map {
                match source_map_to_data_url(&m) {
                    Some(url) => {
                        out_code.append("//# sourceMappingURL=");
                        out_code.append(url.as_str());
                        proof {
                            g_suffix = "//# sourceMappingURL="@ + url@;
                            assert(out_code@ =~= g_base + g_suffix);
                        }
                    },
                    None => {
                        return Err("rendering the source map as a data URL failed".to_owned());
                    },
                }
            }
            match serialize_source_map(&m) {
                Some(s) => Some(s),
                None => {
                    return Err("serializing the output source map failed".to_owned());
                },
            }
        },
        ChainedMap::Chained(m) => {
            if options.output.inline_source_map {
                match source_map_to_data_url(&m) {
                    Some(url) => {
                        out_code.append("//# sourceMappingURL=");
                        out_code.append(url.as_str());
                        proof {
                            g_suffix = "//# sourceMappingURL="@ + url@;
                            assert(out_code@ =~= g_base + g_suffix);
                        }
                    },
                    None => {
                        return Err("rendering the source map as a data URL failed".to_owned());
                    },
                }
            }
            match serialize_source_map(&m) {
                Some(s) => Some(s),
                None => {
                    return Err("serializing the output source map failed".to_owned());
                },
            }
        },
    };
    let output = InstrumentationOutput { id: id.to_owned(), code: out_code, map };
    proof {
        assert(src@ == vstd::utf8::encode_utf8(code@));
        assert(output.code@ == g_base + g_suffix);
        assert(g_suffix.len() == 0 || crate::comments::chars_start_with(
            g_suffix,
            "//# sourceMappingURL="@,
        )) by {
            if g_suffix.len() != 0 {
                assert(g_suffix.take("//# sourceMappingURL="@.len() as int)
                    =~= "//# sourceMappingURL="@);
            }
        }
        if !options.output.inline_source_map {
            assert(g_suffix.len() == 0);
            assert(output.code@ =~= g_base);
        }
        assert(transformed_code_matches(
            output.code@,
            id@,
            code@,
            options.input.module,
            options.privacy.add_to_dictionary_helper,
            source_map_comment,
            options.output.inline_source_map,
            has_shebang,
            tracker_entries,
            feature_tracker.module_keyword_usage,
            planned_rewrites,
            g_dict_ident,
            g_helper_ident,
            params.dictionary.strings.entries@,
            params.dictionary.indices@,
        ));
        assert(identifier_tracker.spec_reserved_available(spec_default_dictionary_identifier())
            ==> g_dict_ident == spec_default_dictionary_identifier());
        assert({
            let pick = spec_default_helper_name(options.privacy.add_to_dictionary_helper);
            identifier_tracker.spec_reserved_available(pick) && pick != g_dict_ident
                ==> g_helper_ident == pick
        });
        assert(exists|
            dict_ident: Seq<char>,
            helper_ident: Seq<char>,
            od_entries: Seq<
                (crate::dictionary::DictionaryEntry, crate::dictionary::DictionaryEntryStats),
            >,
            od_indices: Seq<usize>,
        |
            #![auto]
            {
                &&& transformed_code_matches(
                    output.code@,
                    id@,
                    code@,
                    options.input.module,
                    options.privacy.add_to_dictionary_helper,
                    source_map_comment,
                    options.output.inline_source_map,
                    has_shebang,
                    tracker_entries,
                    feature_tracker.module_keyword_usage,
                    planned_rewrites,
                    dict_ident,
                    helper_ident,
                    od_entries,
                    od_indices,
                )
                &&& (identifier_tracker.spec_reserved_available(
                    spec_default_dictionary_identifier(),
                ) ==> dict_ident == spec_default_dictionary_identifier())
                &&& ({
                    let pick = spec_default_helper_name(options.privacy.add_to_dictionary_helper);
                    identifier_tracker.spec_reserved_available(pick) && pick != dict_ident
                        ==> helper_ident == pick
                })
            });
    }
    Ok(output)
}

} // verus!
