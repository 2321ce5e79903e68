//! Rewrite templates: the walker plans edits before the dictionary's final
//! slots are known, naming entries by their insertion index. Once the
//! dictionary is optimized, each template is evaluated into concrete text.

use vstd::prelude::*;

use crate::dictionary::DictionaryError;
use crate::module_kind::ModuleKind;
use crate::optimizer::OptimizedDictionary;
use crate::options::HelperFunctionSource;
use crate::plan::{dedup_sorted, sort_positions};
use crate::rewrite::Rewrite;
use crate::span::Span;
use crate::text::{spec_decimal, usize_to_string};
use crate::trusted::push_char;

verus! {

/// What stands immediately to the left of a replaced string literal: a
/// possible keyword (as in `case"foo"`), which needs a separating space, or
/// anything else.
#[derive(Clone, Copy, Debug, PartialEq, Eq, Structural)]
pub enum LeftContext {
    MaybeKeyword,
    NonKeyword,
}

/// A planned edit that still names dictionary entries by insertion index.
#[derive(Clone, Copy, Debug, PartialEq, Eq, Structural)]
pub enum PrivacyRewriteTemplate {
    JSXStringDictionaryReference(usize),
    PropertyKeyDictionaryReference(usize),
    StringDictionaryReference(usize, LeftContext),
    TaggedTemplateOpenerDictionaryReference(usize),
    TaggedTemplateBeforeExpr,
    TaggedTemplateAfterExpr,
    TaggedTemplateTerminator,
    TemplateQuasiDictionaryReference(usize),
    DeleteSourceMapComment,
}

/// The parameters template evaluation substitutes in: the optimized
/// dictionary, the identifiers chosen for the dictionary and the helper, the
/// helper's source, and the module kind.
pub struct TemplateParameters<'a> {
    pub dictionary: OptimizedDictionary,
    pub dictionary_identifier: String,
    pub add_to_dictionary_helper_source: &'a HelperFunctionSource,
    pub add_to_dictionary_helper_identifier: String,
    pub module_kind: ModuleKind,
}

impl<'a> TemplateParameters<'a> {
    pub fn new(
        dictionary: OptimizedDictionary,
        dictionary_identifier: String,
        add_to_dictionary_helper_source: &HelperFunctionSource,
        add_to_dictionary_helper_identifier: String,
        module_kind: ModuleKind,
    ) -> (r: TemplateParameters<'_>)
        ensures
            r.dictionary == dictionary,
            r.dictionary_identifier == dictionary_identifier,
            r.add_to_dictionary_helper_source == add_to_dictionary_helper_source,
            r.add_to_dictionary_helper_identifier == add_to_dictionary_helper_identifier,
            r.module_kind == module_kind,
    {
        TemplateParameters {
            dictionary,
            dictionary_identifier,
            add_to_dictionary_helper_source,
            add_to_dictionary_helper_identifier,
            module_kind,
        }
    }
}

/// `ident[slot]`: the basic dictionary reference text.
pub open spec fn plain_ref_text(ident: Seq<char>, slot: nat) -> Seq<char> {
    ident + seq!['['] + spec_decimal(slot) + seq![']']
}

/// `{ident[slot]}`: a dictionary reference in JSX position.
pub open spec fn jsx_ref_text(ident: Seq<char>, slot: nat) -> Seq<char> {
    seq!['{'] + plain_ref_text(ident, slot) + seq!['}']
}

/// `[ident[slot]]`: a dictionary reference in property-key position.
pub open spec fn property_key_ref_text(ident: Seq<char>, slot: nat) -> Seq<char> {
    seq!['['] + plain_ref_text(ident, slot) + seq![']']
}

/// `(ident[slot]`: the opener replacing a tagged template's backtick.
pub open spec fn tagged_opener_ref_text(ident: Seq<char>, slot: nat) -> Seq<char> {
    seq!['('] + plain_ref_text(ident, slot)
}

/// `${ident[slot]}`: a dictionary reference replacing a template quasi.
pub open spec fn quasi_ref_text(ident: Seq<char>, slot: nat) -> Seq<char> {
    seq!['$', '{'] + plain_ref_text(ident, slot) + seq!['}']
}

/// Build `ident[slot]` with optional prefix and suffix characters around it.
fn build_ref(
    ident: &String,
    slot: usize,
    prefix: Option<char>,
    second_prefix: Option<char>,
    suffix: Option<char>,
) -> (r: String)
    ensures
        r@ == (match prefix {
            Some(p) => seq![p],
            None => Seq::<char>::empty(),
        }) + (match second_prefix {
            Some(p) => seq![p],
            None => Seq::<char>::empty(),
        }) + plain_ref_text(ident@, slot as nat) + (match suffix {
            Some(x) => seq![x],
            None => Seq::<char>::empty(),
        }),
{
    let mut r = String::new();
    match prefix {
        Some(p) => push_char(&mut r, p),
        None => {},
    }
    match second_prefix {
        Some(p) => push_char(&mut r, p),
        None => {},
    }
    r.append(ident.as_str());
    push_char(&mut r, '[');
    let digits = usize_to_string(slot);
    r.append(digits.as_str());
    push_char(&mut r, ']');
    match suffix {
        Some(x) => {
            push_char(&mut r, x);
        },
        None => {},
    }
    proof {
        assert(r@ =~= (match prefix {
            Some(p) => seq![p],
            None => Seq::<char>::empty(),
        }) + (match second_prefix {
            Some(p) => seq![p],
            None => Seq::<char>::empty(),
        }) + plain_ref_text(ident@, slot as nat) + (match suffix {
            Some(x) => seq![x],
            None => Seq::<char>::empty(),
        }));
    }
    r
}

/// The order key of the content a template evaluates to, or nothing when
/// the template names an insertion index the dictionary never produced.
pub open spec fn template_key(
    t: PrivacyRewriteTemplate,
    entries: Seq<(crate::dictionary::DictionaryEntry, crate::dictionary::DictionaryEntryStats)>,
    ident: Seq<char>,
) -> Option<crate::rewrite::OrderKey> {
    match t {
        PrivacyRewriteTemplate::JSXStringDictionaryReference(index) => {
            if index < entries.len() {
                Some(
                    crate::rewrite::OrderKey {
                        rank: 4,
                        slot: 0,
                        text: jsx_ref_text(ident, entries[index as int].1.dictionary_entry as nat),
                        pos: 0,
                    },
                )
            } else {
                None
            }
        },
        PrivacyRewriteTemplate::PropertyKeyDictionaryReference(index) => {
            if index < entries.len() {
                Some(
                    crate::rewrite::OrderKey {
                        rank: 5,
                        slot: 0,
                        text: property_key_ref_text(
                            ident,
                            entries[index as int].1.dictionary_entry as nat,
                        ),
                        pos: 0,
                    },
                )
            } else {
                None
            }
        },
        PrivacyRewriteTemplate::StringDictionaryReference(index, left) => {
            if index < entries.len() {
                Some(
                    crate::rewrite::OrderKey {
                        rank: 6,
                        slot: 0,
                        text: (if left is MaybeKeyword {
                            seq![' ']
                        } else {
                            Seq::<char>::empty()
                        }) + plain_ref_text(
                            ident,
                            entries[index as int].1.dictionary_entry as nat,
                        ),
                        pos: 0,
                    },
                )
            } else {
                None
            }
        },
        PrivacyRewriteTemplate::TaggedTemplateOpenerDictionaryReference(index) => {
            if index < entries.len() {
                Some(
                    crate::rewrite::OrderKey {
                        rank: 7,
                        slot: 0,
                        text: tagged_opener_ref_text(
                            ident,
                            entries[index as int].1.dictionary_entry as nat,
                        ),
                        pos: 0,
                    },
                )
            } else {
                None
            }
        },
        PrivacyRewriteTemplate::TaggedTemplateBeforeExpr => Some(
            crate::rewrite::OrderKey { rank: 8, slot: 0, text: seq![',', ' '], pos: 0 },
        ),
        PrivacyRewriteTemplate::TaggedTemplateAfterExpr => Some(
            crate::rewrite::OrderKey { rank: 9, slot: 0, text: Seq::empty(), pos: 0 },
        ),
        PrivacyRewriteTemplate::TaggedTemplateTerminator => Some(
            crate::rewrite::OrderKey { rank: 10, slot: 0, text: seq![')'], pos: 0 },
        ),
        PrivacyRewriteTemplate::TemplateQuasiDictionaryReference(index) => {
            if index < entries.len() {
                Some(
                    crate::rewrite::OrderKey {
                        rank: 11,
                        slot: 0,
                        text: quasi_ref_text(
                            ident,
                            entries[index as int].1.dictionary_entry as nat,
                        ),
                        pos: 0,
                    },
                )
            } else {
                None
            }
        },
        PrivacyRewriteTemplate::DeleteSourceMapComment => Some(
            crate::rewrite::OrderKey { rank: 12, slot: 0, text: Seq::empty(), pos: 0 },
        ),
    }
}

/// The view of an evaluated template rewrite, or nothing when the rewrite is
/// dropped: its template names an unknown entry, or its range does not fit
/// the source.
pub open spec fn spec_eval_view(
    rw: Rewrite<PrivacyRewriteTemplate>,
    entries: Seq<(crate::dictionary::DictionaryEntry, crate::dictionary::DictionaryEntryStats)>,
    ident: Seq<char>,
    src_len: usize,
) -> Option<crate::rewrite::RewriteView> {
    if !(rw.spec_lo() <= rw.spec_hi() && rw.spec_hi() <= src_len) {
        None
    } else {
        match template_key(rw.spec_content(), entries, ident) {
            Some(key) => Some(
                crate::rewrite::RewriteView {
                    insert: rw.is_insert(),
                    lo: rw.spec_lo(),
                    hi: rw.spec_hi(),
                    key,
                },
            ),
            None => None,
        }
    }
}

/// The views of the rewrites that survive evaluation, in order.
pub open spec fn spec_eval_views(
    rws: Seq<Rewrite<PrivacyRewriteTemplate>>,
    entries: Seq<(crate::dictionary::DictionaryEntry, crate::dictionary::DictionaryEntryStats)>,
    ident: Seq<char>,
    src_len: usize,
) -> Seq<crate::rewrite::RewriteView>
    decreases rws.len(),
{
    if rws.len() == 0 {
        Seq::empty()
    } else {
        match spec_eval_view(rws[0], entries, ident, src_len) {
            Some(v) => seq![v] + spec_eval_views(rws.drop_first(), entries, ident, src_len),
            None => spec_eval_views(rws.drop_first(), entries, ident, src_len),
        }
    }
}

impl PrivacyRewriteTemplate {
    /// Substitute the final dictionary slots and chosen identifiers into the
    /// template. Fails with an invalid-index error exactly when the template
    /// names an insertion index the dictionary never produced.
    pub fn evaluate(&self, params: &TemplateParameters) -> (r: Result<
        crate::content::PrivacyRewriteContent,
        DictionaryError,
    >)
        ensures
            ({
                let ident = params.dictionary_identifier@;
                let entries = params.dictionary.strings.entries@;
                match *self {
                    PrivacyRewriteTemplate::JSXStringDictionaryReference(index) => {
                        if index < entries.len() {
                            r matches Ok(c) && c matches
                                crate::content::PrivacyRewriteContent::JSXStringDictionaryReference(s)
                                && s@ == jsx_ref_text(
                                ident,
                                entries[index as int].1.dictionary_entry as nat,
                            )
                        } else {
                            r == Err::<crate::content::PrivacyRewriteContent, DictionaryError>(
                                DictionaryError::InvalidIndex(index),
                            )
                        }
                    },
                    PrivacyRewriteTemplate::PropertyKeyDictionaryReference(index) => {
                        if index < entries.len() {
                            r matches Ok(c) && c matches
                                crate::content::PrivacyRewriteContent::PropertyKeyDictionaryReference(s)
                                && s@ == property_key_ref_text(
                                ident,
                                entries[index as int].1.dictionary_entry as nat,
                            )
                        } else {
                            r == Err::<crate::content::PrivacyRewriteContent, DictionaryError>(
                                DictionaryError::InvalidIndex(index),
                            )
                        }
                    },
                    PrivacyRewriteTemplate::StringDictionaryReference(index, left) => {
                        if index < entries.len() {
                            r matches Ok(c) && c matches
                                crate::content::PrivacyRewriteContent::StringDictionaryReference(s)
                                && s@ == (if left is MaybeKeyword {
                                seq![' ']
                            } else {
                                Seq::<char>::empty()
                            }) + plain_ref_text(
                                ident,
                                entries[index as int].1.dictionary_entry as nat,
                            )
                        } else {
                            r == Err::<crate::content::PrivacyRewriteContent, DictionaryError>(
                                DictionaryError::InvalidIndex(index),
                            )
                        }
                    },
                    PrivacyRewriteTemplate::TaggedTemplateOpenerDictionaryReference(index) => {
                        if index < entries.len() {
                            r matches Ok(c) && c matches
                                crate::content::PrivacyRewriteContent::TaggedTemplateOpenerDictionaryReference(s)
                                && s@ == tagged_opener_ref_text(
                                ident,
                                entries[index as int].1.dictionary_entry as nat,
                            )
                        } else {
                            r == Err::<crate::content::PrivacyRewriteContent, DictionaryError>(
                                DictionaryError::InvalidIndex(index),
                            )
                        }
                    },
                    PrivacyRewriteTemplate::TaggedTemplateBeforeExpr => r matches Ok(c) && c
                        matches crate::content::PrivacyRewriteContent::TaggedTemplateBeforeExpr(s)
                        && s@ == seq![',', ' '],
                    PrivacyRewriteTemplate::TaggedTemplateAfterExpr => r matches Ok(c) && c matches
                        crate::content::PrivacyRewriteContent::TaggedTemplateAfterExpr(s) && s@
                        == Seq::<char>::empty(),
                    PrivacyRewriteTemplate::TaggedTemplateTerminator => r matches Ok(c) && c
                        matches crate::content::PrivacyRewriteContent::TaggedTemplateTerminator(s)
                        && s@ == seq![')'],
                    PrivacyRewriteTemplate::TemplateQuasiDictionaryReference(index) => {
                        if index < entries.len() {
                            r matches Ok(c) && c matches
                                crate::content::PrivacyRewriteContent::TemplateQuasiDictionaryReference(s)
                                && s@ == quasi_ref_text(
                                ident,
                                entries[index as int].1.dictionary_entry as nat,
                            )
                        } else {
                            r == Err::<crate::content::PrivacyRewriteContent, DictionaryError>(
                                DictionaryError::InvalidIndex(index),
                            )
                        }
                    },
                    PrivacyRewriteTemplate::DeleteSourceMapComment => r matches Ok(c) && c matches
                        crate::content::PrivacyRewriteContent::DeleteSourceMapComment(s) && s@
                        == Seq::<char>::empty(),
                }
            }),
    {
        match self {
            PrivacyRewriteTemplate::JSXStringDictionaryReference(index) => {
                match params.dictionary.entry_for_index(*index) {
                    Ok(slot) => {
                        let text = build_ref(
                            &params.dictionary_identifier,
                            slot,
                            Some('{'),
                            None,
                            Some('}'),
                        );
                        proof {
                            assert(text@ =~= jsx_ref_text(
                                params.dictionary_identifier@,
                                slot as nat,
                            ));
                        }
                        Ok(crate::content::PrivacyRewriteContent::JSXStringDictionaryReference(text))
                    },
                    Err(e) => Err(e),
                }
            },
            PrivacyRewriteTemplate::PropertyKeyDictionaryReference(index) => {
                match params.dictionary.entry_for_index(*index) {
                    Ok(slot) => {
                        let text = build_ref(
                            &params.dictionary_identifier,
                            slot,
                            Some('['),
                            None,
                            Some(']'),
                        );
                        proof {
                            assert(text@ =~= property_key_ref_text(
                                params.dictionary_identifier@,
                                slot as nat,
                            ));
                        }
                        Ok(
                            crate::content::PrivacyRewriteContent::PropertyKeyDictionaryReference(
                                text,
                            ),
                        )
                    },
                    Err(e) => Err(e),
                }
            },
            PrivacyRewriteTemplate::StringDictionaryReference(index, left_context) => {
                match params.dictionary.entry_for_index(*index) {
                    Ok(slot) => {
                        // A replacement directly after something that may be
                        // a keyword (as in `case"foo"`) needs a separating
                        // space to stay valid code.
                        let prefix = match left_context {
                            LeftContext::MaybeKeyword => Some(' '),
                            LeftContext::NonKeyword => None,
                        };
                        let text = build_ref(
                            &params.dictionary_identifier,
                            slot,
                            prefix,
                            None,
                            None,
                        );
                        proof {
                            assert(text@ =~= (if left_context is MaybeKeyword {
                                seq![' ']
                            } else {
                                Seq::<char>::empty()
                            }) + plain_ref_text(params.dictionary_identifier@, slot as nat));
                        }
                        Ok(crate::content::PrivacyRewriteContent::StringDictionaryReference(text))
                    },
                    Err(e) => Err(e),
                }
            },
            PrivacyRewriteTemplate::TaggedTemplateOpenerDictionaryReference(index) => {
                match params.dictionary.entry_for_index(*index) {
                    Ok(slot) => {
                        let text = build_ref(
                            &params.dictionary_identifier,
                            slot,
                            Some('('),
                            None,
                            None,
                        );
                        proof {
                            assert(text@ =~= tagged_opener_ref_text(
                                params.dictionary_identifier@,
                                slot as nat,
                            ));
                        }
                        Ok(
                            crate::content::PrivacyRewriteContent::TaggedTemplateOpenerDictionaryReference(
                                text,
                            ),
                        )
                    },
                    Err(e) => Err(e),
                }
            },
            PrivacyRewriteTemplate::TaggedTemplateBeforeExpr => {
                let mut text = String::new();
                push_char(&mut text, ',');
                push_char(&mut text, ' ');
                proof {
                    assert(text@ =~= seq![',', ' ']);
                }
                Ok(crate::content::PrivacyRewriteContent::TaggedTemplateBeforeExpr(text))
            },
            PrivacyRewriteTemplate::TaggedTemplateAfterExpr => {
                Ok(crate::content::PrivacyRewriteContent::TaggedTemplateAfterExpr(String::new()))
            },
            PrivacyRewriteTemplate::TaggedTemplateTerminator => {
                let mut text = String::new();
                push_char(&mut text, ')');
                proof {
                    assert(text@ =~= seq![')']);
                }
                Ok(crate::content::PrivacyRewriteContent::TaggedTemplateTerminator(text))
            },
            PrivacyRewriteTemplate::TemplateQuasiDictionaryReference(index) => {
                match params.dictionary.entry_for_index(*index) {
                    Ok(slot) => {
                        let text = build_ref(
                            &params.dictionary_identifier,
                            slot,
                            Some('$'),
                            Some('{'),
                            Some('}'),
                        );
                        proof {
                            assert(text@ =~= quasi_ref_text(
                                params.dictionary_identifier@,
                                slot as nat,
                            ));
                        }
                        Ok(
                            crate::content::PrivacyRewriteContent::TemplateQuasiDictionaryReference(
                                text,
                            ),
                        )
                    },
                    Err(e) => Err(e),
                }
            },
            PrivacyRewriteTemplate::DeleteSourceMapComment => {
                Ok(crate::content::PrivacyRewriteContent::DeleteSourceMapComment(String::new()))
            },
        }
    }
}

/// Replace a tagged template's opening backtick with a call opener and the
/// first dictionary reference.
pub fn replace_tagged_template_opener_with_dictionary_ref(
    dictionary_index: usize,
    span: Span,
) -> (r: Rewrite<PrivacyRewriteTemplate>)
    ensures
        r == (Rewrite::Replace {
            content: PrivacyRewriteTemplate::TaggedTemplateOpenerDictionaryReference(
                dictionary_index,
            ),
            span,
        }),
{
    Rewrite::Replace {
        content: PrivacyRewriteTemplate::TaggedTemplateOpenerDictionaryReference(dictionary_index),
        span,
    }
}

/// Replace the text before a tagged template's expression with a separator.
pub fn replace_tagged_template_before_expr_marker(span: Span) -> (r: Rewrite<
    PrivacyRewriteTemplate,
>)
    ensures
        r == (Rewrite::Replace { content: PrivacyRewriteTemplate::TaggedTemplateBeforeExpr, span }),
{
    Rewrite::Replace { content: PrivacyRewriteTemplate::TaggedTemplateBeforeExpr, span }
}

/// Drop the closing brace after a tagged template's expression.
pub fn replace_tagged_template_after_expr_marker(span: Span) -> (r: Rewrite<
    PrivacyRewriteTemplate,
>)
    ensures
        r == (Rewrite::Replace { content: PrivacyRewriteTemplate::TaggedTemplateAfterExpr, span }),
{
    Rewrite::Replace { content: PrivacyRewriteTemplate::TaggedTemplateAfterExpr, span }
}

/// Replace a tagged template's closing backtick with a call terminator.
pub fn replace_tagged_template_terminator(span: Span) -> (r: Rewrite<PrivacyRewriteTemplate>)
    ensures
        r == (Rewrite::Replace { content: PrivacyRewriteTemplate::TaggedTemplateTerminator, span }),
{
    Rewrite::Replace { content: PrivacyRewriteTemplate::TaggedTemplateTerminator, span }
}

/// Replace a JSX string with a braced dictionary reference.
pub fn replace_jsx_string_with_dictionary_ref(dictionary_index: usize, span: Span) -> (r: Rewrite<
    PrivacyRewriteTemplate,
>)
    ensures
        r == (Rewrite::Replace {
            content: PrivacyRewriteTemplate::JSXStringDictionaryReference(dictionary_index),
            span,
        }),
{
    Rewrite::Replace {
        content: PrivacyRewriteTemplate::JSXStringDictionaryReference(dictionary_index),
        span,
    }
}

/// Replace a string property key with a computed-key dictionary reference.
pub fn replace_property_key_with_dictionary_ref(dictionary_index: usize, span: Span) -> (r:
    Rewrite<PrivacyRewriteTemplate>)
    ensures
        r == (Rewrite::Replace {
            content: PrivacyRewriteTemplate::PropertyKeyDictionaryReference(dictionary_index),
            span,
        }),
{
    Rewrite::Replace {
        content: PrivacyRewriteTemplate::PropertyKeyDictionaryReference(dictionary_index),
        span,
    }
}

/// Replace an ordinary string literal with a dictionary reference.
pub fn replace_string_with_dictionary_ref(
    dictionary_index: usize,
    span: Span,
    may_follow_keyword: bool,
) -> (r: Rewrite<PrivacyRewriteTemplate>)
    ensures
        r == (Rewrite::Replace {
            content: PrivacyRewriteTemplate::StringDictionaryReference(
                dictionary_index,
                if may_follow_keyword {
                    LeftContext::MaybeKeyword
                } else {
                    LeftContext::NonKeyword
                },
            ),
            span,
        }),
{
    Rewrite::Replace {
        content: PrivacyRewriteTemplate::StringDictionaryReference(
            dictionary_index,
            if may_follow_keyword {
                LeftContext::MaybeKeyword
            } else {
                LeftContext::NonKeyword
            },
        ),
        span,
    }
}

/// Replace a template quasi with an interpolated dictionary reference.
pub fn replace_template_quasi_with_dictionary_ref(dictionary_index: usize, span: Span) -> (r:
    Rewrite<PrivacyRewriteTemplate>)
    ensures
        r == (Rewrite::Replace {
            content: PrivacyRewriteTemplate::TemplateQuasiDictionaryReference(dictionary_index),
            span,
        }),
{
    Rewrite::Replace {
        content: PrivacyRewriteTemplate::TemplateQuasiDictionaryReference(dictionary_index),
        span,
    }
}

/// Delete a stale inline source-map comment.
pub fn delete_source_map_comment(span: Span) -> (r: Rewrite<PrivacyRewriteTemplate>)
    ensures
        r == (Rewrite::Replace { content: PrivacyRewriteTemplate::DeleteSourceMapComment, span }),
{
    Rewrite::Replace { content: PrivacyRewriteTemplate::DeleteSourceMapComment, span }
}

/// Accumulates the walker's planned rewrites and the token positions the
/// source map must cover, honouring scopes in which rewriting is suspended.
pub struct RewriteTracker {
    pub in_unrewritten_scopes: usize,
    pub rewrites: Vec<Rewrite<PrivacyRewriteTemplate>>,
    pub token_positions: Vec<usize>,
}

impl RewriteTracker {
    pub fn new() -> (r: RewriteTracker)
        ensures
            r.in_unrewritten_scopes == 0,
            r.rewrites@.len() == 0,
            r.token_positions@.len() == 0,
    {
        RewriteTracker { in_unrewritten_scopes: 0, rewrites: Vec::new(), token_positions: Vec::new() }
    }

    /// Enter a scope in which planned rewrites are discarded. Saturates
    /// rather than overflowing; the walker pairs each enter with one exit.
    pub fn enter_unrewritten_scope(&mut self)
        ensures
            final(self).in_unrewritten_scopes == crate::dictionary::spec_bump(
                old(self).in_unrewritten_scopes,
            ),
            final(self).rewrites == old(self).rewrites,
            final(self).token_positions == old(self).token_positions,
    {
        if self.in_unrewritten_scopes < usize::MAX {
            self.in_unrewritten_scopes = self.in_unrewritten_scopes + 1;
        }
    }

    /// Leave one unrewritten scope; never goes below zero even if the walker
    /// exits more scopes than it entered.
    pub fn exit_unrewritten_scope(&mut self)
        ensures
            final(self).in_unrewritten_scopes == if old(self).in_unrewritten_scopes > 0 {
                (old(self).in_unrewritten_scopes - 1) as usize
            } else {
                0usize
            },
            final(self).rewrites == old(self).rewrites,
            final(self).token_positions == old(self).token_positions,
    {
        if self.in_unrewritten_scopes == 0 {
            return ;
        }
        self.in_unrewritten_scopes = self.in_unrewritten_scopes - 1;
    }

    /// Plan one rewrite, unless rewriting is suspended.
    pub fn emit(&mut self, rewrite: Rewrite<PrivacyRewriteTemplate>)
        ensures
            final(self).in_unrewritten_scopes == old(self).in_unrewritten_scopes,
            final(self).token_positions == old(self).token_positions,
            final(self).rewrites@ == if old(self).in_unrewritten_scopes > 0 {
                old(self).rewrites@
            } else {
                old(self).rewrites@.push(rewrite)
            },
    {
        if self.in_unrewritten_scopes > 0 {
            return ;
        }
        self.rewrites.push(rewrite);
    }

    /// Record a position the source map should cover. An immediate repeat of
    /// the last position is dropped up front; full deduplication happens in
    /// `take`.
    pub fn add_token_position(&mut self, pos: usize)
        ensures
            final(self).in_unrewritten_scopes == old(self).in_unrewritten_scopes,
            final(self).rewrites == old(self).rewrites,
            final(self).token_positions@ == if old(self).token_positions@.len() > 0 && old(
                self,
            ).token_positions@.last() == pos {
                old(self).token_positions@
            } else {
                old(self).token_positions@.push(pos)
            },
    {
        if self.token_positions.len() > 0 && self.token_positions[self.token_positions.len() - 1]
            == pos {
            return ;
        }
        self.token_positions.push(pos);
    }

    /// Hand over the planned rewrites and the sorted, deduplicated token
    /// positions.
    pub fn take(self) -> (r: (Vec<Rewrite<PrivacyRewriteTemplate>>, Vec<usize>))
        ensures
            r.0 == self.rewrites,
            forall|i: int, j: int| 0 <= i < j < r.1@.len() ==> #[trigger] r.1@[i] < #[trigger] r.1@[j],
            forall|p: usize| r.1@.contains(p) <==> self.token_positions@.contains(p),
    {
        let sorted = sort_positions(self.token_positions);
        let ghost sorted_view = sorted@;
        let deduped = dedup_sorted(sorted);
        proof {
            broadcast use vstd::seq_lib::group_to_multiset_ensures;

            assert forall|p: usize| deduped@.contains(p) <==> self.token_positions@.contains(p) by {
                assert(deduped@.contains(p) <==> sorted_view.contains(p));
                assert(sorted_view.to_multiset().contains(p) <==> self.token_positions@.to_multiset()
                    .contains(p));
            }
        }
        (self.rewrites, deduped)
    }
}

} // verus!
