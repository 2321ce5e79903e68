//! Building the synthesized header: the helper import and the dictionary
//! declaration inserted ahead of the rewritten body.

use vstd::prelude::*;

use crate::content::PrivacyRewriteContent;
use crate::dictionary::{quasi_views, DictionaryEntry};
use crate::module_kind::ModuleKind;
use crate::options::HelperFunctionSource;
use crate::rewrite::Rewrite;
use crate::template::TemplateParameters;
use crate::trusted::push_char;

verus! {

/// The text of the helper declaration for the given source and module kind:
/// an inline expression binding, or the import fitting the module kind,
/// renaming the helper only when the chosen identifier differs from the
/// imported name.
pub open spec fn helper_import_text(
    source: HelperFunctionSource,
    ident: Seq<char>,
    kind: ModuleKind,
) -> Seq<char> {
    match source {
        HelperFunctionSource::Expression { code } => "const "@ + ident + "="@ + code@ + ";"@,
        HelperFunctionSource::Import { cjs_module, esm_module, func } => {
            if kind is CJS {
                if func@ == ident {
                    "const{"@ + ident + "}=require('"@ + cjs_module@ + "');"@
                } else {
                    "const{"@ + func@ + ":"@ + ident + "}=require('"@ + cjs_module@ + "');"@
                }
            } else {
                if func@ == ident {
                    "import{"@ + ident + "}from'"@ + esm_module@ + "';"@
                } else {
                    "import{"@ + func@ + " as "@ + ident + "}from'"@ + esm_module@ + "';"@
                }
            }
        },
    }
}

/// Build the helper declaration: one insertion at `pos`, or nothing when the
/// dictionary is empty.
pub fn build_helper_declaration(pos: usize, params: &TemplateParameters) -> (r: Vec<
    Rewrite<PrivacyRewriteContent>,
>)
    ensures
        params.dictionary.strings.entries@.len() == 0 ==> r@.len() == 0,
        params.dictionary.strings.entries@.len() > 0 ==> r@.len() == 1 && (r@[0] matches
            Rewrite::Insert { content, pos: p } && p == pos && (content matches
            PrivacyRewriteContent::HelperImport(s) && s@ == helper_import_text(
            *params.add_to_dictionary_helper_source,
            params.add_to_dictionary_helper_identifier@,
            params.module_kind,
        ))),
{
    let mut declaration: Vec<Rewrite<PrivacyRewriteContent>> = Vec::new();
    if params.dictionary.strings.len() == 0 {
        return declaration;
    }
    let ident = &params.add_to_dictionary_helper_identifier;
    let mut text = String::new();
    match params.add_to_dictionary_helper_source {
        HelperFunctionSource::Expression { code } => {
            text.append("const ");
            text.append(ident.as_str());
            text.append("=");
            text.append(code.as_str());
            text.append(";");
            proof {
                reveal_strlit("const ");
                reveal_strlit("=");
                reveal_strlit(";");
            }
        },
        HelperFunctionSource::Import { cjs_module, esm_module, func } => {
            let same = crate::identifiers::str_equal(func.as_str(), ident.as_str());
            match params.module_kind {
                ModuleKind::CJS => {
                    text.append("const{");
                    if !same {
                        text.append(func.as_str());
                        text.append(":");
                    }
                    text.append(ident.as_str());
                    text.append("}=require('");
                    text.append(cjs_module.as_str());
                    text.append("');");
                    proof {
                        reveal_strlit("const{");
                        reveal_strlit(":");
                        reveal_strlit("}=require('");
                        reveal_strlit("');");
                        if same {
                            assert(text@ =~= "const{"@ + ident@ + "}=require('"@ + cjs_module@
                                + "');"@);
                        } else {
                            assert(text@ =~= "const{"@ + func@ + ":"@ + ident@ + "}=require('"@
                                + cjs_module@ + "');"@);
                        }
                    }
                },
                ModuleKind::ESM => {
                    text.append("import{");
                    if !same {
                        text.append(func.as_str());
                        text.append(" as ");
                    }
                    text.append(ident.as_str());
                    text.append("}from'");
                    text.append(esm_module.as_str());
                    text.append("';");
                    proof {
                        reveal_strlit("import{");
                        reveal_strlit(" as ");
                        reveal_strlit("}from'");
                        reveal_strlit("';");
                        if same {
                            assert(text@ =~= "import{"@ + ident@ + "}from'"@ + esm_module@ + "';"@);
                        } else {
                            assert(text@ =~= "import{"@ + func@ + " as "@ + ident@ + "}from'"@
                                + esm_module@ + "';"@);
                        }
                    }
                },
            }
        },
    }
    proof {
        assert(text@ =~= helper_import_text(
            *params.add_to_dictionary_helper_source,
            params.add_to_dictionary_helper_identifier@,
            params.module_kind,
        ));
    }
    declaration.push(Rewrite::Insert { content: PrivacyRewriteContent::HelperImport(text), pos });
    declaration
}

/// The view of one header insertion.
pub open spec fn insert_view(
    pos: usize,
    rank: int,
    slot: int,
    text: Seq<char>,
    aux: int,
) -> crate::rewrite::RewriteView {
    crate::rewrite::RewriteView {
        insert: true,
        lo: pos,
        hi: pos,
        key: crate::rewrite::OrderKey { rank, slot, text, pos: aux },
    }
}

/// The views of the synthesized header: the helper import, then the
/// dictionary declaration's opener, its entries in slot order, and its
/// closer — or nothing when the dictionary is empty.
pub open spec fn spec_header_views(
    entries: Seq<(DictionaryEntry, crate::dictionary::DictionaryEntryStats)>,
    indices: Seq<usize>,
    dict_ident: Seq<char>,
    helper_ident: Seq<char>,
    source: HelperFunctionSource,
    kind: ModuleKind,
    pos: usize,
) -> Seq<crate::rewrite::RewriteView> {
    if entries.len() == 0 {
        Seq::empty()
    } else {
        seq![
            insert_view(pos, 0, 0, helper_import_text(source, helper_ident, kind), 0),
            insert_view(pos, 1, 0, declaration_opener_text(dict_ident, helper_ident), 0),
        ] + Seq::new(
            entries.len(),
            |k: int|
                insert_view(
                    pos,
                    2,
                    k,
                    declaration_entry_text(entries[indices[k] as int].0, helper_ident, k),
                    entries[indices[k] as int].1.first_pos as int,
                ),
        ) + seq![insert_view(pos, 3, 0, "]);"@, 0)]
    }
}

/// The rendering of one dictionary entry inside the declaration's array: the
/// raw string itself, a tagged template rebuilt around the helper, or a
/// template quasi wrapped in backticks.
pub open spec fn entry_render(e: DictionaryEntry, helper: Seq<char>) -> Seq<char> {
    match e {
        DictionaryEntry::Str(s) => s@,
        DictionaryEntry::TaggedTemplate(qs) => helper + seq!['`'] + join_quasis(quasi_views(qs))
            + seq!['`'],
        DictionaryEntry::TemplateQuasi(q) => seq!['`'] + q@ + seq!['`'],
    }
}

/// Template quasis joined by placeholder expressions.
pub open spec fn join_quasis(vs: Seq<Seq<char>>) -> Seq<char>
    decreases vs.len(),
{
    if vs.len() == 0 {
        Seq::empty()
    } else {
        vs[0] + rest_quasis(vs.drop_first())
    }
}

pub open spec fn rest_quasis(vs: Seq<Seq<char>>) -> Seq<char>
    decreases vs.len(),
{
    if vs.len() == 0 {
        Seq::empty()
    } else {
        seq!['$', '{', '0', '}'] + vs[0] + rest_quasis(vs.drop_first())
    }
}

/// Append one dictionary entry's rendering to `text`.
fn append_entry_render(text: &mut String, e: &DictionaryEntry, helper: &String)
    ensures
        final(text)@ == old(text)@ + entry_render(*e, helper@),
{
    match e {
        DictionaryEntry::Str(s) => {
            text.append(s.as_str());
            proof {
                assert(text@ =~= old(text)@ + entry_render(*e, helper@));
            }
        },
        DictionaryEntry::TaggedTemplate(qs) => {
            text.append(helper.as_str());
            push_char(text, '`');
            let ghost base = text@;
            if qs.len() > 0 {
                text.append(qs[0].as_str());
                let mut i: usize = 1;
                proof {
                    assert(quasi_views(*qs).drop_first() =~= quasi_views(*qs).skip(1));
                    assert(text@ =~= base + quasi_views(*qs)[0]);
                }
                while i < qs.len()
                    invariant
                        1 <= i <= qs@.len(),
                        text@ + rest_quasis(quasi_views(*qs).skip(i as int)) == base + join_quasis(
                            quasi_views(*qs),
                        ),
                    decreases qs@.len() - i,
                {
                    let ghost rem = quasi_views(*qs).skip(i as int);
                    push_char(text, '$');
                    push_char(text, '{');
                    push_char(text, '0');
                    push_char(text, '}');
                    text.append(qs[i].as_str());
                    proof {
                        assert(rem[0] == quasi_views(*qs)[i as int]);
                        assert(rem.drop_first() =~= quasi_views(*qs).skip(i + 1));
                        assert(text@ + rest_quasis(quasi_views(*qs).skip(i + 1)) =~= base
                            + join_quasis(quasi_views(*qs)));
                    }
                    i += 1;
                }
                proof {
                    assert(quasi_views(*qs).skip(qs@.len() as int) =~= Seq::<Seq<char>>::empty());
                    assert(text@ + Seq::<char>::empty() =~= text@);
                }
            } else {
                proof {
                    assert(join_quasis(quasi_views(*qs)) =~= Seq::<char>::empty());
                }
            }
            push_char(text, '`');
            proof {
                assert(text@ =~= old(text)@ + entry_render(*e, helper@));
            }
        },
        DictionaryEntry::TemplateQuasi(q) => {
            push_char(text, '`');
            text.append(q.as_str());
            push_char(text, '`');
            proof {
                assert(text@ =~= old(text)@ + entry_render(*e, helper@));
            }
        },
    }
}

/// The text of the declaration's opener: `const <dict>=<helper>([`.
pub open spec fn declaration_opener_text(dict_ident: Seq<char>, helper: Seq<char>) -> Seq<char> {
    "const "@ + dict_ident + "="@ + helper + "(["@
}

/// The text of one declaration entry at `slot`: a separating comma for every
/// entry after the first, then the entry's rendering.
pub open spec fn declaration_entry_text(e: DictionaryEntry, helper: Seq<char>, slot: int) -> Seq<
    char,
> {
    (if slot > 0 {
        seq![',']
    } else {
        Seq::<char>::empty()
    }) + entry_render(e, helper)
}

/// Build the dictionary declaration: an opener, one entry per dictionary
/// slot in slot order, and a closer, all inserted at `pos`; nothing when the
/// dictionary is empty. Each entry's mapping points back at the source
/// position of the entry's first occurrence.
pub fn build_dictionary_declaration(pos: usize, params: &TemplateParameters) -> (r: Vec<
    Rewrite<PrivacyRewriteContent>,
>)
    requires
        params.dictionary.strings.wf(),
        params.dictionary.indices@.len() == params.dictionary.strings.entries@.len(),
        forall|k: int|
            0 <= k < params.dictionary.indices@.len() ==> (#[trigger] params.dictionary.indices@[k])
                < params.dictionary.strings.entries@.len(),
    ensures
        params.dictionary.strings.entries@.len() == 0 ==> r@.len() == 0,
        params.dictionary.strings.entries@.len() > 0 ==> {
            let n = params.dictionary.strings.entries@.len();
            let helper = params.add_to_dictionary_helper_identifier@;
            &&& r@.len() == n + 2
            &&& (r@[0] matches Rewrite::Insert { content, pos: p } && p == pos && (content matches
                PrivacyRewriteContent::DictionaryDeclarationOpener(s) && s@
                == declaration_opener_text(params.dictionary_identifier@, helper)))
            &&& (forall|k: int|
                0 <= k < n ==> ((#[trigger] r@[k + 1]) matches Rewrite::Insert { content, pos: p }
                    && p == pos && (content matches
                PrivacyRewriteContent::DictionaryDeclarationEntry(s, slot, first) && slot == k
                    && first
                    == params.dictionary.strings.entries@[params.dictionary.indices@[k] as int].1.first_pos
                    && s@ == declaration_entry_text(
                    params.dictionary.strings.entries@[params.dictionary.indices@[k] as int].0,
                    helper,
                    k,
                ))))
            &&& (r@[n as int + 1] matches Rewrite::Insert { content, pos: p } && p == pos && (
            content matches PrivacyRewriteContent::DictionaryDeclarationCloser(s) && s@ == "]);"@))
        },
{
    let mut declaration: Vec<Rewrite<PrivacyRewriteContent>> = Vec::new();
    let n = params.dictionary.strings.len();
    if n == 0 {
        return declaration;
    }
    let helper = &params.add_to_dictionary_helper_identifier;
    let mut opener = String::new();
    opener.append("const ");
    opener.append(params.dictionary_identifier.as_str());
    opener.append("=");
    opener.append(helper.as_str());
    opener.append("([");
    proof {
        reveal_strlit("const ");
        reveal_strlit("=");
        reveal_strlit("([");
        assert(opener@ =~= declaration_opener_text(
            params.dictionary_identifier@,
            params.add_to_dictionary_helper_identifier@,
        ));
    }
    declaration.push(
        Rewrite::Insert {
            content: PrivacyRewriteContent::DictionaryDeclarationOpener(opener),
            pos,
        },
    );
    let mut k: usize = 0;
    while k < n
        invariant
            n == params.dictionary.strings.entries@.len(),
            params.dictionary.indices@.len() == n,
            forall|m: int|
                0 <= m < n ==> (#[trigger] params.dictionary.indices@[m]) < n,
            0 <= k <= n,
            declaration@.len() == k + 1,
            declaration@[0] matches Rewrite::Insert { content, pos: p } && p == pos && (content
                matches PrivacyRewriteContent::DictionaryDeclarationOpener(s) && s@
                == declaration_opener_text(
                params.dictionary_identifier@,
                params.add_to_dictionary_helper_identifier@,
            )),
            forall|m: int|
                0 <= m < k ==> ((#[trigger] declaration@[m + 1]) matches Rewrite::Insert {
                    content,
                    pos: p,
                } && p == pos && (content matches
                PrivacyRewriteContent::DictionaryDeclarationEntry(s, slot, first) && slot == m
                    && first
                    == params.dictionary.strings.entries@[params.dictionary.indices@[m] as int].1.first_pos
                    && s@ == declaration_entry_text(
                    params.dictionary.strings.entries@[params.dictionary.indices@[m] as int].0,
                    params.add_to_dictionary_helper_identifier@,
                    m,
                ))),
        decreases n - k,
    {
        let target = params.dictionary.indices[k];
        let mut text = String::new();
        if k > 0 {
            push_char(&mut text, ',');
            proof {
                assert(text@ =~= seq![',']);
            }
        }
        let ghost lead = text@;
        match params.dictionary.strings.get_index(target) {
            Some(pair) => {
                let first_pos = pair.1.first_pos;
                append_entry_render(&mut text, &pair.0, &params.add_to_dictionary_helper_identifier);
                proof {
                    assert(text@ == lead + entry_render(
                        pair.0,
                        params.add_to_dictionary_helper_identifier@,
                    ));
                    assert(pair.0 == params.dictionary.strings.entries@[target as int].0);
                    assert(lead =~= (if k > 0 {
                        seq![',']
                    } else {
                        Seq::<char>::empty()
                    }));
                    assert(text@ =~= declaration_entry_text(
                        params.dictionary.strings.entries@[target as int].0,
                        params.add_to_dictionary_helper_identifier@,
                        k as int,
                    ));
                }
                declaration.push(
                    Rewrite::Insert {
                        content: PrivacyRewriteContent::DictionaryDeclarationEntry(
                            text,
                            k,
                            first_pos,
                        ),
                        pos,
                    },
                );
            },
            None => {
                // Unreachable: every slot names an in-bounds entry.
                proof {
                    assert(false);
                }
            },
        }
        k += 1;
    }
    let mut closer = String::new();
    closer.append("]);");
    proof {
        reveal_strlit("]);");
        assert(closer@ =~= "]);"@);
    }
    declaration.push(
        Rewrite::Insert {
            content: PrivacyRewriteContent::DictionaryDeclarationCloser(closer),
            pos,
        },
    );
    declaration
}

} // verus!
