//! The concrete rewrite payloads of the privacy transform: fully rendered
//! text, tagged by what the rewrite stands for.

use vstd::prelude::*;

use crate::optimizer::byte_len;
use crate::rewrite::{chars_less, key_le, OrderKey, RewriteContent};

verus! {

/// A rendered rewrite payload. Variants that insert several pieces at one
/// point (the helper import and the parts of the dictionary declaration)
/// order themselves by their rank and, for declaration entries, by the final
/// dictionary slot they belong to.
pub enum PrivacyRewriteContent {
    HelperImport(String),
    DictionaryDeclarationOpener(String),
    /// The rendered entry, its final dictionary slot, and the source
    /// position of the entry's first occurrence, which its mapping should
    /// point at.
    DictionaryDeclarationEntry(String, usize, usize),
    DictionaryDeclarationCloser(String),
    JSXStringDictionaryReference(String),
    PropertyKeyDictionaryReference(String),
    StringDictionaryReference(String),
    TaggedTemplateOpenerDictionaryReference(String),
    TaggedTemplateBeforeExpr(String),
    TaggedTemplateAfterExpr(String),
    TaggedTemplateTerminator(String),
    TemplateQuasiDictionaryReference(String),
    DeleteSourceMapComment(String),
}

impl PrivacyRewriteContent {
    /// The payload's rendered characters.
    pub open spec fn spec_text(self) -> Seq<char> {
        match self {
            PrivacyRewriteContent::HelperImport(s) => s@,
            PrivacyRewriteContent::DictionaryDeclarationOpener(s) => s@,
            PrivacyRewriteContent::DictionaryDeclarationEntry(s, _, _) => s@,
            PrivacyRewriteContent::DictionaryDeclarationCloser(s) => s@,
            PrivacyRewriteContent::JSXStringDictionaryReference(s) => s@,
            PrivacyRewriteContent::PropertyKeyDictionaryReference(s) => s@,
            PrivacyRewriteContent::StringDictionaryReference(s) => s@,
            PrivacyRewriteContent::TaggedTemplateOpenerDictionaryReference(s) => s@,
            PrivacyRewriteContent::TaggedTemplateBeforeExpr(s) => s@,
            PrivacyRewriteContent::TaggedTemplateAfterExpr(s) => s@,
            PrivacyRewriteContent::TaggedTemplateTerminator(s) => s@,
            PrivacyRewriteContent::TemplateQuasiDictionaryReference(s) => s@,
            PrivacyRewriteContent::DeleteSourceMapComment(s) => s@,
        }
    }

    /// The rank a variant takes in the content order; it keeps the helper
    /// import ahead of the dictionary declaration's opener, entries and
    /// closer at one insertion point.
    pub open spec fn spec_rank(self) -> int {
        match self {
            PrivacyRewriteContent::HelperImport(_) => 0,
            PrivacyRewriteContent::DictionaryDeclarationOpener(_) => 1,
            PrivacyRewriteContent::DictionaryDeclarationEntry(_, _, _) => 2,
            PrivacyRewriteContent::DictionaryDeclarationCloser(_) => 3,
            PrivacyRewriteContent::JSXStringDictionaryReference(_) => 4,
            PrivacyRewriteContent::PropertyKeyDictionaryReference(_) => 5,
            PrivacyRewriteContent::StringDictionaryReference(_) => 6,
            PrivacyRewriteContent::TaggedTemplateOpenerDictionaryReference(_) => 7,
            PrivacyRewriteContent::TaggedTemplateBeforeExpr(_) => 8,
            PrivacyRewriteContent::TaggedTemplateAfterExpr(_) => 9,
            PrivacyRewriteContent::TaggedTemplateTerminator(_) => 10,
            PrivacyRewriteContent::TemplateQuasiDictionaryReference(_) => 11,
            PrivacyRewriteContent::DeleteSourceMapComment(_) => 12,
        }
    }

    /// The dictionary slot a declaration entry belongs to; zero elsewhere.
    pub open spec fn spec_slot(self) -> int {
        match self {
            PrivacyRewriteContent::DictionaryDeclarationEntry(_, slot, _) => slot as int,
            _ => 0,
        }
    }

    /// The auxiliary position in the order key: the source position a
    /// declaration entry points at; zero elsewhere.
    pub open spec fn spec_aux_pos(self) -> int {
        match self {
            PrivacyRewriteContent::DictionaryDeclarationEntry(_, _, pos) => pos as int,
            _ => 0,
        }
    }

    fn rank(&self) -> (r: usize)
        ensures
            r == self.spec_rank(),
    {
        match self {
            PrivacyRewriteContent::HelperImport(_) => 0,
            PrivacyRewriteContent::DictionaryDeclarationOpener(_) => 1,
            PrivacyRewriteContent::DictionaryDeclarationEntry(_, _, _) => 2,
            PrivacyRewriteContent::DictionaryDeclarationCloser(_) => 3,
            PrivacyRewriteContent::JSXStringDictionaryReference(_) => 4,
            PrivacyRewriteContent::PropertyKeyDictionaryReference(_) => 5,
            PrivacyRewriteContent::StringDictionaryReference(_) => 6,
            PrivacyRewriteContent::TaggedTemplateOpenerDictionaryReference(_) => 7,
            PrivacyRewriteContent::TaggedTemplateBeforeExpr(_) => 8,
            PrivacyRewriteContent::TaggedTemplateAfterExpr(_) => 9,
            PrivacyRewriteContent::TaggedTemplateTerminator(_) => 10,
            PrivacyRewriteContent::TemplateQuasiDictionaryReference(_) => 11,
            PrivacyRewriteContent::DeleteSourceMapComment(_) => 12,
        }
    }

    fn slot(&self) -> (r: usize)
        ensures
            r == self.spec_slot(),
    {
        match self {
            PrivacyRewriteContent::DictionaryDeclarationEntry(_, slot, _) => *slot,
            _ => 0,
        }
    }

    fn aux_pos(&self) -> (r: usize)
        ensures
            r == self.spec_aux_pos(),
    {
        match self {
            PrivacyRewriteContent::DictionaryDeclarationEntry(_, _, pos) => *pos,
            _ => 0,
        }
    }

    /// The payload's rendered text.
    pub fn text(&self) -> (r: &String)
        ensures
            r@ == self.spec_text(),
    {
        match self {
            PrivacyRewriteContent::HelperImport(s) => s,
            PrivacyRewriteContent::DictionaryDeclarationOpener(s) => s,
            PrivacyRewriteContent::DictionaryDeclarationEntry(s, _, _) => s,
            PrivacyRewriteContent::DictionaryDeclarationCloser(s) => s,
            PrivacyRewriteContent::JSXStringDictionaryReference(s) => s,
            PrivacyRewriteContent::PropertyKeyDictionaryReference(s) => s,
            PrivacyRewriteContent::StringDictionaryReference(s) => s,
            PrivacyRewriteContent::TaggedTemplateOpenerDictionaryReference(s) => s,
            PrivacyRewriteContent::TaggedTemplateBeforeExpr(s) => s,
            PrivacyRewriteContent::TaggedTemplateAfterExpr(s) => s,
            PrivacyRewriteContent::TaggedTemplateTerminator(s) => s,
            PrivacyRewriteContent::TemplateQuasiDictionaryReference(s) => s,
            PrivacyRewriteContent::DeleteSourceMapComment(s) => s,
        }
    }

    /// True for the payloads that may be discarded when replacing would
    /// make the code larger than the original text: the plain dictionary
    /// references. The helper import, the declaration pieces and the tagged
    /// template pieces must never be dropped on size grounds, since the
    /// parts of one tagged template stand or fall together. The transform
    /// itself applies no size filter — a reference replaces its literal even
    /// when it is longer — so this classification is advisory for callers
    /// that want one.
    pub fn should_only_replace_if_smaller(&self) -> (r: bool)
        ensures
            r == (self.spec_rank() == 4 || self.spec_rank() == 5 || self.spec_rank() == 6
                || self.spec_rank() == 11),
    {
        match self {
            PrivacyRewriteContent::JSXStringDictionaryReference(_) => true,
            PrivacyRewriteContent::PropertyKeyDictionaryReference(_) => true,
            PrivacyRewriteContent::StringDictionaryReference(_) => true,
            PrivacyRewriteContent::TemplateQuasiDictionaryReference(_) => true,
            _ => false,
        }
    }

    /// The byte length of the payload's rendering.
    pub fn len(&self) -> (r: usize)
        ensures
            r == byte_len(self.spec_text()),
    {
        self.text().as_str().len()
    }
}

impl RewriteContent for PrivacyRewriteContent {
    open spec fn key(self) -> OrderKey {
        OrderKey {
            rank: self.spec_rank(),
            slot: self.spec_slot(),
            text: self.spec_text(),
            pos: self.spec_aux_pos(),
        }
    }

    open spec fn rendered(self) -> Seq<u8> {
        vstd::utf8::encode_utf8(self.spec_text())
    }

    open spec fn spec_source_pos(self) -> Option<usize> {
        match self {
            PrivacyRewriteContent::DictionaryDeclarationEntry(_, _, pos) => Some(pos),
            _ => None,
        }
    }

    proof fn lemma_key_determines(a: Self, b: Self) {
        assert(a.spec_rank() == b.spec_rank());
        assert(a.spec_text() == b.spec_text());
        assert(a.spec_aux_pos() == b.spec_aux_pos());
    }

    fn order_le(&self, other: &Self) -> (r: bool)
        ensures
            r == key_le(self.key(), other.key()),
    {
        let a_rank = self.rank();
        let b_rank = other.rank();
        if a_rank != b_rank {
            return a_rank < b_rank;
        }
        let a_slot = self.slot();
        let b_slot = other.slot();
        if a_slot != b_slot {
            return a_slot < b_slot;
        }
        let a_text = crate::text::chars_to_vec(self.text().as_str());
        let b_text = crate::text::chars_to_vec(other.text().as_str());
        if !crate::identifiers::str_equal(self.text().as_str(), other.text().as_str()) {
            return chars_less(&a_text, &b_text);
        }
        self.aux_pos() <= other.aux_pos()
    }

    fn render(&self) -> (r: Vec<u8>)
        ensures
            r@ == self.rendered(),
    {
        vstd::slice::slice_to_vec(self.text().as_str().as_bytes())
    }

    fn source_pos(&self) -> (r: Option<usize>)
        ensures
            r == self.spec_source_pos(),
    {
        match self {
            PrivacyRewriteContent::DictionaryDeclarationEntry(_, _, pos) => Some(*pos),
            _ => None,
        }
    }
}

} // verus!
