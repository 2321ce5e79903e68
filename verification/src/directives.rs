//! Directive state gathered from the file's comments: which regions of the
//! file are excluded from dictionary collection.

use vstd::prelude::*;

use crate::span::{spans_intersect, spec_spans_intersect, Span};

verus! {

/// The privacy-allowlist exclusions found in a file's comments: either the
/// whole file is excluded, or a list of excluded spans.
pub struct DirectiveSet {
    pub privacy_allowlist_excluded_file: bool,
    pub privacy_allowlist_excluded_spans: Vec<Span>,
}

impl DirectiveSet {
    /// True when the directives exclude the given span from collection.
    pub open spec fn spec_excludes(self, span: Span) -> bool {
        ||| self.privacy_allowlist_excluded_file
        ||| exists|i: int|
            0 <= i < self.privacy_allowlist_excluded_spans@.len() && spec_spans_intersect(
                #[trigger] self.privacy_allowlist_excluded_spans@[i],
                span,
            )
    }

    /// A directive set with no exclusions at all.
    pub fn none() -> (r: DirectiveSet)
        ensures
            !r.privacy_allowlist_excluded_file,
            r.privacy_allowlist_excluded_spans@.len() == 0,
            forall|span: Span| !r.spec_excludes(span),
    {
        DirectiveSet { privacy_allowlist_excluded_file: false, privacy_allowlist_excluded_spans: Vec::new() }
    }

    /// True when the directives exclude the given span: the whole file is
    /// excluded, or some excluded span intersects it.
    pub fn excludes_span_from_privacy_allowlist(&self, span: &Span) -> (r: bool)
        ensures
            r == self.spec_excludes(*span),
    {
        if self.privacy_allowlist_excluded_file {
            return true;
        }
        let mut i: usize = 0;
        while i < self.privacy_allowlist_excluded_spans.len()
            invariant
                0 <= i <= self.privacy_allowlist_excluded_spans@.len(),
                forall|j: int|
                    0 <= j < i ==> !spec_spans_intersect(
                        #[trigger] self.privacy_allowlist_excluded_spans@[j],
                        *span,
                    ),
            decreases self.privacy_allowlist_excluded_spans@.len() - i,
        {
            if spans_intersect(&self.privacy_allowlist_excluded_spans[i], span) {
                return true;
            }
            i += 1;
        }
        false
    }
}

} // verus!
