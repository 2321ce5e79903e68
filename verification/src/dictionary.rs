//! The dictionary tracker: accumulates candidate string and template
//! occurrences into an insertion-ordered, frequency-counted dictionary,
//! filtering out unwanted candidates.

use vstd::prelude::*;

use crate::directives::DirectiveSet;
use crate::span::Span;
use crate::text::{bytes_contain, bytes_contains, bytes_end_with, bytes_ends_with,
    bytes_start_with, bytes_starts_with};
use crate::trusted::{char_is_unicode_ws, is_unicode_whitespace};

verus! {

/// The longest candidate value the dictionary will accept, in bytes.
pub const MAX_STRING_LENGTH: usize = 4096;

/// An error from the dictionary.
#[derive(Debug)]
pub enum DictionaryError {
    InvalidIndex(usize),
}

impl DictionaryError {
    /// A plain rendering of the error.
    pub fn message(&self) -> String {
        match self {
            DictionaryError::InvalidIndex(_) => "invalid dictionary index".to_owned(),
        }
    }
}

/// A normalized dictionary entry: a plain (quoted) string, the raw segments
/// of a tagged template, or a single template quasi.
pub enum DictionaryEntry {
    Str(String),
    TaggedTemplate(Vec<String>),
    TemplateQuasi(String),
}

/// The character sequences of a vector of strings.
pub open spec fn quasi_views(v: Vec<String>) -> Seq<Seq<char>> {
    Seq::new(v@.len(), |i: int| v@[i]@)
}

/// Entry equality: same kind, same characters.
pub open spec fn entry_same(a: DictionaryEntry, b: DictionaryEntry) -> bool {
    match (a, b) {
        (DictionaryEntry::Str(x), DictionaryEntry::Str(y)) => x@ == y@,
        (DictionaryEntry::TaggedTemplate(x), DictionaryEntry::TaggedTemplate(y)) => quasi_views(x)
            == quasi_views(y),
        (DictionaryEntry::TemplateQuasi(x), DictionaryEntry::TemplateQuasi(y)) => x@ == y@,
        _ => false,
    }
}

impl DictionaryEntry {
    /// Compare two entries for equality of kind and content.
    pub fn same_as(&self, other: &DictionaryEntry) -> (r: bool)
        ensures
            r == entry_same(*self, *other),
    {
        match (self, other) {
            (DictionaryEntry::Str(x), DictionaryEntry::Str(y)) => crate::identifiers::str_equal(
                x.as_str(),
                y.as_str(),
            ),
            (DictionaryEntry::TaggedTemplate(x), DictionaryEntry::TaggedTemplate(y)) => {
                if x.len() != y.len() {
                    assert(quasi_views(*x).len() != quasi_views(*y).len());
                    return false;
                }
                let mut i: usize = 0;
                while i < x.len()
                    invariant
                        *self == DictionaryEntry::TaggedTemplate(*x),
                        *other == DictionaryEntry::TaggedTemplate(*y),
                        x@.len() == y@.len(),
                        0 <= i <= x@.len(),
                        forall|j: int| 0 <= j < i ==> #[trigger] x@[j]@ == y@[j]@,
                    decreases x@.len() - i,
                {
                    if !crate::identifiers::str_equal(x[i].as_str(), y[i].as_str()) {
                        proof {
                            assert(quasi_views(*x)[i as int] == x@[i as int]@);
                            assert(quasi_views(*y)[i as int] == y@[i as int]@);
                        }
                        return false;
                    }
                    i += 1;
                }
                proof {
                    assert forall|j: int| 0 <= j < quasi_views(*x).len() implies quasi_views(*x)[j]
                        == quasi_views(*y)[j] by {
                        assert(quasi_views(*x)[j] == x@[j]@);
                        assert(quasi_views(*y)[j] == y@[j]@);
                    }
                    assert(quasi_views(*x) =~= quasi_views(*y));
                }
                true
            },
            (DictionaryEntry::TemplateQuasi(x), DictionaryEntry::TemplateQuasi(y)) => crate::identifiers::str_equal(
                x.as_str(),
                y.as_str(),
            ),
            _ => false,
        }
    }

}

/// Per-entry statistics: how often the entry occurred, its final dictionary
/// slot once optimized, the first byte position it was seen at, and its
/// insertion-order index.
#[derive(Clone, Copy, Debug)]
pub struct DictionaryEntryStats {
    pub count: usize,
    pub dictionary_entry: usize,
    pub first_pos: usize,
    pub index: usize,
}

/// A count increment that cannot overflow: saturates at the top.
pub open spec fn spec_bump(c: usize) -> usize {
    if c < usize::MAX {
        (c + 1) as usize
    } else {
        c
    }
}

/// The insertion-ordered mapping from normalized entries to statistics.
/// Entries are never removed once inserted; counts only increase.
pub struct Dictionary {
    pub entries: Vec<(DictionaryEntry, DictionaryEntryStats)>,
}

/// The first entry whose key matches `atom`, if any.
pub open spec fn spec_find_entry(
    s: Seq<(DictionaryEntry, DictionaryEntryStats)>,
    atom: DictionaryEntry,
) -> Option<int>
    decreases s.len(),
{
    if s.len() == 0 {
        None
    } else if entry_same(s[0].0, atom) {
        Some(0int)
    } else {
        match spec_find_entry(s.drop_first(), atom) {
            Some(i) => Some(i + 1),
            None => None,
        }
    }
}

/// The entries after one addition of `atom` first seen at `pos`, and the
/// index the addition reports: the existing index with its count bumped, or
/// a new entry at the next insertion index.
pub open spec fn spec_add_entries(
    s: Seq<(DictionaryEntry, DictionaryEntryStats)>,
    atom: DictionaryEntry,
    pos: usize,
) -> (Seq<(DictionaryEntry, DictionaryEntryStats)>, int) {
    match spec_find_entry(s, atom) {
        Some(i) => {
            let (entry, stats) = s[i];
            (
                s.update(
                    i,
                    (
                        entry,
                        DictionaryEntryStats {
                            count: spec_bump(stats.count),
                            dictionary_entry: stats.dictionary_entry,
                            first_pos: stats.first_pos,
                            index: stats.index,
                        },
                    ),
                ),
                i,
            )
        },
        None => {
            (
                s.push(
                    (
                        atom,
                        DictionaryEntryStats {
                            count: 1,
                            dictionary_entry: 0,
                            first_pos: pos,
                            index: s.len() as int as usize,
                        },
                    ),
                ),
                s.len() as int,
            )
        },
    }
}

proof fn lemma_find_entry_none(s: Seq<(DictionaryEntry, DictionaryEntryStats)>, atom: DictionaryEntry)
    ensures
        spec_find_entry(s, atom) is None <==> forall|k: int|
            0 <= k < s.len() ==> !entry_same((#[trigger] s[k]).0, atom),
        spec_find_entry(s, atom) matches Some(i) ==> 0 <= i < s.len() && entry_same(s[i].0, atom)
            && forall|k: int| 0 <= k < i ==> !entry_same((#[trigger] s[k]).0, atom),
    decreases s.len(),
{
    if s.len() == 0 {
    } else {
        lemma_find_entry_none(s.drop_first(), atom);
        let rest = s.drop_first();
        assert forall|k: int| 0 <= k < rest.len() implies rest[k] == s[k + 1] by {}
        if !entry_same(s[0].0, atom) {
            match spec_find_entry(rest, atom) {
                Some(i) => {
                    assert(spec_find_entry(s, atom) == Some(i + 1));
                    assert(rest[i] == s[i + 1]);
                    assert forall|k: int| 0 <= k < i + 1 implies !entry_same(
                        (#[trigger] s[k]).0,
                        atom,
                    ) by {
                        if k > 0 {
                            assert(rest[k - 1] == s[k]);
                        }
                    }
                },
                None => {
                    assert forall|k: int| 0 <= k < s.len() implies !entry_same(
                        (#[trigger] s[k]).0,
                        atom,
                    ) by {
                        if k > 0 {
                            assert(rest[k - 1] == s[k]);
                        }
                    }
                },
            }
        }
    }
}

/// Finding an entry looks only at the keys.
proof fn lemma_find_entry_same_keys(
    s: Seq<(DictionaryEntry, DictionaryEntryStats)>,
    t: Seq<(DictionaryEntry, DictionaryEntryStats)>,
    atom: DictionaryEntry,
)
    requires
        s.len() == t.len(),
        forall|k: int| 0 <= k < s.len() ==> (#[trigger] s[k]).0 == t[k].0,
    ensures
        spec_find_entry(s, atom) == spec_find_entry(t, atom),
    decreases s.len(),
{
    if s.len() == 0 {
    } else {
        assert forall|k: int| 0 <= k < s.drop_first().len() implies (
        #[trigger] s.drop_first()[k]).0 == t.drop_first()[k].0 by {
            assert(s.drop_first()[k] == s[k + 1]);
            assert(t.drop_first()[k] == t[k + 1]);
        }
        lemma_find_entry_same_keys(s.drop_first(), t.drop_first(), atom);
    }
}

proof fn lemma_find_entry_push(
    s: Seq<(DictionaryEntry, DictionaryEntryStats)>,
    atom: DictionaryEntry,
    e: (DictionaryEntry, DictionaryEntryStats),
)
    requires
        spec_find_entry(s, atom) is None,
        entry_same(e.0, atom),
    ensures
        spec_find_entry(s.push(e), atom) == Some(s.len() as int),
    decreases s.len(),
{
    if s.len() == 0 {
        assert(s.push(e)[0] == e);
    } else {
        assert(s.push(e)[0] == s[0]);
        assert(s.push(e).drop_first() =~= s.drop_first().push(e));
        lemma_find_entry_push(s.drop_first(), atom, e);
    }
}

impl Dictionary {
    /// Insertion indices match positions, and keys are pairwise distinct.
    pub open spec fn wf(self) -> bool {
        &&& forall|i: int|
            0 <= i < self.entries@.len() ==> (#[trigger] self.entries@[i]).1.index == i
        &&& forall|i: int, j: int|
            0 <= i < j < self.entries@.len() ==> !entry_same(
                (#[trigger] self.entries@[i]).0,
                (#[trigger] self.entries@[j]).0,
            )
    }

    pub fn new() -> (r: Dictionary)
        ensures
            r.entries@.len() == 0,
            r.wf(),
    {
        Dictionary { entries: Vec::new() }
    }

    pub fn len(&self) -> (r: usize)
        ensures
            r == self.entries@.len(),
    {
        self.entries.len()
    }

    /// Look up an entry by insertion index.
    pub fn get_index(&self, i: usize) -> (r: Option<&(DictionaryEntry, DictionaryEntryStats)>)
        ensures
            match r {
                Some(e) => i < self.entries@.len() && *e == self.entries@[i as int],
                None => i >= self.entries@.len(),
            },
    {
        if i < self.entries.len() {
            Some(&self.entries[i])
        } else {
            None
        }
    }

    /// Add one occurrence of `atom`, first seen at byte position `pos`.
    /// Returns the entry's insertion index: the one it already had, or the
    /// next free index for a new entry.
    pub fn add_entry(&mut self, atom: DictionaryEntry, pos: usize) -> (r: usize)
        requires
            old(self).wf(),
        ensures
            final(self).wf(),
            (final(self).entries@, r as int) == spec_add_entries(old(self).entries@, atom, pos),
    {
        let ghost s = old(self).entries@;
        let mut i: usize = 0;
        let n = self.entries.len();
        while i < n
            invariant
                *self == *old(self),
                self.wf(),
                n == self.entries@.len(),
                s == self.entries@,
                0 <= i <= n,
                forall|k: int| 0 <= k < i ==> !entry_same((#[trigger] self.entries@[k]).0, atom),
            decreases n - i,
        {
            if self.entries[i].0.same_as(&atom) {
                // Existing entry: bump its count, leaving the key in place.
                let (entry, stats) = self.entries.remove(i);
                let new_count = if stats.count < usize::MAX {
                    stats.count + 1
                } else {
                    stats.count
                };
                let new_stats = DictionaryEntryStats {
                    count: new_count,
                    dictionary_entry: stats.dictionary_entry,
                    first_pos: stats.first_pos,
                    index: stats.index,
                };
                self.entries.insert(i, (entry, new_stats));
                proof {
                    lemma_find_entry_none(s, atom);
                    match spec_find_entry(s, atom) {
                        Some(j) => {
                            assert(entry_same(s[i as int].0, atom));
                            assert(!(j < i) && !(i < j));
                            assert(j == i);
                        },
                        None => {
                            assert(entry_same(s[i as int].0, atom));
                            assert(false);
                        },
                    }
                    assert(self.entries@ =~= s.update(i as int, (s[i as int].0, new_stats)));
                    assert(self.entries@ =~= spec_add_entries(s, atom, pos).0);
                    assert forall|a: int| 0 <= a < self.entries@.len() implies (
                    #[trigger] self.entries@[a]).1.index == a by {
                        if a != i {
                            assert(self.entries@[a] == s[a]);
                        }
                    }
                    assert forall|a: int, b: int| 0 <= a < b < self.entries@.len() implies
                    !entry_same(
                        (#[trigger] self.entries@[a]).0,
                        (#[trigger] self.entries@[b]).0,
                    ) by {
                        assert(self.entries@[a].0 == s[a].0);
                        assert(self.entries@[b].0 == s[b].0);
                    }
                }
                return i;
            }
            i += 1;
        }
        // New entry at the next insertion index.
        let ghost pre = self.entries@;
        self.entries.push(
            (
                atom,
                DictionaryEntryStats { count: 1, dictionary_entry: 0, first_pos: pos, index: n },
            ),
        );
        proof {
            lemma_find_entry_none(s, atom);
            assert(spec_find_entry(s, atom) is None);
            assert(self.entries@ =~= spec_add_entries(s, atom, pos).0);
            assert forall|a: int, b: int| 0 <= a < b < self.entries@.len() implies !entry_same(
                (#[trigger] self.entries@[a]).0,
                (#[trigger] self.entries@[b]).0,
            ) by {
                if b == n {
                    assert(self.entries@[a] == pre[a]);
                }
            }
        }
        n
    }
}

/// Idempotent dictionary indexing: adding the same normalized candidate
/// twice yields the same index both times; a candidate new to the dictionary
/// has count 1 after the first addition and count 2 after the second.
pub proof fn lemma_dictionary_indexing_idempotent(
    s: Seq<(DictionaryEntry, DictionaryEntryStats)>,
    atom: DictionaryEntry,
    pos1: usize,
    pos2: usize,
)
    requires
        entry_same(atom, atom),
    ensures
        ({
            let (s1, i1) = spec_add_entries(s, atom, pos1);
            let (s2, i2) = spec_add_entries(s1, atom, pos2);
            &&& i1 == i2
            &&& 0 <= i1 < s1.len() && s1.len() == s2.len()
            &&& s2[i1].1.count == spec_bump(s1[i1].1.count)
            &&& (spec_find_entry(s, atom) is None ==> s1[i1].1.count == 1 && s2[i1].1.count == 2)
        }),
{
    lemma_find_entry_none(s, atom);
    let (s1, i1) = spec_add_entries(s, atom, pos1);
    match spec_find_entry(s, atom) {
        Some(i) => {
            assert(s1 == s.update(i, s1[i]));
            assert forall|k: int| 0 <= k < s.len() implies (#[trigger] s[k]).0 == s1[k].0 by {}
            lemma_find_entry_same_keys(s, s1, atom);
            assert(spec_find_entry(s1, atom) == Some(i));
        },
        None => {
            let e = s1[s.len() as int];
            lemma_find_entry_push(s, atom, e);
            assert(s1 =~= s.push(e));
            assert(spec_find_entry(s1, atom) == Some(s.len() as int));
        },
    }
}

/// True when the value looks like a URL: it begins with a scheme-like or
/// protocol-relative prefix.
pub open spec fn url_like(b: Seq<u8>) -> bool {
    ||| bytes_start_with(b, seq!['h' as u8, 't' as u8, 't' as u8, 'p' as u8, ':' as u8])
    ||| bytes_start_with(
        b,
        seq!['h' as u8, 't' as u8, 't' as u8, 'p' as u8, 's' as u8, ':' as u8],
    )
    ||| bytes_start_with(b, seq!['d' as u8, 'a' as u8, 't' as u8, 'a' as u8, ':' as u8])
    ||| bytes_start_with(b, seq!['u' as u8, 'r' as u8, 'l' as u8, '(' as u8])
    ||| bytes_start_with(b, seq!['/' as u8, '/' as u8])
}

/// True when the value looks like a file name: it ends in a known asset or
/// source extension.
pub open spec fn filename_like(b: Seq<u8>) -> bool {
    ||| bytes_end_with(b, seq!['.' as u8, 'p' as u8, 'n' as u8, 'g' as u8])
    ||| bytes_end_with(b, seq!['.' as u8, 'j' as u8, 'p' as u8, 'g' as u8])
    ||| bytes_end_with(b, seq!['.' as u8, 'j' as u8, 'p' as u8, 'e' as u8, 'g' as u8])
    ||| bytes_end_with(b, seq!['.' as u8, 'g' as u8, 'i' as u8, 'f' as u8])
    ||| bytes_end_with(b, seq!['.' as u8, 's' as u8, 'v' as u8, 'g' as u8])
    ||| bytes_end_with(b, seq!['.' as u8, 'w' as u8, 'e' as u8, 'b' as u8, 'p' as u8])
    ||| bytes_end_with(b, seq!['.' as u8, 'j' as u8, 's' as u8])
    ||| bytes_end_with(b, seq!['.' as u8, 'c' as u8, 'j' as u8, 's' as u8])
    ||| bytes_end_with(b, seq!['.' as u8, 'm' as u8, 'j' as u8, 's' as u8])
    ||| bytes_end_with(b, seq!['.' as u8, 't' as u8, 's' as u8])
    ||| bytes_end_with(b, seq!['.' as u8, 'c' as u8, 't' as u8, 's' as u8])
    ||| bytes_end_with(b, seq!['.' as u8, 'm' as u8, 't' as u8, 's' as u8])
}

/// True when the value looks numeric: it starts with a digit, or with an
/// opening bracket followed by a digit. Any value that opens with digits is
/// treated as numeric-like, whatever follows them — identifiers and message
/// text rarely do, while timestamps, versions and measurement strings
/// usually carry trailing units or separators.
pub open spec fn numeric_like(b: Seq<u8>) -> bool {
    ||| (b.len() >= 1 && 48 <= b[0] <= 57)
    ||| (b.len() >= 2 && b[0] == '[' as u8 && 48 <= b[1] <= 57)
}

/// True when the value looks like code: it holds a quoted "use strict".
pub open spec fn code_like(b: Seq<u8>) -> bool {
    bytes_contain(
        b,
        seq![
            '"' as u8,
            'u' as u8,
            's' as u8,
            'e' as u8,
            ' ' as u8,
            's' as u8,
            't' as u8,
            'r' as u8,
            'i' as u8,
            'c' as u8,
            't' as u8,
            '"' as u8,
        ],
    )
}

/// True when every character of the value is Unicode whitespace; in
/// particular, true for an empty value.
pub open spec fn chars_blank(s: Seq<char>) -> bool {
    forall|i: int| 0 <= i < s.len() ==> char_is_unicode_ws(#[trigger] s[i])
}

/// Decide `chars_blank` for a candidate value's characters.
pub fn value_is_blank(v: &Vec<char>) -> (r: bool)
    ensures
        r == chars_blank(v@),
{
    let mut i: usize = 0;
    while i < v.len()
        invariant
            0 <= i <= v@.len(),
            forall|j: int| 0 <= j < i ==> char_is_unicode_ws(#[trigger] v@[j]),
        decreases v@.len() - i,
    {
        if !is_unicode_whitespace(v[i]) {
            return false;
        }
        i += 1;
    }
    true
}

/// The byte-pattern reasons to skip a candidate: too long, URL-like,
/// filename-like, numeric, or code-like.
pub open spec fn skip_heuristics(b: Seq<u8>) -> bool {
    ||| b.len() > 4096
    ||| url_like(b)
    ||| filename_like(b)
    ||| numeric_like(b)
    ||| code_like(b)
}

/// Decide `skip_heuristics` for the bytes of a candidate value.
pub fn should_skip_value(b: &[u8]) -> (r: bool)
    ensures
        r == skip_heuristics(b@),
{
    if b.len() > MAX_STRING_LENGTH {
        return true;
    }
    let http = vec!['h' as u8, 't' as u8, 't' as u8, 'p' as u8, ':' as u8];
    let https = vec!['h' as u8, 't' as u8, 't' as u8, 'p' as u8, 's' as u8, ':' as u8];
    let data = vec!['d' as u8, 'a' as u8, 't' as u8, 'a' as u8, ':' as u8];
    let url = vec!['u' as u8, 'r' as u8, 'l' as u8, '(' as u8];
    let slashes = vec!['/' as u8, '/' as u8];
    if bytes_starts_with(b, http.as_slice()) || bytes_starts_with(b, https.as_slice())
        || bytes_starts_with(b, data.as_slice()) || bytes_starts_with(b, url.as_slice())
        || bytes_starts_with(b, slashes.as_slice()) {
        return true;
    }
    let png = vec!['.' as u8, 'p' as u8, 'n' as u8, 'g' as u8];
    let jpg = vec!['.' as u8, 'j' as u8, 'p' as u8, 'g' as u8];
    let jpeg = vec!['.' as u8, 'j' as u8, 'p' as u8, 'e' as u8, 'g' as u8];
    let gif = vec!['.' as u8, 'g' as u8, 'i' as u8, 'f' as u8];
    let svg = vec!['.' as u8, 's' as u8, 'v' as u8, 'g' as u8];
    let webp = vec!['.' as u8, 'w' as u8, 'e' as u8, 'b' as u8, 'p' as u8];
    let js = vec!['.' as u8, 'j' as u8, 's' as u8];
    let cjs = vec!['.' as u8, 'c' as u8, 'j' as u8, 's' as u8];
    let mjs = vec!['.' as u8, 'm' as u8, 'j' as u8, 's' as u8];
    let ts = vec!['.' as u8, 't' as u8, 's' as u8];
    let cts = vec!['.' as u8, 'c' as u8, 't' as u8, 's' as u8];
    let mts = vec!['.' as u8, 'm' as u8, 't' as u8, 's' as u8];
    if bytes_ends_with(b, png.as_slice()) || bytes_ends_with(b, jpg.as_slice()) || bytes_ends_with(
        b,
        jpeg.as_slice(),
    ) || bytes_ends_with(b, gif.as_slice()) || bytes_ends_with(b, svg.as_slice())
        || bytes_ends_with(b, webp.as_slice()) || bytes_ends_with(b, js.as_slice())
        || bytes_ends_with(b, cjs.as_slice()) || bytes_ends_with(b, mjs.as_slice())
        || bytes_ends_with(b, ts.as_slice()) || bytes_ends_with(b, cts.as_slice())
        || bytes_ends_with(b, mts.as_slice()) {
        return true;
    }
    if b.len() >= 1 && 48 <= b[0] && b[0] <= 57 {
        return true;
    }
    if b.len() >= 2 && b[0] == '[' as u8 && 48 <= b[1] && b[1] <= 57 {
        return true;
    }
    let strict = vec![
        '"' as u8,
        'u' as u8,
        's' as u8,
        'e' as u8,
        ' ' as u8,
        's' as u8,
        't' as u8,
        'r' as u8,
        'i' as u8,
        'c' as u8,
        't' as u8,
        '"' as u8,
    ];
    if bytes_contains(b, strict.as_slice()) {
        return true;
    }
    false
}

/// The dictionary tracker: a directive set, a nesting count of scopes in
/// which collection is suspended, and the dictionary itself.
pub struct DictionaryTracker {
    pub directive_set: DirectiveSet,
    pub in_uncollected_scopes: usize,
    pub strings: Dictionary,
}

impl DictionaryTracker {
    pub open spec fn wf(self) -> bool {
        self.strings.wf()
    }

    /// True when a plain string candidate must not be collected: collection
    /// is suspended, the value is whitespace-only or trips a byte-pattern
    /// heuristic, or a directive excludes the span.
    pub open spec fn spec_should_skip_string(self, value: Seq<char>, span: Span) -> bool {
        ||| self.in_uncollected_scopes > 0
        ||| chars_blank(value)
        ||| skip_heuristics(vstd::utf8::encode_utf8(value))
        ||| self.directive_set.spec_excludes(span)
    }

    /// True when a tagged template must not be collected: collection is
    /// suspended or a directive excludes the span.
    pub open spec fn spec_should_skip_tagged_template(self, span: Span) -> bool {
        ||| self.in_uncollected_scopes > 0
        ||| self.directive_set.spec_excludes(span)
    }

    pub fn new(directive_set: DirectiveSet) -> (r: DictionaryTracker)
        ensures
            r.wf(),
            r.directive_set == directive_set,
            r.in_uncollected_scopes == 0,
            r.strings.entries@.len() == 0,
    {
        DictionaryTracker {
            directive_set,
            in_uncollected_scopes: 0,
            strings: Dictionary::new(),
        }
    }

    /// Enter a scope in which no candidates are collected. Saturates rather
    /// than overflowing; the walker pairs each enter with one exit.
    pub fn enter_uncollected_scope(&mut self)
        requires
            old(self).wf(),
        ensures
            final(self).wf(),
            final(self).in_uncollected_scopes == spec_bump(old(self).in_uncollected_scopes),
            final(self).strings == old(self).strings,
            final(self).directive_set == old(self).directive_set,
    {
        if self.in_uncollected_scopes < usize::MAX {
            self.in_uncollected_scopes = self.in_uncollected_scopes + 1;
        }
    }

    /// Leave one uncollected scope; never goes below zero even if the walker
    /// exits more scopes than it entered.
    pub fn exit_uncollected_scope(&mut self)
        requires
            old(self).wf(),
        ensures
            final(self).wf(),
            final(self).in_uncollected_scopes == if old(self).in_uncollected_scopes > 0 {
                (old(self).in_uncollected_scopes - 1) as usize
            } else {
                0usize
            },
            final(self).strings == old(self).strings,
            final(self).directive_set == old(self).directive_set,
    {
        if self.in_uncollected_scopes == 0 {
            return ;
        }
        self.in_uncollected_scopes = self.in_uncollected_scopes - 1;
    }

    pub(crate) fn should_skip_string(&self, value: &str, span: &Span) -> (r: bool)
        ensures
            r == self.spec_should_skip_string(value@, *span),
    {
        if self.in_uncollected_scopes > 0 {
            return true;
        }
        let value_chars = crate::text::chars_to_vec(value);
        if value_is_blank(&value_chars) {
            return true;
        }
        if should_skip_value(value.as_bytes()) {
            return true;
        }
        if self.directive_set.excludes_span_from_privacy_allowlist(span) {
            return true;
        }
        false
    }

    fn should_skip_tagged_template(&self, span: &Span) -> (r: bool)
        ensures
            r == self.spec_should_skip_tagged_template(*span),
    {
        if self.in_uncollected_scopes > 0 {
            return true;
        }
        if self.directive_set.excludes_span_from_privacy_allowlist(span) {
            return true;
        }
        false
    }

    /// Track one occurrence of an ordinary string literal. `raw` is the
    /// literal's raw source text (quotes included); `value` its cooked value,
    /// used only to judge whether the candidate is wanted.
    pub fn maybe_add_string(&mut self, raw: &Option<String>, value: &String, span: &Span) -> (r:
        Option<usize>)
        requires
            old(self).wf(),
        ensures
            final(self).wf(),
            final(self).directive_set == old(self).directive_set,
            final(self).in_uncollected_scopes == old(self).in_uncollected_scopes,
            ({
                let skip = old(self).spec_should_skip_string(value@, *span);
                if skip || raw is None {
                    r is None && final(self).strings == old(self).strings
                } else {
                    let (entries, index) = spec_add_entries(
                        old(self).strings.entries@,
                        DictionaryEntry::Str(raw.unwrap()),
                        span.lo,
                    );
                    r == Some(index as usize) && final(self).strings.entries@ == entries
                }
            }),
    {
        if self.should_skip_string(value.as_str(), span) {
            return None;
        }
        self.try_add_string(raw, span)
    }

    /// Track a string candidate whose raw text may be missing; absence means
    /// the candidate cannot be rendered and is not tracked.
    fn try_add_string(&mut self, raw: &Option<String>, span: &Span) -> (r: Option<usize>)
        requires
            old(self).wf(),
        ensures
            final(self).wf(),
            final(self).directive_set == old(self).directive_set,
            final(self).in_uncollected_scopes == old(self).in_uncollected_scopes,
            match raw {
                Some(raw_value) => {
                    let (entries, index) = spec_add_entries(
                        old(self).strings.entries@,
                        DictionaryEntry::Str(*raw_value),
                        span.lo,
                    );
                    r == Some(index as usize) && final(self).strings.entries@ == entries
                },
                None => r is None && final(self).strings == old(self).strings,
            },
    {
        match raw {
            Some(raw_value) => {
                let index = self.strings.add_entry(DictionaryEntry::Str(raw_value.clone()), span.lo);
                Some(index)
            },
            None => None,
        }
    }

    /// Track one occurrence of a tagged template, given the raw text of its
    /// quasis.
    pub fn maybe_add_tagged_template(&mut self, quasis: Vec<String>, span: &Span) -> (r: Option<
        usize,
    >)
        requires
            old(self).wf(),
        ensures
            final(self).wf(),
            final(self).directive_set == old(self).directive_set,
            final(self).in_uncollected_scopes == old(self).in_uncollected_scopes,
            ({
                if old(self).spec_should_skip_tagged_template(*span) {
                    r is None && final(self).strings == old(self).strings
                } else {
                    let (entries, index) = spec_add_entries(
                        old(self).strings.entries@,
                        DictionaryEntry::TaggedTemplate(quasis),
                        span.lo,
                    );
                    r == Some(index as usize) && final(self).strings.entries@ == entries
                }
            }),
    {
        if self.should_skip_tagged_template(span) {
            return None;
        }
        let index = self.strings.add_entry(DictionaryEntry::TaggedTemplate(quasis), span.lo);
        Some(index)
    }

    /// Track one occurrence of a template quasi, given its raw text.
    pub fn maybe_add_template_quasi(&mut self, raw: &String, span: &Span) -> (r: Option<usize>)
        requires
            old(self).wf(),
        ensures
            final(self).wf(),
            final(self).directive_set == old(self).directive_set,
            final(self).in_uncollected_scopes == old(self).in_uncollected_scopes,
            ({
                if old(self).spec_should_skip_string(raw@, *span) {
                    r is None && final(self).strings == old(self).strings
                } else {
                    let (entries, index) = spec_add_entries(
                        old(self).strings.entries@,
                        DictionaryEntry::TemplateQuasi(*raw),
                        span.lo,
                    );
                    r == Some(index as usize) && final(self).strings.entries@ == entries
                }
            }),
    {
        if self.should_skip_string(raw.as_str(), span) {
            return None;
        }
        let index = self.strings.add_entry(DictionaryEntry::TemplateQuasi(raw.clone()), span.lo);
        Some(index)
    }
}

} // verus!
