//! Processing the file's comments: privacy-allowlist exclusion directives
//! and source-map comments.

use vstd::prelude::*;

use crate::directives::DirectiveSet;
use crate::span::Span;
use crate::trusted::{char_is_unicode_ws, data_url_decoded, decode_data_url, is_unicode_whitespace};

verus! {

/// One comment of the file: its text (without the comment markers) and the
/// byte range it covers.
pub struct Comment {
    pub text: String,
    pub span: Span,
}

/// A source-map comment found in the file: a reference to an external map,
/// or an inline map with its decoded bytes and the comment's span.
pub enum SourceMapComment {
    External,
    Inline(Vec<u8>, Span),
}

/// The ghost shape of a found source-map comment: the inline case carries
/// the data URL rather than its decoding.
pub enum SmcKind {
    KeepExternal,
    KeepInline(Seq<char>, Span),
}

/// ASCII whitespace as characters.
pub open spec fn char_is_ws(c: char) -> bool {
    c == ' ' || c == '\t' || c == '\n' || c == '\r' || c == '\u{0B}' || c == '\u{0C}'
}

pub open spec fn trim_chars_start(s: Seq<char>) -> Seq<char>
    decreases s.len(),
{
    if s.len() > 0 && char_is_unicode_ws(s[0]) {
        trim_chars_start(s.drop_first())
    } else {
        s
    }
}

pub open spec fn trim_chars_end(s: Seq<char>) -> Seq<char>
    decreases s.len(),
{
    if s.len() > 0 && char_is_unicode_ws(s[s.len() - 1]) {
        trim_chars_end(s.drop_last())
    } else {
        s
    }
}

/// The comment's text without leading and trailing Unicode whitespace.
pub open spec fn trimmed_chars(s: Seq<char>) -> Seq<char> {
    trim_chars_end(trim_chars_start(s))
}

pub fn exec_char_is_ws(c: char) -> (r: bool)
    ensures
        r == char_is_ws(c),
{
    c == ' ' || c == '\t' || c == '\n' || c == '\r' || c == '\u{0B}' || c == '\u{0C}'
}

/// Remove leading and trailing Unicode whitespace from a character vector.
pub fn chars_trimmed(v: &Vec<char>) -> (r: Vec<char>)
    ensures
        r@ == trimmed_chars(v@),
{
    let mut lo: usize = 0;
    proof {
        assert(v@.skip(0) =~= v@);
    }
    while lo < v.len() && is_unicode_whitespace(v[lo])
        invariant
            0 <= lo <= v@.len(),
            trim_chars_start(v@) == trim_chars_start(v@.skip(lo as int)),
        decreases v@.len() - lo,
    {
        proof {
            assert(v@.skip(lo as int).drop_first() =~= v@.skip(lo + 1));
        }
        lo += 1;
    }
    proof {
        if lo < v@.len() {
            assert(trim_chars_start(v@.skip(lo as int)) == v@.skip(lo as int));
        } else {
            assert(v@.skip(lo as int) =~= Seq::<char>::empty());
        }
    }
    let mut hi: usize = v.len();
    while hi > lo && is_unicode_whitespace(v[hi - 1])
        invariant
            0 <= lo <= hi <= v@.len(),
            trim_chars_start(v@) == v@.skip(lo as int),
            trim_chars_end(v@.subrange(lo as int, v@.len() as int)) == trim_chars_end(
                v@.subrange(lo as int, hi as int),
            ),
        decreases hi,
    {
        proof {
            assert(v@.subrange(lo as int, hi as int).drop_last() =~= v@.subrange(
                lo as int,
                hi - 1,
            ));
        }
        hi -= 1;
    }
    proof {
        assert(v@.skip(lo as int) =~= v@.subrange(lo as int, v@.len() as int));
        if hi > lo {
            assert(trim_chars_end(v@.subrange(lo as int, hi as int)) == v@.subrange(
                lo as int,
                hi as int,
            ));
        } else {
            assert(v@.subrange(lo as int, hi as int) =~= Seq::<char>::empty());
        }
    }
    let mut r: Vec<char> = Vec::new();
    let mut i: usize = lo;
    while i < hi
        invariant
            lo <= i <= hi <= v@.len(),
            r@ == v@.subrange(lo as int, i as int),
        decreases hi - i,
    {
        r.push(v[i]);
        proof {
            assert(v@.subrange(lo as int, i + 1) =~= v@.subrange(lo as int, i as int).push(
                v@[i as int],
            ));
        }
        i += 1;
    }
    proof {
        assert(r@ == trimmed_chars(v@));
    }
    r
}

/// True when `s` begins with the characters of `p`.
pub open spec fn chars_start_with(s: Seq<char>, p: Seq<char>) -> bool {
    p.len() <= s.len() && s.take(p.len() as int) == p
}

/// Compare two character vectors.
pub fn chars_equal(a: &Vec<char>, b: &Vec<char>) -> (r: bool)
    ensures
        r == (a@ == b@),
{
    if a.len() != b.len() {
        return false;
    }
    let mut i: usize = 0;
    while i < a.len()
        invariant
            a@.len() == b@.len(),
            0 <= i <= a@.len(),
            forall|j: int| 0 <= j < i ==> a@[j] == b@[j],
        decreases a@.len() - i,
    {
        if a[i] != b[i] {
            return false;
        }
        i += 1;
    }
    proof {
        assert(a@ =~= b@);
    }
    true
}

/// True when the character vector begins with the given prefix.
pub fn chars_starts_with(v: &Vec<char>, p: &Vec<char>) -> (r: bool)
    ensures
        r == chars_start_with(v@, p@),
{
    if p.len() > v.len() {
        return false;
    }
    let mut i: usize = 0;
    while i < p.len()
        invariant
            p@.len() <= v@.len(),
            0 <= i <= p@.len(),
            forall|j: int| 0 <= j < i ==> v@[j] == p@[j],
        decreases p@.len() - i,
    {
        if v[i] != p[i] {
            assert(v@.take(p@.len() as int)[i as int] != p@[i as int]);
            return false;
        }
        i += 1;
    }
    proof {
        assert(v@.take(p@.len() as int) =~= p@);
    }
    true
}

/// The start of the line containing position `p`: just after the closest
/// line feed before `p`, or the start of the text.
pub open spec fn line_start_of(s: Seq<u8>, p: int) -> int
    decreases p,
{
    if p <= 0 {
        0
    } else if s[p - 1] == 10 {
        p
    } else {
        line_start_of(s, p - 1)
    }
}

/// The end of the line containing position `p`: just after the next line
/// feed at or after `p`, or the end of the text.
pub open spec fn line_end_of(s: Seq<u8>, p: int) -> int
    decreases s.len() - p,
{
    if p >= s.len() {
        s.len() as int
    } else if s[p] == 10 {
        p + 1
    } else {
        line_end_of(s, p + 1)
    }
}

fn exec_line_start(src: &[u8], pos: usize) -> (r: usize)
    requires
        pos <= src@.len(),
    ensures
        r == line_start_of(src@, pos as int),
{
    let mut p = pos;
    while p > 0 && src[p - 1] != 10
        invariant
            0 <= p <= pos <= src@.len(),
            line_start_of(src@, pos as int) == line_start_of(src@, p as int),
        decreases p,
    {
        p -= 1;
    }
    p
}

pub fn line_end_position(src: &[u8], pos: usize) -> (r: usize)
    requires
        pos <= src@.len(),
    ensures
        r == line_end_of(src@, pos as int),
        r <= src@.len(),
{
    proof {
        lemma_line_end_bounds(src@, pos as int);
    }
    exec_line_end(src, pos)
}

fn exec_line_end(src: &[u8], pos: usize) -> (r: usize)
    requires
        pos <= src@.len(),
    ensures
        r == line_end_of(src@, pos as int),
{
    let n = src.len();
    let mut p = pos;
    while p < n && src[p] != 10
        invariant
            pos <= p <= n,
            n == src@.len(),
            line_end_of(src@, pos as int) == line_end_of(src@, p as int),
        decreases n - p,
    {
        p += 1;
    }
    if p < n {
        p + 1
    } else {
        p
    }
}

/// The span of the line containing `pos`, or nothing when `pos` lies beyond
/// the text.
pub open spec fn spec_line_span(src: Seq<u8>, pos: usize) -> Option<Span> {
    if pos <= src.len() {
        Some(
            Span {
                lo: line_start_of(src, pos as int) as usize,
                hi: line_end_of(src, pos as int) as usize,
            },
        )
    } else {
        None
    }
}

fn bounds_of_line_containing_pos(src: &[u8], pos: usize) -> (r: Option<Span>)
    ensures
        r == spec_line_span(src@, pos),
{
    if pos > src.len() {
        return None;
    }
    let lo = exec_line_start(src, pos);
    let hi = exec_line_end(src, pos);
    proof {
        lemma_line_bounds(src@, pos as int);
    }
    Some(Span { lo, hi })
}

proof fn lemma_line_bounds(s: Seq<u8>, p: int)
    requires
        0 <= p <= s.len(),
    ensures
        0 <= line_start_of(s, p) <= p,
        p <= line_end_of(s, p) <= s.len(),
    decreases p + (s.len() - p),
{
    lemma_line_start_bounds(s, p);
    lemma_line_end_bounds(s, p);
}

proof fn lemma_line_start_bounds(s: Seq<u8>, p: int)
    requires
        0 <= p <= s.len(),
    ensures
        0 <= line_start_of(s, p) <= p,
    decreases p,
{
    if p > 0 && s[p - 1] != 10 {
        lemma_line_start_bounds(s, p - 1);
    }
}

proof fn lemma_line_end_bounds(s: Seq<u8>, p: int)
    requires
        0 <= p <= s.len(),
    ensures
        p <= line_end_of(s, p) <= s.len(),
    decreases s.len() - p,
{
    if p < s.len() && s[p] != 10 {
        lemma_line_end_bounds(s, p + 1);
    }
}

/// The span of all lines a comment's span touches, per the original line
/// lookup rules.
pub open spec fn spec_lines_spanning(src: Seq<u8>, span: Span) -> Option<Span> {
    match (spec_line_span(src, span.lo), spec_line_span(src, span.hi)) {
        (Some(a), Some(b)) => Some(Span { lo: a.lo, hi: b.hi }),
        (Some(a), None) => Some(a),
        (None, Some(b)) => Some(b),
        (None, None) => None,
    }
}

fn bounds_of_lines_intersecting_span(src: &[u8], span: &Span) -> (r: Option<Span>)
    ensures
        r == spec_lines_spanning(src@, *span),
{
    let lo_span = bounds_of_line_containing_pos(src, span.lo);
    let hi_span = bounds_of_line_containing_pos(src, span.hi);
    match (lo_span, hi_span) {
        (Some(a), Some(b)) => Some(Span { lo: a.lo, hi: b.hi }),
        (Some(a), None) => Some(a),
        (None, Some(b)) => Some(b),
        (None, None) => None,
    }
}

/// The span of the line after the one containing `pos`.
pub open spec fn spec_line_after(src: Seq<u8>, pos: usize) -> Option<Span> {
    if pos <= src.len() {
        let e = line_end_of(src, pos as int);
        Some(Span { lo: e as usize, hi: line_end_of(src, e) as usize })
    } else {
        None
    }
}

fn bounds_of_line_after_pos(src: &[u8], pos: usize) -> (r: Option<Span>)
    ensures
        r == spec_line_after(src@, pos),
{
    if pos > src.len() {
        return None;
    }
    let e = exec_line_end(src, pos);
    proof {
        lemma_line_end_bounds(src@, pos as int);
    }
    let hi = exec_line_end(src, e);
    Some(Span { lo: e, hi })
}

/// Pair sorted begin and end directive positions into exclusion spans: each
/// begin at or after the last span's end takes the next end directive after
/// it, or the end of the file when none is left.
pub open spec fn pair_exclusions(
    begins: Seq<usize>,
    ends: Seq<usize>,
    last_end: usize,
    src_len: usize,
) -> Seq<Span>
    decreases begins.len() + ends.len(),
{
    if begins.len() == 0 {
        Seq::empty()
    } else if begins[0] < last_end {
        pair_exclusions(begins.drop_first(), ends, last_end, src_len)
    } else if ends.len() > 0 && ends[0] <= begins[0] {
        pair_exclusions(begins, ends.drop_first(), last_end, src_len)
    } else if ends.len() > 0 {
        seq![Span { lo: begins[0], hi: ends[0] }] + pair_exclusions(
            begins.drop_first(),
            ends.drop_first(),
            ends[0],
            src_len,
        )
    } else {
        seq![Span { lo: begins[0], hi: src_len }] + pair_exclusions(
            begins.drop_first(),
            ends,
            src_len,
            src_len,
        )
    }
}

/// Convert the sorted begin and end positions into exclusion spans.
fn exec_pair_exclusions(begins: &Vec<usize>, ends: &Vec<usize>, src_len: usize) -> (r: Vec<Span>)
    ensures
        r@ == pair_exclusions(begins@, ends@, 0, src_len),
{
    let mut r: Vec<Span> = Vec::new();
    let mut bi: usize = 0;
    let mut ei: usize = 0;
    let mut last_end: usize = 0;
    proof {
        assert(begins@.skip(0) =~= begins@);
        assert(ends@.skip(0) =~= ends@);
        assert(r@ + pair_exclusions(begins@, ends@, 0, src_len) =~= pair_exclusions(
            begins@,
            ends@,
            0,
            src_len,
        ));
    }
    while bi < begins.len()
        invariant
            0 <= bi <= begins@.len(),
            0 <= ei <= ends@.len(),
            r@ + pair_exclusions(begins@.skip(bi as int), ends@.skip(ei as int), last_end, src_len)
                == pair_exclusions(begins@, ends@, 0, src_len),
        decreases begins@.len() - bi + (ends@.len() - ei),
    {
        let ghost rem_b = begins@.skip(bi as int);
        let ghost rem_e = ends@.skip(ei as int);
        proof {
            assert(rem_b[0] == begins@[bi as int]);
            assert(rem_b.drop_first() =~= begins@.skip(bi + 1));
        }
        let b = begins[bi];
        if b < last_end {
            bi += 1;
        } else if ei < ends.len() && ends[ei] <= b {
            proof {
                assert(rem_e[0] == ends@[ei as int]);
                assert(rem_e.drop_first() =~= ends@.skip(ei + 1));
            }
            ei += 1;
        } else if ei < ends.len() {
            let e = ends[ei];
            proof {
                assert(rem_e[0] == ends@[ei as int]);
                assert(rem_e.drop_first() =~= ends@.skip(ei + 1));
            }
            let ghost pre = r@;
            r.push(Span { lo: b, hi: e });
            last_end = e;
            bi += 1;
            ei += 1;
            proof {
                assert(r@ + pair_exclusions(
                    begins@.skip(bi as int),
                    ends@.skip(ei as int),
                    last_end,
                    src_len,
                ) =~= pre + (seq![Span { lo: rem_b[0], hi: rem_e[0] }] + pair_exclusions(
                    rem_b.drop_first(),
                    rem_e.drop_first(),
                    rem_e[0],
                    src_len,
                )));
            }
        } else {
            let ghost pre = r@;
            r.push(Span { lo: b, hi: src_len });
            last_end = src_len;
            bi += 1;
            proof {
                assert(rem_e.len() == 0);
                assert(r@ + pair_exclusions(
                    begins@.skip(bi as int),
                    ends@.skip(ei as int),
                    last_end,
                    src_len,
                ) =~= pre + (seq![Span { lo: rem_b[0], hi: src_len }] + pair_exclusions(
                    rem_b.drop_first(),
                    rem_e,
                    src_len,
                    src_len,
                )));
            }
        }
    }
    proof {
        assert(begins@.skip(begins@.len() as int) =~= Seq::<usize>::empty());
        assert(r@ + Seq::<Span>::empty() =~= r@);
    }
    r
}

/// What one comment means: nothing, a source-map comment, a whole-span
/// exclusion, or a begin or end marker.
pub enum CommentMeaning {
    Plain,
    MapExternal,
    MapInline(Seq<char>, Span),
    ExcludeSpan(Span),
    ExcludeBegin(usize),
    ExcludeEnd(usize),
}

/// Classify one comment against the source text.
pub open spec fn classify_comment(c: Comment, src: Seq<u8>) -> CommentMeaning {
    let t = trimmed_chars(c.text@);
    if chars_start_with(t, "# sourceMappingURL="@) {
        let url = t.skip("# sourceMappingURL="@.len() as int);
        if chars_start_with(url, "data:"@) {
            if data_url_decoded(url) is Some {
                CommentMeaning::MapInline(url, c.span)
            } else {
                CommentMeaning::Plain
            }
        } else {
            CommentMeaning::MapExternal
        }
    } else if t == "datadog-privacy-allowlist-exclude-file"@ {
        CommentMeaning::ExcludeSpan(Span { lo: 0, hi: src.len() as usize })
    } else if t == "datadog-privacy-allowlist-exclude-line"@ {
        match spec_lines_spanning(src, c.span) {
            Some(s) => CommentMeaning::ExcludeSpan(s),
            None => CommentMeaning::Plain,
        }
    } else if t == "datadog-privacy-allowlist-exclude-next-line"@ {
        match spec_line_after(src, c.span.hi) {
            Some(s) => CommentMeaning::ExcludeSpan(s),
            None => CommentMeaning::Plain,
        }
    } else if t == "datadog-privacy-allowlist-exclude-begin"@ {
        CommentMeaning::ExcludeBegin(c.span.lo)
    } else if t == "datadog-privacy-allowlist-exclude-end"@ {
        CommentMeaning::ExcludeEnd(c.span.hi)
    } else {
        CommentMeaning::Plain
    }
}

/// The scan state accumulated over the comments.
pub struct DirectiveScan {
    pub excluded_file: bool,
    pub spans: Seq<Span>,
    pub begins: Seq<usize>,
    pub ends: Seq<usize>,
    pub smc: Option<SmcKind>,
}

/// Fold one comment into the scan state.
pub open spec fn scan_step(st: DirectiveScan, c: Comment, src: Seq<u8>) -> DirectiveScan {
    match classify_comment(c, src) {
        CommentMeaning::Plain => st,
        CommentMeaning::MapExternal => DirectiveScan { smc: Some(SmcKind::KeepExternal), ..st },
        CommentMeaning::MapInline(url, span) => DirectiveScan {
            smc: Some(SmcKind::KeepInline(url, span)),
            ..st
        },
        CommentMeaning::ExcludeSpan(s) => {
            if s == (Span { lo: 0, hi: src.len() as usize }) {
                DirectiveScan { excluded_file: true, ..st }
            } else {
                DirectiveScan { spans: st.spans.push(s), ..st }
            }
        },
        CommentMeaning::ExcludeBegin(p) => DirectiveScan { begins: st.begins.push(p), ..st },
        CommentMeaning::ExcludeEnd(p) => DirectiveScan { ends: st.ends.push(p), ..st },
    }
}

/// The scan state after all comments, in order.
pub open spec fn scan_comments(comments: Seq<Comment>, src: Seq<u8>) -> DirectiveScan
    decreases comments.len(),
{
    if comments.len() == 0 {
        DirectiveScan {
            excluded_file: false,
            spans: Seq::empty(),
            begins: Seq::empty(),
            ends: Seq::empty(),
            smc: None,
        }
    } else {
        scan_step(scan_comments(comments.drop_last(), src), comments.last(), src)
    }
}

/// The exclusion spans of the finished directive set: the directly excluded
/// spans followed by the spans paired from sorted begin and end markers.
pub open spec fn spec_exclusion_spans(st: DirectiveScan, src_len: usize) -> Seq<Span> {
    st.spans + pair_exclusions(
        st.begins.sort_by(crate::plan::usize_leq()),
        st.ends.sort_by(crate::plan::usize_leq()),
        0,
        src_len,
    )
}

/// Walk the file's comments and gather the privacy-allowlist exclusions and
/// the last source-map comment, if any. An inline source map whose data URL
/// cannot be decoded is ignored.
pub fn process_comments(src: &[u8], comments: &Vec<Comment>) -> (r: (
    DirectiveSet,
    Option<SourceMapComment>,
))
    ensures
        ({
            let st = scan_comments(comments@, src@);
            &&& r.0.privacy_allowlist_excluded_file == st.excluded_file
            &&& r.0.privacy_allowlist_excluded_spans@ == spec_exclusion_spans(
                st,
                src@.len() as usize,
            )
            &&& match (r.1, st.smc) {
                (None, None) => true,
                (Some(SourceMapComment::External), Some(SmcKind::KeepExternal)) => true,
                (
                    Some(SourceMapComment::Inline(body, span)),
                    Some(SmcKind::KeepInline(url, uspan)),
                ) => span == uspan && data_url_decoded(url) == Some(body@),
                _ => false,
            }
        }),
{
    let mut excluded_file = false;
    let mut spans: Vec<Span> = Vec::new();
    let mut begins: Vec<usize> = Vec::new();
    let mut ends: Vec<usize> = Vec::new();
    let mut smc: Option<SourceMapComment> = None;
    let src_len = src.len();
    let mut i: usize = 0;
    while i < comments.len()
        invariant
            0 <= i <= comments@.len(),
            src_len == src@.len(),
            ({
                let st = scan_comments(comments@.take(i as int), src@);
                &&& excluded_file == st.excluded_file
                &&& spans@ == st.spans
                &&& begins@ == st.begins
                &&& ends@ == st.ends
                &&& match (smc, st.smc) {
                    (None, None) => true,
                    (Some(SourceMapComment::External), Some(SmcKind::KeepExternal)) => true,
                    (
                        Some(SourceMapComment::Inline(body, span)),
                        Some(SmcKind::KeepInline(url, uspan)),
                    ) => span == uspan && data_url_decoded(url) == Some(body@),
                    _ => false,
                }
            }),
        decreases comments@.len() - i,
    {
        let ghost pre_taken = comments@.take(i as int);
        proof {
            assert(comments@.take(i + 1).drop_last() =~= pre_taken);
            assert(comments@.take(i + 1).last() == comments@[i as int]);
        }
        let comment = &comments[i];
        let tv = crate::text::chars_to_vec(comment.text.as_str());
        let t = chars_trimmed(&tv);
        let map_prefix = crate::text::chars_to_vec("# sourceMappingURL=");
        let data_prefix = crate::text::chars_to_vec("data:");
        let exclude_file = crate::text::chars_to_vec("datadog-privacy-allowlist-exclude-file");
        let exclude_line = crate::text::chars_to_vec("datadog-privacy-allowlist-exclude-line");
        let exclude_next = crate::text::chars_to_vec(
            "datadog-privacy-allowlist-exclude-next-line",
        );
        let exclude_begin = crate::text::chars_to_vec(
            "datadog-privacy-allowlist-exclude-begin",
        );
        let exclude_end = crate::text::chars_to_vec("datadog-privacy-allowlist-exclude-end");
        if chars_starts_with(&t, &map_prefix) {
            let mut url: Vec<char> = Vec::new();
            let mut j: usize = map_prefix.len();
            while j < t.len()
                invariant
                    map_prefix@.len() <= j <= t@.len(),
                    url@ == t@.subrange(map_prefix@.len() as int, j as int),
                decreases t@.len() - j,
            {
                url.push(t[j]);
                proof {
                    assert(t@.subrange(map_prefix@.len() as int, j + 1) =~= t@.subrange(
                        map_prefix@.len() as int,
                        j as int,
                    ).push(t@[j as int]));
                }
                j += 1;
            }
            proof {
                assert(url@ =~= t@.skip(map_prefix@.len() as int));
                assert(url@ =~= t@.skip("# sourceMappingURL="@.len() as int)) by {
                    reveal_strlit("# sourceMappingURL=");
                }
            }
            if chars_starts_with(&url, &data_prefix) {
                proof {
                    reveal_strlit("data:");
                }
                match decode_data_url(&url) {
                    Some(body) => {
                        smc = Some(SourceMapComment::Inline(body, comment.span));
                    },
                    None => {},
                }
            } else {
                proof {
                    reveal_strlit("data:");
                }
                smc = Some(SourceMapComment::External);
            }
        } else if chars_equal(&t, &exclude_file) {
            proof {
                reveal_strlit("datadog-privacy-allowlist-exclude-file");
            }
            let span = Span { lo: 0, hi: src_len };
            if span.lo == 0 && span.hi == src_len {
                excluded_file = true;
            }
        } else if chars_equal(&t, &exclude_line) {
            proof {
                reveal_strlit("datadog-privacy-allowlist-exclude-line");
            }
            match bounds_of_lines_intersecting_span(src, &comment.span) {
                Some(span) => {
                    if span.lo == 0 && span.hi == src_len {
                        excluded_file = true;
                    } else {
                        spans.push(span);
                    }
                },
                None => {},
            }
        } else if chars_equal(&t, &exclude_next) {
            proof {
                reveal_strlit("datadog-privacy-allowlist-exclude-next-line");
            }
            match bounds_of_line_after_pos(src, comment.span.hi) {
                Some(span) => {
                    if span.lo == 0 && span.hi == src_len {
                        excluded_file = true;
                    } else {
                        spans.push(span);
                    }
                },
                None => {},
            }
        } else if chars_equal(&t, &exclude_begin) {
            proof {
                reveal_strlit("datadog-privacy-allowlist-exclude-begin");
            }
            begins.push(comment.span.lo);
        } else if chars_equal(&t, &exclude_end) {
            proof {
                reveal_strlit("datadog-privacy-allowlist-exclude-end");
            }
            ends.push(comment.span.hi);
        } else {
            proof {
                reveal_strlit("# sourceMappingURL=");
                reveal_strlit("datadog-privacy-allowlist-exclude-file");
                reveal_strlit("datadog-privacy-allowlist-exclude-line");
                reveal_strlit("datadog-privacy-allowlist-exclude-next-line");
                reveal_strlit("datadog-privacy-allowlist-exclude-begin");
                reveal_strlit("datadog-privacy-allowlist-exclude-end");
            }
        }
        proof {
            reveal_strlit("# sourceMappingURL=");
            reveal_strlit("data:");
            reveal_strlit("datadog-privacy-allowlist-exclude-file");
            reveal_strlit("datadog-privacy-allowlist-exclude-line");
            reveal_strlit("datadog-privacy-allowlist-exclude-next-line");
            reveal_strlit("datadog-privacy-allowlist-exclude-begin");
            reveal_strlit("datadog-privacy-allowlist-exclude-end");
        }
        i += 1;
    }
    proof {
        assert(comments@.take(comments@.len() as int) =~= comments@);
    }
    let ghost begins0 = begins@;
    let ghost ends0 = ends@;
    let sorted_begins = crate::plan::sort_positions(begins);
    let sorted_ends = crate::plan::sort_positions(ends);
    proof {
        let leq = crate::plan::usize_leq();
        assert forall|a: usize| #[trigger] leq(a, a) by {}
        assert forall|a: usize, b: usize| #[trigger] leq(a, b) && #[trigger] leq(b, a)
            implies a == b by {}
        assert forall|a: usize, b: usize, c: usize|
            #[trigger] leq(a, b) && #[trigger] leq(b, c) implies leq(a, c) by {}
        assert forall|a: usize, b: usize| #[trigger] leq(a, b) || #[trigger] leq(b, a) by {}
        assert(vstd::relations::total_ordering(leq));
        begins0.lemma_sort_by_ensures(leq);
        ends0.lemma_sort_by_ensures(leq);
        vstd::seq_lib::lemma_sorted_unique(sorted_begins@, begins0.sort_by(leq), leq);
        vstd::seq_lib::lemma_sorted_unique(sorted_ends@, ends0.sort_by(leq), leq);
    }
    let paired = exec_pair_exclusions(&sorted_begins, &sorted_ends, src_len);
    let mut all_spans = spans;
    let mut paired = paired;
    all_spans.append(&mut paired);
    let directive_set = DirectiveSet {
        privacy_allowlist_excluded_file: excluded_file,
        privacy_allowlist_excluded_spans: all_spans,
    };
    (directive_set, smc)
}

} // verus!
