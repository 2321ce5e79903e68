//! The rewrite model: a planned edit against the original source, carrying a
//! content payload that knows how to render itself and how to order itself
//! against other payloads.

use vstd::prelude::*;

use crate::span::Span;

verus! {

/// Lexicographic order over character sequences, by code point.
pub open spec fn chars_lt(a: Seq<char>, b: Seq<char>) -> bool
    decreases a.len(),
{
    if a.len() == 0 {
        b.len() > 0
    } else if b.len() == 0 {
        false
    } else if a[0] != b[0] {
        (a[0] as u32) < (b[0] as u32)
    } else {
        chars_lt(a.drop_first(), b.drop_first())
    }
}

pub proof fn lemma_chars_lt_props(a: Seq<char>, b: Seq<char>)
    ensures
        chars_lt(a, b) || chars_lt(b, a) || a == b,
        chars_lt(a, b) ==> !chars_lt(b, a) && a != b,
    decreases a.len(),
{
    if a.len() == 0 || b.len() == 0 {
        if a.len() == 0 && b.len() == 0 {
            assert(a =~= b);
        }
    } else if a[0] != b[0] {
        vstd::utf8::char_u32_cast(a[0], a[0] as u32);
        vstd::utf8::char_u32_cast(b[0], b[0] as u32);
        assert((a[0] as u32) != (b[0] as u32));
    } else {
        lemma_chars_lt_props(a.drop_first(), b.drop_first());
        if a.drop_first() == b.drop_first() {
            assert forall|i: int| 0 <= i < a.len() implies a[i] == b[i] by {
                if i > 0 {
                    assert(a.drop_first()[i - 1] == b.drop_first()[i - 1]);
                }
            }
            assert(a =~= b);
        }
    }
}

pub proof fn lemma_chars_lt_trans(a: Seq<char>, b: Seq<char>, c: Seq<char>)
    requires
        chars_lt(a, b),
        chars_lt(b, c),
    ensures
        chars_lt(a, c),
    decreases a.len(),
{
    if a.len() == 0 {
    } else {
        // b and c are nonempty since something is below each.
        if a[0] == b[0] {
            if b[0] == c[0] {
                lemma_chars_lt_trans(a.drop_first(), b.drop_first(), c.drop_first());
            }
        }
    }
}

/// `chars_lt` ignores a common prefix.
proof fn lemma_chars_lt_common_prefix(a: Seq<char>, b: Seq<char>, i: int)
    requires
        0 <= i <= a.len(),
        i <= b.len(),
        forall|j: int| 0 <= j < i ==> a[j] == b[j],
    ensures
        chars_lt(a, b) == chars_lt(a.skip(i), b.skip(i)),
    decreases i,
{
    if i == 0 {
        assert(a.skip(0) =~= a);
        assert(b.skip(0) =~= b);
    } else {
        assert(a.len() > 0 && b.len() > 0 && a[0] == b[0]);
        assert(chars_lt(a, b) == chars_lt(a.drop_first(), b.drop_first()));
        assert forall|j: int| 0 <= j < i - 1 implies a.drop_first()[j] == b.drop_first()[j] by {
            assert(a.drop_first()[j] == a[j + 1]);
            assert(b.drop_first()[j] == b[j + 1]);
        }
        lemma_chars_lt_common_prefix(a.drop_first(), b.drop_first(), i - 1);
        assert(a.drop_first().skip(i - 1) =~= a.skip(i));
        assert(b.drop_first().skip(i - 1) =~= b.skip(i));
    }
}

/// Compare two character vectors lexicographically.
pub fn chars_less(a: &Vec<char>, b: &Vec<char>) -> (r: bool)
    ensures
        r == chars_lt(a@, b@),
{
    let mut i: usize = 0;
    loop
        invariant
            0 <= i <= a@.len(),
            i <= b@.len(),
            forall|j: int| 0 <= j < i ==> a@[j] == b@[j],
        decreases a@.len() - i,
    {
        if i >= a.len() || i >= b.len() {
            proof {
                lemma_chars_lt_common_prefix(a@, b@, i as int);
                if i >= a@.len() {
                    assert(a@.skip(i as int) =~= Seq::<char>::empty());
                } else {
                    assert(b@.skip(i as int) =~= Seq::<char>::empty());
                    assert(a@.skip(i as int).len() > 0);
                }
            }
            return a.len() < b.len();
        }
        if a[i] != b[i] {
            proof {
                lemma_chars_lt_common_prefix(a@, b@, i as int);
                assert(a@.skip(i as int)[0] == a@[i as int]);
                assert(b@.skip(i as int)[0] == b@[i as int]);
            }
            return (a[i] as u32) < (b[i] as u32);
        }
        i += 1;
    }
}

/// The total order key of a content payload: a variant rank, a dictionary
/// slot for declaration entries, the rendered text, and an auxiliary source
/// position. Two payloads with one key render identically.
pub struct OrderKey {
    pub rank: int,
    pub slot: int,
    pub text: Seq<char>,
    pub pos: int,
}

/// Lexicographic order over content keys.
pub open spec fn key_le(a: OrderKey, b: OrderKey) -> bool {
    if a.rank != b.rank {
        a.rank < b.rank
    } else if a.slot != b.slot {
        a.slot < b.slot
    } else if a.text != b.text {
        chars_lt(a.text, b.text)
    } else {
        a.pos <= b.pos
    }
}

pub proof fn lemma_key_le_total(a: OrderKey, b: OrderKey)
    ensures
        key_le(a, b) || key_le(b, a),
        key_le(a, b) && key_le(b, a) ==> a == b,
{
    lemma_chars_lt_props(a.text, b.text);
}

pub proof fn lemma_key_le_trans(a: OrderKey, b: OrderKey, c: OrderKey)
    requires
        key_le(a, b),
        key_le(b, c),
    ensures
        key_le(a, c),
{
    lemma_chars_lt_props(a.text, b.text);
    lemma_chars_lt_props(b.text, c.text);
    lemma_chars_lt_props(a.text, c.text);
    if a.rank == b.rank && b.rank == c.rank && a.slot == b.slot && b.slot == c.slot {
        if a.text != b.text && b.text != c.text {
            lemma_chars_lt_trans(a.text, b.text, c.text);
        }
    }
}

/// A content payload for rewrites.
///
/// The payload renders to the bytes that replace (or are inserted into) the
/// original text, may point the source map at an alternate source position,
/// and carries a total order through its key. The order is used as the final
/// tie-break when rewrites are sorted, which lets content types encode an
/// intentional ordering for several insertions at one point (a helper import
/// must come before the dictionary declaration it feeds, and the
/// declaration's entries must keep their slot order).
pub trait RewriteContent: Sized {
    /// The payload's place in the content order.
    spec fn key(self) -> OrderKey;

    /// The bytes this payload renders to in the output.
    spec fn rendered(self) -> Seq<u8>;

    /// The alternate source position the source map should point at, if any.
    spec fn spec_source_pos(self) -> Option<usize>;

    /// The key determines what the payload renders to and where it points.
    proof fn lemma_key_determines(a: Self, b: Self)
        requires
            a.key() == b.key(),
        ensures
            a.rendered() == b.rendered(),
            a.spec_source_pos() == b.spec_source_pos(),
    ;

    fn order_le(&self, other: &Self) -> (r: bool)
        ensures
            r == key_le(self.key(), other.key()),
    ;

    fn render(&self) -> (r: Vec<u8>)
        ensures
            r@ == self.rendered(),
    ;

    fn source_pos(&self) -> (r: Option<usize>)
        ensures
            r == self.spec_source_pos(),
    ;
}

/// A planned edit: insert new text at a point, or replace a byte range.
pub enum Rewrite<C> {
    Insert { content: C, pos: usize },
    Replace { content: C, span: Span },
}

impl<C> Rewrite<C> {
    pub open spec fn is_insert(self) -> bool {
        self is Insert
    }

    pub open spec fn spec_content(self) -> C {
        match self {
            Rewrite::Insert { content, .. } => content,
            Rewrite::Replace { content, .. } => content,
        }
    }

    pub open spec fn spec_lo(self) -> usize {
        match self {
            Rewrite::Insert { pos, .. } => pos,
            Rewrite::Replace { span, .. } => span.lo,
        }
    }

    pub open spec fn spec_hi(self) -> usize {
        match self {
            Rewrite::Insert { pos, .. } => pos,
            Rewrite::Replace { span, .. } => span.hi,
        }
    }

    pub open spec fn spec_span(self) -> Span {
        Span { lo: self.spec_lo(), hi: self.spec_hi() }
    }

    /// A rewrite is well formed when its range does not run backwards.
    pub open spec fn wf(self) -> bool {
        self.spec_lo() <= self.spec_hi()
    }

    pub fn content(&self) -> (r: &C)
        ensures
            *r == self.spec_content(),
    {
        match self {
            Rewrite::Insert { content, .. } => content,
            Rewrite::Replace { content, .. } => content,
        }
    }

    pub fn lo(&self) -> (r: usize)
        ensures
            r == self.spec_lo(),
    {
        match self {
            Rewrite::Insert { pos, .. } => *pos,
            Rewrite::Replace { span, .. } => span.lo,
        }
    }

    pub fn hi(&self) -> (r: usize)
        ensures
            r == self.spec_hi(),
    {
        match self {
            Rewrite::Insert { pos, .. } => *pos,
            Rewrite::Replace { span, .. } => span.hi,
        }
    }

    pub fn span(&self) -> (r: Span)
        ensures
            r == self.spec_span(),
    {
        match self {
            Rewrite::Insert { pos, .. } => Span { lo: *pos, hi: *pos },
            Rewrite::Replace { span, .. } => *span,
        }
    }

    /// Rebuild this rewrite with its content transformed, dropping it when
    /// the transform declines.
    pub fn filter_map_content<D, F: FnOnce(&C) -> Option<D>>(&self, transform: F) -> (r: Option<
        Rewrite<D>,
    >)
        requires
            transform.requires((&self.spec_content(),)),
        ensures
            match r {
                Some(rw) => {
                    &&& rw.spec_lo() == self.spec_lo()
                    &&& rw.spec_hi() == self.spec_hi()
                    &&& rw.is_insert() == self.is_insert()
                    &&& transform.ensures((&self.spec_content(),), Some(rw.spec_content()))
                },
                None => transform.ensures((&self.spec_content(),), None::<D>),
            },
    {
        match self {
            Rewrite::Insert { content, pos } => {
                match transform(content) {
                    Some(c) => Some(Rewrite::Insert { content: c, pos: *pos }),
                    None => None,
                }
            },
            Rewrite::Replace { content, span } => {
                match transform(content) {
                    Some(c) => Some(Rewrite::Replace { content: c, span: *span }),
                    None => None,
                }
            },
        }
    }

    /// Rebuild this rewrite with its content transformed.
    pub fn map_content<D, F: FnOnce(&C) -> D>(&self, transform: F) -> (r: Rewrite<D>)
        requires
            transform.requires((&self.spec_content(),)),
        ensures
            r.spec_lo() == self.spec_lo(),
            r.spec_hi() == self.spec_hi(),
            r.is_insert() == self.is_insert(),
            transform.ensures((&self.spec_content(),), r.spec_content()),
    {
        match self {
            Rewrite::Insert { content, pos } => {
                Rewrite::Insert { content: transform(content), pos: *pos }
            },
            Rewrite::Replace { content, span } => {
                Rewrite::Replace { content: transform(content), span: *span }
            },
        }
    }
}

/// Everything the plan's ordering and conflict rules observe of a rewrite:
/// its class, its range, and its content key. The key in turn determines the
/// content's rendering, so two rewrites with one view behave identically.
pub struct RewriteView {
    pub insert: bool,
    pub lo: usize,
    pub hi: usize,
    pub key: OrderKey,
}

/// The view of a rewrite.
pub open spec fn rw_view<C: RewriteContent>(rw: Rewrite<C>) -> RewriteView {
    RewriteView {
        insert: rw.is_insert(),
        lo: rw.spec_lo(),
        hi: rw.spec_hi(),
        key: rw.spec_content().key(),
    }
}

/// The order in which rewrites are applied: ascending start position; at one
/// start position insertions before replacements; at one start position and
/// class the larger range first; last, the content's own order.
pub open spec fn view_le(a: RewriteView, b: RewriteView) -> bool {
    if a.lo != b.lo {
        a.lo < b.lo
    } else if a.insert != b.insert {
        a.insert
    } else if a.hi != b.hi {
        a.hi > b.hi
    } else {
        key_le(a.key, b.key)
    }
}

/// `view_le` is a total order over rewrite views.
pub proof fn lemma_view_le_total_ordering()
    ensures
        vstd::relations::total_ordering(|a: RewriteView, b: RewriteView| view_le(a, b)),
{
    let leq = |a: RewriteView, b: RewriteView| view_le(a, b);
    assert forall|a: RewriteView| #[trigger] leq(a, a) by {
        lemma_key_le_total(a.key, a.key);
    }
    assert forall|a: RewriteView, b: RewriteView| #[trigger] leq(a, b) && #[trigger] leq(b, a)
        implies a == b by {
        lemma_key_le_total(a.key, b.key);
    }
    assert forall|a: RewriteView, b: RewriteView, c: RewriteView|
        #[trigger] leq(a, b) && #[trigger] leq(b, c) implies leq(a, c) by {
        if a.lo == b.lo && b.lo == c.lo && a.insert == b.insert && b.insert == c.insert && a.hi
            == b.hi && b.hi == c.hi {
            lemma_key_le_trans(a.key, b.key, c.key);
        }
    }
    assert forall|a: RewriteView, b: RewriteView| #[trigger] leq(a, b) || #[trigger] leq(b, a) by {
        lemma_key_le_total(a.key, b.key);
    }
}

/// Compare two rewrites in application order.
pub fn rewrite_order_le<C: RewriteContent>(a: &Rewrite<C>, b: &Rewrite<C>) -> (r: bool)
    ensures
        r == view_le(rw_view(*a), rw_view(*b)),
{
    let a_lo = a.lo();
    let b_lo = b.lo();
    if a_lo != b_lo {
        return a_lo < b_lo;
    }
    let a_ins = match a {
        Rewrite::Insert { .. } => true,
        Rewrite::Replace { .. } => false,
    };
    let b_ins = match b {
        Rewrite::Insert { .. } => true,
        Rewrite::Replace { .. } => false,
    };
    if a_ins != b_ins {
        return a_ins;
    }
    let a_hi = a.hi();
    let b_hi = b.hi();
    if a_hi != b_hi {
        return a_hi > b_hi;
    }
    a.content().order_le(b.content())
}

/// An error from the rewrite engine, carried as a plain message.
pub struct RewriteError {
    pub reason: String,
}

impl RewriteError {
    pub fn new(reason: String) -> (r: Self)
        ensures
            r.reason@ == reason@,
    {
        RewriteError { reason }
    }
}

} // verus!
