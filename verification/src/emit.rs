//! The source-mapped emitter: streams a rewrite plan against the original
//! source, producing the output text and a list of line/column mapping
//! tokens, including deferred placeholder tokens for source positions not
//! yet visited.

use vstd::prelude::*;

use crate::plan::RewritePlan;
use crate::rewrite::{Rewrite, RewriteContent};

verus! {

/// A byte that begins a UTF-8 character (anything but a continuation byte).
pub open spec fn is_char_start(b: u8) -> bool {
    !(128 <= b < 192)
}

/// The number of line feeds among the first `p` bytes of `s`.
pub open spec fn newlines_up_to(s: Seq<u8>, p: int) -> nat
    decreases p,
{
    if p <= 0 {
        0
    } else {
        newlines_up_to(s, p - 1) + (if s[p - 1] == 10 {
            1nat
        } else {
            0nat
        })
    }
}

/// The column of the position `p` bytes into `s`: the number of characters
/// begun since the line feed closest before `p`.
pub open spec fn col_of(s: Seq<u8>, p: int) -> nat
    decreases p,
{
    if p <= 0 {
        0
    } else if s[p - 1] == 10 {
        0
    } else {
        col_of(s, p - 1) + (if is_char_start(s[p - 1]) {
            1nat
        } else {
            0nat
        })
    }
}

/// Line and column counts never exceed the position they are taken at.
proof fn lemma_counts_le(s: Seq<u8>, p: int)
    requires
        0 <= p <= s.len(),
    ensures
        newlines_up_to(s, p) <= p,
        col_of(s, p) <= p,
    decreases p,
{
    if p > 0 {
        lemma_counts_le(s, p - 1);
    }
}

/// The counts at `p` depend only on the first `p` bytes.
proof fn lemma_counts_prefix(s: Seq<u8>, t: Seq<u8>, p: int)
    requires
        0 <= p <= s.len(),
        p <= t.len(),
        forall|i: int| 0 <= i < p ==> s[i] == t[i],
    ensures
        newlines_up_to(s, p) == newlines_up_to(t, p),
        col_of(s, p) == col_of(t, p),
    decreases p,
{
    if p > 0 {
        lemma_counts_prefix(s, t, p - 1);
    }
}

/// One line/column correspondence between the output and the source.
#[derive(Clone, Copy, Debug, PartialEq, Eq, Structural)]
pub struct SrcMapToken {
    pub dst_line: usize,
    pub dst_col: usize,
    pub src_line: usize,
    pub src_col: usize,
}

/// A finished token, or a placeholder anchored at an output position whose
/// source position has not been visited yet.
pub enum TokenOrPlaceholder {
    Token(SrcMapToken),
    Placeholder { pos: usize, dst_line: usize, dst_col: usize },
}

/// True when some token is anchored at the very start of the output, so a
/// lookup at or after the origin always finds a token.
pub open spec fn has_origin_mapping(tokens: Seq<SrcMapToken>) -> bool {
    exists|k: int|
        0 <= k < tokens.len() && (#[trigger] tokens[k]).dst_line == 0 && tokens[k].dst_col == 0
}

/// True when the token's source side names an actual position of `src`.
pub open spec fn token_src_valid(src: Seq<u8>, t: SrcMapToken) -> bool {
    exists|p: int|
        0 <= p <= src.len() && t.src_line == newlines_up_to(src, p) && t.src_col == col_of(src, p)
}

/// One byte's effect on a line/column pair: a line feed opens a new line,
/// any other character-starting byte advances the column.
pub open spec fn step_coords(b: u8, line: int, col: int) -> (int, int) {
    if b == 10 {
        (line + 1, 0)
    } else if is_char_start(b) {
        (line, col + 1)
    } else {
        (line, col)
    }
}

/// Everything one advance over the source produces: the mapping tokens and
/// resolved positions emitted, the token and tracked positions still
/// pending, and the final coordinates.
pub struct AdvanceResult {
    pub tokens: Seq<TokenOrPlaceholder>,
    pub resolved: Seq<(usize, usize, usize)>,
    pub pending_tokens: Seq<usize>,
    pub pending_tracked: Seq<usize>,
    pub dst_line: int,
    pub dst_col: int,
    pub src_line: int,
    pub src_col: int,
}

/// Advancing the cursor over `src[a..b)`, byte by byte. At each byte: the
/// position's line and column are recorded when the next pending tracked
/// position is reached; a token carrying the current coordinates is emitted
/// when the next pending token position is reached or at the first column of
/// a source line; then the coordinates step — the output's too when the text
/// is being copied, the source's alone when it is being dropped.
pub open spec fn spec_advance(
    src: Seq<u8>,
    a: int,
    b: int,
    pending_tokens: Seq<usize>,
    pending_tracked: Seq<usize>,
    dst_line: int,
    dst_col: int,
    src_line: int,
    src_col: int,
    copying: bool,
) -> AdvanceResult
    decreases b - a,
{
    if a < 0 || a >= b || b > src.len() {
        AdvanceResult {
            tokens: Seq::empty(),
            resolved: Seq::empty(),
            pending_tokens,
            pending_tracked,
            dst_line,
            dst_col,
            src_line,
            src_col,
        }
    } else {
        let tracked_here = pending_tracked.len() > 0 && pending_tracked[0] == a;
        let token_here = (pending_tokens.len() > 0 && pending_tokens[0] == a) || src_col == 0;
        let here_resolved: Seq<(usize, usize, usize)> = if tracked_here {
            seq![(a as usize, src_line as usize, src_col as usize)]
        } else {
            Seq::empty()
        };
        let here_tokens: Seq<TokenOrPlaceholder> = if token_here {
            seq![
                TokenOrPlaceholder::Token(
                    SrcMapToken {
                        dst_line: dst_line as usize,
                        dst_col: dst_col as usize,
                        src_line: src_line as usize,
                        src_col: src_col as usize,
                    },
                ),
            ]
        } else {
            Seq::empty()
        };
        let next_tokens = if pending_tokens.len() > 0 && pending_tokens[0] == a {
            pending_tokens.drop_first()
        } else {
            pending_tokens
        };
        let next_tracked = if tracked_here {
            pending_tracked.drop_first()
        } else {
            pending_tracked
        };
        let (nsl, nsc) = step_coords(src[a], src_line, src_col);
        let (ndl, ndc) = if copying {
            step_coords(src[a], dst_line, dst_col)
        } else {
            (dst_line, dst_col)
        };
        let rest = spec_advance(src, a + 1, b, next_tokens, next_tracked, ndl, ndc, nsl, nsc, copying);
        AdvanceResult {
            tokens: here_tokens + rest.tokens,
            resolved: here_resolved + rest.resolved,
            pending_tokens: rest.pending_tokens,
            pending_tracked: rest.pending_tracked,
            dst_line: rest.dst_line,
            dst_col: rest.dst_col,
            src_line: rest.src_line,
            src_col: rest.src_col,
        }
    }
}

/// The tokens an insertion emits: one at the first column of each output
/// line it touches, each pointing at the frozen source coordinates.
pub open spec fn insertion_tokens(
    text: Seq<u8>,
    dst_line: int,
    dst_col: int,
    src_line: int,
    src_col: int,
) -> Seq<TokenOrPlaceholder>
    decreases text.len(),
{
    if text.len() == 0 {
        Seq::empty()
    } else {
        let here: Seq<TokenOrPlaceholder> = if dst_col == 0 {
            seq![
                TokenOrPlaceholder::Token(
                    SrcMapToken {
                        dst_line: dst_line as usize,
                        dst_col: 0,
                        src_line: src_line as usize,
                        src_col: src_col as usize,
                    },
                ),
            ]
        } else {
            Seq::empty()
        };
        let (ndl, ndc) = step_coords(text[0], dst_line, dst_col);
        here + insertion_tokens(text.drop_first(), ndl, ndc, src_line, src_col)
    }
}

/// The line and column recorded for `pos`, if the pass visited it: the first
/// matching record wins.
pub open spec fn spec_lookup_resolved(
    resolved: Seq<(usize, usize, usize)>,
    pos: usize,
) -> Option<(usize, usize)>
    decreases resolved.len(),
{
    if resolved.len() == 0 {
        None
    } else if resolved[0].0 == pos {
        Some((resolved[0].1, resolved[0].2))
    } else {
        spec_lookup_resolved(resolved.drop_first(), pos)
    }
}

/// Placeholder resolution: finished tokens pass through; a placeholder keyed
/// by a visited position becomes a token joining its recorded output
/// position with the key's resolved source position; a placeholder whose key
/// was never visited is silently dropped.
pub open spec fn spec_resolve_placeholders(
    tokens: Seq<TokenOrPlaceholder>,
    resolved: Seq<(usize, usize, usize)>,
) -> Seq<SrcMapToken>
    decreases tokens.len(),
{
    if tokens.len() == 0 {
        Seq::empty()
    } else {
        let here: Seq<SrcMapToken> = match tokens[0] {
            TokenOrPlaceholder::Token(t) => seq![t],
            TokenOrPlaceholder::Placeholder { pos, dst_line, dst_col } => {
                match spec_lookup_resolved(resolved, pos) {
                    Some((l, c)) => seq![
                        SrcMapToken { dst_line, dst_col, src_line: l, src_col: c },
                    ],
                    None => Seq::empty(),
                }
            },
        };
        here + spec_resolve_placeholders(tokens.drop_first(), resolved)
    }
}

/// One step of the advance: processing the byte under the cursor extends the
/// emitted tokens and records exactly as the advance's head says, and leaves
/// the rest of the advance to the moved cursor.
proof fn lemma_advance_unfold(
    pre: RewriteOutput,
    post: RewriteOutput,
    src: Seq<u8>,
    end: int,
    copying: bool,
    b: u8,
)
    requires
        pre.cur < end <= src.len(),
        b == src[pre.cur as int],
        post.cur == pre.cur + 1,
        post.token_positions == pre.token_positions,
        post.tracked_positions == pre.tracked_positions,
        // the cursor-step consumed pending heads that match the position
        post.token_idx == pre.token_idx + (if pre.pending_token_positions().len() > 0
            && pre.pending_token_positions()[0] == pre.cur {
            1int
        } else {
            0int
        }),
        post.tracked_idx == pre.tracked_idx + (if pre.pending_tracked_positions().len() > 0
            && pre.pending_tracked_positions()[0] == pre.cur {
            1int
        } else {
            0int
        }),
        pre.token_idx <= pre.token_positions@.len(),
        pre.tracked_idx <= pre.tracked_positions@.len(),
        // the emitted pieces match the head of the advance
        post.tokens@ == pre.tokens@ + (if (pre.pending_token_positions().len() > 0
            && pre.pending_token_positions()[0] == pre.cur) || pre.src_col == 0 {
            seq![
                TokenOrPlaceholder::Token(
                    SrcMapToken {
                        dst_line: pre.dst_line,
                        dst_col: pre.dst_col,
                        src_line: pre.src_line,
                        src_col: pre.src_col,
                    },
                ),
            ]
        } else {
            Seq::<TokenOrPlaceholder>::empty()
        }),
        post.resolved@ == pre.resolved@ + (if pre.pending_tracked_positions().len() > 0
            && pre.pending_tracked_positions()[0] == pre.cur {
            seq![(pre.cur, pre.src_line, pre.src_col)]
        } else {
            Seq::<(usize, usize, usize)>::empty()
        }),
        // the coordinates stepped over the byte
        (post.src_line as int, post.src_col as int) == step_coords(
            b,
            pre.src_line as int,
            pre.src_col as int,
        ),
        (post.dst_line as int, post.dst_col as int) == (if copying {
            step_coords(b, pre.dst_line as int, pre.dst_col as int)
        } else {
            (pre.dst_line as int, pre.dst_col as int)
        }),
    ensures
        ({
            let whole = pre.spec_advance_over(src, end, copying);
            let rest = post.spec_advance_over(src, end, copying);
            &&& pre.tokens@ + whole.tokens =~= post.tokens@ + rest.tokens
            &&& pre.resolved@ + whole.resolved =~= post.resolved@ + rest.resolved
            &&& whole.pending_tokens == rest.pending_tokens
            &&& whole.pending_tracked == rest.pending_tracked
            &&& whole.dst_line == rest.dst_line
            &&& whole.dst_col == rest.dst_col
            &&& whole.src_line == rest.src_line
            &&& whole.src_col == rest.src_col
        }),
{
    let whole = pre.spec_advance_over(src, end, copying);
    if pre.pending_token_positions().len() > 0 && pre.pending_token_positions()[0] == pre.cur {
        assert(pre.pending_token_positions().drop_first() =~= post.pending_token_positions());
    } else {
        assert(pre.pending_token_positions() =~= post.pending_token_positions());
    }
    if pre.pending_tracked_positions().len() > 0 && pre.pending_tracked_positions()[0]
        == pre.cur {
        assert(pre.pending_tracked_positions().drop_first() =~= post.pending_tracked_positions());
    } else {
        assert(pre.pending_tracked_positions() =~= post.pending_tracked_positions());
    }
}

/// The emitter's state: an output buffer with its line/column cursor, a
/// cursor into the source with its own line/column, the mapping tokens
/// emitted so far, the positions that must receive a token, and the source
/// positions that placeholders will be resolved against.
pub struct RewriteOutput {
    pub dst: Vec<u8>,
    pub dst_line: usize,
    pub dst_col: usize,
    pub cur: usize,
    pub src_line: usize,
    pub src_col: usize,
    pub tokens: Vec<TokenOrPlaceholder>,
    pub token_positions: Vec<usize>,
    pub token_idx: usize,
    pub tracked_positions: Vec<usize>,
    pub tracked_idx: usize,
    pub resolved: Vec<(usize, usize, usize)>,
}

impl RewriteOutput {
    /// The token positions not yet reached.
    pub open spec fn pending_token_positions(self) -> Seq<usize> {
        self.token_positions@.skip(self.token_idx as int)
    }

    /// The tracked source positions not yet reached.
    pub open spec fn pending_tracked_positions(self) -> Seq<usize> {
        self.tracked_positions@.skip(self.tracked_idx as int)
    }

    /// What advancing this emitter's cursor to `end` produces.
    pub open spec fn spec_advance_over(self, src: Seq<u8>, end: int, copying: bool) -> AdvanceResult {
        spec_advance(
            src,
            self.cur as int,
            end,
            self.pending_token_positions(),
            self.pending_tracked_positions(),
            self.dst_line as int,
            self.dst_col as int,
            self.src_line as int,
            self.src_col as int,
            copying,
        )
    }

    /// The emitter's invariant against the source text it walks.
    pub open spec fn wf(self, src: Seq<u8>) -> bool {
        &&& self.cur <= src.len()
        &&& src.len() <= usize::MAX
        &&& self.dst_line == newlines_up_to(self.dst@, self.dst@.len() as int)
        &&& self.dst_col == col_of(self.dst@, self.dst@.len() as int)
        &&& self.src_line == newlines_up_to(src, self.cur as int)
        &&& self.src_col == col_of(src, self.cur as int)
        &&& self.token_idx <= self.token_positions@.len()
        &&& self.tracked_idx <= self.tracked_positions@.len()
        &&& forall|k: int|
            0 <= k < self.resolved@.len() ==> {
                let (p, l, c) = #[trigger] self.resolved@[k];
                p <= src.len() && l == newlines_up_to(src, p as int) && c == col_of(src, p as int)
            }
        &&& forall|k: int|
            0 <= k < self.tokens@.len() ==> match #[trigger] self.tokens@[k] {
                TokenOrPlaceholder::Token(t) => token_src_valid(src, t),
                TokenOrPlaceholder::Placeholder { .. } => true,
            }
        &&& ((self.dst@.len() > 0 || self.cur > 0) ==> exists|k: int|
            0 <= k < self.tokens@.len() && is_origin_token(#[trigger] self.tokens@[k]))
    }

    /// A new emitter over a source of the given length, with the sorted
    /// positions that must receive mapping tokens and the sorted alternate
    /// source positions that placeholders may point at.
    pub fn new(src_len: usize, token_positions: Vec<usize>, tracked_positions: Vec<usize>) -> (r:
        RewriteOutput)
        ensures
            forall|src: Seq<u8>| src.len() == src_len ==> r.wf(src),
            r.dst@.len() == 0,
            r.cur == 0,
            r.tokens@.len() == 0,
    {
        RewriteOutput {
            dst: Vec::new(),
            dst_line: 0,
            dst_col: 0,
            cur: 0,
            src_line: 0,
            src_col: 0,
            tokens: Vec::new(),
            token_positions,
            token_idx: 0,
            tracked_positions,
            tracked_idx: 0,
            resolved: Vec::new(),
        }
    }

    /// Record the source position the cursor stands on, if it is the next
    /// pending tracked position, and emit a mapping token when the cursor
    /// stands on the next pending token position or at the first column of a
    /// source line.
    fn maybe_emit_source_map_token_for_src_position(&mut self, src: &[u8])
        requires
            old(self).wf(src@),
        ensures
            final(self).wf(src@),
            final(self).dst == old(self).dst,
            final(self).cur == old(self).cur,
            final(self).dst_line == old(self).dst_line,
            final(self).dst_col == old(self).dst_col,
            final(self).src_line == old(self).src_line,
            final(self).src_col == old(self).src_col,
            final(self).token_positions == old(self).token_positions,
            final(self).tracked_positions == old(self).tracked_positions,
            ({
                let tracked_here = old(self).tracked_idx < old(self).tracked_positions@.len()
                    && old(self).tracked_positions@[old(self).tracked_idx as int] == old(self).cur;
                &&& final(self).tracked_idx == old(self).tracked_idx + (if tracked_here {
                    1int
                } else {
                    0int
                })
                &&& final(self).resolved@ == old(self).resolved@ + (if tracked_here {
                    seq![(old(self).cur, old(self).src_line, old(self).src_col)]
                } else {
                    Seq::<(usize, usize, usize)>::empty()
                })
            }),
            ({
                let at_token = old(self).token_idx < old(self).token_positions@.len() && old(
                    self,
                ).token_positions@[old(self).token_idx as int] == old(self).cur;
                &&& final(self).token_idx == old(self).token_idx + (if at_token {
                    1int
                } else {
                    0int
                })
                &&& final(self).tokens@ == old(self).tokens@ + (if at_token || old(self).src_col
                    == 0 {
                    seq![
                        TokenOrPlaceholder::Token(
                            SrcMapToken {
                                dst_line: old(self).dst_line,
                                dst_col: old(self).dst_col,
                                src_line: old(self).src_line,
                                src_col: old(self).src_col,
                            },
                        ),
                    ]
                } else {
                    Seq::<TokenOrPlaceholder>::empty()
                })
            }),
    {
        // Record the line and column of the cursor if its position is the
        // next one a placeholder may point at.
        if self.tracked_idx < self.tracked_positions.len() && self.tracked_positions[self.tracked_idx]
            == self.cur {
            self.resolved.push((self.cur, self.src_line, self.src_col));
            self.tracked_idx = self.tracked_idx + 1;
        }
        // Emit a token at every token position, and at the first column of
        // every source line so that each line keeps at least one mapping.
        let mut at_token_position = false;
        if self.token_idx < self.token_positions.len() && self.token_positions[self.token_idx]
            == self.cur {
            at_token_position = true;
            self.token_idx = self.token_idx + 1;
        }
        if at_token_position || self.src_col == 0 {
            let t = SrcMapToken {
                dst_line: self.dst_line,
                dst_col: self.dst_col,
                src_line: self.src_line,
                src_col: self.src_col,
            };
            proof {
                assert(0 <= self.cur as int <= src@.len() && t.src_line == newlines_up_to(
                    src@,
                    self.cur as int,
                ) && t.src_col == col_of(src@, self.cur as int));
                assert(token_src_valid(src@, t));
            }
            let ghost pre = self.tokens@;
            self.tokens.push(TokenOrPlaceholder::Token(t));
            proof {
                if old(self).dst@.len() > 0 || old(self).cur > 0 {
                    let k = choose|k: int| 0 <= k < pre.len() && is_origin_token(pre[k]);
                    assert(self.tokens@[k] == pre[k]);
                }
                assert(self.tokens@[self.tokens@.len() - 1] == TokenOrPlaceholder::Token(t));
                assert(self.tokens@ =~= pre + seq![TokenOrPlaceholder::Token(t)]);
            }
        } else {
            proof {
                assert(self.tokens@ =~= old(self).tokens@ + Seq::<TokenOrPlaceholder>::empty());
                assert(self.resolved@ == old(self).resolved@ + (if old(self).tracked_idx < old(
                    self,
                ).tracked_positions@.len() && old(self).tracked_positions@[old(
                    self,
                ).tracked_idx as int] == old(self).cur {
                    seq![(old(self).cur, old(self).src_line, old(self).src_col)]
                } else {
                    Seq::<(usize, usize, usize)>::empty()
                })) by {
                    if old(self).tracked_idx < old(self).tracked_positions@.len() && old(
                        self,
                    ).tracked_positions@[old(self).tracked_idx as int] == old(self).cur {
                        assert(self.resolved@ =~= old(self).resolved@ + seq![
                            (old(self).cur, old(self).src_line, old(self).src_col),
                        ]);
                    } else {
                        assert(self.resolved@ =~= old(self).resolved@ + Seq::<
                            (usize, usize, usize),
                        >::empty());
                    }
                }
            }
        }
        proof {
            if old(self).tracked_idx < old(self).tracked_positions@.len() && old(
                self,
            ).tracked_positions@[old(self).tracked_idx as int] == old(self).cur {
                assert(self.resolved@ =~= old(self).resolved@ + seq![
                    (old(self).cur, old(self).src_line, old(self).src_col),
                ]);
            } else {
                assert(self.resolved@ =~= old(self).resolved@ + Seq::<
                    (usize, usize, usize),
                >::empty());
            }
        }
    }

    /// Emit a token at the first column of every output line.
    fn maybe_emit_source_map_token_for_dst_position(&mut self, Ghost(src): Ghost<Seq<u8>>)
        requires
            old(self).wf(src),
        ensures
            final(self).wf(src),
            final(self).dst == old(self).dst,
            final(self).cur == old(self).cur,
            final(self).dst_line == old(self).dst_line,
            final(self).dst_col == old(self).dst_col,
            final(self).src_line == old(self).src_line,
            final(self).src_col == old(self).src_col,
            final(self).token_positions == old(self).token_positions,
            final(self).tracked_positions == old(self).tracked_positions,
            final(self).token_idx == old(self).token_idx,
            final(self).tracked_idx == old(self).tracked_idx,
            final(self).resolved == old(self).resolved,
            final(self).tokens@ == old(self).tokens@ + (if old(self).dst_col == 0 {
                seq![
                    TokenOrPlaceholder::Token(
                        SrcMapToken {
                            dst_line: old(self).dst_line,
                            dst_col: 0,
                            src_line: old(self).src_line,
                            src_col: old(self).src_col,
                        },
                    ),
                ]
            } else {
                Seq::<TokenOrPlaceholder>::empty()
            }),
    {
        if self.dst_col == 0 {
            let t = SrcMapToken {
                dst_line: self.dst_line,
                dst_col: self.dst_col,
                src_line: self.src_line,
                src_col: self.src_col,
            };
            proof {
                assert(0 <= self.cur as int <= src.len() && t.src_line == newlines_up_to(
                    src,
                    self.cur as int,
                ) && t.src_col == col_of(src, self.cur as int));
                assert(token_src_valid(src, t));
            }
            let ghost pre = self.tokens@;
            self.tokens.push(TokenOrPlaceholder::Token(t));
            proof {
                if old(self).dst@.len() > 0 || old(self).cur > 0 {
                    let k = choose|k: int| 0 <= k < pre.len() && is_origin_token(pre[k]);
                    assert(self.tokens@[k] == pre[k]);
                }
                assert(self.tokens@[self.tokens@.len() - 1] == TokenOrPlaceholder::Token(t));
                assert(self.tokens@ =~= pre + seq![TokenOrPlaceholder::Token(t)]);
            }
        } else {
            proof {
                assert(self.tokens@ =~= old(self).tokens@ + Seq::<TokenOrPlaceholder>::empty());
            }
        }
    }

    /// Copy the original text from the cursor up to `src_end_pos` into the
    /// output, advancing both coordinate spaces in lock step.
    pub fn emit_input_until(&mut self, src: &[u8], src_end_pos: usize)
        requires
            old(self).wf(src@),
            old(self).cur <= src_end_pos <= src@.len(),
        ensures
            final(self).wf(src@),
            final(self).cur == src_end_pos,
            final(self).dst@ == old(self).dst@ + src@.subrange(
                old(self).cur as int,
                src_end_pos as int,
            ),
            final(self).token_positions == old(self).token_positions,
            final(self).tracked_positions == old(self).tracked_positions,
            ({
                let adv = old(self).spec_advance_over(src@, src_end_pos as int, true);
                &&& final(self).tokens@ == old(self).tokens@ + adv.tokens
                &&& final(self).resolved@ == old(self).resolved@ + adv.resolved
                &&& final(self).pending_token_positions() == adv.pending_tokens
                &&& final(self).pending_tracked_positions() == adv.pending_tracked
            }),
    {
        let ghost start = self.cur;
        let ghost adv0 = old(self).spec_advance_over(src@, src_end_pos as int, true);
        proof {
            assert(old(self).dst@ + src@.subrange(start as int, start as int) =~= old(self).dst@);
            assert(old(self).tokens@ + adv0.tokens =~= old(self).tokens@
                + self.spec_advance_over(src@, src_end_pos as int, true).tokens);
        }
        while self.cur < src_end_pos
            invariant
                self.wf(src@),
                start <= self.cur <= src_end_pos <= src@.len(),
                self.dst@ == old(self).dst@ + src@.subrange(start as int, self.cur as int),
                self.token_positions == old(self).token_positions,
                self.tracked_positions == old(self).tracked_positions,
                ({
                    let rem = self.spec_advance_over(src@, src_end_pos as int, true);
                    &&& old(self).tokens@ + adv0.tokens == self.tokens@ + rem.tokens
                    &&& old(self).resolved@ + adv0.resolved == self.resolved@ + rem.resolved
                    &&& adv0.pending_tokens == rem.pending_tokens
                    &&& adv0.pending_tracked == rem.pending_tracked
                }),
            decreases src_end_pos - self.cur,
        {
            let ghost pre = *self;
            let ghost rem = self.spec_advance_over(src@, src_end_pos as int, true);
            self.maybe_emit_source_map_token_for_src_position(src);
            proof {
                if self.dst@.len() == 0 && self.cur == 0 {
                    assert(col_of(src@, 0) == 0);
                    assert(self.tokens@.len() > 0);
                    assert(is_origin_token(self.tokens@[self.tokens@.len() - 1]));
                }
            }
            let b = src[self.cur];
            let ghost pre_dst = self.dst@;
            self.dst.push(b);
            let new_len = self.dst.len();
            proof {
                lemma_counts_prefix(pre_dst, self.dst@, pre_dst.len() as int);
                lemma_counts_le(self.dst@, self.dst@.len() as int);
                lemma_counts_le(src@, self.cur + 1);
            }
            self.cur = self.cur + 1;
            if b == 10 {
                self.dst_line = self.dst_line + 1;
                self.dst_col = 0;
                self.src_line = self.src_line + 1;
                self.src_col = 0;
            } else if b < 128 || b >= 192 {
                self.dst_col = self.dst_col + 1;
                self.src_col = self.src_col + 1;
            }
            proof {
                assert(self.dst@ =~= old(self).dst@ + src@.subrange(start as int, self.cur as int));
                lemma_advance_unfold(pre, *self, src@, src_end_pos as int, true, b);
                let new_rem = self.spec_advance_over(src@, src_end_pos as int, true);
                assert(old(self).tokens@ + adv0.tokens =~= self.tokens@ + new_rem.tokens);
                assert(old(self).resolved@ + adv0.resolved =~= self.resolved@ + new_rem.resolved);
            }
        }
        proof {
            assert(self.dst@ == old(self).dst@ + src@.subrange(start as int, src_end_pos as int));
            let rem = self.spec_advance_over(src@, src_end_pos as int, true);
            assert(rem.tokens =~= Seq::<TokenOrPlaceholder>::empty());
            assert(rem.resolved =~= Seq::<(usize, usize, usize)>::empty());
            assert(final(self).tokens@ =~= old(self).tokens@ + adv0.tokens);
            assert(final(self).resolved@ =~= old(self).resolved@ + adv0.resolved);
        }
    }

    /// Append `inserted` to the output without consuming any source. With a
    /// `source_pos`, first records a placeholder token anchored at the
    /// current output position, to be resolved against `source_pos` once the
    /// main pass visits it.
    pub fn emit_insertion(&mut self, src: &[u8], inserted: &[u8], source_pos: Option<usize>)
        requires
            old(self).wf(src@),
        ensures
            final(self).wf(src@),
            final(self).cur == old(self).cur,
            final(self).dst@ == old(self).dst@ + inserted@,
            final(self).token_positions == old(self).token_positions,
            final(self).tracked_positions == old(self).tracked_positions,
            final(self).token_idx == old(self).token_idx,
            final(self).tracked_idx == old(self).tracked_idx,
            final(self).resolved == old(self).resolved,
            final(self).tokens@ == old(self).tokens@ + (match source_pos {
                Some(pos) => seq![
                    TokenOrPlaceholder::Placeholder {
                        pos,
                        dst_line: old(self).dst_line,
                        dst_col: old(self).dst_col,
                    },
                ],
                None => Seq::<TokenOrPlaceholder>::empty(),
            }) + insertion_tokens(
                inserted@,
                old(self).dst_line as int,
                old(self).dst_col as int,
                old(self).src_line as int,
                old(self).src_col as int,
            ),
    {
        let ghost placeholder_part: Seq<TokenOrPlaceholder> = match source_pos {
            Some(pos) => seq![
                TokenOrPlaceholder::Placeholder {
                    pos,
                    dst_line: old(self).dst_line,
                    dst_col: old(self).dst_col,
                },
            ],
            None => Seq::empty(),
        };
        match source_pos {
            Some(pos) => {
                self.tokens.push(
                    TokenOrPlaceholder::Placeholder {
                        pos,
                        dst_line: self.dst_line,
                        dst_col: self.dst_col,
                    },
                );
                proof {
                    if old(self).dst@.len() > 0 || old(self).cur > 0 {
                        let k = choose|k: int|
                            0 <= k < old(self).tokens@.len() && is_origin_token(
                                old(self).tokens@[k],
                            );
                        assert(self.tokens@[k] == old(self).tokens@[k]);
                    }
                }
            },
            None => {},
        }
        let mut i: usize = 0;
        proof {
            assert(self.dst@ + inserted@.subrange(0, 0) =~= self.dst@);
            assert(self.tokens@ =~= old(self).tokens@ + placeholder_part);
            assert(inserted@.skip(0) =~= inserted@);
        }
        while i < inserted.len()
            invariant
                self.wf(src@),
                0 <= i <= inserted@.len(),
                self.cur == old(self).cur,
                self.src_line == old(self).src_line,
                self.src_col == old(self).src_col,
                self.dst@ == old(self).dst@ + inserted@.subrange(0, i as int),
                self.token_positions == old(self).token_positions,
                self.tracked_positions == old(self).tracked_positions,
                self.token_idx == old(self).token_idx,
                self.tracked_idx == old(self).tracked_idx,
                self.resolved == old(self).resolved,
                old(self).tokens@ + placeholder_part + insertion_tokens(
                    inserted@,
                    old(self).dst_line as int,
                    old(self).dst_col as int,
                    old(self).src_line as int,
                    old(self).src_col as int,
                ) == self.tokens@ + insertion_tokens(
                    inserted@.skip(i as int),
                    self.dst_line as int,
                    self.dst_col as int,
                    old(self).src_line as int,
                    old(self).src_col as int,
                ),
            decreases inserted@.len() - i,
        {
            let ghost rem = inserted@.skip(i as int);
            proof {
                assert(rem[0] == inserted@[i as int]);
                assert(rem.drop_first() =~= inserted@.skip(i + 1));
            }
            self.maybe_emit_source_map_token_for_dst_position(Ghost(src@));
            proof {
                if self.dst@.len() == 0 {
                    assert(self.tokens@.len() > 0);
                    assert(is_origin_token(self.tokens@[self.tokens@.len() - 1]));
                }
            }
            let b = inserted[i];
            let ghost pre_dst = self.dst@;
            self.dst.push(b);
            let new_len = self.dst.len();
            proof {
                lemma_counts_prefix(pre_dst, self.dst@, pre_dst.len() as int);
                lemma_counts_le(self.dst@, self.dst@.len() as int);
            }
            if b == 10 {
                self.dst_line = self.dst_line + 1;
                self.dst_col = 0;
            } else if b < 128 || b >= 192 {
                self.dst_col = self.dst_col + 1;
            }
            i = i + 1;
            proof {
                assert(self.dst@ =~= old(self).dst@ + inserted@.subrange(0, i as int));
                assert(old(self).tokens@ + placeholder_part + insertion_tokens(
                    inserted@,
                    old(self).dst_line as int,
                    old(self).dst_col as int,
                    old(self).src_line as int,
                    old(self).src_col as int,
                ) =~= self.tokens@ + insertion_tokens(
                    inserted@.skip(i as int),
                    self.dst_line as int,
                    self.dst_col as int,
                    old(self).src_line as int,
                    old(self).src_col as int,
                ));
            }
        }
        proof {
            assert(inserted@.subrange(0, inserted@.len() as int) =~= inserted@);
            assert(inserted@.skip(inserted@.len() as int) =~= Seq::<u8>::empty());
            assert(final(self).tokens@ =~= old(self).tokens@ + placeholder_part
                + insertion_tokens(
                inserted@,
                old(self).dst_line as int,
                old(self).dst_col as int,
                old(self).src_line as int,
                old(self).src_col as int,
            ));
        }
    }

    /// Advance the source cursor silently to `src_end_pos`, dropping the
    /// covered text, then append the replacement instead.
    pub fn emit_replacement_until(
        &mut self,
        src: &[u8],
        src_end_pos: usize,
        replacement: &[u8],
        source_pos: Option<usize>,
    )
        requires
            old(self).wf(src@),
            old(self).cur <= src_end_pos <= src@.len(),
        ensures
            final(self).wf(src@),
            final(self).cur == src_end_pos,
            final(self).dst@ == old(self).dst@ + replacement@,
            final(self).token_positions == old(self).token_positions,
            final(self).tracked_positions == old(self).tracked_positions,
            ({
                let adv = old(self).spec_advance_over(src@, src_end_pos as int, false);
                &&& final(self).tokens@ == old(self).tokens@ + adv.tokens + (match source_pos {
                    Some(pos) => seq![
                        TokenOrPlaceholder::Placeholder {
                            pos,
                            dst_line: old(self).dst_line,
                            dst_col: old(self).dst_col,
                        },
                    ],
                    None => Seq::<TokenOrPlaceholder>::empty(),
                }) + insertion_tokens(
                    replacement@,
                    old(self).dst_line as int,
                    old(self).dst_col as int,
                    adv.src_line,
                    adv.src_col,
                )
                &&& final(self).resolved@ == old(self).resolved@ + adv.resolved
                &&& final(self).pending_token_positions() == adv.pending_tokens
                &&& final(self).pending_tracked_positions() == adv.pending_tracked
            }),
    {
        let ghost adv0 = old(self).spec_advance_over(src@, src_end_pos as int, false);
        while self.cur < src_end_pos
            invariant
                self.wf(src@),
                self.cur <= src_end_pos <= src@.len(),
                self.dst@ == old(self).dst@,
                self.dst_line == old(self).dst_line,
                self.dst_col == old(self).dst_col,
                self.token_positions == old(self).token_positions,
                self.tracked_positions == old(self).tracked_positions,
                ({
                    let rem = self.spec_advance_over(src@, src_end_pos as int, false);
                    &&& old(self).tokens@ + adv0.tokens == self.tokens@ + rem.tokens
                    &&& old(self).resolved@ + adv0.resolved == self.resolved@ + rem.resolved
                    &&& adv0.pending_tokens == rem.pending_tokens
                    &&& adv0.pending_tracked == rem.pending_tracked
                    &&& adv0.src_line == rem.src_line
                    &&& adv0.src_col == rem.src_col
                }),
            decreases src_end_pos - self.cur,
        {
            let ghost pre = *self;
            self.maybe_emit_source_map_token_for_src_position(src);
            proof {
                if self.dst@.len() == 0 && self.cur == 0 {
                    assert(col_of(src@, 0) == 0);
                    assert(self.tokens@.len() > 0);
                    assert(is_origin_token(self.tokens@[self.tokens@.len() - 1]));
                }
            }
            let b = src[self.cur];
            proof {
                lemma_counts_le(src@, self.cur + 1);
            }
            self.cur = self.cur + 1;
            if b == 10 {
                self.src_line = self.src_line + 1;
                self.src_col = 0;
            } else if b < 128 || b >= 192 {
                self.src_col = self.src_col + 1;
            }
            proof {
                lemma_advance_unfold(pre, *self, src@, src_end_pos as int, false, b);
                let new_rem = self.spec_advance_over(src@, src_end_pos as int, false);
                assert(old(self).tokens@ + adv0.tokens =~= self.tokens@ + new_rem.tokens);
                assert(old(self).resolved@ + adv0.resolved =~= self.resolved@ + new_rem.resolved);
            }
        }
        proof {
            let rem = self.spec_advance_over(src@, src_end_pos as int, false);
            assert(rem.tokens =~= Seq::<TokenOrPlaceholder>::empty());
            assert(rem.resolved =~= Seq::<(usize, usize, usize)>::empty());
            assert(self.tokens@ =~= old(self).tokens@ + adv0.tokens);
            assert(self.resolved@ =~= old(self).resolved@ + adv0.resolved);
            assert(self.src_line == adv0.src_line && self.src_col == adv0.src_col);
        }
        self.emit_insertion(src, replacement, source_pos);
        proof {
            assert(final(self).tokens@ =~= old(self).tokens@ + adv0.tokens + (match source_pos {
                Some(pos) => seq![
                    TokenOrPlaceholder::Placeholder {
                        pos,
                        dst_line: old(self).dst_line,
                        dst_col: old(self).dst_col,
                    },
                ],
                None => Seq::<TokenOrPlaceholder>::empty(),
            }) + insertion_tokens(
                replacement@,
                old(self).dst_line as int,
                old(self).dst_col as int,
                adv0.src_line,
                adv0.src_col,
            ));
        }
    }

    /// Copy the rest of the source, resolve every placeholder whose source
    /// position was visited during the pass (dropping the others), and
    /// return the output text with its mapping tokens.
    ///
    /// Round-trip mapping: every returned token points at a line and column
    /// that exist in the original source, and as soon as the output is
    /// nonempty some token covers its origin, so looking up the first column
    /// of any output line resolves to a valid source position.
    pub fn finish(self, src: &[u8]) -> (r: (Vec<u8>, Vec<SrcMapToken>, Ghost<RewriteOutput>))
        requires
            self.wf(src@),
        ensures
            r.0@ == self.dst@ + src@.subrange(self.cur as int, src@.len() as int),
            forall|k: int| 0 <= k < r.1@.len() ==> token_src_valid(src@, #[trigger] r.1@[k]),
            r.0@.len() > 0 ==> has_origin_mapping(r.1@),
            ({
                // The flushed state: the rest of the source copied out.
                let flushed = r.2@;
                let adv = self.spec_advance_over(src@, src@.len() as int, true);
                &&& flushed.wf(src@)
                &&& flushed.cur == src@.len()
                &&& flushed.dst@ == r.0@
                &&& flushed.tokens@ == self.tokens@ + adv.tokens
                &&& flushed.resolved@ == self.resolved@ + adv.resolved
                &&& r.1@ == spec_resolve_placeholders(flushed.tokens@, flushed.resolved@)
            }),
    {
        let mut this = self;
        this.emit_input_until(src, src.len());
        let ghost flushed = this;
        let ghost all = this.tokens@;
        let mut out: Vec<SrcMapToken> = Vec::new();
        let mut k: usize = 0;
        let n = this.tokens.len();
        proof {
            assert(this.tokens@.skip(0) =~= this.tokens@);
            assert(out@ + spec_resolve_placeholders(this.tokens@, this.resolved@)
                =~= spec_resolve_placeholders(this.tokens@, this.resolved@));
        }
        while k < n
            invariant
                this == flushed,
                this.wf(src@),
                n == this.tokens@.len(),
                all == this.tokens@,
                0 <= k <= n,
                forall|m: int| 0 <= m < out@.len() ==> token_src_valid(src@, #[trigger] out@[m]),
                forall|m: int|
                    0 <= m < k && is_origin_token(all[m]) ==> exists|w: int|
                        0 <= w < out@.len() && (#[trigger] out@[w]).dst_line == 0 && out@[w].dst_col
                            == 0,
                out@ + spec_resolve_placeholders(this.tokens@.skip(k as int), this.resolved@)
                    == spec_resolve_placeholders(this.tokens@, this.resolved@),
            decreases n - k,
        {
            let ghost rem = this.tokens@.skip(k as int);
            proof {
                assert(rem[0] == this.tokens@[k as int]);
                assert(rem.drop_first() =~= this.tokens@.skip(k + 1));
            }
            let ghost pre_out = out@;
            match &this.tokens[k] {
                TokenOrPlaceholder::Token(t) => {
                    let copied = SrcMapToken {
                        dst_line: t.dst_line,
                        dst_col: t.dst_col,
                        src_line: t.src_line,
                        src_col: t.src_col,
                    };
                    out.push(copied);
                },
                TokenOrPlaceholder::Placeholder { pos, dst_line, dst_col } => {
                    match lookup_resolved(&this.resolved, *pos) {
                        Some((line, col)) => {
                            out.push(
                                SrcMapToken {
                                    dst_line: *dst_line,
                                    dst_col: *dst_col,
                                    src_line: line,
                                    src_col: col,
                                },
                            );
                            proof {
                                let m = choose|m: int|
                                    0 <= m < this.resolved@.len() && #[trigger] this.resolved@[m]
                                        == (*pos, line, col);
                                assert(token_src_valid(src@, out@[out@.len() - 1]));
                            }
                        },
                        None => {},
                    }
                },
            }
            proof {
                assert forall|m: int|
                    0 <= m < k + 1 && is_origin_token(all[m]) implies exists|w: int|
                    0 <= w < out@.len() && (#[trigger] out@[w]).dst_line == 0 && out@[w].dst_col
                        == 0 by {
                    if m == k {
                        assert(out@[out@.len() - 1].dst_line == 0 && out@[out@.len() - 1].dst_col
                            == 0);
                    } else {
                        assert(exists|m2: int| 0 <= m2 < k && is_origin_token(all[m2])) by {
                            assert(is_origin_token(all[m]));
                        }
                        let w = choose|w: int|
                            0 <= w < pre_out.len() && (#[trigger] pre_out[w]).dst_line == 0
                                && pre_out[w].dst_col == 0;
                        assert(out@[w] == pre_out[w]);
                    }
                }
                assert(out@ + spec_resolve_placeholders(this.tokens@.skip(k + 1), this.resolved@)
                    =~= spec_resolve_placeholders(this.tokens@, this.resolved@));
            }
            k += 1;
        }
        proof {
            assert(this.tokens@.skip(n as int) =~= Seq::<TokenOrPlaceholder>::empty());
            assert(out@ + Seq::<SrcMapToken>::empty() =~= out@);
            assert(out@ == spec_resolve_placeholders(flushed.tokens@, flushed.resolved@));
        }
        let text = this.dst;
        proof {
            if text@.len() > 0 {
                let m = choose|k: int|
                    0 <= k < this.tokens@.len() && is_origin_token(#[trigger] this.tokens@[k]);
                assert(0 <= m < n && is_origin_token(all[m]));
                let w0 = choose|w: int|
                    0 <= w < out@.len() && (#[trigger] out@[w]).dst_line == 0 && out@[w].dst_col
                        == 0;
                assert(0 <= w0 < out@.len() && out@[w0].dst_line == 0 && out@[w0].dst_col == 0);
            }
            assert(text@.len() > 0 ==> has_origin_mapping(out@));
        }
        (text, out, Ghost(flushed))
    }
}

/// True for a finished token anchored at the very start of the output.
pub open spec fn is_origin_token(t: TokenOrPlaceholder) -> bool {
    match t {
        TokenOrPlaceholder::Token(t) => t.dst_line == 0 && t.dst_col == 0,
        TokenOrPlaceholder::Placeholder { .. } => false,
    }
}

/// Find the recorded line and column of a resolved source position: the
/// first matching record, or nothing when the position was never visited.
fn lookup_resolved(resolved: &Vec<(usize, usize, usize)>, pos: usize) -> (r: Option<
    (usize, usize),
>)
    ensures
        r == spec_lookup_resolved(resolved@, pos),
        match r {
            Some((line, col)) => exists|m: int|
                0 <= m < resolved@.len() && #[trigger] resolved@[m] == (pos, line, col),
            None => true,
        },
{
    let mut m: usize = 0;
    proof {
        assert(resolved@.skip(0) =~= resolved@);
    }
    while m < resolved.len()
        invariant
            0 <= m <= resolved@.len(),
            spec_lookup_resolved(resolved@, pos) == spec_lookup_resolved(
                resolved@.skip(m as int),
                pos,
            ),
        decreases resolved@.len() - m,
    {
        let ghost rem = resolved@.skip(m as int);
        proof {
            assert(rem[0] == resolved@[m as int]);
            assert(rem.drop_first() =~= resolved@.skip(m + 1));
        }
        let (p, line, col) = resolved[m];
        if p == pos {
            proof {
                assert(resolved@[m as int] == (pos, line, col));
            }
            return Some((line, col));
        }
        m += 1;
    }
    proof {
        assert(resolved@.skip(resolved@.len() as int) =~= Seq::<(usize, usize, usize)>::empty());
    }
    None
}

/// The text that applying `rws` to `src` from position `cur` produces:
/// untouched source up to each rewrite, that rewrite's rendering instead of
/// the span it covers, and the rest of the source after the last rewrite.
pub open spec fn spec_rewritten<C: RewriteContent>(
    src: Seq<u8>,
    rws: Seq<Rewrite<C>>,
    cur: int,
) -> Seq<u8>
    decreases rws.len(),
{
    if rws.len() == 0 {
        src.subrange(cur, src.len() as int)
    } else {
        src.subrange(cur, rws[0].spec_lo() as int) + rws[0].spec_content().rendered()
            + spec_rewritten(src, rws.drop_first(), rws[0].spec_hi() as int)
    }
}

/// The same fold over rewrite views alone: the key's text determines what
/// each rewrite renders to, so the output is a function of the views.
pub open spec fn spec_rewritten_views(
    src: Seq<u8>,
    views: Seq<crate::rewrite::RewriteView>,
    cur: int,
) -> Seq<u8>
    decreases views.len(),
{
    if views.len() == 0 {
        src.subrange(cur, src.len() as int)
    } else {
        src.subrange(cur, views[0].lo as int) + vstd::utf8::encode_utf8(views[0].key.text)
            + spec_rewritten_views(src, views.drop_first(), views[0].hi as int)
    }
}

/// For payloads that render to the UTF-8 encoding of their key's text, the
/// two folds agree.
pub proof fn lemma_rewritten_views_agree<C: RewriteContent>(
    src: Seq<u8>,
    rws: Seq<Rewrite<C>>,
    cur: int,
)
    requires
        forall|k: int|
            0 <= k < rws.len() ==> (#[trigger] rws[k]).spec_content().rendered()
                == vstd::utf8::encode_utf8(rws[k].spec_content().key().text),
    ensures
        spec_rewritten(src, rws, cur) == spec_rewritten_views(
            src,
            crate::plan::views_of(rws),
            cur,
        ),
    decreases rws.len(),
{
    let views = crate::plan::views_of(rws);
    if rws.len() == 0 {
        assert(views.len() == 0);
    } else {
        assert(views[0] == crate::rewrite::rw_view(rws[0]));
        assert(crate::plan::views_of(rws.drop_first()) =~= views.drop_first());
        assert forall|k: int| 0 <= k < rws.drop_first().len() implies (#[trigger] rws.drop_first()[k]).spec_content().rendered()
            == vstd::utf8::encode_utf8(rws.drop_first()[k].spec_content().key().text) by {
            assert(rws.drop_first()[k] == rws[k + 1]);
        }
        lemma_rewritten_views_agree(src, rws.drop_first(), rws[0].spec_hi() as int);
    }
}

impl<C: RewriteContent> RewritePlan<C> {
    /// Apply the plan to the source: emit the rewritten text and its mapping
    /// tokens. The output text is exactly the plan folded over the source.
    pub fn apply(&self, src: &[u8], token_positions: Vec<usize>) -> (r: (Vec<u8>, Vec<SrcMapToken>))
        requires
            self.wf(),
            forall|k: int|
                0 <= k < self.rewrites@.len() ==> (#[trigger] self.rewrites@[k]).spec_hi()
                    <= src@.len(),
        ensures
            r.0@ == spec_rewritten(src@, self.rewrites@, 0),
            forall|k: int| 0 <= k < r.1@.len() ==> token_src_valid(src@, #[trigger] r.1@[k]),
            r.0@.len() > 0 ==> has_origin_mapping(r.1@),
    {
        let mut positions: Vec<usize> = Vec::new();
        let mut c: usize = 0;
        while c < self.source_positions_used_in_mappings.len()
            invariant
                0 <= c <= self.source_positions_used_in_mappings@.len(),
                positions@ == self.source_positions_used_in_mappings@.take(c as int),
            decreases self.source_positions_used_in_mappings@.len() - c,
        {
            positions.push(self.source_positions_used_in_mappings[c]);
            proof {
                assert(positions@ =~= self.source_positions_used_in_mappings@.take(c + 1));
            }
            c += 1;
        }
        let mut output = RewriteOutput::new(src.len(), token_positions, positions);
        let ghost all = self.rewrites@;
        let mut i: usize = 0;
        let n = self.rewrites.len();
        proof {
            assert(all.skip(0) =~= all);
            assert(output.dst@ + spec_rewritten(src@, all, 0) =~= spec_rewritten(src@, all, 0));
        }
        while i < n
            invariant
                self.wf(),
                n == self.rewrites@.len(),
                all == self.rewrites@,
                forall|k: int|
                    0 <= k < all.len() ==> (#[trigger] all[k]).spec_hi() <= src@.len(),
                0 <= i <= n,
                output.wf(src@),
                i < n ==> output.cur <= all[i as int].spec_lo(),
                i == n ==> output.cur <= src@.len(),
                output.dst@ + spec_rewritten(src@, all.skip(i as int), output.cur as int)
                    == spec_rewritten(src@, all, 0),
            decreases n - i,
        {
            let ghost rem = all.skip(i as int);
            proof {
                assert(rem.drop_first() =~= all.skip(i + 1));
                assert(rem[0] == all[i as int]);
                if i + 1 < n {
                    assert(all[i as int].spec_hi() <= all[i + 1].spec_lo());
                }
            }
            match &self.rewrites[i] {
                Rewrite::Replace { content, span } => {
                    output.emit_input_until(src, span.lo);
                    let text = content.render();
                    let pos = content.source_pos();
                    output.emit_replacement_until(src, span.hi, text.as_slice(), pos);
                },
                Rewrite::Insert { content, pos } => {
                    output.emit_input_until(src, *pos);
                    let text = content.render();
                    let spos = content.source_pos();
                    output.emit_insertion(src, text.as_slice(), spos);
                },
            }
            proof {
                assert(output.dst@ + spec_rewritten(src@, all.skip(i + 1), output.cur as int)
                    =~= spec_rewritten(src@, all, 0));
            }
            i += 1;
        }
        proof {
            assert(all.skip(n as int) =~= Seq::<Rewrite<C>>::empty());
        }
        let (text, tokens, _flushed) = output.finish(src);
        proof {
            assert(text@ =~= spec_rewritten(src@, all, 0));
        }
        (text, tokens)
    }
}

} // verus!
