//! Building an applicable rewrite plan: sort the rewrites into application
//! order, drop the ones that overlap an already-kept rewrite, and collect the
//! alternate source positions the emitter must track.

use vstd::prelude::*;
use vstd::relations::{sorted_by, total_ordering};

use crate::rewrite::{lemma_view_le_total_ordering, rewrite_order_le, rw_view, view_le, Rewrite,
    RewriteContent, RewriteView};

verus! {

broadcast use vstd::seq_lib::group_to_multiset_ensures;

/// The order used to sort rewrites, as a binary relation over their views.
pub open spec fn view_leq() -> spec_fn(RewriteView, RewriteView) -> bool {
    |a: RewriteView, b: RewriteView| view_le(a, b)
}

/// The plain order on byte positions.
pub open spec fn usize_leq() -> spec_fn(usize, usize) -> bool {
    |a: usize, b: usize| a <= b
}

/// The views of a sequence of rewrites.
pub open spec fn views_of<C: RewriteContent>(s: Seq<Rewrite<C>>) -> Seq<RewriteView> {
    s.map_values(|rw: Rewrite<C>| rw_view(rw))
}

/// Walk `s` in order and keep each rewrite that starts at or after the end
/// of the most recently kept rewrite; `watermark` is that end.
pub open spec fn filter_conflicts(s: Seq<RewriteView>, watermark: nat) -> Seq<RewriteView>
    decreases s.len(),
{
    if s.len() == 0 {
        Seq::empty()
    } else if s[0].lo >= watermark {
        seq![s[0]] + filter_conflicts(s.drop_first(), s[0].hi as nat)
    } else {
        filter_conflicts(s.drop_first(), watermark)
    }
}

/// The views of the rewrites of the plan built from rewrites with views
/// `all`: sorted into application order, then filtered for conflicts.
pub open spec fn spec_plan_views(all: Seq<RewriteView>) -> Seq<RewriteView> {
    filter_conflicts(all.sort_by(view_leq()), 0)
}

/// Kept rewrites never overlap: each one ends at or before the next begins.
pub open spec fn chain_ok<C: RewriteContent>(s: Seq<Rewrite<C>>) -> bool {
    forall|i: int, j: int|
        0 <= i < j < s.len() ==> #[trigger] s[i].spec_hi() <= #[trigger] s[j].spec_lo()
}

/// The same, over views.
pub open spec fn view_chain_ok(s: Seq<RewriteView>) -> bool {
    forall|i: int, j: int| 0 <= i < j < s.len() ==> (#[trigger] s[i]).hi <= (#[trigger] s[j]).lo
}

proof fn lemma_filter_conflicts_props(s: Seq<RewriteView>, watermark: nat)
    requires
        forall|k: int| 0 <= k < s.len() ==> (#[trigger] s[k]).lo <= s[k].hi,
    ensures
        forall|x: RewriteView| #[trigger] filter_conflicts(s, watermark).contains(x) ==> s.contains(
            x,
        ),
        forall|k: int|
            0 <= k < filter_conflicts(s, watermark).len() ==> (#[trigger] filter_conflicts(
                s,
                watermark,
            )[k]).lo >= watermark,
        view_chain_ok(filter_conflicts(s, watermark)),
    decreases s.len(),
{
    if s.len() == 0 {
    } else {
        let rest = s.drop_first();
        assert forall|k: int| 0 <= k < rest.len() implies (#[trigger] rest[k]).lo <= rest[k].hi by {
            assert(rest[k] == s[k + 1]);
        }
        if s[0].lo >= watermark {
            lemma_filter_conflicts_props(rest, s[0].hi as nat);
            let r = filter_conflicts(s, watermark);
            let rr = filter_conflicts(rest, s[0].hi as nat);
            assert forall|x: RewriteView| #[trigger] r.contains(x) implies s.contains(x) by {
                if x == s[0] {
                    assert(s.contains(x)) by {
                        assert(s[0] == x);
                    }
                } else {
                    let k = choose|k: int| 0 <= k < r.len() && r[k] == x;
                    assert(rr[k - 1] == x);
                    assert(rr.contains(x));
                    let m = choose|m: int| 0 <= m < rest.len() && rest[m] == x;
                    assert(s[m + 1] == x);
                }
            }
            assert forall|i: int, j: int| 0 <= i < j < r.len() implies (#[trigger] r[i]).hi <= (
            #[trigger] r[j]).lo by {
                if i == 0 {
                    assert(r[j] == rr[j - 1]);
                } else {
                    assert(r[i] == rr[i - 1] && r[j] == rr[j - 1]);
                }
            }
        } else {
            lemma_filter_conflicts_props(rest, watermark);
            let r = filter_conflicts(s, watermark);
            assert forall|x: RewriteView| #[trigger] r.contains(x) implies s.contains(x) by {
                let m = choose|m: int| 0 <= m < rest.len() && rest[m] == x;
                assert(s[m + 1] == x);
            }
        }
    }
}

proof fn lemma_insert_multiset<T>(s: Seq<T>, i: int, x: T)
    requires
        0 <= i <= s.len(),
    ensures
        s.insert(i, x).to_multiset() == s.to_multiset().insert(x),
{
    let a = s.take(i);
    let b = s.skip(i);
    vstd::seq_lib::lemma_multiset_commutative(a + seq![x], b);
    vstd::seq_lib::lemma_multiset_commutative(a, seq![x]);
    vstd::seq_lib::lemma_multiset_commutative(a, b);
    assert(a + b =~= s);
    assert(a + seq![x] + b =~= s.insert(i, x));
    assert(seq![x].to_multiset() =~= Seq::<T>::empty().push(x).to_multiset()) by {
        assert(seq![x] =~= Seq::<T>::empty().push(x));
    }
    assert(s.insert(i, x).to_multiset() =~= s.to_multiset().insert(x));
}

/// Where `x` belongs in the sorted vector `out`: the index of the first
/// element that does not come at or before `x`.
fn rewrite_insertion_point<C: RewriteContent>(out: &Vec<Rewrite<C>>, x: &Rewrite<C>) -> (idx:
    usize)
    ensures
        0 <= idx <= out@.len(),
        forall|j: int| 0 <= j < idx ==> view_le(rw_view(#[trigger] out@[j]), rw_view(*x)),
        idx < out@.len() ==> !view_le(rw_view(out@[idx as int]), rw_view(*x)),
{
    let mut idx: usize = 0;
    while idx < out.len()
        invariant
            0 <= idx <= out@.len(),
            forall|j: int| 0 <= j < idx ==> view_le(rw_view(#[trigger] out@[j]), rw_view(*x)),
        decreases out@.len() - idx,
    {
        if !rewrite_order_le(&out[idx], x) {
            return idx;
        }
        idx += 1;
    }
    idx
}

/// Sort rewrites into application order.
fn sort_rewrites<C: RewriteContent>(v: Vec<Rewrite<C>>) -> (r: Vec<Rewrite<C>>)
    ensures
        sorted_by(views_of(r@), view_leq()),
        views_of(r@).to_multiset() == views_of(v@).to_multiset(),
{
    proof {
        lemma_view_le_total_ordering();
    }
    let ghost leq = view_leq();
    let mut src = v;
    let mut out: Vec<Rewrite<C>> = Vec::new();
    proof {
        assert(views_of(out@).to_multiset().add(views_of(src@).to_multiset()) =~= views_of(
            v@,
        ).to_multiset());
    }
    while src.len() > 0
        invariant
            sorted_by(views_of(out@), leq),
            leq == view_leq(),
            total_ordering(leq),
            views_of(out@).to_multiset().add(views_of(src@).to_multiset()) == views_of(
                v@,
            ).to_multiset(),
        decreases src@.len(),
    {
        let ghost old_src = src@;
        let x = src.remove(src.len() - 1);
        proof {
            assert(views_of(old_src) =~= views_of(src@).push(rw_view(x)));
            assert(views_of(old_src).to_multiset() == views_of(src@).to_multiset().insert(
                rw_view(x),
            ));
        }
        let idx = rewrite_insertion_point(&out, &x);
        proof {
            let vout = views_of(out@);
            let vx = rw_view(x);
            if idx < out@.len() {
                assert(vout[idx as int] == rw_view(out@[idx as int]));
                assert(leq(vx, vout[idx as int]) || leq(vout[idx as int], vx));
                assert(leq(vx, vout[idx as int]));
            }
            assert forall|j: int| idx <= j < vout.len() implies leq(vx, #[trigger] vout[j]) by {
                assert(leq(vx, vout[idx as int]));
                if idx < j {
                    assert(leq(vout[idx as int], vout[j]));
                }
            }
        }
        let ghost pre = out@;
        out.insert(idx, x);
        proof {
            assert(out@ == pre.insert(idx as int, x));
            assert(views_of(out@) =~= views_of(pre).insert(idx as int, rw_view(x)));
            let vpre = views_of(pre);
            let vout = views_of(out@);
            let vx = rw_view(x);
            assert forall|i: int, j: int| 0 <= i < j < vout.len() implies #[trigger] leq(
                vout[i],
                vout[j],
            ) by {
                assert(vpre.insert(idx as int, vx) =~= vpre.take(idx as int) + seq![vx]
                    + vpre.skip(idx as int));
                if j < idx {
                    assert(vout[i] == vpre[i] && vout[j] == vpre[j]);
                } else if i > idx {
                    assert(vout[i] == vpre[i - 1] && vout[j] == vpre[j - 1]);
                } else if i == idx && j > idx {
                    assert(vout[i] == vx && vout[j] == vpre[j - 1]);
                    assert(vpre[j - 1] == rw_view(out@[j]));
                } else if j == idx {
                    assert(vout[i] == vpre[i] && vout[j] == vx);
                    assert(vpre[i] == rw_view(out@[i]));
                } else if i < idx && j > idx {
                    assert(vout[i] == vpre[i] && vout[j] == vpre[j - 1]);
                    assert(leq(vout[i], vx) && leq(vx, vout[j]));
                }
            }
            lemma_insert_multiset(vpre, idx as int, vx);
        }
    }
    proof {
        vstd::seq_lib::to_multiset_len(views_of(src@));
        assert(views_of(src@).len() == 0);
        assert(views_of(out@).to_multiset() =~= views_of(v@).to_multiset());
    }
    out
}

/// Where `x` belongs in the sorted position vector `out`.
fn position_insertion_point(out: &Vec<usize>, x: usize) -> (idx: usize)
    ensures
        0 <= idx <= out@.len(),
        forall|j: int| 0 <= j < idx ==> #[trigger] out@[j] <= x,
        idx < out@.len() ==> !(out@[idx as int] <= x),
{
    let mut idx: usize = 0;
    while idx < out.len()
        invariant
            0 <= idx <= out@.len(),
            forall|j: int| 0 <= j < idx ==> #[trigger] out@[j] <= x,
        decreases out@.len() - idx,
    {
        if !(out[idx] <= x) {
            return idx;
        }
        idx += 1;
    }
    idx
}

/// Sort a vector of byte positions.
pub(crate) fn sort_positions(v: Vec<usize>) -> (r: Vec<usize>)
    ensures
        sorted_by(r@, usize_leq()),
        r@.to_multiset() == v@.to_multiset(),
{
    let ghost leq = usize_leq();
    let mut src = v;
    let mut out: Vec<usize> = Vec::new();
    proof {
        assert(out@.to_multiset().add(src@.to_multiset()) =~= v@.to_multiset());
    }
    while src.len() > 0
        invariant
            sorted_by(out@, leq),
            leq == usize_leq(),
            out@.to_multiset().add(src@.to_multiset()) == v@.to_multiset(),
        decreases src@.len(),
    {
        let ghost old_src = src@;
        let x = src.remove(src.len() - 1);
        proof {
            assert(old_src =~= src@.push(x));
            assert(old_src.to_multiset() == src@.to_multiset().insert(x));
        }
        let idx = position_insertion_point(&out, x);
        proof {
            assert forall|j: int| idx <= j < out@.len() implies leq(x, #[trigger] out@[j]) by {
                assert(!(out@[idx as int] <= x));
                if idx < j {
                    assert(leq(out@[idx as int], out@[j]));
                }
            }
        }
        let ghost pre = out@;
        out.insert(idx, x);
        proof {
            assert(out@ == pre.insert(idx as int, x));
            assert forall|i: int, j: int| 0 <= i < j < out@.len() implies #[trigger] leq(
                out@[i],
                out@[j],
            ) by {
                assert(pre.insert(idx as int, x) =~= pre.take(idx as int) + seq![x] + pre.skip(
                    idx as int,
                ));
                if j < idx {
                    assert(out@[i] == pre[i] && out@[j] == pre[j]);
                } else if i > idx {
                    assert(out@[i] == pre[i - 1] && out@[j] == pre[j - 1]);
                } else if i == idx && j > idx {
                    assert(out@[i] == x && out@[j] == pre[j - 1]);
                } else if j == idx {
                    assert(out@[i] == pre[i] && out@[j] == x);
                } else if i < idx && j > idx {
                    assert(out@[i] == pre[i] && out@[j] == pre[j - 1]);
                }
            }
            lemma_insert_multiset(pre, idx as int, x);
        }
    }
    proof {
        vstd::seq_lib::to_multiset_len(src@);
        assert(src@.to_multiset().len() == 0);
        assert(out@.to_multiset() =~= v@.to_multiset());
    }
    out
}

/// Remove adjacent duplicates from a sorted vector, leaving it strictly
/// ascending with the same membership.
pub(crate) fn dedup_sorted(v: Vec<usize>) -> (r: Vec<usize>)
    requires
        sorted_by(v@, usize_leq()),
    ensures
        forall|i: int, j: int| 0 <= i < j < r@.len() ==> #[trigger] r@[i] < #[trigger] r@[j],
        forall|p: usize| r@.contains(p) <==> v@.contains(p),
{
    let ghost leq = usize_leq();
    let mut r: Vec<usize> = Vec::new();
    let mut i: usize = 0;
    proof {
        assert(v@.take(0) =~= Seq::<usize>::empty());
    }
    while i < v.len()
        invariant
            sorted_by(v@, leq),
            leq == usize_leq(),
            0 <= i <= v@.len(),
            forall|m: int, n: int| 0 <= m < n < r@.len() ==> #[trigger] r@[m] < #[trigger] r@[n],
            forall|p: usize| r@.contains(p) <==> v@.take(i as int).contains(p),
            r@.len() > 0 ==> i > 0 && r@[r@.len() - 1] == v@[i - 1],
        decreases v@.len() - i,
    {
        let x = v[i];
        let ghost pre_r = r@;
        let should_push = if r.len() == 0 {
            true
        } else {
            r[r.len() - 1] != x
        };
        if should_push {
            proof {
                if r@.len() > 0 {
                    assert(leq(v@[i - 1], v@[i as int]));
                }
            }
            r.push(x);
            proof {
                assert forall|m: int, n: int| 0 <= m < n < r@.len() implies #[trigger] r@[m]
                    < #[trigger] r@[n] by {
                    if n < r@.len() - 1 {
                        assert(r@[m] == pre_r[m] && r@[n] == pre_r[n]);
                    } else {
                        assert(r@[n] == x);
                        if m < r@.len() - 1 {
                            assert(r@[m] == pre_r[m]);
                            if m < pre_r.len() - 1 {
                                assert(pre_r[m] < pre_r[pre_r.len() - 1]);
                            }
                        }
                    }
                }
            }
        }
        proof {
            let pre = v@.take(i as int);
            let post = v@.take(i + 1);
            assert(post =~= pre.push(x));
            assert forall|p: usize| r@.contains(p) implies post.contains(p) by {
                if p == x {
                    assert(post[post.len() - 1] == x);
                } else {
                    assert(pre_r.contains(p)) by {
                        let j = choose|j: int| 0 <= j < r@.len() && r@[j] == p;
                        if should_push {
                            assert(j < r@.len() - 1);
                            assert(pre_r[j] == p);
                        } else {
                            assert(pre_r[j] == p);
                        }
                    }
                    assert(pre.contains(p));
                    let m = choose|m: int| 0 <= m < pre.len() && pre[m] == p;
                    assert(post[m] == p);
                }
            }
            assert forall|p: usize| post.contains(p) implies r@.contains(p) by {
                let j = choose|j: int| 0 <= j < post.len() && #[trigger] post[j] == p;
                if j < i {
                    assert(pre[j] == p);
                    assert(pre.contains(p));
                    assert(pre_r.contains(p));
                    let m = choose|m: int| 0 <= m < pre_r.len() && pre_r[m] == p;
                    if should_push {
                        assert(r@[m] == p);
                    }
                } else {
                    // p == x, which is the last element of r either way.
                    assert(p == x);
                    assert(r@[r@.len() - 1] == x);
                }
            }
        }
        i += 1;
    }
    proof {
        assert(v@.take(v@.len() as int) =~= v@);
    }
    r
}

/// A sorted, conflict-free sequence of rewrites, together with the alternate
/// source positions that the emitter must resolve for their mappings.
pub struct RewritePlan<C: RewriteContent> {
    pub rewrites: Vec<Rewrite<C>>,
    pub source_positions_used_in_mappings: Vec<usize>,
}

impl<C: RewriteContent> RewritePlan<C> {
    /// What `build_rewrite_plan` guarantees of a plan.
    pub open spec fn wf(self) -> bool {
        &&& chain_ok(self.rewrites@)
        &&& forall|k: int| 0 <= k < self.rewrites@.len() ==> (#[trigger] self.rewrites@[k]).wf()
        &&& forall|i: int, j: int|
            0 <= i < j < self.source_positions_used_in_mappings@.len()
                ==> #[trigger] self.source_positions_used_in_mappings@[i]
                < #[trigger] self.source_positions_used_in_mappings@[j]
    }
}

/// Ordering determinism: two rewrite sets that hold the same rewrites, in
/// any insertion order, build plans with the same final sequence.
pub proof fn lemma_plan_order_determinism(all1: Seq<RewriteView>, all2: Seq<RewriteView>)
    requires
        all1.to_multiset() == all2.to_multiset(),
    ensures
        spec_plan_views(all1) == spec_plan_views(all2),
{
    lemma_view_le_total_ordering();
    all1.lemma_sort_by_ensures(view_leq());
    all2.lemma_sort_by_ensures(view_leq());
    vstd::seq_lib::lemma_sorted_unique(all1.sort_by(view_leq()), all2.sort_by(view_leq()), view_leq());
}

/// Non-overlap: in a built plan no two kept rewrites cover a common byte; in
/// particular the spans of any two kept `Replace` rewrites never intersect.
pub proof fn lemma_plan_spans_disjoint<C: RewriteContent>(plan: RewritePlan<C>)
    requires
        plan.wf(),
    ensures
        forall|i: int, j: int|
            0 <= i < j < plan.rewrites@.len() ==> !crate::span::spec_spans_intersect(
                (#[trigger] plan.rewrites@[i]).spec_span(),
                (#[trigger] plan.rewrites@[j]).spec_span(),
            ),
{
    assert forall|i: int, j: int| 0 <= i < j < plan.rewrites@.len() implies
    !crate::span::spec_spans_intersect(
        (#[trigger] plan.rewrites@[i]).spec_span(),
        (#[trigger] plan.rewrites@[j]).spec_span(),
    ) by {
        assert(plan.rewrites@[i].spec_hi() <= plan.rewrites@[j].spec_lo());
    }
}

/// Build the plan for `header` and `body` rewrites.
///
/// The header rewrites (synthesized declarations meant to run before every
/// body rewrite) are chained ahead of the body rewrites; the whole set is
/// then sorted into application order and filtered so that a rewrite that
/// would overlap an already-kept rewrite is dropped. Every alternate source
/// position named by a kept rewrite's content is collected, sorted and
/// deduplicated for the emitter.
pub fn build_rewrite_plan<C: RewriteContent>(header: Vec<Rewrite<C>>, body: Vec<Rewrite<C>>) -> (r:
    RewritePlan<C>)
    requires
        forall|k: int| 0 <= k < header@.len() ==> (#[trigger] header@[k]).wf(),
        forall|k: int| 0 <= k < body@.len() ==> (#[trigger] body@[k]).wf(),
    ensures
        views_of(r.rewrites@) == spec_plan_views(views_of(header@ + body@)),
        r.wf(),
        forall|p: usize|
            r.source_positions_used_in_mappings@.contains(p) <==> exists|k: int|
                0 <= k < r.rewrites@.len() && (
                #[trigger] r.rewrites@[k]).spec_content().spec_source_pos() == Some(p),
        forall|k: int|
            0 <= k < r.rewrites@.len() ==> views_of(header@ + body@).contains(
                rw_view(#[trigger] r.rewrites@[k]),
            ),
{
    let ghost header0 = header@;
    let ghost body0 = body@;
    let ghost all = header@ + body@;
    let ghost all_views = views_of(all);
    let mut combined = header;
    let mut body = body;
    combined.append(&mut body);
    proof {
        assert(views_of(combined@) =~= all_views);
    }
    let sorted = sort_rewrites(combined);
    proof {
        lemma_view_le_total_ordering();
        all_views.lemma_sort_by_ensures(view_leq());
        vstd::seq_lib::lemma_sorted_unique(
            views_of(sorted@),
            all_views.sort_by(view_leq()),
            view_leq(),
        );
        assert(views_of(sorted@) == all_views.sort_by(view_leq()));
        assert forall|k: int| 0 <= k < all.len() implies (#[trigger] all[k]).wf() by {
            if k < header0.len() {
                assert(header0[k] == all[k]);
            } else {
                assert(body0[k - header0.len()] == all[k]);
            }
        }
        assert forall|k: int| 0 <= k < sorted@.len() implies (#[trigger] sorted@[k]).wf() by {
            let vs = views_of(sorted@);
            assert(vs[k] == rw_view(sorted@[k]));
            assert(vs.to_multiset().contains(vs[k]));
            assert(all_views.to_multiset().contains(vs[k]));
            let n = choose|n: int| 0 <= n < all_views.len() && all_views[n] == vs[k];
            assert(all_views[n] == rw_view(all[n]));
            assert(all[n].wf());
        }
    }
    // Keep each rewrite that starts at or after the end of the last kept one.
    let ghost sorted_all = sorted@;
    let mut remaining = sorted;
    let mut kept: Vec<Rewrite<C>> = Vec::new();
    let mut watermark: usize = 0;
    while remaining.len() > 0
        invariant
            views_of(kept@) + filter_conflicts(views_of(remaining@), watermark as nat)
                == filter_conflicts(views_of(sorted_all), 0),
            forall|k: int| 0 <= k < kept@.len() ==> (#[trigger] kept@[k]).wf(),
            forall|k: int| 0 <= k < remaining@.len() ==> (#[trigger] remaining@[k]).wf(),
        decreases remaining@.len(),
    {
        let ghost rem = remaining@;
        let rw = remaining.remove(0);
        proof {
            assert(views_of(rem).drop_first() =~= views_of(remaining@));
            assert(rw == rem[0]);
            assert(views_of(rem)[0] == rw_view(rw));
            assert forall|k: int| 0 <= k < remaining@.len() implies (
            #[trigger] remaining@[k]).wf() by {
                assert(remaining@[k] == rem[k + 1]);
            }
        }
        let rw_lo = rw.lo();
        if rw_lo >= watermark {
            let rw_hi = rw.hi();
            let ghost pre_kept = kept@;
            kept.push(rw);
            watermark = rw_hi;
            proof {
                assert(views_of(kept@) =~= views_of(pre_kept).push(rw_view(rem[0])));
                assert(views_of(kept@) + filter_conflicts(views_of(remaining@), watermark as nat)
                    =~= views_of(pre_kept) + (seq![views_of(rem)[0]] + filter_conflicts(
                    views_of(rem).drop_first(),
                    views_of(rem)[0].hi as nat,
                )));
            }
        } else {
            proof {
                assert(filter_conflicts(views_of(rem), watermark as nat) == filter_conflicts(
                    views_of(remaining@),
                    watermark as nat,
                ));
            }
        }
    }
    proof {
        assert(views_of(remaining@) =~= Seq::<RewriteView>::empty());
        assert(views_of(kept@) + Seq::<RewriteView>::empty() =~= views_of(kept@));
        assert(views_of(kept@) == filter_conflicts(views_of(sorted_all), 0));
        assert forall|k: int| 0 <= k < views_of(sorted_all).len() implies (#[trigger] views_of(
            sorted_all,
        )[k]).lo <= views_of(sorted_all)[k].hi by {
            assert(views_of(sorted_all)[k] == rw_view(sorted_all[k]));
        }
        lemma_filter_conflicts_props(views_of(sorted_all), 0);
        assert forall|i: int, j: int| 0 <= i < j < kept@.len() implies (
        #[trigger] kept@[i]).spec_hi() <= (#[trigger] kept@[j]).spec_lo() by {
            let vk = views_of(kept@);
            assert(vk[i] == rw_view(kept@[i]));
            assert(vk[j] == rw_view(kept@[j]));
            assert(vk[i].hi <= vk[j].lo);
        }
        assert forall|k: int| 0 <= k < kept@.len() implies views_of(all).contains(
            rw_view(#[trigger] kept@[k]),
        ) by {
            let vk = views_of(kept@);
            assert(vk[k] == rw_view(kept@[k]));
            assert(vk.contains(vk[k]));
            assert(views_of(sorted_all).contains(vk[k]));
            let m = choose|m: int|
                0 <= m < views_of(sorted_all).len() && views_of(sorted_all)[m] == vk[k];
            assert(views_of(sorted_all).to_multiset().contains(vk[k]));
            assert(views_of(all).to_multiset().contains(vk[k]));
        }
    }
    // Collect the alternate source positions of the kept rewrites.
    let mut positions: Vec<usize> = Vec::new();
    let mut k: usize = 0;
    while k < kept.len()
        invariant
            0 <= k <= kept@.len(),
            forall|p: usize|
                positions@.contains(p) <==> exists|m: int|
                    0 <= m < k && (#[trigger] kept@[m]).spec_content().spec_source_pos() == Some(p),
        decreases kept@.len() - k,
    {
        let ghost pre = positions@;
        match kept[k].content().source_pos() {
            Some(p) => {
                positions.push(p);
                proof {
                    assert forall|q: usize| positions@.contains(q) implies exists|m: int|
                        0 <= m < k + 1 && (#[trigger] kept@[m]).spec_content().spec_source_pos()
                            == Some(q) by {
                        let j = choose|j: int| 0 <= j < positions@.len() && positions@[j] == q;
                        if j < positions@.len() - 1 {
                            assert(pre[j] == q);
                            assert(pre.contains(q));
                            let m = choose|m: int|
                                0 <= m < k && (#[trigger] kept@[m]).spec_content().spec_source_pos()
                                    == Some(q);
                            assert(0 <= m < k + 1 && kept@[m].spec_content().spec_source_pos()
                                == Some(q));
                        } else {
                            assert(q == p);
                            assert(kept@[k as int].spec_content().spec_source_pos() == Some(q));
                        }
                    }
                    assert forall|q: usize|
                        exists|m: int|
                            0 <= m < k + 1 && (
                            #[trigger] kept@[m]).spec_content().spec_source_pos() == Some(
                                q,
                            ) implies positions@.contains(q) by {
                        let m = choose|m: int|
                            0 <= m < k + 1 && (#[trigger] kept@[m]).spec_content().spec_source_pos()
                                == Some(q);
                        if m < k {
                            assert(pre.contains(q));
                            let j = choose|j: int| 0 <= j < pre.len() && pre[j] == q;
                            assert(positions@[j] == q);
                        } else {
                            assert(positions@[positions@.len() - 1] == p);
                            assert(q == p);
                        }
                    }
                }
            },
            None => {
                proof {
                    assert forall|q: usize| positions@.contains(q) implies exists|m: int|
                        0 <= m < k + 1 && (#[trigger] kept@[m]).spec_content().spec_source_pos()
                            == Some(q) by {
                        let m = choose|m: int|
                            0 <= m < k && (#[trigger] kept@[m]).spec_content().spec_source_pos()
                                == Some(q);
                        assert(0 <= m < k + 1 && kept@[m].spec_content().spec_source_pos() == Some(
                            q,
                        ));
                    }
                    assert forall|q: usize|
                        exists|m: int|
                            0 <= m < k + 1 && (
                            #[trigger] kept@[m]).spec_content().spec_source_pos() == Some(
                                q,
                            ) implies positions@.contains(q) by {
                        let m = choose|m: int|
                            0 <= m < k + 1 && (#[trigger] kept@[m]).spec_content().spec_source_pos()
                                == Some(q);
                        assert(m < k);
                    }
                }
            },
        }
        k += 1;
    }
    let sorted_positions = sort_positions(positions);
    let deduped = dedup_sorted(sorted_positions);
    proof {
        assert forall|p: usize| deduped@.contains(p) <==> positions@.contains(p) by {
            assert(deduped@.contains(p) <==> sorted_positions@.contains(p));
            assert(sorted_positions@.to_multiset().contains(p) <==> positions@.to_multiset()
                .contains(p));
        }
    }
    RewritePlan { rewrites: kept, source_positions_used_in_mappings: deduped }
}

} // verus!
