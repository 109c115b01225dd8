//! The best matches of a search, best first.

use vstd::prelude::*;

use crate::paths::{PathView, RepoPath};
use crate::quantizer::{is_nan, is_no_number, order_key, order_key_of};

verus! {

/// A range of a file's lines, with the bits of the 64-bit number that says how close it comes to
/// the query.
pub struct Scored {
    pub similarity: u64,
    pub path: RepoPath,
    pub start_line: usize,
    pub end_line: usize,
}

/// What a `Scored` stands for.
#[verifier::ext_equal]
pub struct ScoredView {
    pub similarity: u64,
    pub path: PathView,
    pub start_line: usize,
    pub end_line: usize,
}

impl View for Scored {
    type V = ScoredView;

    open spec fn view(&self) -> ScoredView {
        ScoredView {
            similarity: self.similarity,
            path: self.path@,
            start_line: self.start_line,
            end_line: self.end_line,
        }
    }
}

/// The views of a sequence of matches.
pub open spec fn scored_views(v: Seq<Scored>) -> Seq<ScoredView> {
    Seq::new(v.len(), |i: int| v[i]@)
}

/// What matches are ranked by: the order of their similarities. What is no number comes last.
pub open spec fn rank(similarity: u64) -> int {
    if is_nan(similarity) {
        i64::MIN as int
    } else {
        order_key(similarity)
    }
}

/// What matches are ranked by.
fn rank_of(similarity: u64) -> (r: i64)
    ensures
        r == rank(similarity),
{
    if is_no_number(similarity) {
        i64::MIN
    } else {
        order_key_of(similarity)
    }
}

/// Whether a match of similarity `a` belongs before one of similarity `b`: it is a number, and `b`
/// is a smaller number or none.
pub open spec fn comes_before(a: u64, b: u64) -> bool {
    !is_nan(a) && (is_nan(b) || order_key(b) < order_key(a))
}

/// `best` with `x` put behind everything that ranks as high.
pub open spec fn inserted(best: Seq<ScoredView>, x: ScoredView) -> Seq<ScoredView>
    decreases best.len(),
{
    if best.len() == 0 || rank(best.last().similarity) >= rank(x.similarity) {
        best.push(x)
    } else {
        inserted(best.drop_last(), x).push(best.last())
    }
}

/// The matches from the highest rank to the lowest; those that rank the same keep their order.
pub open spec fn ranked(items: Seq<ScoredView>) -> Seq<ScoredView>
    decreases items.len(),
{
    if items.len() == 0 {
        Seq::empty()
    } else {
        inserted(ranked(items.drop_last()), items.last())
    }
}

/// The first `k` of a sequence, or all of it if it is shorter.
pub open spec fn at_most_first<T>(s: Seq<T>, k: int) -> Seq<T> {
    if k < s.len() {
        s.take(k)
    } else {
        s
    }
}

/// Whether no match is ranked above one that comes before it.
pub open spec fn is_ranked(s: Seq<ScoredView>) -> bool {
    forall|i: int, j: int|
        0 <= i < j < s.len() ==> rank((#[trigger] s[i]).similarity) >= rank(
            (#[trigger] s[j]).similarity,
        )
}

/// Where a match goes: behind `p`, which ranks as high, and before all those that rank lower.
proof fn lemma_inserted_at(best: Seq<ScoredView>, x: ScoredView, p: int)
    requires
        0 <= p <= best.len(),
        p > 0 ==> rank(best[p - 1].similarity) >= rank(x.similarity),
        forall|i: int|
            p <= i < best.len() ==> rank((#[trigger] best[i]).similarity) < rank(x.similarity),
    ensures
        inserted(best, x) == best.insert(p, x),
    decreases best.len(),
{
    if p == best.len() {
        assert(best.insert(p, x) =~= best.push(x));
    } else {
        let rest = best.drop_last();
        assert forall|i: int| p <= i < rest.len() implies rank((#[trigger] rest[i]).similarity)
            < rank(x.similarity) by {
            assert(rest[i] == best[i]);
        }
        lemma_inserted_at(rest, x, p);
        assert(best.insert(p, x) =~= rest.insert(p, x).push(best.last()));
        assert(rank(best[best.len() - 1].similarity) < rank(x.similarity));
    }
}

/// Where a match goes in a ranked sequence.
proof fn lemma_place(best: Seq<ScoredView>, x: ScoredView) -> (p: int)
    requires
        is_ranked(best),
    ensures
        0 <= p <= best.len(),
        forall|i: int| 0 <= i < p ==> rank((#[trigger] best[i]).similarity) >= rank(x.similarity),
        forall|i: int|
            p <= i < best.len() ==> rank((#[trigger] best[i]).similarity) < rank(x.similarity),
    decreases best.len(),
{
    if best.len() == 0 || rank(best.last().similarity) >= rank(x.similarity) {
        best.len() as int
    } else {
        let rest = best.drop_last();
        let p = lemma_place(rest, x);
        assert forall|i: int| 0 <= i < p implies rank((#[trigger] best[i]).similarity) >= rank(
            x.similarity,
        ) by {
            assert(rest[i] == best[i]);
        }
        assert forall|i: int| p <= i < best.len() implies rank((#[trigger] best[i]).similarity)
            < rank(x.similarity) by {
            if i < rest.len() {
                assert(rest[i] == best[i]);
            }
        }
        p
    }
}

/// A ranked sequence stays ranked.
proof fn lemma_inserted_is_ranked(best: Seq<ScoredView>, x: ScoredView)
    requires
        is_ranked(best),
    ensures
        is_ranked(inserted(best, x)),
        inserted(best, x).len() == best.len() + 1,
        inserted(best, x).to_multiset() == best.to_multiset().insert(x),
{
    let p = lemma_place(best, x);
    lemma_inserted_at(best, x, p);
    broadcast use vstd::seq_lib::group_to_multiset_ensures;
    assert(best.insert(p, x).to_multiset() =~= best.to_multiset().insert(x));
}

/// What was cut off before makes no difference to the first `k`.
proof fn lemma_inserted_first(best: Seq<ScoredView>, x: ScoredView, k: int)
    requires
        is_ranked(best),
        k >= 0,
    ensures
        at_most_first(inserted(at_most_first(best, k), x), k) == at_most_first(
            inserted(best, x),
            k,
        ),
{
    if k < best.len() {
        let cut = best.take(k);
        let p = lemma_place(best, x);
        lemma_inserted_at(best, x, p);
        let q = if p <= k {
            p
        } else {
            k
        };
        assert forall|i: int| q <= i < cut.len() implies rank((#[trigger] cut[i]).similarity)
            < rank(x.similarity) by {
            assert(cut[i] == best[i]);
        }
        lemma_inserted_at(cut, x, q);
        assert(cut.insert(q, x).take(k) =~= best.insert(p, x).take(k));
    }
}

proof fn lemma_ranked(items: Seq<ScoredView>)
    ensures
        is_ranked(ranked(items)),
        ranked(items).len() == items.len(),
        ranked(items).to_multiset() == items.to_multiset(),
    decreases items.len(),
{
    broadcast use vstd::seq_lib::group_to_multiset_ensures;
    if items.len() > 0 {
        lemma_ranked(items.drop_last());
        lemma_inserted_is_ranked(ranked(items.drop_last()), items.last());
        assert(items =~= items.drop_last().push(items.last()));
    }
}

/// The `k` best of `items`, best first; where two rank the same, the one that comes first in
/// `items` is the better one.
pub fn top_k(items: Vec<Scored>, k: usize) -> (r: Vec<Scored>)
    ensures
        scored_views(r@) == at_most_first(ranked(scored_views(items@)), k as int),
        forall|i: int, j: int|
            0 <= i < j < r@.len() ==> !comes_before(
                (#[trigger] r@[j]).similarity,
                (#[trigger] r@[i]).similarity,
            ),
        r@.len() == (if k < items@.len() {
            k as int
        } else {
            items@.len() as int
        }),
{
    let n: usize = items.len();
    let ghost all = scored_views(items@);
    let mut best: Vec<Scored> = Vec::new();
    let mut i: usize = 0;
    assert(scored_views(best@) =~= Seq::<ScoredView>::empty());
    assert(all.take(0) =~= Seq::<ScoredView>::empty());
    while i < n
        invariant
            i <= n == items@.len(),
            all == scored_views(items@),
            scored_views(best@) == at_most_first(ranked(all.take(i as int)), k as int),
        decreases n - i,
    {
        let ghost so_far = ranked(all.take(i as int));
        let ghost x = all[i as int];
        let ghost next = all.take(i + 1);
        proof {
            assert(next.drop_last() =~= all.take(i as int));
            assert(next.last() == x);
            lemma_ranked(all.take(i as int));
            lemma_inserted_first(so_far, x, k as int);
        }
        let ghost before = scored_views(best@);
        let key: i64 = rank_of(items[i].similarity);
        let m: usize = best.len();
        let mut p: usize = m;
        while p > 0 && rank_of(best[p - 1].similarity) < key
            invariant
                p <= m == best@.len(),
                before == scored_views(best@),
                key == rank(x.similarity),
                forall|j: int|
                    p <= j < m ==> rank((#[trigger] before[j]).similarity) < rank(x.similarity),
            decreases p,
        {
            assert(before[p - 1] == best@[p - 1]@);
            p = p - 1;
        }
        assert(p > 0 ==> before[p - 1] == best@[p - 1]@);
        proof {
            lemma_inserted_at(before, x, p as int);
        }
        if p < k {
            let item = &items[i];
            let copied = Scored {
                similarity: item.similarity,
                path: item.path.copy(),
                start_line: item.start_line,
                end_line: item.end_line,
            };
            let ghost kept = best@;
            best.insert(p, copied);
            assert(scored_views(best@) =~= before.insert(p as int, x));
            if best.len() > k {
                let ghost long = best@;
                best.truncate(k);
                assert(scored_views(best@) =~= scored_views(long).take(k as int));
            }
        } else {
            assert(before.len() <= k);
            assert(at_most_first(before.insert(p as int, x), k as int) =~= before);
        }
        i = i + 1;
    }
    assert(all.take(n as int) =~= all);
    proof {
        law_the_greatest_similarities_are_kept(all, k as int);
        assert(scored_views(best@).len() == best@.len());
        assert forall|i: int, j: int| 0 <= i < j < best@.len() implies !comes_before(
            (#[trigger] best@[j]).similarity,
            (#[trigger] best@[i]).similarity,
        ) by {
            assert(scored_views(best@)[i] == best@[i]@ && scored_views(best@)[j] == best@[j]@);
        }
    }
    best
}

/// The best matches come first, and nothing is lost or made up in ranking.
pub proof fn law_matches_are_ranked(items: Seq<ScoredView>)
    ensures
        is_ranked(ranked(items)),
        ranked(items).to_multiset() == items.to_multiset(),
{
    lemma_ranked(items);
}

/// The first `k` are the best: there are `k` of them, or all there is, and none that is left out
/// ranks above one that is kept.
pub proof fn law_the_best_are_kept(items: Seq<ScoredView>, k: int)
    requires
        k >= 0,
    ensures
        at_most_first(ranked(items), k).len() == (if k < items.len() {
            k
        } else {
            items.len() as int
        }),
        forall|i: int, j: int|
            0 <= i < at_most_first(ranked(items), k).len() <= j < ranked(items).len() ==> rank(
                (#[trigger] at_most_first(ranked(items), k)[i]).similarity,
            ) >= rank((#[trigger] ranked(items)[j]).similarity),
{
    lemma_ranked(items);
    assert forall|i: int, j: int|
        0 <= i < at_most_first(ranked(items), k).len() <= j < ranked(items).len() implies rank(
        (#[trigger] at_most_first(ranked(items), k)[i]).similarity,
    ) >= rank((#[trigger] ranked(items)[j]).similarity) by {
        assert(at_most_first(ranked(items), k)[i] == ranked(items)[i]);
    }
}

/// A similarity that is no number ranks below every number, and of two numbers the greater one ranks
/// higher.
pub proof fn law_ranks_follow_the_numbers(a: u64, b: u64)
    ensures
        !is_nan(a) && !is_nan(b) ==> (rank(a) < rank(b) <==> order_key(a) < order_key(b)),
        is_nan(a) && !is_nan(b) ==> rank(a) < rank(b),
        is_nan(a) && is_nan(b) ==> rank(a) == rank(b),
{
}

/// The `k` that are kept are the first of the ranking, and as many of them as there are. They come
/// with the greatest similarities first and what is no number last; nothing that is left out has a
/// greater similarity than anything that is kept; and with what is left out they are all the items,
/// each as often as it was.
pub proof fn law_the_greatest_similarities_are_kept(items: Seq<ScoredView>, k: int)
    requires
        k >= 0,
    ensures
        ({
            let kept = at_most_first(ranked(items), k);
            let left_out = ranked(items).skip(kept.len() as int);
            &&& kept.len() == (if k < items.len() {
                k
            } else {
                items.len() as int
            })
            &&& (kept + left_out).to_multiset() == items.to_multiset()
            &&& forall|i: int, j: int|
                0 <= i < j < kept.len() ==> (is_nan((#[trigger] kept[i]).similarity) ==> is_nan(
                    (#[trigger] kept[j]).similarity,
                )) && (!is_nan(kept[i].similarity) && !is_nan(kept[j].similarity) ==> order_key(
                    kept[i].similarity,
                ) >= order_key(kept[j].similarity))
            &&& forall|i: int, j: int|
                0 <= i < kept.len() && 0 <= j < left_out.len() ==> (is_nan(
                    (#[trigger] kept[i]).similarity,
                ) ==> is_nan((#[trigger] left_out[j]).similarity)) && (!is_nan(kept[i].similarity)
                    && !is_nan(left_out[j].similarity) ==> order_key(kept[i].similarity)
                    >= order_key(left_out[j].similarity))
        }),
{
    lemma_ranked(items);
    let all = ranked(items);
    let kept = at_most_first(all, k);
    let left_out = all.skip(kept.len() as int);
    assert(kept + left_out =~= all);
    assert forall|i: int, j: int| 0 <= i < j < kept.len() implies rank(
        (#[trigger] kept[i]).similarity,
    ) >= rank((#[trigger] kept[j]).similarity) by {
        assert(kept[i] == all[i] && kept[j] == all[j]);
    }
    assert forall|i: int, j: int| 0 <= i < kept.len() && 0 <= j < left_out.len() implies rank(
        (#[trigger] kept[i]).similarity,
    ) >= rank((#[trigger] left_out[j]).similarity) by {
        assert(kept[i] == all[i] && left_out[j] == all[kept.len() + j]);
    }
}

/// Matches of the same similarity keep the order in which they were given, and so do those whose
/// similarity is no number.
pub proof fn law_ties_keep_their_order(items: Seq<ScoredView>, similarity: u64)
    ensures
        ({
            let tied = |x: ScoredView|
                if is_nan(similarity) {
                    is_nan(x.similarity)
                } else {
                    !is_nan(x.similarity) && order_key(x.similarity) == order_key(similarity)
                };
            ranked(items).filter(tied) == items.filter(tied)
        }),
    decreases items.len(),
{
    let tied = |x: ScoredView|
        if is_nan(similarity) {
            is_nan(x.similarity)
        } else {
            !is_nan(x.similarity) && order_key(x.similarity) == order_key(similarity)
        };
    reveal(Seq::filter);
    if items.len() > 0 {
        let rest = items.drop_last();
        let x = items.last();
        let best = ranked(rest);
        law_ties_keep_their_order(rest, similarity);
        lemma_ranked(rest);
        let p = lemma_place(best, x);
        lemma_inserted_at(best, x, p);
        let front = best.take(p);
        let back = best.skip(p);
        assert(best =~= front + back);
        assert(best.insert(p, x) =~= front + seq![x] + back);
        Seq::filter_distributes_over_add(front, back, tied);
        Seq::filter_distributes_over_add(front + seq![x], back, tied);
        Seq::filter_distributes_over_add(front, seq![x], tied);
        assert(seq![x].drop_last() =~= Seq::<ScoredView>::empty());
        assert(seq![x].filter(tied) =~= (if tied(x) {
            seq![x]
        } else {
            Seq::empty()
        })) by {
            reveal_with_fuel(Seq::filter, 2);
        }
        if tied(x) {
            assert forall|i: int| 0 <= i < back.len() implies !tied(#[trigger] back[i]) by {
                assert(back[i] == best[p + i]);
            }
            lemma_none_kept(back, tied);
            assert(front.filter(tied) + seq![x] + back.filter(tied) =~= (front.filter(tied)
                + back.filter(tied)).push(x));
        } else {
            assert(front.filter(tied) + Seq::<ScoredView>::empty() + back.filter(tied)
                =~= front.filter(tied) + back.filter(tied));
        }
    }
}

proof fn lemma_none_kept(s: Seq<ScoredView>, f: spec_fn(ScoredView) -> bool)
    requires
        forall|i: int| 0 <= i < s.len() ==> !f(#[trigger] s[i]),
    ensures
        s.filter(f) == Seq::<ScoredView>::empty(),
    decreases s.len(),
{
    reveal(Seq::filter);
    if s.len() > 0 {
        let rest = s.drop_last();
        assert forall|i: int| 0 <= i < rest.len() implies !f(#[trigger] rest[i]) by {
            assert(rest[i] == s[i]);
        }
        lemma_none_kept(rest, f);
        assert(!f(s[s.len() - 1]));
    } else {
        assert(s.filter(f) =~= Seq::<ScoredView>::empty());
    }
}

} // verus!
