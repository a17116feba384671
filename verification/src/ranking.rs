//! The order of scored items: highest score first, ties broken by id in
//! ascending order, items that tie on both keeping their order (a stable sort).

use vstd::prelude::*;
use crate::model::{scored_views, ScoredItem, ScoredView};
use crate::text::{compare_text, lemma_lex_asymmetric, lemma_lex_transitive, lex_lt, Cmp};

verus! {

broadcast use vstd::seq_lib::group_to_multiset_ensures;

/// `a` is ranked strictly before `b`.
pub open spec fn goes_before(a: ScoredView, b: ScoredView) -> bool {
    a.score > b.score || (a.score == b.score && lex_lt(a.id, b.id))
}

/// Where a stable insertion puts `x` in `s`: before the first element that
/// `x` goes before, or at the end.
pub open spec fn rank_pos(s: Seq<ScoredView>, x: ScoredView) -> int
    decreases s.len(),
{
    if s.len() == 0 {
        0
    } else if goes_before(x, s[0]) {
        0
    } else {
        1 + rank_pos(s.drop_first(), x)
    }
}

/// `s` with `x` inserted where a stable insertion puts it.
pub open spec fn insert_ranked(s: Seq<ScoredView>, x: ScoredView) -> Seq<ScoredView> {
    s.insert(rank_pos(s, x), x)
}

/// The ranking of `s`: a stable sort by `goes_before`.
pub open spec fn rank(s: Seq<ScoredView>) -> Seq<ScoredView>
    decreases s.len(),
{
    if s.len() == 0 {
        s
    } else {
        insert_ranked(rank(s.drop_last()), s.last())
    }
}

/// No item goes before an item ranked ahead of it.
pub open spec fn ranked_order(s: Seq<ScoredView>) -> bool {
    forall|i: int, j: int| 0 <= i < j < s.len() ==> !goes_before(#[trigger] s[j], #[trigger] s[i])
}

/// Ranking is a strict order: irreflexive and transitive.
pub proof fn lemma_goes_before_order(a: ScoredView, b: ScoredView, c: ScoredView)
    ensures
        !goes_before(a, a),
        goes_before(a, b) ==> !goes_before(b, a),
        goes_before(a, b) && goes_before(b, c) ==> goes_before(a, c),
{
    lemma_lex_asymmetric(a.id, a.id);
    lemma_lex_asymmetric(a.id, b.id);
    if lex_lt(a.id, b.id) && lex_lt(b.id, c.id) {
        lemma_lex_transitive(a.id, b.id, c.id);
    }
}

proof fn lemma_rank_pos(s: Seq<ScoredView>, x: ScoredView)
    ensures
        0 <= rank_pos(s, x) <= s.len(),
        forall|i: int| 0 <= i < rank_pos(s, x) ==> !goes_before(x, #[trigger] s[i]),
        rank_pos(s, x) < s.len() ==> goes_before(x, s[rank_pos(s, x)]),
    decreases s.len(),
{
    if s.len() > 0 && !goes_before(x, s[0]) {
        lemma_rank_pos(s.drop_first(), x);
        assert forall|i: int| 0 <= i < rank_pos(s, x) implies !goes_before(x, #[trigger] s[i]) by {
            if i > 0 {
                assert(s[i] == s.drop_first()[i - 1]);
            }
        }
    }
}

proof fn lemma_rank_pos_unique(s: Seq<ScoredView>, x: ScoredView, p: int)
    requires
        0 <= p <= s.len(),
        forall|i: int| 0 <= i < p ==> !goes_before(x, #[trigger] s[i]),
        p < s.len() ==> goes_before(x, s[p]),
    ensures
        p == rank_pos(s, x),
    decreases s.len(),
{
    if s.len() > 0 && p > 0 {
        assert(!goes_before(x, s[0]));
        assert forall|i: int| 0 <= i < p - 1 implies !goes_before(x, #[trigger] s.drop_first()[i]) by {
            assert(s.drop_first()[i] == s[i + 1]);
        }
        lemma_rank_pos_unique(s.drop_first(), x, p - 1);
    }
}

/// Ranking keeps the items: the ranking is a permutation of its input.
pub proof fn lemma_rank_permutes(s: Seq<ScoredView>)
    ensures
        rank(s).to_multiset() == s.to_multiset(),
        rank(s).len() == s.len(),
    decreases s.len(),
{
    if s.len() > 0 {
        lemma_rank_permutes(s.drop_last());
        lemma_rank_pos(rank(s.drop_last()), s.last());
        assert(s.drop_last().push(s.last()) =~= s);
    }
}

/// The ranking is ordered: no item goes before one ranked ahead of it.
pub proof fn lemma_rank_ordered(s: Seq<ScoredView>)
    ensures
        ranked_order(rank(s)),
    decreases s.len(),
{
    if s.len() > 0 {
        let r = rank(s.drop_last());
        let x = s.last();
        lemma_rank_ordered(s.drop_last());
        lemma_rank_pos(r, x);
        let p = rank_pos(r, x);
        let t = r.insert(p, x);
        assert forall|i: int, j: int| 0 <= i < j < t.len() implies !goes_before(
            #[trigger] t[j],
            #[trigger] t[i],
        ) by {
            if j < p {
                assert(!goes_before(r[j], r[i]));
            } else if j == p {
                assert(!goes_before(x, r[i]));
            } else if i < p {
                assert(!goes_before(r[j - 1], r[i]));
            } else if i == p {
                // r[p] is not before... x goes before r[p], so r[j - 1] going
                // before x would put it before r[p].
                assert(goes_before(x, r[p]));
                if j - 1 > p {
                    assert(!goes_before(r[j - 1], r[p]));
                }
                lemma_goes_before_order(r[j - 1], x, r[p]);
                lemma_goes_before_order(x, r[p], x);
            } else {
                assert(!goes_before(r[j - 1], r[i - 1]));
            }
        }
    }
}

/// The ranking puts higher scores first, negative ones included, and among
/// equal scores puts the smaller id first: for any two ranked items, the
/// earlier one's score is at least the later one's, and when the scores are
/// equal the later one's id does not come before the earlier one's.
pub proof fn lemma_rank_by_score(s: Seq<ScoredView>)
    ensures
        forall|i: int, j: int|
            0 <= i < j < rank(s).len() ==> (#[trigger] rank(s)[i]).score >= (
            #[trigger] rank(s)[j]).score && (rank(s)[i].score == rank(s)[j].score ==> !lex_lt(
                rank(s)[j].id,
                rank(s)[i].id,
            )),
{
    lemma_rank_ordered(s);
    let r = rank(s);
    assert forall|i: int, j: int| 0 <= i < j < r.len() implies (#[trigger] r[i]).score >= (
    #[trigger] r[j]).score && (r[i].score == r[j].score ==> !lex_lt(r[j].id, r[i].id)) by {
        assert(!goes_before(r[j], r[i]));
    }
}

/// Whether `a` is ranked strictly before `b`.
pub fn ranks_before(a: &ScoredItem, b: &ScoredItem) -> (r: bool)
    ensures
        r == goes_before(a@, b@),
{
    if a.score > b.score {
        true
    } else if a.score == b.score {
        compare_text(a.id.as_str(), b.id.as_str()) == Cmp::Less
    } else {
        false
    }
}

/// Sorts scored items by score, highest first, then by id, keeping the
/// order of items that tie on both.
pub fn rank_items(items: Vec<ScoredItem>) -> (r: Vec<ScoredItem>)
    ensures
        scored_views(r@) == rank(scored_views(items@)),
        scored_views(r@).to_multiset() == scored_views(items@).to_multiset(),
        forall|i: int, j: int|
            0 <= i < j < r@.len() ==> (#[trigger] r@[i]).score >= (#[trigger] r@[j]).score && (
            r@[i].score == r@[j].score ==> !lex_lt(r@[j].id@, r@[i].id@)),
{
    let ghost all = scored_views(items@);
    let n = items.len();
    assert(all.subrange(0, n as int) =~= all);
    let mut rest = items;
    let mut ranked: Vec<ScoredItem> = Vec::new();
    let mut k: usize = 0;
    assert(all.take(0) =~= Seq::<ScoredView>::empty());
    while k < n
        invariant
            n == all.len(),
            k <= n,
            rest@.len() == n - k,
            scored_views(rest@) == all.subrange(k as int, n as int),
            scored_views(ranked@) == rank(all.take(k as int)),
        decreases n - k,
    {
        assert(scored_views(rest@)[0] == rest@[0]@);
        let ghost old_rest = rest@;
        let x = rest.remove(0);
        assert(rest@ =~= old_rest.subrange(1, old_rest.len() as int));
        assert forall|i: int| 0 <= i < rest@.len() implies #[trigger] scored_views(rest@)[i]
            == all.subrange(k + 1, n as int)[i] by {
            assert(scored_views(old_rest)[i + 1] == all.subrange(k as int, n as int)[i + 1]);
        }
        assert(scored_views(rest@) =~= all.subrange(k + 1, n as int));
        let ghost xv = x@;
        assert(xv == all[k as int]);
        let m = ranked.len();
        let mut p: usize = 0;
        while p < m && !ranks_before(&x, &ranked[p])
            invariant
                m == ranked@.len(),
                p <= m,
                xv == x@,
                forall|i: int| 0 <= i < p ==> !goes_before(xv, #[trigger] scored_views(ranked@)[i]),
            decreases m - p,
        {
            p = p + 1;
        }
        proof {
            lemma_rank_pos_unique(scored_views(ranked@), xv, p as int);
        }
        let ghost before = ranked@;
        ranked.insert(p, x);
        proof {
            assert(scored_views(ranked@) =~= scored_views(before).insert(p as int, xv));
            assert(all.take(k + 1).drop_last() =~= all.take(k as int));
        }
        k = k + 1;
    }
    assert(all.take(n as int) =~= all);
    proof {
        lemma_rank_permutes(all);
        lemma_rank_by_score(all);
        assert forall|i: int, j: int| 0 <= i < j < ranked@.len() implies (#[trigger] ranked@[i]).score
            >= (#[trigger] ranked@[j]).score && (ranked@[i].score == ranked@[j].score ==> !lex_lt(
            ranked@[j].id@,
            ranked@[i].id@,
        )) by {
            assert(scored_views(ranked@)[i] == ranked@[i]@);
            assert(scored_views(ranked@)[j] == ranked@[j]@);
        }
    }
    ranked
}

} // verus!

verus! {

/// No two items share an id.
pub open spec fn ids_distinct(s: Seq<ScoredView>) -> bool {
    forall|i: int, j: int| 0 <= i < j < s.len() ==> (#[trigger] s[i]).id != (#[trigger] s[j]).id
}

/// Each item goes strictly before every later one.
pub open spec fn strictly_ranked(s: Seq<ScoredView>) -> bool {
    forall|i: int, j: int| 0 <= i < j < s.len() ==> goes_before(#[trigger] s[i], #[trigger] s[j])
}

proof fn lemma_ids_distinct_transfer(s: Seq<ScoredView>, t: Seq<ScoredView>)
    requires
        ids_distinct(s),
        s.to_multiset() == t.to_multiset(),
    ensures
        ids_distinct(t),
{
    assert(s.no_duplicates()) by {
        assert forall|i: int, j: int| 0 <= i < s.len() && 0 <= j < s.len() && i != j implies s[i]
            != s[j] by {
            if i < j {
                assert(s[i].id != s[j].id);
            } else {
                assert(s[j].id != s[i].id);
            }
        }
    }
    s.lemma_multiset_has_no_duplicates();
    t.lemma_multiset_has_no_duplicates_conv();
    assert forall|i: int, j: int| 0 <= i < j < t.len() implies (#[trigger] t[i]).id != (
    #[trigger] t[j]).id by {
        assert(t.contains(t[i]));
        assert(t.contains(t[j]));
        assert(t.to_multiset().count(t[i]) > 0);
        assert(t.to_multiset().count(t[j]) > 0);
        assert(s.to_multiset().count(t[i]) > 0);
        assert(s.to_multiset().count(t[j]) > 0);
        assert(s.contains(t[i]));
        assert(s.contains(t[j]));
        let p = choose|p: int| 0 <= p < s.len() && s[p] == t[i];
        let q = choose|q: int| 0 <= q < s.len() && s[q] == t[j];
        assert(t[i] != t[j]);
        if p < q {
            assert(s[p].id != s[q].id);
        } else if q < p {
            assert(s[q].id != s[p].id);
        }
    }
}

proof fn lemma_ranked_strictly(s: Seq<ScoredView>)
    requires
        ranked_order(s),
        ids_distinct(s),
    ensures
        strictly_ranked(s),
{
    assert forall|i: int, j: int| 0 <= i < j < s.len() implies goes_before(
        #[trigger] s[i],
        #[trigger] s[j],
    ) by {
        assert(!goes_before(s[j], s[i]));
        assert(s[i].id != s[j].id);
        crate::text::lemma_lex_total(s[i].id, s[j].id);
    }
}

proof fn lemma_strictly_ranked_unique(a: Seq<ScoredView>, b: Seq<ScoredView>)
    requires
        a.to_multiset() == b.to_multiset(),
        strictly_ranked(a),
        strictly_ranked(b),
    ensures
        a == b,
    decreases a.len(),
{
    vstd::seq_lib::to_multiset_len(a);
    vstd::seq_lib::to_multiset_len(b);
    assert(a.len() == b.len());
    if a.len() > 0 {
        assert(a.contains(a[0]));
        assert(a.to_multiset().count(a[0]) > 0);
        assert(b.to_multiset().count(a[0]) > 0);
        assert(b.contains(a[0]));
        assert(b.contains(b[0]));
        assert(b.to_multiset().count(b[0]) > 0);
        assert(a.to_multiset().count(b[0]) > 0);
        assert(a.contains(b[0]));
        let k = choose|k: int| 0 <= k < b.len() && b[k] == a[0];
        let m = choose|m: int| 0 <= m < a.len() && a[m] == b[0];
        if a[0] != b[0] {
            assert(goes_before(b[0], b[k]));
            assert(goes_before(a[0], a[m]));
            lemma_goes_before_order(a[0], b[0], a[0]);
        }
        assert(a.remove(0) =~= a.drop_first());
        assert(b.remove(0) =~= b.drop_first());
        assert(a.drop_first().to_multiset() == b.drop_first().to_multiset());
        assert(strictly_ranked(a.drop_first())) by {
            assert forall|i: int, j: int| 0 <= i < j < a.drop_first().len() implies goes_before(
                #[trigger] a.drop_first()[i],
                #[trigger] a.drop_first()[j],
            ) by {
                assert(goes_before(a[i + 1], a[j + 1]));
            }
        }
        assert(strictly_ranked(b.drop_first())) by {
            assert forall|i: int, j: int| 0 <= i < j < b.drop_first().len() implies goes_before(
                #[trigger] b.drop_first()[i],
                #[trigger] b.drop_first()[j],
            ) by {
                assert(goes_before(b[i + 1], b[j + 1]));
            }
        }
        lemma_strictly_ranked_unique(a.drop_first(), b.drop_first());
        assert(a =~= b) by {
            assert forall|i: int| 0 <= i < a.len() implies a[i] == b[i] by {
                if i > 0 {
                    assert(a[i] == a.drop_first()[i - 1]);
                    assert(b[i] == b.drop_first()[i - 1]);
                }
            }
        }
    } else {
        assert(a =~= b);
    }
}

/// When no two items share an id, the ranking does not depend on the order
/// the items come in: any two orders of the same items rank alike.
pub proof fn lemma_rank_order_independent(s1: Seq<ScoredView>, s2: Seq<ScoredView>)
    requires
        s1.to_multiset() == s2.to_multiset(),
        ids_distinct(s1),
    ensures
        rank(s1) == rank(s2),
{
    lemma_rank_permutes(s1);
    lemma_rank_permutes(s2);
    lemma_rank_ordered(s1);
    lemma_rank_ordered(s2);
    lemma_ids_distinct_transfer(s1, rank(s1));
    lemma_ids_distinct_transfer(s1, rank(s2));
    lemma_ranked_strictly(rank(s1));
    lemma_ranked_strictly(rank(s2));
    lemma_strictly_ranked_unique(rank(s1), rank(s2));
}

} // verus!
