//! Checking a plan and analysing it into a report.

use vstd::prelude::*;
use crate::error::{Result, ShowcaseError};
use crate::model::{
    lemma_texts_push, scored_views, texts, AnalysisReport, PlanSummary, Priority, ScoredItem, ScoredView, WorkItem,
    WorkPlan, WorkState,
};
use crate::ranking::{
    ids_distinct, lemma_rank_order_independent, lemma_rank_ordered, lemma_rank_permutes, rank,
    rank_items, ranked_order,
};
use crate::scoring::{
    builtin_scorable, builtin_strategies, default_strategies, scorable, score_item, scored_view,
    ScoreStrategy,
};
use crate::tally::{tally_of, Tally};
use crate::text::{int_text, lex_lt, nat_text, push_int, push_nat};

verus! {

/// The ids of the items, in order.
pub open spec fn item_ids(items: Seq<WorkItem>) -> Seq<Seq<char>> {
    items.map_values(|it: WorkItem| it.id@)
}

/// The id at `j` already occurs before `j`.
pub open spec fn repeats_earlier(ids: Seq<Seq<char>>, j: int) -> bool {
    exists|i: int| 0 <= i < j && ids[i] == ids[j]
}

/// No id occurs twice.
pub open spec fn ids_unique(ids: Seq<Seq<char>>) -> bool {
    forall|j: int| 0 <= j < ids.len() ==> !repeats_earlier(ids, j)
}

/// `j` is the first position whose id occurs earlier.
pub open spec fn first_repeat(ids: Seq<Seq<char>>, j: int) -> bool {
    &&& 0 <= j < ids.len()
    &&& repeats_earlier(ids, j)
    &&& forall|i: int| 0 <= i < j ==> !repeats_earlier(ids, i)
}

/// Dependency `k` of item `j` names no item of the plan.
pub open spec fn dependency_missing(items: Seq<WorkItem>, j: int, k: int) -> bool {
    &&& 0 <= j < items.len()
    &&& 0 <= k < items[j].blocked_by@.len()
    &&& !item_ids(items).contains(items[j].blocked_by@[k]@)
}

/// Every dependency names an item of the plan.
pub open spec fn dependencies_resolved(items: Seq<WorkItem>) -> bool {
    forall|j: int, k: int| !dependency_missing(items, j, k)
}

/// Dependency `k` of item `j` is the first missing one, items in order and
/// each item's dependencies in order.
pub open spec fn first_missing(items: Seq<WorkItem>, j: int, k: int) -> bool {
    &&& dependency_missing(items, j, k)
    &&& forall|j2: int, k2: int|
        (j2 < j || (j2 == j && k2 < k)) ==> !dependency_missing(items, j2, k2)
}

/// A plan is valid when it has items, no id twice and no missing dependency.
pub open spec fn plan_is_valid(plan: WorkPlan) -> bool {
    &&& plan.items@.len() > 0
    &&& ids_unique(item_ids(plan.items@))
    &&& dependencies_resolved(plan.items@)
}

/// A plan is valid exactly when it has items, no two of its items share an
/// id, and each dependency of each item, whatever the item's state, is the
/// id of some item of the plan.
pub proof fn lemma_plan_validity(plan: WorkPlan)
    ensures
        plan_is_valid(plan) <==> {
            &&& plan.items@.len() > 0
            &&& forall|i: int, j: int|
                0 <= i < j < plan.items@.len() ==> (#[trigger] plan.items@[i]).id@ != (
                #[trigger] plan.items@[j]).id@
            &&& forall|j: int, k: int|
                0 <= j < plan.items@.len() && 0 <= k < plan.items@[j].blocked_by@.len() ==> exists|
                    i: int,
                |
                    0 <= i < plan.items@.len() && (#[trigger] plan.items@[i]).id@
                        == (#[trigger] plan.items@[j].blocked_by@[k])@
        },
{
    let items = plan.items@;
    let ids = item_ids(items);
    assert(ids_unique(ids) <==> forall|i: int, j: int|
        0 <= i < j < items.len() ==> (#[trigger] items[i]).id@ != (#[trigger] items[j]).id@) by {
        if ids_unique(ids) {
            assert forall|i: int, j: int| 0 <= i < j < items.len() implies (#[trigger] items[i]).id@
                != (#[trigger] items[j]).id@ by {
                assert(!repeats_earlier(ids, j));
                assert(ids[i] == items[i].id@);
            }
        }
        if forall|i: int, j: int|
            0 <= i < j < items.len() ==> (#[trigger] items[i]).id@ != (#[trigger] items[j]).id@ {
            assert forall|j: int| 0 <= j < ids.len() implies !repeats_earlier(ids, j) by {
                if repeats_earlier(ids, j) {
                    let i = choose|i: int| 0 <= i < j && ids[i] == ids[j];
                    assert(items[i].id@ != items[j].id@);
                }
            }
        }
    }
    assert forall|j: int, k: int| 0 <= j < items.len() && 0 <= k < items[j].blocked_by@.len()
        implies (ids.contains(items[j].blocked_by@[k]@) <==> exists|i: int|
        0 <= i < items.len() && (#[trigger] items[i]).id@ == (
        #[trigger] items[j].blocked_by@[k])@) by {
        if ids.contains(items[j].blocked_by@[k]@) {
            let i = choose|i: int| 0 <= i < ids.len() && ids[i] == items[j].blocked_by@[k]@;
            assert(items[i].id@ == ids[i]);
        }
        if exists|i: int|
            0 <= i < items.len() && (#[trigger] items[i]).id@ == (
            #[trigger] items[j].blocked_by@[k])@ {
            let i = choose|i: int|
                0 <= i < items.len() && (#[trigger] items[i]).id@ == (
                #[trigger] items[j].blocked_by@[k])@;
            assert(ids[i] == items[i].id@);
        }
    }
    if dependencies_resolved(items) {
        assert forall|j: int, k: int| 0 <= j < items.len() && 0 <= k < items[j].blocked_by@.len()
            implies exists|i: int|
            0 <= i < items.len() && (#[trigger] items[i]).id@ == (
            #[trigger] items[j].blocked_by@[k])@ by {
            assert(!dependency_missing(items, j, k));
        }
    }
    if forall|j: int, k: int|
        0 <= j < items.len() && 0 <= k < items[j].blocked_by@.len() ==> exists|i: int|
            0 <= i < items.len() && (#[trigger] items[i]).id@ == (
            #[trigger] items[j].blocked_by@[k])@ {
        assert forall|j: int, k: int| !dependency_missing(items, j, k) by {
            if 0 <= j < items.len() && 0 <= k < items[j].blocked_by@.len() {
                assert(exists|i: int|
                    0 <= i < items.len() && (#[trigger] items[i]).id@ == (
                    #[trigger] items[j].blocked_by@[k])@);
            }
        }
    }
}

/// Checks a plan: it has items, no id occurs twice, and every dependency
/// names an item. The first problem found is reported, in that order.
#[verifier::loop_isolation(false)]
pub fn validate_plan(plan: &WorkPlan) -> (r: Result<()>)
    ensures
        r is Ok <==> plan_is_valid(*plan),
        r is Ok <==> {
            &&& plan.items@.len() > 0
            &&& forall|i: int, j: int|
                0 <= i < j < plan.items@.len() ==> (#[trigger] plan.items@[i]).id@ != (
                #[trigger] plan.items@[j]).id@
            &&& forall|j: int, k: int|
                0 <= j < plan.items@.len() && 0 <= k < plan.items@[j].blocked_by@.len() ==> exists|
                    i: int,
                |
                    0 <= i < plan.items@.len() && (#[trigger] plan.items@[i]).id@
                        == (#[trigger] plan.items@[j].blocked_by@[k])@
        },
        match r {
            Ok(()) => plan_is_valid(*plan),
            Err(ShowcaseError::EmptyPlan) => plan.items@.len() == 0,
            Err(ShowcaseError::DuplicateItemId(id)) => plan.items@.len() > 0 && exists|j: int|
                first_repeat(item_ids(plan.items@), j) && id@ == item_ids(plan.items@)[j],
            Err(ShowcaseError::InvalidDependency { item_id, missing_id }) => {
                &&& plan.items@.len() > 0
                &&& ids_unique(item_ids(plan.items@))
                &&& exists|j: int, k: int|
                    first_missing(plan.items@, j, k) && item_id@ == plan.items@[j].id@
                        && missing_id@ == plan.items@[j].blocked_by@[k]@
            },
            Err(_) => false,
        },
{
    proof {
        lemma_plan_validity(*plan);
    }
    let items = &plan.items;
    let ghost ids = item_ids(items@);
    let n = items.len();
    if n == 0 {
        return Err(ShowcaseError::EmptyPlan);
    }
    let mut j: usize = 0;
    while j < n
        invariant
            n == items@.len(),
            ids == item_ids(items@),
            j <= n,
            forall|q: int| 0 <= q < j ==> !repeats_earlier(ids, q),
        decreases n - j,
    {
        let mut i: usize = 0;
        while i < j
            invariant
                n == items@.len(),
                ids == item_ids(items@),
                i <= j < n,
                forall|q: int| 0 <= q < i ==> ids[q] != ids[j as int],
            decreases j - i,
        {
            if items[i].id == items[j].id {
                assert(ids[i as int] == ids[j as int]);
                assert(repeats_earlier(ids, j as int));
                assert(first_repeat(ids, j as int));
                return Err(ShowcaseError::DuplicateItemId(items[j].id.clone()));
            }
            i = i + 1;
        }
        j = j + 1;
    }
    let mut j: usize = 0;
    while j < n
        invariant
            n == items@.len(),
            ids == item_ids(items@),
            ids_unique(ids),
            j <= n,
            forall|j2: int, k2: int| j2 < j ==> !dependency_missing(items@, j2, k2),
        decreases n - j,
    {
        let deps = &items[j].blocked_by;
        let m = deps.len();
        let mut k: usize = 0;
        while k < m
            invariant
                n == items@.len(),
                ids == item_ids(items@),
                j < n,
                deps@ == items@[j as int].blocked_by@,
                m == deps@.len(),
                k <= m,
                forall|j2: int, k2: int|
                    (j2 < j || (j2 == j && k2 < k)) ==> !dependency_missing(items@, j2, k2),
            decreases m - k,
        {
            let mut found = false;
            let mut i: usize = 0;
            while i < n
                invariant
                    n == items@.len(),
                    ids == item_ids(items@),
                    i <= n,
                    k < m,
                    deps@ == items@[j as int].blocked_by@,
                    found ==> ids.contains(deps@[k as int]@),
                    !found ==> forall|q: int| 0 <= q < i ==> ids[q] != deps@[k as int]@,
                decreases n - i,
            {
                if items[i].id == deps[k] {
                    assert(ids[i as int] == deps@[k as int]@);
                    found = true;
                }
                i = i + 1;
            }
            if !found {
                assert(dependency_missing(items@, j as int, k as int));
                assert(first_missing(items@, j as int, k as int));
                return Err(
                    ShowcaseError::InvalidDependency {
                        item_id: items[j].id.clone(),
                        missing_id: deps[k].clone(),
                    },
                );
            }
            k = k + 1;
        }
        j = j + 1;
    }
    Ok(())
}

} // verus!

verus! {

/// How many items are not done.
pub open spec fn count_open(items: Seq<WorkItem>) -> nat
    decreases items.len(),
{
    if items.len() == 0 {
        0
    } else {
        count_open(items.drop_last()) + if items.last().state != WorkState::Done {
            1nat
        } else {
            0nat
        }
    }
}

/// An item is blocked when its state says so or it has dependencies.
pub open spec fn is_blocked(item: WorkItem) -> bool {
    item.state == WorkState::Blocked || item.blocked_by@.len() > 0
}

/// How many items are blocked.
pub open spec fn count_blocked(items: Seq<WorkItem>) -> nat
    decreases items.len(),
{
    if items.len() == 0 {
        0
    } else {
        count_blocked(items.drop_last()) + if is_blocked(items.last()) {
            1nat
        } else {
            0nat
        }
    }
}

/// How many critical items have dependencies.
pub open spec fn count_critical_blocked(items: Seq<WorkItem>) -> nat
    decreases items.len(),
{
    if items.len() == 0 {
        0
    } else {
        count_critical_blocked(items.drop_last()) + if items.last().priority == Priority::Critical
            && items.last().blocked_by@.len() > 0 {
            1nat
        } else {
            0nat
        }
    }
}

/// The priority names of the items, in order.
pub open spec fn priority_keys(items: Seq<WorkItem>) -> Seq<Seq<char>> {
    items.map_values(|it: WorkItem| it.priority.name())
}

/// The owner an item is counted under: its owner, or `unassigned`.
pub open spec fn owner_key(item: WorkItem) -> Seq<char> {
    match item.owner {
        Some(o) => o@,
        None => "unassigned"@,
    }
}

/// The owner keys of the items, in order.
pub open spec fn owner_keys(items: Seq<WorkItem>) -> Seq<Seq<char>> {
    items.map_values(|it: WorkItem| owner_key(it))
}

/// All tags of all items, item after item.
pub open spec fn tag_keys(items: Seq<WorkItem>) -> Seq<Seq<char>>
    decreases items.len(),
{
    if items.len() == 0 {
        Seq::empty()
    } else {
        tag_keys(items.drop_last()) + texts(items.last().tags@)
    }
}

/// The tags counted are all tags of all items, item after item, each
/// item's tags in their order.
pub proof fn lemma_tag_keys(items: Seq<WorkItem>)
    ensures
        tag_keys(items) == items.map_values(|it: WorkItem| texts(it.tags@)).flatten(),
    decreases items.len(),
{
    let m = items.map_values(|it: WorkItem| texts(it.tags@));
    if items.len() > 0 {
        lemma_tag_keys(items.drop_last());
        assert(m.drop_last() =~= items.drop_last().map_values(|it: WorkItem| texts(it.tags@)));
        assert(m =~= m.drop_last().push(m.last()));
        m.drop_last().lemma_flatten_push(m.last());
    } else {
        assert(m =~= Seq::<Seq<Seq<char>>>::empty());
    }
}

/// `s` holds the counts over `items`; the counts per priority and per
/// owner add up to the number of items, those per tag to the number of tags.
pub open spec fn summarizes(s: PlanSummary, items: Seq<WorkItem>) -> bool {
    &&& s.by_priority.total() == items.len()
    &&& s.by_owner.total() == items.len()
    &&& s.tag_frequency.total() == tag_keys(items).len()
    &&& s.total_items == items.len()
    &&& s.open_items == count_open(items)
    &&& s.blocked_items == count_blocked(items)
    &&& s.by_priority@ == tally_of(priority_keys(items))
    &&& s.by_owner@ == tally_of(owner_keys(items))
    &&& s.tag_frequency@ == tally_of(tag_keys(items))
}

/// Counts how often each key occurs.
fn group_count_by(keys: &Vec<String>) -> (t: Tally)
    ensures
        t@ == tally_of(texts(keys@)),
        t.total() == keys@.len(),
{
    let mut t = Tally::new();
    let n = keys.len();
    let mut i: usize = 0;
    while i < n
        invariant
            n == keys@.len(),
            i <= n,
            t@ == tally_of(texts(keys@).take(i as int)),
            t.total() == i,
        decreases n - i,
    {
        let ghost prefix = texts(keys@).take(i as int);
        proof {
            crate::tally::lemma_tally_bounded(prefix, keys@[i as int]@);
        }
        t.increment(keys[i].clone());
        assert(texts(keys@).take(i + 1).drop_last() =~= prefix);
        i = i + 1;
    }
    assert(texts(keys@).take(n as int) =~= texts(keys@));
    t
}

/// Counts the items of a plan: in all, not done, blocked, and per
/// priority, owner and tag.
pub fn summarize(plan: &WorkPlan) -> (s: PlanSummary)
    ensures
        summarizes(s, plan.items@),
        s.open_items == plan.items@.filter(|it: WorkItem| it.state != WorkState::Done).len(),
        s.blocked_items == plan.items@.filter(
            |it: WorkItem| it.state == WorkState::Blocked || it.blocked_by@.len() > 0,
        ).len(),
{
    proof {
        lemma_counts_select(plan.items@);
    }
    let items = &plan.items;
    let n = items.len();
    let mut priorities: Vec<String> = Vec::new();
    let mut owners: Vec<String> = Vec::new();
    let mut tags: Vec<String> = Vec::new();
    let mut open_items: usize = 0;
    let mut blocked_items: usize = 0;
    let mut i: usize = 0;
    while i < n
        invariant
            n == items@.len(),
            i <= n,
            texts(priorities@) == priority_keys(items@.take(i as int)),
            texts(owners@) == owner_keys(items@.take(i as int)),
            texts(tags@) == tag_keys(items@.take(i as int)),
            priorities@.len() == i,
            owners@.len() == i,
            open_items == count_open(items@.take(i as int)),
            blocked_items == count_blocked(items@.take(i as int)),
            open_items <= i,
            blocked_items <= i,
        decreases n - i,
    {
        let item = &items[i];
        let ghost prefix = items@.take(i as int);
        assert(items@.take(i + 1).drop_last() =~= prefix);
        assert(items@.take(i + 1).last() == *item);
        let ghost before_p = priorities@;
        let p = item.priority.to_string();
        priorities.push(p);
        proof {
            lemma_texts_push(before_p, p);
            assert(priority_keys(items@.take(i + 1)) =~= priority_keys(prefix).push(item.priority.name()));
        }
        let ghost before_o = owners@;
        let owner = match &item.owner {
            Some(o) => o.clone(),
            None => String::from_str("unassigned"),
        };
        assert(owner@ == owner_key(*item)) by {
            reveal_strlit("unassigned");
        }
        owners.push(owner);
        proof {
            lemma_texts_push(before_o, owner);
            assert(owner_keys(items@.take(i + 1)) =~= owner_keys(prefix).push(owner_key(*item)));
        }
        let m = item.tags.len();
        let ghost tags_before = tags@;
        let mut k: usize = 0;
        while k < m
            invariant
                m == item.tags@.len(),
                k <= m,
                texts(tags@) == texts(tags_before) + texts(item.tags@).take(k as int),
            decreases m - k,
        {
            let ghost before_t = tags@;
            let t = item.tags[k].clone();
            tags.push(t);
            proof {
                lemma_texts_push(before_t, t);
                assert(texts(item.tags@).take(k + 1) =~= texts(item.tags@).take(k as int).push(t@));
            }
            assert(texts(tags@) =~= texts(tags_before) + texts(item.tags@).take(k + 1));
            k = k + 1;
        }
        assert(texts(item.tags@).take(m as int) =~= texts(item.tags@));
        if item.state != WorkState::Done {
            open_items = open_items + 1;
        }
        if item.state == WorkState::Blocked || item.blocked_by.len() > 0 {
            blocked_items = blocked_items + 1;
        }
        i = i + 1;
    }
    assert(items@.take(n as int) =~= items@);
    PlanSummary {
        total_items: n,
        open_items,
        blocked_items,
        by_priority: group_count_by(&priorities),
        by_owner: group_count_by(&owners),
        tag_frequency: group_count_by(&tags),
    }
}

/// The warnings of a report: blocked critical items, if any, then the
/// highest ranked item, if any.
pub open spec fn warning_texts(items: Seq<WorkItem>, ranked: Seq<ScoredView>) -> Seq<Seq<char>> {
    (if count_critical_blocked(items) > 0 {
        seq![
            nat_text(count_critical_blocked(items)) + " critical items are blocked by unresolved dependencies"@,
        ]
    } else {
        Seq::empty()
    }) + (if ranked.len() > 0 {
        seq!["highest ranked item is '"@ + ranked[0].id + "' with score "@ + int_text(ranked[0].score)]
    } else {
        Seq::empty()
    })
}

/// Builds the warnings of a report.
pub fn build_warnings(plan: &WorkPlan, ranked_items: &[ScoredItem]) -> (w: Vec<String>)
    ensures
        texts(w@) == warning_texts(plan.items@, scored_views(ranked_items@)),
{
    let items = &plan.items;
    let n = items.len();
    let mut critical_blocked: usize = 0;
    let mut i: usize = 0;
    while i < n
        invariant
            n == items@.len(),
            i <= n,
            critical_blocked == count_critical_blocked(items@.take(i as int)),
            critical_blocked <= i,
        decreases n - i,
    {
        assert(items@.take(i + 1).drop_last() =~= items@.take(i as int));
        if items[i].priority == Priority::Critical && items[i].blocked_by.len() > 0 {
            critical_blocked = critical_blocked + 1;
        }
        i = i + 1;
    }
    assert(items@.take(n as int) =~= items@);
    let mut warnings: Vec<String> = Vec::new();
    if critical_blocked > 0 {
        let mut w = String::new();
        push_nat(&mut w, critical_blocked as u64);
        w.append(" critical items are blocked by unresolved dependencies");
        warnings.push(w);
    }
    if ranked_items.len() > 0 {
        let top = &ranked_items[0];
        let mut w = String::from_str("highest ranked item is '");
        w.append(top.id.as_str());
        w.append("' with score ");
        push_int(&mut w, top.score as i64);
        assert(scored_views(ranked_items@)[0] == top@);
        warnings.push(w);
    }
    assert(texts(warnings@) =~= warning_texts(items@, scored_views(ranked_items@)));
    warnings
}

/// Scores every item with the given strategies, in order.
pub fn score_items<S: ScoreStrategy>(items: &Vec<WorkItem>, strategies: &[S]) -> (r: Vec<ScoredItem>)
    requires
        forall|i: int| 0 <= i < items@.len() ==> scorable(strategies@, #[trigger] items@[i]),
    ensures
        scored_views(r@) == items@.map_values(|it: WorkItem| scored_view(it, strategies@)),
{
    let n = items.len();
    let mut r: Vec<ScoredItem> = Vec::new();
    let mut i: usize = 0;
    while i < n
        invariant
            n == items@.len(),
            i <= n,
            forall|q: int| 0 <= q < items@.len() ==> scorable(strategies@, #[trigger] items@[q]),
            scored_views(r@) == items@.take(i as int).map_values(
                |it: WorkItem| scored_view(it, strategies@),
            ),
        decreases n - i,
    {
        let s = score_item(&items[i], strategies);
        let ghost before = r@;
        r.push(s);
        assert(scored_views(r@) =~= scored_views(before).push(s@));
        assert(items@.take(i + 1).map_values(|it: WorkItem| scored_view(it, strategies@))
            =~= items@.take(i as int).map_values(|it: WorkItem| scored_view(it, strategies@)).push(
            scored_view(items@[i as int], strategies@),
        ));
        assert(scored_views(r@) =~= items@.take(i + 1).map_values(
            |it: WorkItem| scored_view(it, strategies@),
        ));
        i = i + 1;
    }
    assert(items@.take(n as int) =~= items@);
    r
}

/// The ranking an analysis gives the items of a plan.
pub open spec fn ranking_of(items: Seq<WorkItem>) -> Seq<ScoredView> {
    rank(builtin_scored(items))
}

/// Every item can be scored by the built-in strategies without leaving the
/// range of `i32`.
pub open spec fn plan_scorable(plan: WorkPlan) -> bool {
    forall|i: int| 0 <= i < plan.items@.len() ==> scorable(builtin_strategies(), #[trigger] plan.items@[i])
}

/// The scored views of the items under the built-in strategies, in order.
pub open spec fn builtin_scored(items: Seq<WorkItem>) -> Seq<ScoredView> {
    items.map_values(|it: WorkItem| scored_view(it, builtin_strategies()))
}

/// Analyses a plan: scores and ranks its items, counts them, and warns of
/// blocked critical items and names the highest ranked one. Scoring fails,
/// as a worker that overflows `i32` does, when some item's score does not
/// fit in an `i32`.
pub fn analyze_plan(plan: &WorkPlan) -> (r: Result<AnalysisReport>)
    ensures
        match r {
            Ok(report) => {
                &&& plan_scorable(*plan)
                &&& report.plan_name@ == plan.name@
                &&& report.created_by@ == plan.created_by@
                &&& report.item_count == plan.items@.len()
                &&& scored_views(report.ranked_items@) == ranking_of(plan.items@)
                &&& report.ranked_items@.len() == report.item_count
                &&& ranked_order(scored_views(report.ranked_items@))
                &&& forall|i: int, j: int|
                    0 <= i < j < report.ranked_items@.len() ==> (#[trigger] report.ranked_items@[i]).score
                        >= (#[trigger] report.ranked_items@[j]).score && (report.ranked_items@[i].score
                        == report.ranked_items@[j].score ==> !lex_lt(
                        report.ranked_items@[j].id@,
                        report.ranked_items@[i].id@,
                    ))
                &&& scored_views(report.ranked_items@).to_multiset() == builtin_scored(
                    plan.items@,
                ).to_multiset()
                &&& summarizes(report.summary, plan.items@)
                &&& texts(report.warnings@) == warning_texts(plan.items@, ranking_of(plan.items@))
            },
            Err(e) => !plan_scorable(*plan) && e matches ShowcaseError::WorkerPanic,
        },
{
    if !can_analyze(plan) {
        return Err(ShowcaseError::WorkerPanic);
    }
    let strategies = default_strategies();
    let scored = score_items(&plan.items, strategies.as_slice());
    let ranked_items = rank_items(scored);
    proof {
        lemma_rank_permutes(builtin_scored(plan.items@));
        lemma_rank_ordered(builtin_scored(plan.items@));
    }
    Ok(report_from_ranking(plan, ranked_items))
}

/// Builds the report of a plan around its items already scored and ranked:
/// the plan's name and author, the number of items, the summary and the
/// warnings.
pub fn report_from_ranking(plan: &WorkPlan, ranked_items: Vec<ScoredItem>) -> (report: AnalysisReport)
    ensures
        report.plan_name@ == plan.name@,
        report.created_by@ == plan.created_by@,
        report.item_count == plan.items@.len(),
        report.ranked_items@ == ranked_items@,
        summarizes(report.summary, plan.items@),
        texts(report.warnings@) == warning_texts(plan.items@, scored_views(ranked_items@)),
{
    let summary = summarize(plan);
    let warnings = build_warnings(plan, ranked_items.as_slice());
    AnalysisReport {
        plan_name: plan.name.clone(),
        created_by: plan.created_by.clone(),
        item_count: plan.items.len(),
        ranked_items,
        summary,
        warnings,
    }
}

} // verus!

verus! {

/// Whether every item of the plan can be scored by the built-in strategies
/// within the range of `i32`, which `analyze_plan` needs.
pub fn can_analyze(plan: &WorkPlan) -> (r: bool)
    ensures
        r == plan_scorable(*plan),
{
    let n = plan.items.len();
    let mut i: usize = 0;
    while i < n
        invariant
            n == plan.items@.len(),
            i <= n,
            forall|q: int| 0 <= q < i ==> scorable(builtin_strategies(), #[trigger] plan.items@[q]),
        decreases n - i,
    {
        if !builtin_scorable(&plan.items[i]) {
            return false;
        }
        i = i + 1;
    }
    true
}

/// The open items are those whose state is anything but done; the blocked
/// ones those in the blocked state or with a dependency; the critical blocked
/// ones those of critical priority with a dependency.
pub proof fn lemma_counts_select(items: Seq<WorkItem>)
    ensures
        count_open(items) == items.filter(|it: WorkItem| it.state != WorkState::Done).len(),
        count_blocked(items) == items.filter(
            |it: WorkItem| it.state == WorkState::Blocked || it.blocked_by@.len() > 0,
        ).len(),
        count_critical_blocked(items) == items.filter(
            |it: WorkItem| it.priority == Priority::Critical && it.blocked_by@.len() > 0,
        ).len(),
    decreases items.len(),
{
    reveal_with_fuel(Seq::<_>::filter, 1);
    if items.len() > 0 {
        lemma_counts_select(items.drop_last());
    }
}

/// The counts of a summary never exceed the number of items.
pub proof fn lemma_counts_bounded(items: Seq<WorkItem>)
    ensures
        count_open(items) <= items.len(),
        count_blocked(items) <= items.len(),
        count_critical_blocked(items) <= count_blocked(items),
    decreases items.len(),
{
    if items.len() > 0 {
        lemma_counts_bounded(items.drop_last());
    }
}

} // verus!

verus! {

proof fn lemma_map_values_multiset<A, B>(s: Seq<A>, t: Seq<A>, f: spec_fn(A) -> B)
    requires
        s.to_multiset() == t.to_multiset(),
    ensures
        s.map_values(f).to_multiset() == t.map_values(f).to_multiset(),
    decreases s.len(),
{
    broadcast use vstd::seq_lib::group_to_multiset_ensures;
    broadcast use vstd::multiset::group_multiset_axioms;

    vstd::seq_lib::to_multiset_len(s);
    vstd::seq_lib::to_multiset_len(t);
    if s.len() == 0 {
        assert(s.map_values(f) =~= t.map_values(f));
    } else {
        let x = s.last();
        assert(s.contains(x));
        assert(s.to_multiset().count(x) > 0);
        assert(t.to_multiset().count(x) > 0);
        assert(t.contains(x));
        let k = choose|k: int| 0 <= k < t.len() && t[k] == x;
        assert(s.drop_last().push(x) =~= s);
        assert(s.drop_last().to_multiset() =~= s.to_multiset().remove(x));
        assert(t.remove(k).to_multiset() == t.to_multiset().remove(x));
        lemma_map_values_multiset(s.drop_last(), t.remove(k), f);
        assert(s.map_values(f) =~= s.drop_last().map_values(f).push(f(x)));
        let tm = t.map_values(f);
        assert(tm.remove(k) =~= t.remove(k).map_values(f));
        assert(tm[k] == f(x));
        assert(tm.remove(k).to_multiset() == tm.to_multiset().remove(f(x)));
        assert(tm.contains(f(x)));
        assert(tm.to_multiset().count(f(x)) > 0);
        assert(tm.to_multiset() =~= tm.to_multiset().remove(f(x)).insert(f(x)));
    }
}

/// Scoring a list of items split in two scores each part as it would be
/// scored alone: chunks scored apart and put back in order give the scores
/// of the whole list.
pub proof fn lemma_scoring_chunks(items1: Seq<WorkItem>, items2: Seq<WorkItem>)
    ensures
        builtin_scored(items1 + items2) == builtin_scored(items1) + builtin_scored(items2),
{
    assert(builtin_scored(items1 + items2) =~= builtin_scored(items1) + builtin_scored(items2));
}

/// When no two items share an id, the ranking of a plan's items does not
/// depend on the order they come in.
pub proof fn lemma_ranking_order_independent(items1: Seq<WorkItem>, items2: Seq<WorkItem>)
    requires
        items1.to_multiset() == items2.to_multiset(),
        ids_unique(item_ids(items1)),
    ensures
        ranking_of(items1) == ranking_of(items2),
{
    let f = |it: WorkItem| scored_view(it, builtin_strategies());
    lemma_map_values_multiset(items1, items2, f);
    let s1 = builtin_scored(items1);
    assert(s1 == items1.map_values(f));
    assert(builtin_scored(items2) == items2.map_values(f));
    assert(ids_distinct(s1)) by {
        assert forall|i: int, j: int| 0 <= i < j < s1.len() implies (#[trigger] s1[i]).id != (
        #[trigger] s1[j]).id by {
            assert(item_ids(items1)[i] == s1[i].id);
            assert(item_ids(items1)[j] == s1[j].id);
            assert(!repeats_earlier(item_ids(items1), j));
        }
    }
    lemma_rank_order_independent(s1, builtin_scored(items2));
}

} // verus!
