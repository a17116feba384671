//! Scoring strategies and the score of a work item under a list of them.

use vstd::prelude::*;
use crate::model::{opt_text, texts, ScoredItem, ScoredView, WorkItem, WorkState};
use crate::text::{int_text, push_int};

verus! {

/// A rule that contributes part of an item's score.
pub trait ScoreStrategy: Send + Sync {
    /// The label the strategy gives its part in the reasons.
    spec fn spec_label(&self) -> Seq<char>;

    /// The items the strategy can score without leaving the range of `i32`.
    spec fn spec_accepts(&self, item: WorkItem) -> bool;

    /// The part of the score the strategy gives `item`.
    spec fn spec_score(&self, item: WorkItem) -> int;

    fn label(&self) -> (l: &'static str)
        ensures
            l@ == self.spec_label(),
    ;

    fn score(&self, item: &WorkItem) -> (s: i32)
        requires
            self.spec_accepts(*item),
        ensures
            s as int == self.spec_score(*item),
    ;
}

/// Scores by priority: three times its weight.
#[derive(Clone, Copy, Debug)]
pub struct PriorityStrategy;

/// Scores by state: twice its weight.
#[derive(Clone, Copy, Debug)]
pub struct StateStrategy;

/// Scores by size: small estimates score higher.
#[derive(Clone, Copy, Debug)]
pub struct SizeStrategy;

/// Penalises dependencies and the blocked state.
#[derive(Clone, Copy, Debug)]
pub struct DependencyStrategy;

/// The score by size of an estimate in hours.
pub open spec fn size_score(hours: u32) -> int {
    if hours <= 4 {
        8
    } else if hours <= 12 {
        5
    } else if hours <= 24 {
        2
    } else {
        -2
    }
}

/// The penalty for a blocked item: 6, or 0 for any other state.
pub open spec fn blocked_penalty(item: WorkItem) -> int {
    if item.state == WorkState::Blocked {
        6
    } else {
        0
    }
}

/// The dependency penalty of an item, before it is negated: four per
/// dependency, plus the blocked penalty.
pub open spec fn dependency_penalty(item: WorkItem) -> int {
    item.blocked_by@.len() * 4 + blocked_penalty(item)
}

/// The dependency score of an item: its penalty, negated.
pub open spec fn dependency_score(item: WorkItem) -> int {
    -dependency_penalty(item)
}

/// The most dependencies whose penalty of four each can fit in an `i32`.
pub const MAX_DEPENDENCIES: usize = 536870911;

impl ScoreStrategy for PriorityStrategy {
    open spec fn spec_label(&self) -> Seq<char> {
        "priority"@
    }

    open spec fn spec_accepts(&self, item: WorkItem) -> bool {
        true
    }

    open spec fn spec_score(&self, item: WorkItem) -> int {
        item.priority.spec_weight() * 3
    }

    fn label(&self) -> (l: &'static str) {
        "priority"
    }

    fn score(&self, item: &WorkItem) -> (s: i32) {
        item.priority.weight() * 3
    }
}

impl ScoreStrategy for StateStrategy {
    open spec fn spec_label(&self) -> Seq<char> {
        "state"@
    }

    open spec fn spec_accepts(&self, item: WorkItem) -> bool {
        true
    }

    open spec fn spec_score(&self, item: WorkItem) -> int {
        item.state.spec_weight() * 2
    }

    fn label(&self) -> (l: &'static str) {
        "state"
    }

    fn score(&self, item: &WorkItem) -> (s: i32) {
        item.state.weight() * 2
    }
}

impl ScoreStrategy for SizeStrategy {
    open spec fn spec_label(&self) -> Seq<char> {
        "size"@
    }

    open spec fn spec_accepts(&self, item: WorkItem) -> bool {
        true
    }

    open spec fn spec_score(&self, item: WorkItem) -> int {
        size_score(item.estimate_hours)
    }

    fn label(&self) -> (l: &'static str) {
        "size"
    }

    fn score(&self, item: &WorkItem) -> (s: i32) {
        if item.estimate_hours <= 4 {
            8
        } else if item.estimate_hours <= 12 {
            5
        } else if item.estimate_hours <= 24 {
            2
        } else {
            -2
        }
    }
}

impl ScoreStrategy for DependencyStrategy {
    open spec fn spec_label(&self) -> Seq<char> {
        "dependencies"@
    }

    open spec fn spec_accepts(&self, item: WorkItem) -> bool {
        dependency_penalty(item) <= i32::MAX
    }

    open spec fn spec_score(&self, item: WorkItem) -> int {
        dependency_score(item)
    }

    fn label(&self) -> (l: &'static str) {
        "dependencies"
    }

    fn score(&self, item: &WorkItem) -> (s: i32)
        ensures
            s == -(item.blocked_by@.len() * 4 + if item.state == WorkState::Blocked {
                6int
            } else {
                0int
            }),
    {
        let dependency_penalty = (item.blocked_by.len() as i32) * 4;
        let blocked_penalty: i32 = if item.state == WorkState::Blocked {
            6
        } else {
            0
        };
        -(dependency_penalty + blocked_penalty)
    }
}

/// One of the four strategies that come with the library.
#[derive(Clone, Copy, Debug)]
pub enum BuiltinStrategy {
    Priority(PriorityStrategy),
    State(StateStrategy),
    Size(SizeStrategy),
    Dependency(DependencyStrategy),
}

impl ScoreStrategy for BuiltinStrategy {
    open spec fn spec_label(&self) -> Seq<char> {
        match self {
            BuiltinStrategy::Priority(s) => s.spec_label(),
            BuiltinStrategy::State(s) => s.spec_label(),
            BuiltinStrategy::Size(s) => s.spec_label(),
            BuiltinStrategy::Dependency(s) => s.spec_label(),
        }
    }

    open spec fn spec_accepts(&self, item: WorkItem) -> bool {
        match self {
            BuiltinStrategy::Priority(s) => s.spec_accepts(item),
            BuiltinStrategy::State(s) => s.spec_accepts(item),
            BuiltinStrategy::Size(s) => s.spec_accepts(item),
            BuiltinStrategy::Dependency(s) => s.spec_accepts(item),
        }
    }

    open spec fn spec_score(&self, item: WorkItem) -> int {
        match self {
            BuiltinStrategy::Priority(s) => s.spec_score(item),
            BuiltinStrategy::State(s) => s.spec_score(item),
            BuiltinStrategy::Size(s) => s.spec_score(item),
            BuiltinStrategy::Dependency(s) => s.spec_score(item),
        }
    }

    fn label(&self) -> (l: &'static str) {
        match self {
            BuiltinStrategy::Priority(s) => s.label(),
            BuiltinStrategy::State(s) => s.label(),
            BuiltinStrategy::Size(s) => s.label(),
            BuiltinStrategy::Dependency(s) => s.label(),
        }
    }

    fn score(&self, item: &WorkItem) -> (s: i32) {
        match self {
            BuiltinStrategy::Priority(s) => s.score(item),
            BuiltinStrategy::State(s) => s.score(item),
            BuiltinStrategy::Size(s) => s.score(item),
            BuiltinStrategy::Dependency(s) => s.score(item),
        }
    }
}

/// The strategies the analysis of a plan uses, in the order they are applied.
pub open spec fn builtin_strategies() -> Seq<BuiltinStrategy> {
    seq![
        BuiltinStrategy::Priority(PriorityStrategy),
        BuiltinStrategy::State(StateStrategy),
        BuiltinStrategy::Size(SizeStrategy),
        BuiltinStrategy::Dependency(DependencyStrategy),
    ]
}

/// The priority, state, size and dependency strategies, in that order.
pub fn default_strategies() -> (v: Vec<BuiltinStrategy>)
    ensures
        v@ == builtin_strategies(),
{
    let mut v: Vec<BuiltinStrategy> = Vec::new();
    v.push(BuiltinStrategy::Priority(PriorityStrategy));
    v.push(BuiltinStrategy::State(StateStrategy));
    v.push(BuiltinStrategy::Size(SizeStrategy));
    v.push(BuiltinStrategy::Dependency(DependencyStrategy));
    assert(v@ =~= builtin_strategies());
    v
}

/// The sum of the parts the strategies give `item`.
pub open spec fn total_score<S: ScoreStrategy>(strategies: Seq<S>, item: WorkItem) -> int
    decreases strategies.len(),
{
    if strategies.len() == 0 {
        0
    } else {
        total_score(strategies.drop_last(), item) + strategies.last().spec_score(item)
    }
}

/// Every strategy accepts `item` and every running total of their parts
/// fits in an `i32`.
pub open spec fn scorable<S: ScoreStrategy>(strategies: Seq<S>, item: WorkItem) -> bool {
    &&& forall|i: int| 0 <= i < strategies.len() ==> #[trigger] strategies[i].spec_accepts(item)
    &&& forall|k: int|
        0 <= k <= strategies.len() ==> i32::MIN <= #[trigger] total_score(strategies.take(k), item)
            <= i32::MAX
}

/// The reason a strategy gives: its label, `=`, and its part in decimal.
pub open spec fn reason_of<S: ScoreStrategy>(strategy: S, item: WorkItem) -> Seq<char> {
    strategy.spec_label() + "="@ + int_text(strategy.spec_score(item))
}

/// What scoring `item` with `strategies` gives.
pub open spec fn scored_view<S: ScoreStrategy>(item: WorkItem, strategies: Seq<S>) -> ScoredView {
    ScoredView {
        id: item.id@,
        title: item.title@,
        owner: opt_text(item.owner),
        priority: item.priority,
        state: item.state,
        score: total_score(strategies, item),
        reasons: strategies.map_values(|s: S| reason_of(s, item)),
        tags: texts(item.tags@),
    }
}

fn clone_texts(v: &Vec<String>) -> (r: Vec<String>)
    ensures
        texts(r@) == texts(v@),
{
    let r = v.clone();
    assert(texts(r@) =~= texts(v@));
    r
}

/// Scores `item`: the sum of the strategies' parts, with one reason per
/// strategy in the order given.
pub fn score_item<S: ScoreStrategy>(item: &WorkItem, strategies: &[S]) -> (r: ScoredItem)
    requires
        scorable(strategies@, *item),
    ensures
        r@ == scored_view(*item, strategies@),
{
    let mut score: i32 = 0;
    let mut reasons: Vec<String> = Vec::new();
    let n = strategies.len();
    let mut i: usize = 0;
    while i < n
        invariant
            n == strategies@.len(),
            0 <= i <= n,
            scorable(strategies@, *item),
            score as int == total_score(strategies@.take(i as int), *item),
            texts(reasons@) == strategies@.take(i as int).map_values(|s: S| reason_of(s, *item)),
        decreases n - i,
    {
        let strategy = &strategies[i];
        assert(strategy.spec_accepts(*item));
        let partial = strategy.score(item);
        assert(strategies@.take(i + 1).drop_last() =~= strategies@.take(i as int));
        assert(total_score(strategies@.take(i + 1), *item) == score + partial);
        score = score + partial;
        let mut reason = String::from_str(strategy.label());
        reason.append("=");
        push_int(&mut reason, partial as i64);
        assert(reason@ == reason_of(strategies@[i as int], *item));
        let ghost before = reasons@;
        reasons.push(reason);
        assert(texts(reasons@) =~= texts(before).push(reason@));
        assert(texts(reasons@) =~= strategies@.take(i + 1).map_values(|s: S| reason_of(s, *item)));
        i = i + 1;
    }
    assert(strategies@.take(n as int) =~= strategies@);
    let owner = match &item.owner {
        Some(o) => Some(o.clone()),
        None => None,
    };
    ScoredItem {
        id: item.id.clone(),
        title: item.title.clone(),
        owner,
        priority: item.priority,
        state: item.state,
        score,
        reasons,
        tags: clone_texts(&item.tags),
    }
}

} // verus!

verus! {

/// The running totals of the built-in strategies on `item`: after the
/// priority, state, size and dependency parts in turn.
proof fn lemma_builtin_running_totals(item: WorkItem)
    ensures
        total_score(builtin_strategies().take(0), item) == 0,
        total_score(builtin_strategies().take(1), item) == item.priority.spec_weight() * 3,
        total_score(builtin_strategies().take(2), item) == item.priority.spec_weight() * 3
            + item.state.spec_weight() * 2,
        total_score(builtin_strategies().take(3), item) == item.priority.spec_weight() * 3
            + item.state.spec_weight() * 2 + size_score(item.estimate_hours),
        total_score(builtin_strategies().take(4), item) == item.priority.spec_weight() * 3
            + item.state.spec_weight() * 2 + size_score(item.estimate_hours) + dependency_score(item),
{
    let s = builtin_strategies();
    let w1 = item.priority.spec_weight() * 3;
    let w2 = w1 + item.state.spec_weight() * 2;
    let w3 = w2 + size_score(item.estimate_hours);
    assert(s.take(0).len() == 0);
    assert(total_score(s.take(0), item) == 0);
    assert(s.take(1).drop_last() =~= s.take(0));
    assert(s.take(1).last().spec_score(item) == item.priority.spec_weight() * 3);
    assert(total_score(s.take(1), item) == w1);
    assert(s.take(2).drop_last() =~= s.take(1));
    assert(s.take(2).last().spec_score(item) == item.state.spec_weight() * 2);
    assert(total_score(s.take(2), item) == w2);
    assert(s.take(3).drop_last() =~= s.take(2));
    assert(s.take(3).last().spec_score(item) == size_score(item.estimate_hours));
    assert(total_score(s.take(3), item) == w3);
    assert(s.take(4).drop_last() =~= s.take(3));
    assert(s.take(4).last().spec_score(item) == dependency_score(item));
    assert(total_score(s.take(4), item) == w3 + dependency_score(item));
}

/// The built-in score of an item: three times its priority weight, twice
/// its state weight, its size score and its dependency penalty.
pub proof fn lemma_builtin_score(item: WorkItem)
    ensures
        total_score(builtin_strategies(), item) == item.priority.spec_weight() * 3
            + item.state.spec_weight() * 2 + size_score(item.estimate_hours) + dependency_score(item),
{
    lemma_builtin_running_totals(item);
    assert(builtin_strategies().take(4) =~= builtin_strategies());
}

/// The dependency part of an item's score is minus four per dependency,
/// minus six more when the item is blocked, whether or not it has
/// dependencies; the built-in score adds it to the other three parts.
pub proof fn lemma_dependency_part(item: WorkItem)
    ensures
        DependencyStrategy.spec_score(item) == -(item.blocked_by@.len() * 4 + if item.state
            == WorkState::Blocked {
            6int
        } else {
            0int
        }),
        item.state == WorkState::Blocked ==> DependencyStrategy.spec_score(item) <= -6,
        total_score(builtin_strategies(), item) == item.priority.spec_weight() * 3
            + item.state.spec_weight() * 2 + size_score(item.estimate_hours) - item.blocked_by@.len()
            * 4 - if item.state == WorkState::Blocked {
            6int
        } else {
            0int
        },
{
    lemma_builtin_score(item);
}

/// Of two items that differ only in priority, the built-in score of the one
/// with the heavier priority is higher, by three times the difference in weight.
pub proof fn lemma_priority_raises_score(a: WorkItem, b: WorkItem)
    requires
        a.state == b.state,
        a.estimate_hours == b.estimate_hours,
        a.blocked_by@.len() == b.blocked_by@.len(),
    ensures
        total_score(builtin_strategies(), a) - total_score(builtin_strategies(), b) == 3 * (
        a.priority.spec_weight() - b.priority.spec_weight()),
        a.priority.spec_weight() > b.priority.spec_weight() ==> total_score(builtin_strategies(), a)
            > total_score(builtin_strategies(), b),
{
    lemma_builtin_score(a);
    lemma_builtin_score(b);
}

/// Whether the built-in strategies can score `item` within the range of `i32`.
pub fn builtin_scorable(item: &WorkItem) -> (r: bool)
    ensures
        r == scorable(builtin_strategies(), *item),
{
    proof {
        lemma_builtin_running_totals(*item);
        assert(builtin_strategies().take(4) =~= builtin_strategies());
    }
    if item.blocked_by.len() > MAX_DEPENDENCIES {
        assert(!builtin_strategies()[3].spec_accepts(*item));
        return false;
    }
    let blocked: i64 = if item.state == WorkState::Blocked {
        6
    } else {
        0
    };
    let penalty: i64 = (item.blocked_by.len() as i64) * 4 + blocked;
    if penalty > i32::MAX as i64 {
        assert(!builtin_strategies()[3].spec_accepts(*item));
        return false;
    }
    let size: i64 = if item.estimate_hours <= 4 {
        8
    } else if item.estimate_hours <= 12 {
        5
    } else if item.estimate_hours <= 24 {
        2
    } else {
        -2
    };
    let total: i64 = (item.priority.weight() as i64) * 3 + (item.state.weight() as i64) * 2 + size
        - penalty;
    let r = total >= i32::MIN as i64;
    proof {
        let s = builtin_strategies();
        if r {
            assert forall|k: int| 0 <= k <= s.len() implies i32::MIN <= #[trigger] total_score(
                s.take(k),
                *item,
            ) <= i32::MAX by {
                assert(0 <= k <= 4);
            }
        } else {
            assert(total_score(s.take(4), *item) < i32::MIN);
        }
    }
    r
}

} // verus!

verus! {

/// Scoring with two lists of strategies one after the other: the score is
/// the sum of the two scores and the reasons are the first list's reasons
/// followed by the second's. With no strategies the score is 0 and there are
/// no reasons.
pub proof fn lemma_scoring_concat<S: ScoreStrategy>(item: WorkItem, s1: Seq<S>, s2: Seq<S>)
    ensures
        scored_view(item, s1 + s2).score == scored_view(item, s1).score + scored_view(item, s2).score,
        scored_view(item, s1 + s2).reasons == scored_view(item, s1).reasons + scored_view(
            item,
            s2,
        ).reasons,
        scored_view(item, Seq::<S>::empty()).score == 0,
        scored_view(item, Seq::<S>::empty()).reasons == Seq::<Seq<char>>::empty(),
    decreases s2.len(),
{
    assert(scored_view(item, Seq::<S>::empty()).reasons =~= Seq::<Seq<char>>::empty());
    assert(scored_view(item, s1 + s2).reasons =~= scored_view(item, s1).reasons + scored_view(
        item,
        s2,
    ).reasons);
    if s2.len() == 0 {
        assert(s1 + s2 =~= s1);
    } else {
        lemma_scoring_concat(item, s1, s2.drop_last());
        assert((s1 + s2).drop_last() =~= s1 + s2.drop_last());
    }
}

} // verus!
