//! The data of a work plan and of the report made from it.

use vstd::prelude::*;
use crate::tally::Tally;

verus! {

/// How urgent a work item is.
#[derive(Clone, Copy, Debug, PartialEq, Eq, Structural)]
pub enum Priority {
    Low,
    Medium,
    High,
    Critical,
}

impl Priority {
    /// The weight of a priority in scoring.
    pub open spec fn spec_weight(self) -> int {
        match self {
            Priority::Low => 1,
            Priority::Medium => 3,
            Priority::High => 6,
            Priority::Critical => 10,
        }
    }

    /// The lower-case name of a priority.
    pub open spec fn name(self) -> Seq<char> {
        match self {
            Priority::Low => "low"@,
            Priority::Medium => "medium"@,
            Priority::High => "high"@,
            Priority::Critical => "critical"@,
        }
    }

    pub fn weight(&self) -> (w: i32)
        ensures
            w as int == self.spec_weight(),
    {
        match self {
            Priority::Low => 1,
            Priority::Medium => 3,
            Priority::High => 6,
            Priority::Critical => 10,
        }
    }

    /// The lower-case name, as the text output and the summary show it.
    pub fn to_string(&self) -> (s: String)
        ensures
            s@ == self.name(),
    {
        match self {
            Priority::Low => String::from_str("low"),
            Priority::Medium => String::from_str("medium"),
            Priority::High => String::from_str("high"),
            Priority::Critical => String::from_str("critical"),
        }
    }
}

/// Where a work item stands.
#[derive(Clone, Copy, Debug, PartialEq, Eq, Structural)]
pub enum WorkState {
    Todo,
    InProgress,
    Blocked,
    Done,
}

impl WorkState {
    /// The weight of a state in scoring.
    pub open spec fn spec_weight(self) -> int {
        match self {
            WorkState::Todo => 4,
            WorkState::InProgress => 6,
            WorkState::Blocked => 1,
            WorkState::Done => -2,
        }
    }

    /// The snake-case name of a state.
    pub open spec fn name(self) -> Seq<char> {
        match self {
            WorkState::Todo => "todo"@,
            WorkState::InProgress => "in_progress"@,
            WorkState::Blocked => "blocked"@,
            WorkState::Done => "done"@,
        }
    }

    pub fn weight(&self) -> (w: i32)
        ensures
            w as int == self.spec_weight(),
    {
        match self {
            WorkState::Todo => 4,
            WorkState::InProgress => 6,
            WorkState::Blocked => 1,
            WorkState::Done => -2,
        }
    }

    /// The snake-case name, as the text output shows it.
    pub fn to_string(&self) -> (s: String)
        ensures
            s@ == self.name(),
    {
        match self {
            WorkState::Todo => String::from_str("todo"),
            WorkState::InProgress => String::from_str("in_progress"),
            WorkState::Blocked => String::from_str("blocked"),
            WorkState::Done => String::from_str("done"),
        }
    }
}

/// One item of a work plan.
#[derive(Clone, Debug)]
pub struct WorkItem {
    pub id: String,
    pub title: String,
    pub owner: Option<String>,
    pub priority: Priority,
    pub state: WorkState,
    pub estimate_hours: u32,
    pub tags: Vec<String>,
    pub blocked_by: Vec<String>,
    pub notes: Option<String>,
}

/// A named list of work items.
#[derive(Clone, Debug)]
pub struct WorkPlan {
    pub name: String,
    pub created_by: String,
    pub items: Vec<WorkItem>,
}

/// The views of a list of strings.
pub open spec fn texts(v: Seq<String>) -> Seq<Seq<char>> {
    v.map_values(|s: String| s@)
}

/// Pushing a string pushes its view.
pub proof fn lemma_texts_push(v: Seq<String>, s: String)
    ensures
        texts(v.push(s)) == texts(v).push(s@),
{
    assert(texts(v.push(s)) =~= texts(v).push(s@));
}

/// The view of an optional string.
pub open spec fn opt_text(o: Option<String>) -> Option<Seq<char>> {
    match o {
        Some(s) => Some(s@),
        None => None,
    }
}

/// A work item with its score and the reasons for it.
#[derive(Clone, Debug)]
pub struct ScoredItem {
    pub id: String,
    pub title: String,
    pub owner: Option<String>,
    pub priority: Priority,
    pub state: WorkState,
    pub score: i32,
    pub reasons: Vec<String>,
    pub tags: Vec<String>,
}

/// A scored item as character sequences.
pub struct ScoredView {
    pub id: Seq<char>,
    pub title: Seq<char>,
    pub owner: Option<Seq<char>>,
    pub priority: Priority,
    pub state: WorkState,
    pub score: int,
    pub reasons: Seq<Seq<char>>,
    pub tags: Seq<Seq<char>>,
}

impl View for ScoredItem {
    type V = ScoredView;

    open spec fn view(&self) -> ScoredView {
        ScoredView {
            id: self.id@,
            title: self.title@,
            owner: opt_text(self.owner),
            priority: self.priority,
            state: self.state,
            score: self.score as int,
            reasons: texts(self.reasons@),
            tags: texts(self.tags@),
        }
    }
}

/// The views of a list of scored items.
pub open spec fn scored_views(v: Seq<ScoredItem>) -> Seq<ScoredView> {
    v.map_values(|s: ScoredItem| s@)
}

/// Counts over the items of a plan.
#[derive(Debug)]
pub struct PlanSummary {
    pub total_items: usize,
    pub open_items: usize,
    pub blocked_items: usize,
    pub by_priority: Tally,
    pub by_owner: Tally,
    pub tag_frequency: Tally,
}

/// What the analysis of a plan reports.
#[derive(Debug)]
pub struct AnalysisReport {
    pub plan_name: String,
    pub created_by: String,
    pub item_count: usize,
    pub ranked_items: Vec<ScoredItem>,
    pub summary: PlanSummary,
    pub warnings: Vec<String>,
}

} // verus!
