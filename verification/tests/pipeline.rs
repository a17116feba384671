use feature_showcase::pipeline::{can_analyze, summarize};
use feature_showcase::{analyze_plan, validate_plan, Priority, ShowcaseError, WorkItem, WorkPlan, WorkState};

fn item(id: &str, priority: Priority, state: WorkState, hours: u32, blocked_by: Vec<String>) -> WorkItem {
    WorkItem {
        id: id.to_string(),
        title: id.to_string(),
        owner: None,
        priority,
        state,
        estimate_hours: hours,
        tags: Vec::new(),
        blocked_by,
        notes: None,
    }
}

fn sample_plan() -> WorkPlan {
    WorkPlan {
        name: "demo".to_string(),
        created_by: "tests".to_string(),
        items: vec![
            WorkItem {
                id: "setup".to_string(),
                title: "Setup".to_string(),
                owner: Some("alice".to_string()),
                priority: Priority::Critical,
                state: WorkState::Todo,
                estimate_hours: 4,
                tags: vec!["repo".to_string()],
                blocked_by: Vec::new(),
                notes: None,
            },
            WorkItem {
                id: "report".to_string(),
                title: "Report".to_string(),
                owner: None,
                priority: Priority::Medium,
                state: WorkState::Blocked,
                estimate_hours: 8,
                tags: vec!["output".to_string()],
                blocked_by: vec!["setup".to_string()],
                notes: None,
            },
        ],
    }
}

#[test]
fn validate_plan_rejects_missing_dependencies() {
    let mut plan = sample_plan();
    plan.items[1].blocked_by = vec!["missing".to_string()];
    let err = validate_plan(&plan).expect_err("missing dependency should fail");
    assert!(matches!(err, ShowcaseError::InvalidDependency { .. }));
}

#[test]
fn analyze_plan_orders_items_by_score() {
    let report = analyze_plan(&sample_plan()).expect("analysis should succeed");
    assert_eq!(report.ranked_items[0].id, "setup");
}

#[test]
fn summarize_counts_unassigned_owner() {
    let summary = summarize(&sample_plan());
    assert_eq!(summary.by_owner.get("unassigned"), Some(&1));
}

#[test]
fn validate_plan_accepts_sample() {
    assert!(validate_plan(&sample_plan()).is_ok());
}

#[test]
fn validate_plan_rejects_empty_plan() {
    let plan = WorkPlan { name: "empty".to_string(), created_by: "tests".to_string(), items: Vec::new() };
    assert!(matches!(validate_plan(&plan), Err(ShowcaseError::EmptyPlan)));
}

#[test]
fn validate_plan_reports_first_duplicate_id() {
    let mut plan = sample_plan();
    plan.items.push(item("b", Priority::Low, WorkState::Todo, 1, Vec::new()));
    plan.items.push(item("b", Priority::Low, WorkState::Todo, 1, Vec::new()));
    plan.items.push(item("setup", Priority::Low, WorkState::Todo, 1, Vec::new()));
    match validate_plan(&plan) {
        Err(ShowcaseError::DuplicateItemId(id)) => assert_eq!(id, "b"),
        other => panic!("unexpected result: {:?}", other),
    }
}

#[test]
fn validate_plan_reports_duplicate_before_missing_dependency() {
    let mut plan = sample_plan();
    plan.items[1].blocked_by = vec!["missing".to_string()];
    plan.items.push(item("setup", Priority::Low, WorkState::Todo, 1, Vec::new()));
    assert!(matches!(validate_plan(&plan), Err(ShowcaseError::DuplicateItemId(_))));
}

#[test]
fn validate_plan_reports_first_missing_dependency() {
    let mut plan = sample_plan();
    plan.items[0].blocked_by = vec!["report".to_string(), "ghost".to_string(), "phantom".to_string()];
    plan.items[1].blocked_by = vec!["other".to_string()];
    match validate_plan(&plan) {
        Err(ShowcaseError::InvalidDependency { item_id, missing_id }) => {
            assert_eq!(item_id, "setup");
            assert_eq!(missing_id, "ghost");
        }
        other => panic!("unexpected result: {:?}", other),
    }
}

#[test]
fn analyze_plan_reports_exact_scores_and_reasons() {
    let report = analyze_plan(&sample_plan()).unwrap();
    assert_eq!(report.plan_name, "demo");
    assert_eq!(report.created_by, "tests");
    assert_eq!(report.item_count, 2);
    assert_eq!(report.ranked_items.len(), 2);
    let top = &report.ranked_items[0];
    // critical 10*3 + todo 4*2 + size 8 + no dependencies = 46
    assert_eq!(top.score, 46);
    assert_eq!(top.reasons, vec!["priority=30", "state=8", "size=8", "dependencies=0"]);
    assert_eq!(top.owner, Some("alice".to_string()));
    assert_eq!(top.tags, vec!["repo".to_string()]);
    let second = &report.ranked_items[1];
    // medium 3*3 + blocked 1*2 + size 5 - (1*4 + 6) = 6
    assert_eq!(second.id, "report");
    assert_eq!(second.score, 6);
    assert_eq!(second.reasons, vec!["priority=9", "state=2", "size=5", "dependencies=-10"]);
}

#[test]
fn analyze_plan_warnings() {
    let mut plan = sample_plan();
    plan.items[0].blocked_by = vec!["report".to_string()];
    let report = analyze_plan(&plan).unwrap();
    assert_eq!(
        report.warnings,
        vec![
            "1 critical items are blocked by unresolved dependencies".to_string(),
            "highest ranked item is 'setup' with score 42".to_string(),
        ]
    );
    let report = analyze_plan(&sample_plan()).unwrap();
    assert_eq!(report.warnings, vec!["highest ranked item is 'setup' with score 46".to_string()]);
}

#[test]
fn analyze_empty_plan_has_no_ranking_and_no_warnings() {
    let plan = WorkPlan { name: "empty".to_string(), created_by: "tests".to_string(), items: Vec::new() };
    let report = analyze_plan(&plan).unwrap();
    assert_eq!(report.item_count, 0);
    assert!(report.ranked_items.is_empty());
    assert!(report.warnings.is_empty());
}

#[test]
fn ranking_breaks_ties_by_id_and_keeps_order_of_equal_items() {
    let plan = WorkPlan {
        name: "ties".to_string(),
        created_by: "tests".to_string(),
        items: vec![
            item("zeta", Priority::High, WorkState::Todo, 2, Vec::new()),
            item("alpha", Priority::High, WorkState::Todo, 2, Vec::new()),
            item("mid", Priority::Critical, WorkState::Done, 40, Vec::new()),
            item("beta", Priority::Low, WorkState::Todo, 2, Vec::new()),
            item("alpha", Priority::High, WorkState::Todo, 3, Vec::new()),
        ],
    };
    let mut plan = plan;
    plan.items[4].title = "alpha-late".to_string();
    let report = analyze_plan(&plan).unwrap();
    let ids: Vec<&str> = report.ranked_items.iter().map(|s| s.id.as_str()).collect();
    assert_eq!(ids, vec!["alpha", "alpha", "zeta", "mid", "beta"]);
    // the two "alpha" items tie on score and id: input order is kept
    assert_eq!(report.ranked_items[0].title, "alpha");
    assert_eq!(report.ranked_items[1].title, "alpha-late");
    let scores: Vec<i32> = report.ranked_items.iter().map(|s| s.score).collect();
    assert_eq!(scores, vec![34, 34, 34, 24, 19]);
}

#[test]
fn summarize_counts_everything() {
    let mut plan = sample_plan();
    plan.items.push(WorkItem {
        id: "done".to_string(),
        title: "Done".to_string(),
        owner: Some("alice".to_string()),
        priority: Priority::Critical,
        state: WorkState::Done,
        estimate_hours: 1,
        tags: vec!["repo".to_string(), "output".to_string(), "repo".to_string()],
        blocked_by: Vec::new(),
        notes: None,
    });
    let summary = summarize(&plan);
    assert_eq!(summary.total_items, 3);
    assert_eq!(summary.open_items, 2);
    assert_eq!(summary.blocked_items, 1);
    assert_eq!(summary.by_priority.get("critical"), Some(&2));
    assert_eq!(summary.by_priority.get("medium"), Some(&1));
    assert_eq!(summary.by_priority.get("low"), None);
    assert_eq!(summary.by_owner.get("alice"), Some(&2));
    assert_eq!(summary.tag_frequency.get("repo"), Some(&3));
    assert_eq!(summary.tag_frequency.get("output"), Some(&2));
    let keys: Vec<&str> = summary.tag_frequency.entries().iter().map(|e| e.0.as_str()).collect();
    assert_eq!(keys, vec!["output", "repo"]);
    let owners: Vec<(String, usize)> = summary.by_owner.entries().clone();
    assert_eq!(owners, vec![("alice".to_string(), 2), ("unassigned".to_string(), 1)]);
}

#[test]
fn can_analyze_detects_score_overflow() {
    assert!(can_analyze(&sample_plan()));
}

#[test]
fn summary_counts_add_up_to_items_and_tags() {
    let summary = summarize(&sample_plan());
    let sum = |t: &feature_showcase::tally::Tally| t.entries().iter().map(|e| e.1).sum::<usize>();
    assert_eq!(sum(&summary.by_priority), summary.total_items);
    assert_eq!(sum(&summary.by_owner), summary.total_items);
    assert_eq!(sum(&summary.tag_frequency), 2);
    assert!(summary.open_items <= summary.total_items);
    assert!(summary.blocked_items <= summary.total_items);
}
