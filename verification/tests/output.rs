use feature_showcase::pipeline::summarize;
use feature_showcase::{render_text, AnalysisReport, Priority, ScoredItem, WorkPlan, WorkState};

fn report_with(ranked: Vec<ScoredItem>, warnings: Vec<String>) -> AnalysisReport {
    let plan = WorkPlan { name: "demo".to_string(), created_by: "tests".to_string(), items: Vec::new() };
    let mut summary = summarize(&plan);
    summary.total_items = 1;
    summary.open_items = 1;
    summary.blocked_items = 0;
    AnalysisReport {
        plan_name: "demo".to_string(),
        created_by: "tests".to_string(),
        item_count: 1,
        ranked_items: ranked,
        summary,
        warnings,
    }
}

fn scored(id: &str, score: i32, reasons: Vec<String>) -> ScoredItem {
    ScoredItem {
        id: id.to_string(),
        title: "Setup".to_string(),
        owner: Some("alice".to_string()),
        priority: Priority::High,
        state: WorkState::Todo,
        score,
        reasons,
        tags: vec!["repo".to_string()],
    }
}

#[test]
fn render_text_contains_headings() {
    let report = report_with(
        vec![scored("setup", 42, vec!["priority=18".to_string()])],
        vec!["demo warning".to_string()],
    );
    let rendered = render_text(&report);
    assert!(rendered.contains("Top ranked items"));
    assert!(rendered.contains("Warnings"));
}

#[test]
fn render_text_exact() {
    let report = report_with(
        vec![scored("setup", -42, vec!["priority=18".to_string(), "state=-4".to_string()])],
        vec!["demo warning".to_string()],
    );
    assert_eq!(
        render_text(&report),
        "Plan: demo\nCreated by: tests\nItems: 1\n\nSummary\n- total: 1\n- open: 1\n- blocked: 0\n\n\
         Top ranked items\n- setup [high / todo] score=-42 reasons=priority=18, state=-4\n\n\
         Warnings\n- demo warning\n"
    );
}

#[test]
fn render_text_lists_at_most_five_items_and_omits_empty_warnings() {
    let ranked: Vec<ScoredItem> = (0..7).map(|i| scored(&format!("i{i}"), 100 - i, Vec::new())).collect();
    let report = report_with(ranked, Vec::new());
    let rendered = render_text(&report);
    assert!(rendered.contains("- i4 [high / todo] score=96 reasons=\n"));
    assert!(!rendered.contains("i5"));
    assert!(!rendered.contains("Warnings"));
    assert!(rendered.ends_with("score=96 reasons=\n"));
}
