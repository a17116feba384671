# feature_showcase

A work-plan analyser: it checks a plan of work items, scores and ranks the
items, summarises the plan and renders a report. The library under `src/` is
verified with Verus; `app/` is the command-line front end (argument parsing,
file reading, JSON through serde, and scoring on worker threads).

- `src/text.rs`: string order, decimal rendering.
- `src/model.rs`: plan, item and report types.
- `src/tally.rs`: counts per string key in key order.
- `src/scoring.rs`: the scoring strategies and `score_item`.
- `src/ranking.rs`: the ranking order and its stable sort.
- `src/pipeline.rs`: `validate_plan`, `summarize`, `build_warnings`, `analyze_plan`.
- `src/output.rs`: the text report.
- `src/error.rs`: the error type and its messages.
