pub mod error;
pub mod model;
pub mod output;
pub mod pipeline;
pub mod ranking;
pub mod scoring;
pub mod tally;
pub mod text;

pub use error::{Result, ShowcaseError};
pub use model::{AnalysisReport, PlanSummary, Priority, ScoredItem, WorkItem, WorkPlan, WorkState};
pub use output::{render_text, OutputFormat};
pub use pipeline::{analyze_plan, validate_plan};
