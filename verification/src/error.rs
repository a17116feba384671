//! Errors of loading, checking and analysing a plan.

use vstd::prelude::*;
use vstd::std_specs::convert::FromSpecImpl;

verus! {

/// An error of the operating system's I/O, carried through unchanged.
#[verifier::external_type_specification]
#[verifier::external_body]
pub struct ExIoError(std::io::Error);

/// An error of reading or writing JSON, carried through unchanged.
#[verifier::external_type_specification]
#[verifier::external_body]
pub struct ExJsonError(serde_json::Error);

/// Why a plan could not be loaded, checked or analysed.
#[derive(Debug)]
pub enum ShowcaseError {
    Io(std::io::Error),
    Json(serde_json::Error),
    EmptyPlan,
    DuplicateItemId(String),
    InvalidDependency { item_id: String, missing_id: String },
    WorkerPanic,
}

pub type Result<T> = core::result::Result<T, ShowcaseError>;

impl ShowcaseError {
    /// The message that describes the error.
    pub fn message(&self) -> (s: String)
        ensures
            match self {
                ShowcaseError::Io(e) => exists|d: String|
                    vstd::string::to_string_from_display_ensures::<std::io::Error>(e, d) && s@
                        == "io error: "@ + d@,
                ShowcaseError::Json(e) => exists|d: String|
                    vstd::string::to_string_from_display_ensures::<serde_json::Error>(e, d) && s@
                        == "json error: "@ + d@,
                ShowcaseError::EmptyPlan => s@ == "the plan must contain at least one work item"@,
                ShowcaseError::DuplicateItemId(id) => s@ == "duplicate work item id: "@ + id@,
                ShowcaseError::InvalidDependency { item_id, missing_id } => s@ == "work item '"@
                    + item_id@ + "' depends on missing item '"@ + missing_id@ + "'"@,
                ShowcaseError::WorkerPanic => s@ == "a worker thread panicked while scoring items"@,
            },
    {
        match self {
            ShowcaseError::Io(err) => {
                let mut s = String::from_str("io error: ");
                let detail = err.to_string();
                s.append(detail.as_str());
                s
            },
            ShowcaseError::Json(err) => {
                let mut s = String::from_str("json error: ");
                let detail = err.to_string();
                s.append(detail.as_str());
                s
            },
            ShowcaseError::EmptyPlan => String::from_str("the plan must contain at least one work item"),
            ShowcaseError::DuplicateItemId(id) => {
                let mut s = String::from_str("duplicate work item id: ");
                s.append(id.as_str());
                s
            },
            ShowcaseError::InvalidDependency { item_id, missing_id } => {
                let mut s = String::from_str("work item '");
                s.append(item_id.as_str());
                s.append("' depends on missing item '");
                s.append(missing_id.as_str());
                s.append("'");
                s
            },
            ShowcaseError::WorkerPanic => String::from_str("a worker thread panicked while scoring items"),
        }
    }
}

impl From<std::io::Error> for ShowcaseError {
    fn from(value: std::io::Error) -> (r: Self) {
        ShowcaseError::Io(value)
    }
}

impl FromSpecImpl<std::io::Error> for ShowcaseError {
    open spec fn obeys_from_spec() -> bool {
        true
    }

    open spec fn from_spec(value: std::io::Error) -> Self {
        ShowcaseError::Io(value)
    }
}

impl From<serde_json::Error> for ShowcaseError {
    fn from(value: serde_json::Error) -> (r: Self) {
        ShowcaseError::Json(value)
    }
}

impl FromSpecImpl<serde_json::Error> for ShowcaseError {
    open spec fn obeys_from_spec() -> bool {
        true
    }

    open spec fn from_spec(value: serde_json::Error) -> Self {
        ShowcaseError::Json(value)
    }
}

} // verus!
