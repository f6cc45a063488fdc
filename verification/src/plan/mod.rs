//! Planning: the plan request and its validation, the full plan graph and
//! its pruning, the linear program over the graph, and resource sets.
pub mod capacity;
pub mod config;
pub mod full_plan_graph;
pub mod lp_model;
pub mod plan_graph;
pub mod reachability;
pub mod resource_sets;

pub use config::{OutputAmount, PlanConfig, PlanConfigDefinition};
pub use full_plan_graph::PlanNodeWeight;
pub use lp_model::{plan_program, LpConstraint, LpModel, LpObjective};
pub use plan_graph::{FullPlanGraph, Side};
pub use reachability::is_reachable;
pub use resource_sets::{count_unique_resources, resource_combinations, ItemBitSet};

use vstd::prelude::*;

verus! {

/// Why a plan request could not be planned.
#[derive(Debug, Clone, PartialEq, Eq)]
pub enum PlanError {
    UnknownRecipe(String),
    UnknownItem(String),
    UnexpectedResourceInOutputs(String),
    InvalidOutputAmount(String),
    InvalidInputAmount(String),
    UnsolvablePlan,
}

/// A plan error with its texts as character sequences.
pub enum PlanErrorView {
    UnknownRecipe(Seq<char>),
    UnknownItem(Seq<char>),
    UnexpectedResourceInOutputs(Seq<char>),
    InvalidOutputAmount(Seq<char>),
    InvalidInputAmount(Seq<char>),
    UnsolvablePlan,
}

impl View for PlanError {
    type V = PlanErrorView;

    open spec fn view(&self) -> PlanErrorView {
        match self {
            PlanError::UnknownRecipe(s) => PlanErrorView::UnknownRecipe(s@),
            PlanError::UnknownItem(s) => PlanErrorView::UnknownItem(s@),
            PlanError::UnexpectedResourceInOutputs(s) => PlanErrorView::UnexpectedResourceInOutputs(
                s@,
            ),
            PlanError::InvalidOutputAmount(s) => PlanErrorView::InvalidOutputAmount(s@),
            PlanError::InvalidInputAmount(s) => PlanErrorView::InvalidInputAmount(s@),
            PlanError::UnsolvablePlan => PlanErrorView::UnsolvablePlan,
        }
    }
}

/// The short code that names the kind of a plan error.
pub open spec fn plan_error_code(e: PlanErrorView) -> Seq<char> {
    match e {
        PlanErrorView::UnknownRecipe(_) => "UnknownRecipe"@,
        PlanErrorView::UnknownItem(_) => "UnknownItem"@,
        PlanErrorView::UnexpectedResourceInOutputs(_) => "UnexpectedResourceInOutputs"@,
        PlanErrorView::InvalidOutputAmount(_) => "InvalidOutputAmount"@,
        PlanErrorView::InvalidInputAmount(_) => "InvalidInputAmount"@,
        PlanErrorView::UnsolvablePlan => "UnsolvablePlan"@,
    }
}

/// The message that describes a plan error.
pub open spec fn plan_error_message(e: PlanErrorView) -> Seq<char> {
    match e {
        PlanErrorView::UnknownRecipe(s) => "No recipe exists with the name or key `"@ + s + "`"@,
        PlanErrorView::UnknownItem(s) => "No item exists with the name or key `"@ + s + "`"@,
        PlanErrorView::UnexpectedResourceInOutputs(s) => "The item `"@ + s
            + "` is an extractable resource and is not allowed in outputs."@,
        PlanErrorView::InvalidOutputAmount(s) => "The output for item `"@ + s
            + "` must be greater than zero."@,
        PlanErrorView::InvalidInputAmount(s) => "The input for item `"@ + s
            + "` must be greater than or equal to zero."@,
        PlanErrorView::UnsolvablePlan => "Unable to solve the given factory plan.  This can be caused by missing inputs, insufficient resources, or disabled recipes."@,
    }
}

/// `prefix`, then `middle`, then `suffix`.
fn surround(prefix: &str, middle: &str, suffix: &str) -> (r: String)
    ensures
        r@ == prefix@ + middle@ + suffix@,
{
    let mut r = String::from_str(prefix);
    r.append(middle);
    r.append(suffix);
    r
}

impl PlanError {
    /// The short code that names the kind of the error.
    pub fn error_code(&self) -> (r: String)
        ensures
            r@ == plan_error_code(self@),
    {
        match self {
            PlanError::UnknownRecipe(_) => String::from_str("UnknownRecipe"),
            PlanError::UnknownItem(_) => String::from_str("UnknownItem"),
            PlanError::UnexpectedResourceInOutputs(_) => String::from_str(
                "UnexpectedResourceInOutputs",
            ),
            PlanError::InvalidOutputAmount(_) => String::from_str("InvalidOutputAmount"),
            PlanError::InvalidInputAmount(_) => String::from_str("InvalidInputAmount"),
            PlanError::UnsolvablePlan => String::from_str("UnsolvablePlan"),
        }
    }

    /// The message that describes the error.
    pub fn to_string(&self) -> (r: String)
        ensures
            r@ == plan_error_message(self@),
    {
        match self {
            PlanError::UnknownRecipe(s) => surround(
                "No recipe exists with the name or key `",
                s.as_str(),
                "`",
            ),
            PlanError::UnknownItem(s) => surround(
                "No item exists with the name or key `",
                s.as_str(),
                "`",
            ),
            PlanError::UnexpectedResourceInOutputs(s) => surround(
                "The item `",
                s.as_str(),
                "` is an extractable resource and is not allowed in outputs.",
            ),
            PlanError::InvalidOutputAmount(s) => surround(
                "The output for item `",
                s.as_str(),
                "` must be greater than zero.",
            ),
            PlanError::InvalidInputAmount(s) => surround(
                "The input for item `",
                s.as_str(),
                "` must be greater than or equal to zero.",
            ),
            PlanError::UnsolvablePlan => String::from_str(
                "Unable to solve the given factory plan.  This can be caused by missing inputs, insufficient resources, or disabled recipes.",
            ),
        }
    }
}

/// The body of the answer to a refused plan request.
#[derive(Debug, Clone)]
pub struct ErrorResponse {
    pub error_code: String,
    pub message: String,
}

impl ErrorResponse {
    /// The answer that describes `error`.
    pub fn from_error(error: &PlanError) -> (r: Self)
        ensures
            r.error_code@ == plan_error_code(error@),
            r.message@ == plan_error_message(error@),
    {
        ErrorResponse { error_code: error.error_code(), message: error.to_string() }
    }
}

} // verus!
