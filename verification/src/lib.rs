//! Verified core of a PHP static analyzer: formulas over type assertions in
//! conjunctive normal form, clauses, block-context bookkeeping, data-flow
//! path rules, analysis results and diagnostics on variable names.

pub mod algebra;
pub mod analysis_result;
pub mod artifacts;
pub mod assertion;
pub mod context;
pub mod dataflow;
pub mod expression;
pub mod span;
pub mod text;
