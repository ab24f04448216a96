//! Evaluation of human-readable comparison expressions (for example
//! `room.temp > 20 && (door.open == false || since > "10min")`) against a
//! dynamically supplied set of named metric values.
//!
//! The engine has two stages: [`parse_tree`] turns expression text into a
//! [`Sequence`] once, and [`solve_tree`] folds that tree into a boolean with a
//! [`Resolver`] supplying the current variable values.  [`evaluate`] does
//! both in one call for expression text that changes between calls.
//!
//! A comparison can be made against any [`Value`] kind:
//! - [`Value::String`], written in single or double quotation marks;
//! - [`Value::Numeric`], a fixed-point decimal counting millionths, written
//!   bare (`20` or `4.5`);
//! - [`Value::Bool`], written `true` or `false`;
//! - [`Value::Time`], a time of day with seconds precision, written
//!   `"HH:MM:SS"` in quotation marks;
//! - [`Value::Duration`], written in quotation marks with humanized units
//!   (`"1h 5min"`).
//!
//! Logic folds strictly left to right with no operator precedence and no
//! short-circuiting; parentheses group sub-expressions.  Value lookup goes
//! through the [`Resolver`] trait, whose contract ties every answer to one
//! mathematical binding, so a whole solve is pinned to [`spec_evaluate`].

use vstd::prelude::*;

/// Fixed-point numeric core.
pub mod num;
/// Decimal literal reading and rendering, and lexicographic text order.
pub mod text;

/// Compute arithmetic on values.
pub mod calculate;
/// Compare values against values.
pub mod compare;
/// The error taxonomy.
pub mod errors;
/// Helper to use a list of name/value pairs as a resolver.
pub mod mapresolver;
/// Parser that builds a sequence from expression text.
pub mod parser;
/// Solves a sequence of comparisons.
pub mod solver;
/// Resolves names to values.
pub mod resolver;
/// A sequence of comparisons.
pub mod sequence;
/// A generic typed value.
pub mod value;

pub use calculate::{Arithmetic, Calculateable, Calculation};
pub use compare::{Compareable, Comparison, ComparisonPolicy, ComparisonType, Logic, Operator};
pub use errors::EvalError;
pub use mapresolver::MapResolver;
pub use parser::{match_block, match_comparisons, parse_tree};
pub use resolver::Resolver;
pub use sequence::{Entity, Sequence};
pub use solver::{solve_one, solve_one_with_policy, solve_tree, solve_tree_with_policy};
pub use value::Value;

use errors::ErrorModel;
use value::ValueModel;

verus! {

/// What evaluating expression text against a binding yields under a chosen
/// comparison policy: one parse, then one solve of the resulting tree.
pub open spec fn spec_evaluate_with(
    s: Seq<char>,
    env: Map<Seq<char>, ValueModel>,
    policy: ComparisonPolicy,
) -> Result<bool, ErrorModel> {
    match parser::spec_parse(s) {
        Ok(tree) => solver::spec_solve_with(tree, env, policy),
        Err(e) => Err(e),
    }
}

/// What evaluating expression text against a binding yields under the
/// default strict policy.
pub open spec fn spec_evaluate(s: Seq<char>, env: Map<Seq<char>, ValueModel>) -> Result<
    bool,
    ErrorModel,
> {
    spec_evaluate_with(s, env, ComparisonPolicy::Strict)
}

/// Parse `sequence` and solve it against the given resolver in one call.
/// Callers whose expression text does not change should keep the result of
/// [`parse_tree`] and hand it to [`solve_tree`] as the values change.
pub fn evaluate<R: Resolver>(sequence: &str, resolver: &R) -> (r: Result<bool, EvalError>)
    ensures
        solver::bool_result_model(r) == spec_evaluate(sequence@, resolver.env()),
{
    evaluate_with_policy(sequence, resolver, ComparisonPolicy::Strict)
}

/// Parse `sequence` and solve it under the given comparison policy; the lax
/// policy lets equality coerce across the kind pairs of
/// [`value::spec_compare_lax`].
pub fn evaluate_with_policy<R: Resolver>(
    sequence: &str,
    resolver: &R,
    policy: ComparisonPolicy,
) -> (r: Result<bool, EvalError>)
    ensures
        solver::bool_result_model(r) == spec_evaluate_with(sequence@, resolver.env(), policy),
{
    let comparisons = match parser::parse_tree(sequence) {
        Ok(tree) => tree,
        Err(e) => {
            return Err(e);
        },
    };
    solver::solve_tree_with_policy(&comparisons, resolver, policy)
}

} // verus!
