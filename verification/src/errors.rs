//! The error taxonomy: parse-time syntax errors and evaluation-time failures.
//!
//! Errors are always returned, never used for normal control flow; a solve
//! call either fully succeeds with one boolean or fails with one error.

use vstd::prelude::*;
use vstd::string::StringExecFns;

use crate::calculate::Arithmetic;
use crate::compare::Operator;
use crate::value::ValueKind;

verus! {

/// An error from parsing or solving an expression.
#[derive(Debug, Clone, PartialEq)]
pub enum EvalError {
    /// The input text fits no rule of the grammar; carries the unconsumed
    /// remainder of the input for diagnostics.
    Syntax(String),
    /// A referenced variable had no value from the resolver.
    UnresolvedVariable(String),
    /// A comparison between value kinds with no defined rule.
    TypeMismatch(Operator, ValueKind, ValueKind),
    /// An arithmetic step between value kinds with no defined rule.
    IncompatibleTypes(Arithmetic, ValueKind, ValueKind),
    /// A numeric division, or a duration scaling, by zero.
    DivisionByZero,
    /// The nesting of the tree being solved exceeds the recursion bound.
    DepthExceeded,
}

/// The mathematical image of an [`EvalError`], with text as `Seq<char>`.
pub enum ErrorModel {
    Syntax(Seq<char>),
    UnresolvedVariable(Seq<char>),
    TypeMismatch(Operator, ValueKind, ValueKind),
    IncompatibleTypes(Arithmetic, ValueKind, ValueKind),
    DivisionByZero,
    DepthExceeded,
}

impl View for EvalError {
    type V = ErrorModel;

    open spec fn view(&self) -> ErrorModel {
        match self {
            EvalError::Syntax(s) => ErrorModel::Syntax(s@),
            EvalError::UnresolvedVariable(s) => ErrorModel::UnresolvedVariable(s@),
            EvalError::TypeMismatch(op, l, r) => ErrorModel::TypeMismatch(*op, *l, *r),
            EvalError::IncompatibleTypes(op, l, r) => ErrorModel::IncompatibleTypes(*op, *l, *r),
            EvalError::DivisionByZero => ErrorModel::DivisionByZero,
            EvalError::DepthExceeded => ErrorModel::DepthExceeded,
        }
    }
}

/// The text that describes each error: syntax and resolution errors carry
/// the offending text between quotes, the rest are fixed sentences.
pub open spec fn spec_message(e: ErrorModel) -> Seq<char> {
    match e {
        ErrorModel::Syntax(rest) => "syntax error near '"@ + rest + "'"@,
        ErrorModel::UnresolvedVariable(name) => "unable to resolve variable '"@ + name + "'"@,
        ErrorModel::TypeMismatch(_, _, _) => "incomparable value kinds"@,
        ErrorModel::IncompatibleTypes(_, _, _) => "incompatible value kinds for arithmetic"@,
        ErrorModel::DivisionByZero => "division by zero"@,
        ErrorModel::DepthExceeded => "nesting depth exceeded"@,
    }
}

impl EvalError {
    /// A short description of the error, for display by callers.
    pub fn message(&self) -> (m: String)
        ensures
            m@ == spec_message(self@),
    {
        match self {
            EvalError::Syntax(rest) => {
                let mut m = String::new();
                m.append("syntax error near '");
                m.append(rest.as_str());
                m.append("'");
                proof {
                    assert(m@ =~= spec_message(self@));
                }
                m
            },
            EvalError::UnresolvedVariable(name) => {
                let mut m = String::new();
                m.append("unable to resolve variable '");
                m.append(name.as_str());
                m.append("'");
                proof {
                    assert(m@ =~= spec_message(self@));
                }
                m
            },
            EvalError::TypeMismatch(_, _, _) => {
                let mut m = String::new();
                m.append("incomparable value kinds");
                proof {
                    assert(m@ =~= spec_message(self@));
                }
                m
            },
            EvalError::IncompatibleTypes(_, _, _) => {
                let mut m = String::new();
                m.append("incompatible value kinds for arithmetic");
                proof {
                    assert(m@ =~= spec_message(self@));
                }
                m
            },
            EvalError::DivisionByZero => {
                let mut m = String::new();
                m.append("division by zero");
                proof {
                    assert(m@ =~= spec_message(self@));
                }
                m
            },
            EvalError::DepthExceeded => {
                let mut m = String::new();
                m.append("nesting depth exceeded");
                proof {
                    assert(m@ =~= spec_message(self@));
                }
                m
            },
        }
    }
}

} // verus!
