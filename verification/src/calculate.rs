//! Arithmetic steps that a parsed operand carries.

use vstd::prelude::*;

use crate::errors::EvalError;
use crate::value::{Value, ValueModel};

verus! {

/// The four arithmetic operations.
#[derive(Debug, Clone, Copy, PartialEq, Eq, Structural)]
pub enum Arithmetic {
    /// `+`: addition
    Add,
    /// `-`: subtraction
    Sub,
    /// `/`: division
    Div,
    /// `*`: multiplication
    Mul,
}

/// One arithmetic step: the right operand is a literal value or a variable
/// name, to be combined with the value accumulated so far.
#[derive(Debug, Clone, PartialEq)]
pub enum Calculation {
    Value(Value, Arithmetic),
    Variable(String, Arithmetic),
}

/// The mathematical image of a [`Calculation`].
pub enum CalculationModel {
    Value(ValueModel, Arithmetic),
    Variable(Seq<char>, Arithmetic),
}

impl View for Calculation {
    type V = CalculationModel;

    open spec fn view(&self) -> CalculationModel {
        match self {
            Calculation::Value(v, op) => CalculationModel::Value(v@, *op),
            Calculation::Variable(name, op) => CalculationModel::Variable(name@, *op),
        }
    }
}

/// The image of a list of calculation steps.
pub open spec fn calcs_view(calcs: Seq<Calculation>) -> Seq<CalculationModel> {
    calcs.map_values(|c: Calculation| c@)
}

/// A type on which the four arithmetic operations can be attempted.
pub trait Calculateable: Sized {
    fn calculate(self, rhs: &Self, operator: Arithmetic) -> Result<Self, EvalError>;
}

} // verus!
