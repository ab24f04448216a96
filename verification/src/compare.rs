//! Comparison model: operators, logic connectives, operands and the
//! comparison triple itself.

use vstd::prelude::*;

use crate::calculate::{calcs_view, Calculation, CalculationModel};
use crate::errors::EvalError;
use crate::value::{Value, ValueModel};

verus! {

/// How an entity combines with the accumulated result of the entities before
/// it in the same sequence.
#[derive(Debug, Clone, Copy, PartialEq, Eq, Structural)]
pub enum Logic {
    And,
    Or,
}

/// The six comparison operators.
#[derive(Debug, Clone, Copy, PartialEq, Eq, Structural)]
pub enum Operator {
    /// `==`
    Equal,
    /// `!=`
    NotEqual,
    /// `>=`
    GreaterEqual,
    /// `<=`
    LessEqual,
    /// `>`
    Greater,
    /// `<`
    Less,
}

/// A type whose values can be compared with an [`Operator`].
pub trait Compareable: Sized {
    fn compare(&self, other: &Self, operator: Operator) -> Result<bool, EvalError>;
}

/// Which comparison policy a solve applies: the strict policy never compares
/// values of different kinds; the opt-in lax policy coerces equality across
/// a few kind pairs (number and boolean, text and number, text and boolean)
/// and behaves as the strict policy everywhere else.
#[derive(Debug, Clone, Copy, PartialEq, Eq, Structural)]
pub enum ComparisonPolicy {
    Strict,
    Lax,
}

/// One side of a comparison: a literal value or a variable name, either
/// followed by a chain of arithmetic steps applied left to right.
#[derive(Debug, Clone, PartialEq)]
pub enum ComparisonType {
    /// A fixed value, with optional calculations.
    Value(Value, Vec<Calculation>),
    /// A variable to resolve, with optional calculations.
    Variable(String, Vec<Calculation>),
}

/// The mathematical image of a [`ComparisonType`].
pub enum OperandModel {
    Value(ValueModel, Seq<CalculationModel>),
    Variable(Seq<char>, Seq<CalculationModel>),
}

impl View for ComparisonType {
    type V = OperandModel;

    open spec fn view(&self) -> OperandModel {
        match self {
            ComparisonType::Value(v, calcs) => OperandModel::Value(v@, calcs_view(calcs@)),
            ComparisonType::Variable(name, calcs) => OperandModel::Variable(
                name@,
                calcs_view(calcs@),
            ),
        }
    }
}

impl ComparisonType {
    /// Append one arithmetic step to this operand's chain.
    pub fn with_calculation(&mut self, calculation: Calculation)
        ensures
            final (self)@ == (match old(self)@ {
                OperandModel::Value(v, calcs) => OperandModel::Value(v, calcs.push(calculation@)),
                OperandModel::Variable(n, calcs) => OperandModel::Variable(
                    n,
                    calcs.push(calculation@),
                ),
            }),
    {
        let ghost c = calculation@;
        match self {
            ComparisonType::Value(_, calculations) => {
                let ghost before = calculations@;
                calculations.push(calculation);
                proof {
                    assert(calcs_view(before.push(calculation)) =~= calcs_view(before).push(c));
                }
            },
            ComparisonType::Variable(_, calculations) => {
                let ghost before = calculations@;
                calculations.push(calculation);
                proof {
                    assert(calcs_view(before.push(calculation)) =~= calcs_view(before).push(c));
                }
            },
        }
    }
}

/// One atomic test: a left operand, an operator and a right operand.
#[derive(Debug, Clone, PartialEq)]
pub struct Comparison {
    /// Left-hand side of the comparison.
    pub what: ComparisonType,
    /// Operator to compare with.
    pub operator: Operator,
    /// Right-hand side of the comparison.
    pub against: ComparisonType,
}

/// The mathematical image of a [`Comparison`].
pub struct ComparisonModel {
    pub what: OperandModel,
    pub operator: Operator,
    pub against: OperandModel,
}

impl View for Comparison {
    type V = ComparisonModel;

    open spec fn view(&self) -> ComparisonModel {
        ComparisonModel { what: self.what@, operator: self.operator, against: self.against@ }
    }
}

impl Comparison {
    /// Build a comparison of a variable against a literal value, with no
    /// calculations on either side.
    pub fn of_value(variable_name: &str, operator: Operator, value: Value) -> (r: Comparison)
        ensures
            r@ == (ComparisonModel {
                what: OperandModel::Variable(variable_name@, Seq::empty()),
                operator,
                against: OperandModel::Value(value@, Seq::empty()),
            }),
    {
        let r = Comparison {
            what: ComparisonType::Variable(variable_name.to_owned(), Vec::new()),
            operator,
            against: ComparisonType::Value(value, Vec::new()),
        };
        proof {
            assert(calcs_view(Seq::<Calculation>::empty()) =~= Seq::<CalculationModel>::empty());
        }
        r
    }

    /// Build a comparison of a variable against another variable, with no
    /// calculations on either side.
    pub fn of_variable(variable_name: &str, operator: Operator, against_name: &str) -> (r:
        Comparison)
        ensures
            r@ == (ComparisonModel {
                what: OperandModel::Variable(variable_name@, Seq::empty()),
                operator,
                against: OperandModel::Variable(against_name@, Seq::empty()),
            }),
    {
        let r = Comparison {
            what: ComparisonType::Variable(variable_name.to_owned(), Vec::new()),
            operator,
            against: ComparisonType::Variable(against_name.to_owned(), Vec::new()),
        };
        proof {
            assert(calcs_view(Seq::<Calculation>::empty()) =~= Seq::<CalculationModel>::empty());
        }
        r
    }
}

} // verus!
