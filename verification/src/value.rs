//! The typed value model: strings, fixed-point numbers, booleans,
//! times of day and durations, with comparison and arithmetic rules.
//!
//! Numbers are fixed-point counts of millionths (see [`crate::num`]).  A time
//! of day is a count of seconds since midnight, kept below 86400.  A duration
//! is a non-negative count of nanoseconds.

use vstd::prelude::*;

use crate::calculate::{Arithmetic, Calculateable};
use crate::compare::{Compareable, ComparisonPolicy, Operator};
use crate::errors::{ErrorModel, EvalError};
use crate::num::{spec_num_add, spec_num_div, spec_num_mul, spec_num_sub, SCALE};
use crate::text::{lex_lt, spec_parse_decimal, spec_render_num, str_cmp3, str_eq};

verus! {

/// The kind of a [`Value`], used in error reports.
#[derive(Debug, Clone, Copy, PartialEq, Eq, Structural)]
pub enum ValueKind {
    String,
    Numeric,
    Bool,
    Time,
    Duration,
}

/// The mathematical image of a [`Value`].
pub enum ValueModel {
    /// Text.
    String(Seq<char>),
    /// A fixed-point number, counting millionths.
    Numeric(int),
    /// A boolean.
    Bool(bool),
    /// A time of day, counting seconds since midnight.
    Time(int),
    /// A duration, counting nanoseconds.
    Duration(int),
}

/// A typed scalar value.
#[derive(Debug, PartialEq)]
pub enum Value {
    /// Any kind of text.
    String(String),
    /// A fixed-point number, counting millionths: `4.5` is held as
    /// `4_500_000`.
    Numeric(i64),
    /// A simple boolean.
    Bool(bool),
    /// A time of day in seconds since midnight; parsing and clock arithmetic
    /// always keep it below 86400.
    Time(u32),
    /// A non-negative duration in nanoseconds.
    Duration(u128),
}

impl View for Value {
    type V = ValueModel;

    open spec fn view(&self) -> ValueModel {
        match self {
            Value::String(s) => ValueModel::String(s@),
            Value::Numeric(n) => ValueModel::Numeric(*n as int),
            Value::Bool(b) => ValueModel::Bool(*b),
            Value::Time(t) => ValueModel::Time(*t as int),
            Value::Duration(d) => ValueModel::Duration(*d as int),
        }
    }
}

impl Clone for Value {
    fn clone(&self) -> (res: Value)
        ensures
            res@ == self@,
    {
        match self {
            Value::String(s) => Value::String(s.clone()),
            Value::Numeric(n) => Value::Numeric(*n),
            Value::Bool(b) => Value::Bool(*b),
            Value::Time(t) => Value::Time(*t),
            Value::Duration(d) => Value::Duration(*d),
        }
    }
}

pub open spec fn kind_of(v: ValueModel) -> ValueKind {
    match v {
        ValueModel::String(_) => ValueKind::String,
        ValueModel::Numeric(_) => ValueKind::Numeric,
        ValueModel::Bool(_) => ValueKind::Bool,
        ValueModel::Time(_) => ValueKind::Time,
        ValueModel::Duration(_) => ValueKind::Duration,
    }
}

impl Value {
    /// The kind of this value.
    pub fn kind(&self) -> (k: ValueKind)
        ensures
            k == kind_of(self@),
    {
        match self {
            Value::String(_) => ValueKind::String,
            Value::Numeric(_) => ValueKind::Numeric,
            Value::Bool(_) => ValueKind::Bool,
            Value::Time(_) => ValueKind::Time,
            Value::Duration(_) => ValueKind::Duration,
        }
    }
}

/// Strict order between two values of the same kind: numbers, times and
/// durations order as integers, strings lexicographically, `false` before
/// `true`.  Values of different kinds are never ordered.
pub open spec fn spec_lt(a: ValueModel, b: ValueModel) -> bool {
    match (a, b) {
        (ValueModel::String(x), ValueModel::String(y)) => lex_lt(x, y),
        (ValueModel::Numeric(x), ValueModel::Numeric(y)) => x < y,
        (ValueModel::Bool(x), ValueModel::Bool(y)) => !x && y,
        (ValueModel::Time(x), ValueModel::Time(y)) => x < y,
        (ValueModel::Duration(x), ValueModel::Duration(y)) => x < y,
        _ => false,
    }
}

/// The answer an operator gives once equality and the two orderings between
/// the operands are known.
pub open spec fn apply_operator(op: Operator, eq: bool, lt: bool, gt: bool) -> bool {
    match op {
        Operator::Equal => eq,
        Operator::NotEqual => !eq,
        Operator::Greater => gt,
        Operator::Less => lt,
        Operator::GreaterEqual => !lt,
        Operator::LessEqual => !gt,
    }
}

/// Strict comparison: values of the same kind compare by [`spec_lt`] and
/// equality; values of different kinds fail with a type mismatch.
pub open spec fn spec_compare(a: ValueModel, b: ValueModel, op: Operator) -> Result<
    bool,
    ErrorModel,
> {
    if kind_of(a) == kind_of(b) {
        Ok(apply_operator(op, a == b, spec_lt(a, b), spec_lt(b, a)))
    } else {
        Err(ErrorModel::TypeMismatch(op, kind_of(a), kind_of(b)))
    }
}

/// The canonical text of a boolean.
pub open spec fn bool_text(b: bool) -> Seq<char> {
    if b {
        seq!['t', 'r', 'u', 'e']
    } else {
        seq!['f', 'a', 'l', 's', 'e']
    }
}

/// Lax equality across kinds: a boolean equals a number that is non-zero
/// exactly when the boolean is true; a string equals a number it reads as;
/// a string equals a boolean whose canonical text it is.  Every other
/// cross-kind pair still fails, as do cross-kind ordering comparisons.
pub open spec fn spec_compare_lax(a: ValueModel, b: ValueModel, op: Operator) -> Result<
    bool,
    ErrorModel,
> {
    if kind_of(a) == kind_of(b) {
        spec_compare(a, b, op)
    } else if op == Operator::Equal || op == Operator::NotEqual {
        match lax_eq(a, b) {
            Some(eq) => Ok(
                if op == Operator::Equal {
                    eq
                } else {
                    !eq
                },
            ),
            None => Err(ErrorModel::TypeMismatch(op, kind_of(a), kind_of(b))),
        }
    } else {
        Err(ErrorModel::TypeMismatch(op, kind_of(a), kind_of(b)))
    }
}

/// The cross-kind equality coercions of the lax policy, where one exists.
pub open spec fn lax_eq(a: ValueModel, b: ValueModel) -> Option<bool> {
    match (a, b) {
        (ValueModel::Numeric(n), ValueModel::Bool(x)) => Some((n != 0) == x),
        (ValueModel::Bool(x), ValueModel::Numeric(n)) => Some(x == (n != 0)),
        (ValueModel::String(s), ValueModel::Numeric(n)) => Some(spec_parse_decimal(s) == Some(n)),
        (ValueModel::Numeric(n), ValueModel::String(s)) => Some(spec_parse_decimal(s) == Some(n)),
        (ValueModel::String(s), ValueModel::Bool(x)) => Some(s == bool_text(x)),
        (ValueModel::Bool(x), ValueModel::String(s)) => Some(bool_text(x) == s),
        _ => None,
    }
}

/// Compare two values of the same kind, giving equality and both orderings.
fn same_kind_facts(a: &Value, b: &Value) -> (r: (bool, bool, bool))
    requires
        kind_of(a@) == kind_of(b@),
    ensures
        r.0 == (a@ == b@),
        r.1 == spec_lt(a@, b@),
        r.2 == spec_lt(b@, a@),
{
    match (a, b) {
        (Value::String(x), Value::String(y)) => {
            let c = str_cmp3(x.as_str(), y.as_str());
            (c == 0, c < 0, c > 0)
        },
        (Value::Numeric(x), Value::Numeric(y)) => (x == y, x < y, y < x),
        (Value::Bool(x), Value::Bool(y)) => (x == y, !*x && *y, !*y && *x),
        (Value::Time(x), Value::Time(y)) => (x == y, x < y, y < x),
        (Value::Duration(x), Value::Duration(y)) => (x == y, x < y, y < x),
        _ => {
            proof {
                assert(false);
            }
            (false, false, false)
        },
    }
}

fn apply_operator_exec(op: Operator, eq: bool, lt: bool, gt: bool) -> (r: bool)
    ensures
        r == apply_operator(op, eq, lt, gt),
{
    match op {
        Operator::Equal => eq,
        Operator::NotEqual => !eq,
        Operator::Greater => gt,
        Operator::Less => lt,
        Operator::GreaterEqual => !lt,
        Operator::LessEqual => !gt,
    }
}

impl Compareable for Value {
    /// Strict comparison, per [`spec_compare`].
    fn compare(&self, other: &Self, operator: Operator) -> (r: Result<bool, EvalError>)
        ensures
            (match r {
                Ok(b) => Ok::<bool, ErrorModel>(b),
                Err(e) => Err(e@),
            }) == spec_compare(self@, other@, operator),
    {
        let ka = self.kind();
        let kb = other.kind();
        if ka == kb {
            let (eq, lt, gt) = same_kind_facts(self, other);
            Ok(apply_operator_exec(operator, eq, lt, gt))
        } else {
            Err(EvalError::TypeMismatch(operator, ka, kb))
        }
    }
}

impl Value {
    /// Lax comparison, per [`spec_compare_lax`]: equality may coerce across
    /// kinds; everything else behaves as the strict policy.
    pub fn compare_lax(&self, other: &Self, operator: Operator) -> (r: Result<bool, EvalError>)
        ensures
            (match r {
                Ok(b) => Ok::<bool, ErrorModel>(b),
                Err(e) => Err(e@),
            }) == spec_compare_lax(self@, other@, operator),
    {
        let ka = self.kind();
        let kb = other.kind();
        if ka == kb {
            let (eq, lt, gt) = same_kind_facts(self, other);
            return Ok(apply_operator_exec(operator, eq, lt, gt));
        }
        if !(matches!(operator, Operator::Equal) || matches!(operator, Operator::NotEqual)) {
            return Err(EvalError::TypeMismatch(operator, ka, kb));
        }
        let coerced: Option<bool> = match (self, other) {
            (Value::Numeric(n), Value::Bool(x)) => Some((*n != 0) == *x),
            (Value::Bool(x), Value::Numeric(n)) => Some(*x == (*n != 0)),
            (Value::String(s), Value::Numeric(n)) => Some(
                match crate::text::parse_decimal(s.as_str()) {
                    Some(v) => v == *n,
                    None => false,
                },
            ),
            (Value::Numeric(n), Value::String(s)) => Some(
                match crate::text::parse_decimal(s.as_str()) {
                    Some(v) => v == *n,
                    None => false,
                },
            ),
            (Value::String(s), Value::Bool(x)) => Some(
                if *x {
                    str_eq(s.as_str(), "true")
                } else {
                    str_eq(s.as_str(), "false")
                },
            ),
            (Value::Bool(x), Value::String(s)) => Some(
                if *x {
                    str_eq(s.as_str(), "true")
                } else {
                    str_eq(s.as_str(), "false")
                },
            ),
            _ => None,
        };
        proof {
            reveal_strlit("true");
            reveal_strlit("false");
            assert("true"@ =~= bool_text(true));
            assert("false"@ =~= bool_text(false));
        }
        match coerced {
            Some(eq) => {
                if matches!(operator, Operator::Equal) {
                    Ok(eq)
                } else {
                    Ok(!eq)
                }
            },
            None => Err(EvalError::TypeMismatch(operator, ka, kb)),
        }
    }
}

/// Comparison under a chosen policy: [`spec_compare`] for the strict policy,
/// [`spec_compare_lax`] for the lax one.
pub open spec fn spec_compare_with(
    policy: ComparisonPolicy,
    a: ValueModel,
    b: ValueModel,
    op: Operator,
) -> Result<bool, ErrorModel> {
    match policy {
        ComparisonPolicy::Strict => spec_compare(a, b, op),
        ComparisonPolicy::Lax => spec_compare_lax(a, b, op),
    }
}

impl Value {
    /// Compare two values under the given policy, per [`spec_compare_with`].
    pub fn compare_with(&self, other: &Self, operator: Operator, policy: ComparisonPolicy) -> (r:
        Result<bool, EvalError>)
        ensures
            (match r {
                Ok(b) => Ok::<bool, ErrorModel>(b),
                Err(e) => Err(e@),
            }) == spec_compare_with(policy, self@, other@, operator),
    {
        match policy {
            ComparisonPolicy::Strict => self.compare(other, operator),
            ComparisonPolicy::Lax => self.compare_lax(other, operator),
        }
    }
}

impl Value {
    /// A numeric value holding the whole number `n`, saturating at the
    /// fixed-point range.
    pub fn numeric(n: i64) -> (v: Value)
        ensures
            v@ == ValueModel::Numeric(crate::num::clip(n * (SCALE as int))),
    {
        match n.checked_mul(SCALE) {
            Some(m) => Value::Numeric(m),
            None => {
                if n >= 0 {
                    Value::Numeric(i64::MAX)
                } else {
                    Value::Numeric(i64::MIN)
                }
            },
        }
    }

    /// A duration of `secs` whole seconds.
    pub fn duration_from_secs(secs: u64) -> (v: Value)
        ensures
            v@ == ValueModel::Duration(secs as int * 1_000_000_000),
    {
        Value::Duration(secs as u128 * 1_000_000_000)
    }

    /// A time of day from hours, minutes and seconds.
    pub fn time_hms(hour: u32, minute: u32, second: u32) -> (v: Value)
        requires
            hour < 24,
            minute < 60,
            second < 60,
        ensures
            v@ == ValueModel::Time(hour * 3600 + minute * 60 + second),
    {
        Value::Time(hour * 3600 + minute * 60 + second)
    }
}

impl From<bool> for Value {
    fn from(value: bool) -> (v: Value) {
        Value::Bool(value)
    }
}

impl vstd::std_specs::convert::FromSpecImpl<bool> for Value {
    open spec fn obeys_from_spec() -> bool {
        true
    }

    open spec fn from_spec(value: bool) -> Value {
        Value::Bool(value)
    }
}

impl From<String> for Value {
    fn from(value: String) -> (v: Value) {
        Value::String(value)
    }
}

impl vstd::std_specs::convert::FromSpecImpl<String> for Value {
    open spec fn obeys_from_spec() -> bool {
        true
    }

    open spec fn from_spec(value: String) -> Value {
        Value::String(value)
    }
}

impl From<i32> for Value {
    fn from(value: i32) -> (v: Value) {
        Value::Numeric(value as i64 * SCALE)
    }
}

impl vstd::std_specs::convert::FromSpecImpl<i32> for Value {
    open spec fn obeys_from_spec() -> bool {
        true
    }

    open spec fn from_spec(value: i32) -> Value {
        Value::Numeric((value as int * (SCALE as int)) as i64)
    }
}

impl From<u32> for Value {
    fn from(value: u32) -> (v: Value) {
        Value::Numeric(value as i64 * SCALE)
    }
}

impl vstd::std_specs::convert::FromSpecImpl<u32> for Value {
    open spec fn obeys_from_spec() -> bool {
        true
    }

    open spec fn from_spec(value: u32) -> Value {
        Value::Numeric((value as int * (SCALE as int)) as i64)
    }
}

impl From<i64> for Value {
    fn from(value: i64) -> (v: Value) {
        Value::numeric(value)
    }
}

impl vstd::std_specs::convert::FromSpecImpl<i64> for Value {
    open spec fn obeys_from_spec() -> bool {
        true
    }

    open spec fn from_spec(value: i64) -> Value {
        Value::Numeric(crate::num::clip(value * (SCALE as int)) as i64)
    }
}

/// Saturate an unbounded integer into the non-negative `u128` range of a
/// duration.
pub open spec fn dur_clip(x: int) -> int {
    if x > u128::MAX {
        u128::MAX as int
    } else if x < 0 {
        0
    } else {
        x
    }
}

/// The whole seconds of a duration held as nanoseconds.
pub open spec fn dur_secs(nanos: int) -> int {
    nanos / 1_000_000_000
}

/// Clock arithmetic: add the whole seconds of a duration to a time of day,
/// wrapping around the 24-hour clock.
pub open spec fn time_add(t: int, nanos: int) -> int {
    (t + dur_secs(nanos)) % 86400
}

/// Clock arithmetic: subtract the whole seconds of a duration from a time of
/// day, wrapping around the 24-hour clock.
pub open spec fn time_sub(t: int, nanos: int) -> int {
    (t - dur_secs(nanos)) % 86400
}

/// A fixed-point number rounded to the nearest whole number (halves round up)
/// and clamped into the `u32` range, as used to scale a duration.
pub open spec fn round_mult(n: int) -> int {
    if n <= 0 {
        0
    } else {
        let q = (n + (SCALE as int) / 2) / (SCALE as int);
        if q > u32::MAX {
            u32::MAX as int
        } else {
            q
        }
    }
}

/// The arithmetic table: which value kinds combine under which operation, and
/// what comes out.
///
/// - Add: string+string concatenates; string+number appends the rendered
///   number after a space; number+number, duration+duration add with
///   saturation; time+duration wraps around the clock.
/// - Sub: number-number; duration-duration stops at zero; time-duration wraps
///   around the clock.
/// - Mul: number*number; duration*number scales by the rounded number.
/// - Div: number/number; duration/number divides by the rounded number; a
///   zero divisor fails with a division error, since no fixed-point value
///   can stand for an infinite quotient.
/// - Everything else fails, naming the operation and the two kinds.
pub open spec fn spec_calculate(a: ValueModel, b: ValueModel, op: Arithmetic) -> Result<
    ValueModel,
    ErrorModel,
> {
    match op {
        Arithmetic::Add => match (a, b) {
            (ValueModel::String(x), ValueModel::String(y)) => Ok(ValueModel::String(x + y)),
            (ValueModel::String(x), ValueModel::Numeric(n)) => Ok(
                ValueModel::String(x + seq![' '] + spec_render_num(n)),
            ),
            (ValueModel::Numeric(x), ValueModel::Numeric(y)) => Ok(
                ValueModel::Numeric(spec_num_add(x, y)),
            ),
            (ValueModel::Duration(x), ValueModel::Duration(y)) => Ok(
                ValueModel::Duration(dur_clip(x + y)),
            ),
            (ValueModel::Time(t), ValueModel::Duration(d)) => Ok(ValueModel::Time(time_add(t, d))),
            _ => Err(ErrorModel::IncompatibleTypes(op, kind_of(a), kind_of(b))),
        },
        Arithmetic::Sub => match (a, b) {
            (ValueModel::Numeric(x), ValueModel::Numeric(y)) => Ok(
                ValueModel::Numeric(spec_num_sub(x, y)),
            ),
            (ValueModel::Duration(x), ValueModel::Duration(y)) => Ok(
                ValueModel::Duration(dur_clip(x - y)),
            ),
            (ValueModel::Time(t), ValueModel::Duration(d)) => Ok(ValueModel::Time(time_sub(t, d))),
            _ => Err(ErrorModel::IncompatibleTypes(op, kind_of(a), kind_of(b))),
        },
        Arithmetic::Mul => match (a, b) {
            (ValueModel::Numeric(x), ValueModel::Numeric(y)) => Ok(
                ValueModel::Numeric(spec_num_mul(x, y)),
            ),
            (ValueModel::Duration(x), ValueModel::Numeric(n)) => Ok(
                ValueModel::Duration(dur_clip(x * round_mult(n))),
            ),
            _ => Err(ErrorModel::IncompatibleTypes(op, kind_of(a), kind_of(b))),
        },
        Arithmetic::Div => match (a, b) {
            (ValueModel::Numeric(x), ValueModel::Numeric(y)) => {
                if y == 0 {
                    Err(ErrorModel::DivisionByZero)
                } else {
                    Ok(ValueModel::Numeric(spec_num_div(x, y)))
                }
            },
            (ValueModel::Duration(x), ValueModel::Numeric(n)) => {
                if round_mult(n) == 0 {
                    Err(ErrorModel::DivisionByZero)
                } else {
                    Ok(ValueModel::Duration(x / round_mult(n)))
                }
            },
            _ => Err(ErrorModel::IncompatibleTypes(op, kind_of(a), kind_of(b))),
        },
    }
}

fn round_mult_exec(n: i64) -> (r: u32)
    ensures
        r as int == round_mult(n as int),
{
    if n <= 0 {
        0
    } else {
        let q: u64 = (n as u64 + 500_000) / 1_000_000;
        if q > 4_294_967_295 {
            u32::MAX
        } else {
            q as u32
        }
    }
}

fn time_add_exec(t: u32, nanos: u128) -> (r: u32)
    ensures
        r as int == time_add(t as int, nanos as int),
{
    let s: u128 = nanos / 1_000_000_000;
    ((t as u128 + s) % 86400) as u32
}

fn time_sub_exec(t: u32, nanos: u128) -> (r: u32)
    ensures
        r as int == time_sub(t as int, nanos as int),
{
    let s: u128 = nanos / 1_000_000_000;
    let tm: u128 = (t as u128) % 86400;
    let sm: u128 = s % 86400;
    let r = ((tm + 86400 - sm) % 86400) as u32;
    proof {
        vstd::arithmetic::div_mod::lemma_sub_mod_noop(t as int, s as int, 86400);
        vstd::arithmetic::div_mod::lemma_mod_add_multiples_vanish(tm as int - sm as int, 86400);
        assert(tm as int + 86400 - sm as int == 86400 + (tm as int - sm as int));
    }
    r
}

impl Calculateable for Value {
    /// Apply one arithmetic operation, per [`spec_calculate`].
    fn calculate(self, rhs: &Self, operator: Arithmetic) -> (r: Result<Self, EvalError>)
        ensures
            (match r {
                Ok(v) => Ok::<ValueModel, ErrorModel>(v@),
                Err(e) => Err(e@),
            }) == spec_calculate(self@, rhs@, operator),
    {
        let ka = self.kind();
        let kb = rhs.kind();
        match operator {
            Arithmetic::Add => match (self, rhs) {
                (Value::String(x), Value::String(y)) => Ok(Value::String(x.concat(y.as_str()))),
                (Value::String(x), Value::Numeric(n)) => {
                    let rendered = crate::text::render_num(*n);
                    let with_space = x.concat(" ");
                    proof {
                        reveal_strlit(" ");
                        assert(" "@ =~= seq![' ']);
                    }
                    Ok(Value::String(with_space.concat(rendered.as_str())))
                },
                (Value::Numeric(x), Value::Numeric(y)) => Ok(
                    Value::Numeric(crate::num::num_add(x, *y)),
                ),
                (Value::Duration(x), Value::Duration(y)) => Ok(
                    Value::Duration(
                        match x.checked_add(*y) {
                            Some(v) => v,
                            None => u128::MAX,
                        },
                    ),
                ),
                (Value::Time(t), Value::Duration(d)) => Ok(Value::Time(time_add_exec(t, *d))),
                _ => Err(EvalError::IncompatibleTypes(operator, ka, kb)),
            },
            Arithmetic::Sub => match (self, rhs) {
                (Value::Numeric(x), Value::Numeric(y)) => Ok(
                    Value::Numeric(crate::num::num_sub(x, *y)),
                ),
                (Value::Duration(x), Value::Duration(y)) => Ok(
                    Value::Duration(
                        if x >= *y {
                            x - *y
                        } else {
                            0
                        },
                    ),
                ),
                (Value::Time(t), Value::Duration(d)) => Ok(Value::Time(time_sub_exec(t, *d))),
                _ => Err(EvalError::IncompatibleTypes(operator, ka, kb)),
            },
            Arithmetic::Mul => match (self, rhs) {
                (Value::Numeric(x), Value::Numeric(y)) => Ok(
                    Value::Numeric(crate::num::num_mul(x, *y)),
                ),
                (Value::Duration(x), Value::Numeric(n)) => {
                    let m = round_mult_exec(*n);
                    Ok(
                        Value::Duration(
                            match x.checked_mul(m as u128) {
                                Some(v) => v,
                                None => u128::MAX,
                            },
                        ),
                    )
                },
                _ => Err(EvalError::IncompatibleTypes(operator, ka, kb)),
            },
            Arithmetic::Div => match (self, rhs) {
                (Value::Numeric(x), Value::Numeric(y)) => {
                    if *y == 0 {
                        Err(EvalError::DivisionByZero)
                    } else {
                        Ok(Value::Numeric(crate::num::num_div(x, *y)))
                    }
                },
                (Value::Duration(x), Value::Numeric(n)) => {
                    let m = round_mult_exec(*n);
                    if m == 0 {
                        Err(EvalError::DivisionByZero)
                    } else {
                        Ok(Value::Duration(x / (m as u128)))
                    }
                },
                _ => Err(EvalError::IncompatibleTypes(operator, ka, kb)),
            },
        }
    }
}

} // verus!
