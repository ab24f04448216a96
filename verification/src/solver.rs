//! The evaluator: folds a parsed [`Sequence`] into one boolean, resolving
//! variables through a [`Resolver`].
//!
//! The fold is strictly left to right with no operator precedence and no
//! short-circuiting: every entry is evaluated, and its result is combined
//! with the accumulated result of the entries before it by its logic tag.

use vstd::prelude::*;

use crate::calculate::{Arithmetic, Calculateable, Calculation, CalculationModel};
use crate::compare::{
    Compareable, Comparison, ComparisonModel, ComparisonPolicy, ComparisonType, Logic,
    OperandModel,
};
use crate::errors::{ErrorModel, EvalError};
use crate::resolver::Resolver;
use crate::sequence::{
    entities_model, entity_model, lemma_entities_model_index, spec_entity_logic, Entity,
    EntityModel, Sequence,
};
use crate::value::{spec_calculate, spec_compare_with, Value, ValueModel};

verus! {

/// The most deeply nested group the solver will enter before failing closed
/// with a depth error.
pub const MAX_NESTING_DEPTH: u64 = 64;

/// The image of a solve result, with the error modelled.
pub open spec fn bool_result_model(r: Result<bool, EvalError>) -> Result<bool, ErrorModel> {
    match r {
        Ok(b) => Ok(b),
        Err(e) => Err(e@),
    }
}

/// The image of a value result, with the error modelled.
pub open spec fn value_result_model(r: Result<Value, EvalError>) -> Result<ValueModel, ErrorModel> {
    match r {
        Ok(v) => Ok(v@),
        Err(e) => Err(e@),
    }
}

/// One arithmetic step: the step's right operand is a literal or is looked up
/// in the binding, then combined by the step's operation.
pub open spec fn eval_calc_step(
    base: ValueModel,
    c: CalculationModel,
    env: Map<Seq<char>, ValueModel>,
) -> Result<ValueModel, ErrorModel> {
    match c {
        CalculationModel::Value(v, op) => spec_calculate(base, v, op),
        CalculationModel::Variable(name, op) => if env.contains_key(name) {
            spec_calculate(base, env[name], op)
        } else {
            Err(ErrorModel::UnresolvedVariable(name))
        },
    }
}

/// A calculation chain applied strictly in encounter order.
pub open spec fn eval_calcs(
    base: ValueModel,
    calcs: Seq<CalculationModel>,
    env: Map<Seq<char>, ValueModel>,
) -> Result<ValueModel, ErrorModel>
    decreases calcs.len(),
{
    if calcs.len() == 0 {
        Ok(base)
    } else {
        match eval_calc_step(base, calcs[0], env) {
            Ok(v) => eval_calcs(v, calcs.skip(1), env),
            Err(e) => Err(e),
        }
    }
}

/// An operand: its base is a literal or a lookup, then its calculation chain
/// is applied.
pub open spec fn eval_operand(o: OperandModel, env: Map<Seq<char>, ValueModel>) -> Result<
    ValueModel,
    ErrorModel,
> {
    match o {
        OperandModel::Value(v, calcs) => eval_calcs(v, calcs, env),
        OperandModel::Variable(name, calcs) => if env.contains_key(name) {
            eval_calcs(env[name], calcs, env)
        } else {
            Err(ErrorModel::UnresolvedVariable(name))
        },
    }
}

/// One comparison: the left operand is evaluated first, then the right, then
/// the two values are compared under the chosen policy.
pub open spec fn eval_comparison(
    c: ComparisonModel,
    env: Map<Seq<char>, ValueModel>,
    policy: ComparisonPolicy,
) -> Result<bool, ErrorModel> {
    match eval_operand(c.what, env) {
        Err(e) => Err(e),
        Ok(l) => match eval_operand(c.against, env) {
            Err(e) => Err(e),
            Ok(r) => spec_compare_with(policy, l, r, c.operator),
        },
    }
}

/// How an entry's result joins the accumulated result: `And` and `Or` apply
/// the boolean operation, no tag overwrites.
pub open spec fn fold_logic(acc: bool, r: bool, logic: Option<Logic>) -> bool {
    match logic {
        Some(Logic::And) => acc && r,
        Some(Logic::Or) => acc || r,
        None => r,
    }
}

/// One entity: a comparison evaluates directly; a child sequence is folded
/// recursively, spending one level of the depth budget.
pub open spec fn eval_entity(
    e: EntityModel,
    env: Map<Seq<char>, ValueModel>,
    depth: nat,
    policy: ComparisonPolicy,
) -> Result<bool, ErrorModel>
    decreases e, 0int,
{
    match e {
        EntityModel::Comparison(c, _) => eval_comparison(c, env, policy),
        EntityModel::Child(sub, _) => if depth == 0 {
            Err(ErrorModel::DepthExceeded)
        } else {
            eval_entities(sub, env, true, (depth - 1) as nat, policy)
        },
    }
}

/// The left-to-right fold over a list of entities, starting from `acc`.
/// Every entity is evaluated (no short-circuiting); an error ends the fold.
pub open spec fn eval_entities(
    s: Seq<EntityModel>,
    env: Map<Seq<char>, ValueModel>,
    acc: bool,
    depth: nat,
    policy: ComparisonPolicy,
) -> Result<bool, ErrorModel>
    decreases s, 1int,
{
    if s.len() == 0 {
        Ok(acc)
    } else {
        match eval_entity(s[0], env, depth, policy) {
            Err(e) => Err(e),
            Ok(r) => eval_entities(
                s.skip(1),
                env,
                fold_logic(acc, r, spec_entity_logic(s[0])),
                depth,
                policy,
            ),
        }
    }
}

/// What solving a sequence against a binding yields under a chosen policy:
/// the fold, seeded with `true`, under the full depth budget.
pub open spec fn spec_solve_with(
    s: Seq<EntityModel>,
    env: Map<Seq<char>, ValueModel>,
    policy: ComparisonPolicy,
) -> Result<bool, ErrorModel> {
    eval_entities(s, env, true, MAX_NESTING_DEPTH as nat, policy)
}

/// What solving a sequence against a binding yields under the default
/// strict policy.
pub open spec fn spec_solve(s: Seq<EntityModel>, env: Map<Seq<char>, ValueModel>) -> Result<
    bool,
    ErrorModel,
> {
    spec_solve_with(s, env, ComparisonPolicy::Strict)
}

/// Apply a calculation chain to `input_value`, resolving variable steps.
fn produce_final_value<R: Resolver>(
    input_value: Value,
    calculations: &Vec<Calculation>,
    resolver: &R,
) -> (r: Result<Value, EvalError>)
    ensures
        value_result_model(r) == eval_calcs(
            input_value@,
            crate::calculate::calcs_view(calculations@),
            resolver.env(),
        ),
{
    let ghost full = crate::calculate::calcs_view(calculations@);
    proof {
        assert(full.skip(0) =~= full);
    }
    let mut current = input_value;
    let mut i: usize = 0;
    while i < calculations.len()
        invariant
            i <= calculations@.len(),
            full == crate::calculate::calcs_view(calculations@),
            eval_calcs(current@, full.skip(i as int), resolver.env()) == eval_calcs(
                input_value@,
                full,
                resolver.env(),
            ),
        decreases calculations@.len() - i,
    {
        proof {
            assert(full.skip(i as int)[0] == calculations@[i as int]@);
            assert(full.skip(i as int).skip(1) =~= full.skip(i as int + 1));
        }
        let (item_value, item_arithmetic) = match &calculations[i] {
            Calculation::Value(value, arithmetic) => (value.clone(), *arithmetic),
            Calculation::Variable(name, arithmetic) => {
                match resolver.resolve(name.as_str()) {
                    Some(value) => (value, *arithmetic),
                    None => {
                        return Err(EvalError::UnresolvedVariable(name.clone()));
                    },
                }
            },
        };
        current = match current.calculate(&item_value, item_arithmetic) {
            Ok(v) => v,
            Err(e) => {
                return Err(e);
            },
        };
        i = i + 1;
    }
    proof {
        assert(full.skip(i as int) =~= Seq::<CalculationModel>::empty());
    }
    Ok(current)
}

/// Evaluate one operand: resolve its base, then apply its chain.
fn resolve_var<R: Resolver>(comparison: &ComparisonType, resolver: &R) -> (r: Result<
    Value,
    EvalError,
>)
    ensures
        value_result_model(r) == eval_operand(comparison@, resolver.env()),
{
    match comparison {
        ComparisonType::Value(value, value_calculations) => produce_final_value(
            value.clone(),
            value_calculations,
            resolver,
        ),
        ComparisonType::Variable(variable_name, variable_calculations) => {
            match resolver.resolve(variable_name.as_str()) {
                Some(value) => produce_final_value(value, variable_calculations, resolver),
                None => Err(EvalError::UnresolvedVariable(variable_name.clone())),
            }
        },
    }
}

/// Solve a single comparison against the given resolver under the default
/// strict policy.
pub fn solve_one<R: Resolver>(comparison: &Comparison, resolver: &R) -> (r: Result<bool, EvalError>)
    ensures
        bool_result_model(r) == eval_comparison(
            comparison@,
            resolver.env(),
            ComparisonPolicy::Strict,
        ),
{
    solve_one_with_policy(comparison, resolver, ComparisonPolicy::Strict)
}

/// Solve a single comparison against the given resolver under the given
/// comparison policy.
pub fn solve_one_with_policy<R: Resolver>(
    comparison: &Comparison,
    resolver: &R,
    policy: ComparisonPolicy,
) -> (r: Result<bool, EvalError>)
    ensures
        bool_result_model(r) == eval_comparison(comparison@, resolver.env(), policy),
{
    let left_value = match resolve_var(&comparison.what, resolver) {
        Ok(v) => v,
        Err(e) => {
            return Err(e);
        },
    };
    let right_value = match resolve_var(&comparison.against, resolver) {
        Ok(v) => v,
        Err(e) => {
            return Err(e);
        },
    };
    left_value.compare_with(&right_value, comparison.operator, policy)
}

/// Evaluate one entity under the given depth budget.
fn solve_entity<R: Resolver>(
    entity: &Entity,
    resolver: &R,
    depth: u64,
    policy: ComparisonPolicy,
) -> (r: Result<bool, EvalError>)
    ensures
        bool_result_model(r) == eval_entity(entity@, resolver.env(), depth as nat, policy),
    decreases depth, 0int,
{
    match entity {
        Entity::Comparison(comparison, _) => solve_one_with_policy(comparison, resolver, policy),
        Entity::Child(sub, _) => {
            if depth == 0 {
                Err(EvalError::DepthExceeded)
            } else {
                solve_entities(&sub.items, resolver, depth - 1, policy)
            }
        },
    }
}

/// Fold a list of entities left to right, seeded with `true`.
fn solve_entities<R: Resolver>(
    items: &Vec<Entity>,
    resolver: &R,
    depth: u64,
    policy: ComparisonPolicy,
) -> (r: Result<bool, EvalError>)
    ensures
        bool_result_model(r) == eval_entities(
            entities_model(items@),
            resolver.env(),
            true,
            depth as nat,
            policy,
        ),
    decreases depth, 1int,
{
    let ghost full = entities_model(items@);
    proof {
        lemma_entities_model_index(items@);
        assert(full.skip(0) =~= full);
    }
    let mut result = true;
    let mut i: usize = 0;
    while i < items.len()
        invariant
            i <= items@.len(),
            full == entities_model(items@),
            full.len() == items@.len(),
            forall|j: int| 0 <= j < items@.len() ==> #[trigger] full[j] == entity_model(items@[j]),
            eval_entities(full.skip(i as int), resolver.env(), result, depth as nat, policy)
                == eval_entities(full, resolver.env(), true, depth as nat, policy),
        decreases items@.len() - i,
    {
        proof {
            assert(full.skip(i as int)[0] == full[i as int]);
            assert(full.skip(i as int).skip(1) =~= full.skip(i as int + 1));
        }
        let entry = &items[i];
        let child_result = match solve_entity(entry, resolver, depth, policy) {
            Ok(b) => b,
            Err(e) => {
                return Err(e);
            },
        };
        let logic = entry.logic();
        result = match logic {
            Some(Logic::And) => result && child_result,
            Some(Logic::Or) => result || child_result,
            None => child_result,
        };
        i = i + 1;
    }
    proof {
        assert(full.skip(i as int) =~= Seq::<EntityModel>::empty());
    }
    Ok(result)
}

/// Solve a [`Sequence`] to a final boolean, resolving variables through the
/// given resolver: the left-to-right fold of [`spec_solve`], under the
/// default strict policy.
pub fn solve_tree<R: Resolver>(sequence: &Sequence, resolver: &R) -> (r: Result<bool, EvalError>)
    ensures
        bool_result_model(r) == spec_solve(sequence@, resolver.env()),
{
    solve_entities(&sequence.items, resolver, MAX_NESTING_DEPTH, ComparisonPolicy::Strict)
}

/// Solve a [`Sequence`] under the given comparison policy: the left-to-right
/// fold of [`spec_solve_with`].
pub fn solve_tree_with_policy<R: Resolver>(
    sequence: &Sequence,
    resolver: &R,
    policy: ComparisonPolicy,
) -> (r: Result<bool, EvalError>)
    ensures
        bool_result_model(r) == spec_solve_with(sequence@, resolver.env(), policy),
{
    solve_entities(&sequence.items, resolver, MAX_NESTING_DEPTH, policy)
}

/// Solve a [`Sequence`] under a caller-chosen nesting bound in place of
/// [`MAX_NESTING_DEPTH`].
pub fn solve_tree_with_depth<R: Resolver>(
    sequence: &Sequence,
    resolver: &R,
    max_depth: u64,
) -> (r: Result<bool, EvalError>)
    ensures
        bool_result_model(r) == eval_entities(
            sequence@,
            resolver.env(),
            true,
            max_depth as nat,
            ComparisonPolicy::Strict,
        ),
{
    solve_entities(&sequence.items, resolver, max_depth, ComparisonPolicy::Strict)
}

/// Solving is a function of the tree and the binding alone: two solves of
/// the same sequence against an unchanged binding yield the same result.
pub proof fn lemma_solve_deterministic(
    s: Seq<EntityModel>,
    env: Map<Seq<char>, ValueModel>,
    policy: ComparisonPolicy,
    r1: Result<bool, ErrorModel>,
    r2: Result<bool, ErrorModel>,
)
    requires
        r1 == spec_solve_with(s, env, policy),
        r2 == spec_solve_with(s, env, policy),
    ensures
        r1 == r2,
{
}

/// The fold is strictly left to right with no precedence: extending a
/// sequence by one entity combines the fold of the earlier entries with the
/// new entity's own result, under the new entity's logic tag alone —
/// whatever operators the earlier entries carried.
pub proof fn lemma_fold_step(
    s: Seq<EntityModel>,
    e: EntityModel,
    env: Map<Seq<char>, ValueModel>,
    acc: bool,
    depth: nat,
    policy: ComparisonPolicy,
)
    ensures
        eval_entities(s.push(e), env, acc, depth, policy) == (match eval_entities(
            s,
            env,
            acc,
            depth,
            policy,
        ) {
            Ok(b) => match eval_entity(e, env, depth, policy) {
                Ok(r) => Ok::<bool, ErrorModel>(fold_logic(b, r, spec_entity_logic(e))),
                Err(err) => Err::<bool, ErrorModel>(err),
            },
            Err(err) => Err::<bool, ErrorModel>(err),
        }),
    decreases s.len(),
{
    if s.len() == 0 {
        assert(s.push(e).len() == 1);
        assert(s.push(e)[0] == e);
        assert(eval_entities(s, env, acc, depth, policy) == Ok::<bool, ErrorModel>(acc));
        assert(s.push(e).skip(1) =~= Seq::<EntityModel>::empty());
        match eval_entity(e, env, depth, policy) {
            Ok(r) => {
                let acc2 = fold_logic(acc, r, spec_entity_logic(e));
                assert(eval_entities(s.push(e), env, acc, depth, policy) == eval_entities(
                    s.push(e).skip(1),
                    env,
                    acc2,
                    depth,
                    policy,
                ));
                assert(eval_entities(s.push(e).skip(1), env, acc2, depth, policy) == Ok::<
                    bool,
                    ErrorModel,
                >(acc2));
            },
            Err(_) => {
            },
        }
    } else {
        assert(s.push(e)[0] == s[0]);
        assert(s.push(e).skip(1) =~= s.skip(1).push(e));
        match eval_entity(s[0], env, depth, policy) {
            Ok(r) => {
                let acc2 = fold_logic(acc, r, spec_entity_logic(s[0]));
                assert(eval_entities(s.push(e), env, acc, depth, policy) == eval_entities(
                    s.skip(1).push(e),
                    env,
                    acc2,
                    depth,
                    policy,
                ));
                assert(eval_entities(s, env, acc, depth, policy) == eval_entities(
                    s.skip(1),
                    env,
                    acc2,
                    depth,
                    policy,
                ));
                lemma_fold_step(s.skip(1), e, env, acc2, depth, policy);
            },
            Err(_) => {
            },
        }
    }
}

/// An unresolved variable is an error, never a silent `false`: a comparison
/// whose left operand names a variable the binding does not hold fails with
/// exactly that variable's name.
pub proof fn lemma_unresolved_variable(
    c: ComparisonModel,
    env: Map<Seq<char>, ValueModel>,
    policy: ComparisonPolicy,
    name: Seq<char>,
    calcs: Seq<CalculationModel>,
)
    requires
        c.what == OperandModel::Variable(name, calcs),
        !env.contains_key(name),
    ensures
        eval_comparison(c, env, policy) == Err::<bool, ErrorModel>(
            ErrorModel::UnresolvedVariable(name),
        ),
{
}

} // verus!
