//! The solver, as far as this crate uses it. Every item in this file states
//! something about the `z3` crate that Verus takes on trust.
//!
//! A Z3 object belongs to the context it was made in, and objects of two
//! contexts must never meet in one call. The specifications below therefore
//! name, for each kind of object, the context it belongs to, next to what the
//! object holds: the expression a term was built as, the constraints a solver
//! was given.
use vstd::prelude::*;
use z3::ast::Ast;
use crate::constraint::{Constraint, Term};

verus! {

/// `z3::Config`: the settings a context is made from.
#[verifier::external_type_specification]
#[verifier::external_body]
pub struct ExConfig(z3::Config);

/// `z3::Context`: the owner of all terms, solvers and models made in it.
#[verifier::external_type_specification]
#[verifier::external_body]
pub struct ExContext(z3::Context);

/// `z3::Solver`: a store of asserted constraints that can be checked for
/// satisfiability.
#[verifier::external_type_specification]
#[verifier::external_body]
pub struct ExSolver<'ctx>(z3::Solver<'ctx>);

/// `z3::Model`: the values that the solver found for the unknowns.
#[verifier::external_type_specification]
#[verifier::external_body]
pub struct ExModel<'ctx>(z3::Model<'ctx>);

/// `z3::ast::Int`: an integer term.
#[verifier::external_type_specification]
#[verifier::external_body]
pub struct ExInt<'ctx>(z3::ast::Int<'ctx>);

/// `z3::ast::Bool`: a boolean term.
#[verifier::external_type_specification]
#[verifier::external_body]
pub struct ExBool<'ctx>(z3::ast::Bool<'ctx>);

/// `z3::SatResult`: the three answers of a satisfiability check.
#[verifier::external_type_specification]
pub struct ExSatResult(z3::SatResult);

/// The expression that an integer term was built as.
pub uninterp spec fn int_term(term: z3::ast::Int) -> Term;

/// The context that an integer term belongs to.
pub uninterp spec fn int_context(term: z3::ast::Int) -> z3::Context;

/// The constraint that a boolean term was built as.
pub uninterp spec fn bool_constraint(term: z3::ast::Bool) -> Constraint;

/// The context that a boolean term belongs to.
pub uninterp spec fn bool_context(term: z3::ast::Bool) -> z3::Context;

/// The constraints that were asserted into a solver, in the order of the calls.
pub uninterp spec fn solver_assertions(solver: z3::Solver) -> Seq<Constraint>;

/// The context that a solver belongs to.
pub uninterp spec fn solver_context(solver: z3::Solver) -> z3::Context;

/// The context that a model belongs to.
pub uninterp spec fn model_context(model: z3::Model) -> z3::Context;

/// `z3::Config::new`: the default settings. Nothing is stated of them.
#[verifier::external_body]
pub(crate) fn new_config() -> z3::Config {
    z3::Config::new()
}

/// `z3::Context::new`: a context of its own. Nothing is stated of it.
#[verifier::external_body]
pub(crate) fn new_context(config: &z3::Config) -> z3::Context {
    z3::Context::new(config)
}

/// `z3::Solver::new`: a solver of the given context, with nothing asserted.
#[verifier::external_body]
pub(crate) fn new_solver<'ctx>(ctx: &'ctx z3::Context) -> (solver: z3::Solver<'ctx>)
    ensures
        solver_assertions(solver) == Seq::<Constraint>::empty(),
        solver_context(solver) == *ctx,
{
    z3::Solver::new(ctx)
}

/// `z3::ast::Int::new_const`, with the letter itself as the name: the integer
/// unknown of that name. Two calls with one letter give the same unknown. The
/// name is turned into a C string, which fails on the NUL character.
#[verifier::external_body]
pub(crate) fn int_unknown<'ctx>(ctx: &'ctx z3::Context, letter: char) -> (term: z3::ast::Int<'ctx>)
    requires
        letter != '\0',
    ensures
        int_term(term) == Term::Letter(letter),
        int_context(term) == *ctx,
{
    z3::ast::Int::new_const(ctx, letter.to_string())
}

/// `z3::ast::Int::from_i64`: the numeral of the given value.
#[verifier::external_body]
pub(crate) fn int_number<'ctx>(ctx: &'ctx z3::Context, value: i64) -> (term: z3::ast::Int<'ctx>)
    ensures
        int_term(term) == Term::Number(value as int),
        int_context(term) == *ctx,
{
    z3::ast::Int::from_i64(ctx, value)
}

/// `z3::ast::Int::add` on two terms: their sum. It panics on a term of
/// another context.
#[verifier::external_body]
pub(crate) fn int_sum<'ctx>(
    ctx: &'ctx z3::Context,
    left: &z3::ast::Int<'ctx>,
    right: &z3::ast::Int<'ctx>,
) -> (term: z3::ast::Int<'ctx>)
    requires
        int_context(*left) == *ctx,
        int_context(*right) == *ctx,
    ensures
        int_term(term) == Term::Sum(Box::new(int_term(*left)), Box::new(int_term(*right))),
        int_context(term) == *ctx,
{
    z3::ast::Int::add(ctx, &[left, right])
}

/// `z3::ast::Int::mul` on two terms: their product. It panics on a term of
/// another context.
#[verifier::external_body]
pub(crate) fn int_product<'ctx>(
    ctx: &'ctx z3::Context,
    left: &z3::ast::Int<'ctx>,
    right: &z3::ast::Int<'ctx>,
) -> (term: z3::ast::Int<'ctx>)
    requires
        int_context(*left) == *ctx,
        int_context(*right) == *ctx,
    ensures
        int_term(term) == Term::Product(Box::new(int_term(*left)), Box::new(int_term(*right))),
        int_context(term) == *ctx,
{
    z3::ast::Int::mul(ctx, &[left, right])
}

/// `z3::ast::Int::ge`: the constraint that `left` is at least `right`. It
/// panics when the two terms are of different contexts.
#[verifier::external_body]
pub(crate) fn int_at_least<'ctx>(left: &z3::ast::Int<'ctx>, right: &z3::ast::Int<'ctx>) -> (term:
    z3::ast::Bool<'ctx>)
    requires
        int_context(*left) == int_context(*right),
    ensures
        bool_constraint(term) == Constraint::AtLeast(int_term(*left), int_term(*right)),
        bool_context(term) == int_context(*left),
{
    left.ge(right)
}

/// `z3::ast::Int::le`: the constraint that `left` is at most `right`. It
/// panics when the two terms are of different contexts.
#[verifier::external_body]
pub(crate) fn int_at_most<'ctx>(left: &z3::ast::Int<'ctx>, right: &z3::ast::Int<'ctx>) -> (term:
    z3::ast::Bool<'ctx>)
    requires
        int_context(*left) == int_context(*right),
    ensures
        bool_constraint(term) == Constraint::AtMost(int_term(*left), int_term(*right)),
        bool_context(term) == int_context(*left),
{
    left.le(right)
}

/// `z3::ast::Ast::_eq` on integer terms: the constraint that the two are
/// equal. It panics when the sorts of the two terms differ, which they do not
/// for two integer terms of one context.
#[verifier::external_body]
pub(crate) fn int_equal<'ctx>(left: &z3::ast::Int<'ctx>, right: &z3::ast::Int<'ctx>) -> (term:
    z3::ast::Bool<'ctx>)
    requires
        int_context(*left) == int_context(*right),
    ensures
        bool_constraint(term) == Constraint::Equal(int_term(*left), int_term(*right)),
        bool_context(term) == int_context(*left),
{
    left._eq(right)
}

/// `z3::ast::Ast::distinct` on integer terms: the constraint that no two of
/// them are equal. It panics on more than `u32::MAX` terms.
#[verifier::external_body]
pub(crate) fn int_distinct<'ctx>(ctx: &'ctx z3::Context, terms: &Vec<z3::ast::Int<'ctx>>) -> (term:
    z3::ast::Bool<'ctx>)
    requires
        terms.len() <= u32::MAX,
        forall|i: int| 0 <= i < terms.len() ==> int_context(#[trigger] terms[i]) == *ctx,
    ensures
        bool_constraint(term) == Constraint::Distinct(
            Seq::new(terms.len() as nat, |i: int| int_term(terms[i])),
        ),
        bool_context(term) == *ctx,
{
    let borrowed: Vec<&z3::ast::Int<'ctx>> = terms.iter().collect();
    z3::ast::Int::distinct(ctx, &borrowed)
}

/// `z3::Solver::assert`: adds the constraint to those of the solver.
#[verifier::external_body]
pub(crate) fn solver_assert<'ctx>(solver: &mut z3::Solver<'ctx>, constraint: &z3::ast::Bool<'ctx>)
    requires
        bool_context(*constraint) == solver_context(*old(solver)),
    ensures
        solver_assertions(*final(solver)) == solver_assertions(*old(solver)).push(
            bool_constraint(*constraint),
        ),
        solver_context(*final(solver)) == solver_context(*old(solver)),
{
    solver.assert(constraint)
}

/// `z3::Solver::check`: the solver's answer on whether its constraints can
/// all be met. The answer is the solver's own: nothing is stated of it.
#[verifier::external_body]
pub(crate) fn solver_check<'ctx>(solver: &z3::Solver<'ctx>) -> z3::SatResult {
    solver.check()
}

/// `z3::Solver::get_model`: the model of the last check, where there is one.
#[verifier::external_body]
pub(crate) fn solver_model<'ctx>(solver: &z3::Solver<'ctx>) -> (model: Option<z3::Model<'ctx>>)
    ensures
        model matches Some(found) ==> model_context(found) == solver_context(*solver),
{
    solver.get_model()
}

/// `z3::Model::eval`: the value that the model gives a term, as a term, where
/// the evaluation succeeds. Which value that is, is the solver's choice.
#[verifier::external_body]
pub(crate) fn model_value<'ctx>(model: &z3::Model<'ctx>, term: &z3::ast::Int<'ctx>) -> (value:
    Option<z3::ast::Int<'ctx>>)
    requires
        int_context(*term) == model_context(*model),
{
    model.eval(term)
}

/// `z3::ast::Int::as_i64`: the integer that a term is the numeral of, where
/// it is one and fits.
#[verifier::external_body]
pub(crate) fn int_as_i64<'ctx>(term: &z3::ast::Int<'ctx>) -> Option<i64> {
    term.as_i64()
}

} // verus!
