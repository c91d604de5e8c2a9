//! Building an expression of a requested size from sampled operators and
//! constants.
use super::constant_weights::{constant_entries, ConstantWeights};
use super::operator::Operator;
use super::operator_weights::{eligible, OperatorWeights};
use super::options::ExpressionOption;
use super::reading::{lemma_printed_text_reads_as_value, reading_of_text};
use super::sampler::entropy_generator;
use super::term::Constant;
use super::tree::{bounded, combine, representable, Tree};
use super::weight::{
    defaults, interval, lemma_completed_from_nothing, lemma_defaults_usable, usable, weights_of,
};
use super::Expression;
use crate::Error;
use rand::rngs::StdRng;
use vstd::pervasive::unreached;
use vstd::prelude::*;

verus! {

/// The integer brought into the range of a constant: one below the range
/// becomes its least value, one above it its greatest.
pub open spec fn clamped(value: int) -> int {
    if value < i32::MIN {
        i32::MIN as int
    } else if value > i32::MAX {
        i32::MAX as int
    } else {
        value
    }
}

/// The constant that joins the accumulator under the operator when `raw` was
/// drawn. Before a division it is `raw` times the accumulator's value,
/// brought into the range of a constant, so that the quotient is `raw`
/// again; an accumulator without an answer is joined by zero. Before any other
/// operator it is `raw` itself.
pub open spec fn joining_constant(operator: Operator, raw: int, accumulator: Tree) -> int {
    if operator == Operator::Division {
        match accumulator.answer() {
            Some(divisor) => clamped(raw * divisor),
            None => 0,
        }
    } else {
        raw
    }
}

/// One step of the generation: the operator applied to the joining constant
/// and then the accumulator, in this order.
pub open spec fn extended(accumulator: Tree, operator: Operator, raw: int) -> Tree {
    Tree::Node(
        operator,
        seq![Tree::Leaf(joining_constant(operator, raw, accumulator)), accumulator],
    )
}

/// The tree that a first constant and a sequence of draws, each an operator
/// and a raw constant, are folded into.
pub open spec fn assembled(first: int, draws: Seq<(Operator, int)>) -> Tree
    decreases draws.len(),
{
    if draws.len() == 0 {
        Tree::Leaf(first)
    } else {
        extended(assembled(first, draws.drop_last()), draws.last().0, draws.last().1)
    }
}

/// The draws as mathematics: each operator with the integer of its constant.
pub open spec fn draw_entries(draws: Seq<(Operator, Constant)>) -> Seq<(Operator, int)> {
    Seq::new(draws.len(), |i: int| (draws[i].0, draws[i].1@))
}

/// Whether a first constant and a sequence of draws fit a request: there is
/// one draw for each term after the first, every constant lies in the range
/// and every operator is allowed.
pub open spec fn fits_request(
    low: int,
    high: int,
    allowed: Seq<Operator>,
    terms: int,
    first: int,
    draws: Seq<(Operator, int)>,
) -> bool {
    &&& draws.len() + 1 == terms
    &&& low <= first <= high
    &&& forall|i: int|
        0 <= i < draws.len() ==> allowed.contains((#[trigger] draws[i]).0) && low <= draws[i].1
            <= high
}

/// The answer that the draws aim at: the first constant, and after each draw
/// the raw constant itself where the operator divides, else the operator
/// applied to the raw constant and the answer so far.
pub open spec fn intended(first: int, draws: Seq<(Operator, int)>) -> int
    decreases draws.len(),
{
    if draws.len() == 0 {
        first
    } else {
        let before = intended(first, draws.drop_last());
        let raw = draws.last().1;
        match draws.last().0 {
            Operator::Addition => raw + before,
            Operator::Subtraction => raw - before,
            Operator::Multiplication => raw * before,
            Operator::Division => raw,
        }
    }
}

/// Whether the draws can be folded without leaving the integers at hand:
/// no division meets an answer of zero or needs a dividend outside the range
/// of a constant, and every answer on the way is representable.
pub open spec fn smooth(first: int, draws: Seq<(Operator, int)>) -> bool
    decreases draws.len(),
{
    if draws.len() == 0 {
        representable(first)
    } else {
        let before = intended(first, draws.drop_last());
        let raw = draws.last().1;
        &&& smooth(first, draws.drop_last())
        &&& representable(raw)
        &&& representable(intended(first, draws))
        &&& draws.last().0 == Operator::Division ==> before != 0 && i32::MIN <= raw * before
            <= i32::MAX
    }
}

/// A division step restores the constant that was drawn: where the
/// accumulator has an answer other than zero, and the drawn constant times
/// that answer is in the range of a constant, the division is exact and the
/// extended tree has the drawn constant as its answer.
pub proof fn lemma_division_restores_constant(accumulator: Tree, raw: int)
    requires
        accumulator.answer() is Some,
        accumulator.answer()->0 != 0,
        i32::MIN <= raw * accumulator.answer()->0 <= i32::MAX,
    ensures
        extended(accumulator, Operator::Division, raw).answer() == Some(raw),
        extended(accumulator, Operator::Division, raw).value() == Some(raw),
{
    let divisor = accumulator.answer()->0;
    let dividend = raw * divisor;
    assert(dividend % divisor == 0 && dividend / divisor == raw && -0x8000_0000 <= raw
        <= 0x8000_0000) by (nonlinear_arith)
        requires
            dividend == raw * divisor,
            divisor != 0,
            -0x8000_0000 <= dividend <= 0x8000_0000,
    ;
    lemma_extended_answer(accumulator, Operator::Division, raw);
    extended(accumulator, Operator::Division, raw).lemma_answer_is_value();
}

/// The answer of an extended tree is the operator applied to the joining
/// constant and the answer of the accumulator, where that is representable.
pub proof fn lemma_extended_answer(accumulator: Tree, operator: Operator, raw: int)
    ensures
        extended(accumulator, operator, raw).answer() == bounded(
            combine(
                operator,
                Tree::Leaf(joining_constant(operator, raw, accumulator)).answer(),
                accumulator.answer(),
            ),
        ),
{
    let operands = seq![Tree::Leaf(joining_constant(operator, raw, accumulator)), accumulator];
    reveal_with_fuel(Tree::answer_of, 3);
    assert(Tree::answer_of(operator, operands, 2) == bounded(
        combine(operator, Tree::answer_of(operator, operands, 1), operands[1].answer()),
    ));
}

/// Draws that fold smoothly give a tree whose answer, and so its value, is
/// the intended one: every division in it is exact.
pub proof fn lemma_smooth_draws_are_exact(first: int, draws: Seq<(Operator, int)>)
    requires
        smooth(first, draws),
    ensures
        assembled(first, draws).answer() == Some(intended(first, draws)),
        assembled(first, draws).value() == Some(intended(first, draws)),
    decreases draws.len(),
{
    assembled(first, draws).lemma_answer_is_value();
    if draws.len() > 0 {
        let rest = draws.drop_last();
        let accumulator = assembled(first, rest);
        let raw = draws.last().1;
        lemma_smooth_draws_are_exact(first, rest);
        if draws.last().0 == Operator::Division {
            lemma_division_restores_constant(accumulator, raw);
        } else {
            lemma_extended_answer(accumulator, draws.last().0, raw);
        }
    }
}

/// The tree folded from a first constant and `n` draws has `n + 1` constants.
pub proof fn lemma_assembled_leaves(first: int, draws: Seq<(Operator, int)>)
    ensures
        assembled(first, draws).leaves() == draws.len() + 1,
    decreases draws.len(),
{
    if draws.len() > 0 {
        let accumulator = assembled(first, draws.drop_last());
        lemma_assembled_leaves(first, draws.drop_last());
        let operator = draws.last().0;
        let operands = seq![
            Tree::Leaf(joining_constant(operator, draws.last().1, accumulator)),
            accumulator,
        ];
        reveal_with_fuel(Tree::leaves_of, 3);
        assert(Tree::leaves_of(operands, 2) == Tree::leaves_of(operands, 1) + operands[1].leaves());
    }
}

/// The tree folded from constants is well formed: every constant of it is in
/// range and every operator has two operands.
pub proof fn lemma_assembled_well_formed(first: int, draws: Seq<(Operator, int)>)
    requires
        i32::MIN <= first <= i32::MAX,
        forall|i: int| 0 <= i < draws.len() ==> i32::MIN <= (#[trigger] draws[i]).1 <= i32::MAX,
    ensures
        assembled(first, draws).well_formed(),
    decreases draws.len(),
{
    if draws.len() > 0 {
        let rest = draws.drop_last();
        assert forall|i: int| 0 <= i < rest.len() implies i32::MIN <= (#[trigger] rest[i]).1
            <= i32::MAX by {
            assert(rest[i] == draws[i]);
        }
        lemma_assembled_well_formed(first, rest);
        let accumulator = assembled(first, rest);
        let leaf = Tree::Leaf(joining_constant(draws.last().0, draws.last().1, accumulator));
        let operands = seq![leaf, accumulator];
        assert(operands[0].well_formed() && operands[1].well_formed());
    }
}

/// The text of a generated expression reads back as its value: every first
/// operand of the folded tree is a constant, so that no grouping is lost in
/// print.
pub proof fn lemma_assembled_reads_back(first: int, draws: Seq<(Operator, int)>)
    ensures
        assembled(first, draws).first_operands_bind(),
        assembled(first, draws).value() is Some ==> reading_of_text(
            assembled(first, draws).tokens(),
        ) == assembled(first, draws).value(),
    decreases draws.len(),
{
    if draws.len() > 0 {
        let accumulator = assembled(first, draws.drop_last());
        lemma_assembled_reads_back(first, draws.drop_last());
        let leaf = Tree::Leaf(joining_constant(draws.last().0, draws.last().1, accumulator));
        let operands = seq![leaf, accumulator];
        assert(operands[0].first_operands_bind() && operands[1].first_operands_bind());
    }
    if assembled(first, draws).value() is Some {
        lemma_printed_text_reads_as_value(assembled(first, draws));
    }
}

impl Expression {
    /// Joins a freshly drawn constant to the expression under the operator:
    /// the new leaf comes first, the expression second. Before a division
    /// the leaf is the drawn constant times the answer of the expression, so
    /// that the quotient is the drawn constant again. A product outside the
    /// range of a constant becomes the nearest bound of the range, and an
    /// expression without an answer is joined by zero.
    pub fn extend(self, operator: Operator, raw: Constant) -> (r: Expression)
        ensures
            r@ == extended(self@, operator, raw@),
    {
        let ghost accumulator = self@;
        proof {
            raw.lemma_view_range();
        }
        let constant = if operator == Operator::Division {
            match self.get_answer() {
                Some(divisor) => {
                    let factor: i32 = raw.into();
                    assert(-0x8000_0000_0000_0000_0000_0000 <= (factor as int) * (divisor as int)
                        <= 0x8000_0000_0000_0000_0000_0000) by (nonlinear_arith)
                        requires
                            -0x8000_0000 <= factor <= 0x8000_0000,
                            -0x8000_0000_0000_0000 <= divisor <= 0x8000_0000_0000_0000,
                    ;
                    let product: i128 = (factor as i128) * (divisor as i128);
                    if product < i32::MIN as i128 {
                        Constant::new(i32::MIN)
                    } else if product > i32::MAX as i128 {
                        Constant::new(i32::MAX)
                    } else {
                        Constant::new(product as i32)
                    }
                },
                None => Constant::new(0),
            }
        } else {
            raw
        };
        let leaf: Expression = constant.into();
        let operands = vec![leaf, self];
        assert(super::views(operands@) =~= seq![Tree::Leaf(constant@), accumulator]);
        match Expression::create(&operator, operands) {
            Ok(expression) => expression,
            Err(_) => unreached(),
        }
    }

    /// Folds a first constant and a list of draws into an expression, one
    /// step for each draw in order.
    pub fn assemble(first: Constant, draws: &Vec<(Operator, Constant)>) -> (r: Expression)
        ensures
            r@ == assembled(first@, draw_entries(draws@)),
    {
        let ghost entries = draw_entries(draws@);
        let mut expression: Expression = first.into();
        let mut i: usize = 0;
        while i < draws.len()
            invariant
                i <= draws@.len(),
                entries == draw_entries(draws@),
                expression@ == assembled(first@, entries.take(i as int)),
            decreases draws@.len() - i,
        {
            let (operator, raw) = draws[i];
            proof {
                let next = entries.take(i + 1);
                assert(next.drop_last() =~= entries.take(i as int));
            }
            expression = expression.extend(operator, raw);
            i += 1;
        }
        assert(entries.take(draws@.len() as int) =~= entries);
        expression
    }

    /// Generates an expression with the requested number of terms, making
    /// every draw with the generator. Each operator is drawn among the
    /// allowed ones by the weights, each constant from the range with equal
    /// chances, and the draws are folded as [`Expression::assemble`] does.
    ///
    /// The generation fails exactly when no operator can be drawn: when the
    /// weights of the eligible entries are not usable.
    pub fn generate_with(
        options: &ExpressionOption,
        weights: OperatorWeights,
        generator: &mut StdRng,
    ) -> (r: Result<Expression, Error>)
        ensures
            r is Ok <==> usable(weights_of(eligible(weights@, options.allowed_operators@))),
            r matches Err(error) ==> error == Error::SamplingFailure,
            r matches Ok(expression) ==> exists|first: int, draws: Seq<(Operator, int)>|
                #![trigger assembled(first, draws)]
                fits_request(
                    options.constant.min(),
                    options.constant.max(),
                    options.allowed_operators@,
                    options.term_count@,
                    first,
                    draws,
                ) && expression@ == assembled(first, draws),
            r matches Ok(expression) ==> expression@.leaves() == options.term_count@,
    {
        let mut operator = match weights.get_random_operator_with(
            &options.allowed_operators,
            generator,
        ) {
            Ok(operator) => operator,
            Err(error) => {
                return Err(error);
            },
        };
        let first_constant = draw_constant(options, generator);
        let mut expression: Expression = first_constant.into();
        let term_count = options.term_count.get();
        let ghost first = first_constant@;
        let ghost mut draws = Seq::<(Operator, int)>::empty();
        let mut term: u8 = 1;
        while term < term_count
            invariant
                1 <= term <= term_count,
                term_count == options.term_count@,
                options.allowed_operators@.contains(operator),
                usable(weights_of(eligible(weights@, options.allowed_operators@))),
                fits_request(
                    options.constant.min(),
                    options.constant.max(),
                    options.allowed_operators@,
                    term as int,
                    first,
                    draws,
                ),
                expression@ == assembled(first, draws),
            decreases term_count - term,
        {
            let constant = draw_constant(options, generator);
            proof {
                let next = draws.push((operator, constant@));
                assert(next.drop_last() =~= draws);
                draws = next;
            }
            expression = expression.extend(operator, constant);
            operator = match weights.get_random_operator_with(
                &options.allowed_operators,
                generator,
            ) {
                Ok(operator) => operator,
                Err(_) => unreached(),
            };
            term += 1;
        }
        proof {
            lemma_assembled_leaves(first, draws);
        }
        Ok(expression)
    }

    /// Generates an expression as [`Expression::generate_with`] does, with a
    /// generator seeded by the operating system.
    pub fn generate(options: &ExpressionOption, weights: OperatorWeights) -> (r: Result<
        Expression,
        Error,
    >)
        ensures
            r is Ok <==> usable(weights_of(eligible(weights@, options.allowed_operators@))),
            r matches Err(error) ==> error == Error::SamplingFailure,
            r matches Ok(expression) ==> exists|first: int, draws: Seq<(Operator, int)>|
                #![trigger assembled(first, draws)]
                fits_request(
                    options.constant.min(),
                    options.constant.max(),
                    options.allowed_operators@,
                    options.term_count@,
                    first,
                    draws,
                ) && expression@ == assembled(first, draws),
            r matches Ok(expression) ==> expression@.leaves() == options.term_count@,
    {
        let mut generator = entropy_generator();
        Expression::generate_with(options, weights, &mut generator)
    }
}

/// Draws a constant from the range of the request, every constant of the
/// range having the same weight. The table is built anew for each draw.
fn draw_constant(options: &ExpressionOption, generator: &mut StdRng) -> (r: Constant)
    ensures
        options.constant.min() <= r@ <= options.constant.max(),
{
    let constant_weights = ConstantWeights::new(Vec::new(), &options.constant);
    let ghost domain = interval(options.constant.min(), options.constant.max());
    // The getter tells that the bounds of the range are in order.
    let _ = options.constant.get_min();
    proof {
        assert(constant_entries(Seq::empty()) =~= Seq::<(int, int)>::empty());
        lemma_completed_from_nothing(domain);
        lemma_defaults_usable(domain);
    }
    match constant_weights.get_random_with(generator) {
        Ok(constant) => {
            proof {
                let i = choose|i: int| 0 <= i < domain.len() && domain[i] == constant@;
            }
            constant
        },
        Err(_) => unreached(),
    }
}

} // verus!
