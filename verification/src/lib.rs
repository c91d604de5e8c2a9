//! Weighted random generation and canonical formatting of arithmetic
//! expressions over integer constants.
//!
//! An [`expression::Expression`] is a tree of constants and n-ary operator
//! nodes. The generator folds sampled operators and constants into such a
//! tree and scales every dividend so that its division is exact. The
//! formatter prints a tree as a token sequence and puts an operand in
//! parentheses where the precedence and commutativity of the operators ask
//! for it; what it prints for a generated expression reads back, under the
//! standard rules of precedence, as the value of the expression.
//!
//! All arithmetic is exact and on integers. An answer is a 64-bit signed
//! integer, and there is none where a division leaves a remainder. A sampling
//! weight is a fixed-point number in millionths, from -1_000_000 for -1.0 to
//! 1_000_000 for 1.0.
use expression::generate::{assembled, fits_request};
use expression::operator::Operator;
use expression::operator_weights::{eligible, OperatorWeights};
use expression::options::ExpressionOption;
use expression::weight::{usable, weights_of};
use expression::Expression;
use rand::rngs::StdRng;
use vstd::prelude::*;

pub mod expression;

verus! {

/// Why a value of this library could not be built, or a draw could not be made.
#[derive(Debug, Clone, Copy, PartialEq, Eq, Structural)]
pub enum Error {
    /// A sampling weight lies outside the unit range.
    WeightOutOfRange,
    /// An operator node was given fewer than two operands.
    ExpressionTooShort,
    /// The set of allowed operators is empty.
    OperatorMissing,
    /// Fewer than two terms were requested.
    TermMissing,
    /// The constant range has its lower bound above its upper bound.
    ConstantOptionOutOfRange,
    /// The weights offered for one draw carry no usable mass.
    SamplingFailure,
}

/// One generated problem.
#[derive(Debug)]
pub struct Equation {
    pub expression: Expression,
}

impl Equation {
    /// Generates the expression of a problem with the generator, as
    /// [`Expression::generate_with`] does.
    pub fn generate_with(
        options: &ExpressionOption,
        weights: OperatorWeights,
        generator: &mut StdRng,
    ) -> (r: Result<Self, Error>)
        ensures
            r is Ok <==> usable(weights_of(eligible(weights@, options.allowed_operators@))),
            r matches Err(error) ==> error == Error::SamplingFailure,
            r matches Ok(equation) ==> exists|first: int, draws: Seq<(Operator, int)>|
                #![trigger assembled(first, draws)]
                fits_request(
                    options.constant.min(),
                    options.constant.max(),
                    options.allowed_operators@,
                    options.term_count@,
                    first,
                    draws,
                ) && equation.expression@ == assembled(first, draws),
            r matches Ok(equation) ==> equation.expression@.leaves() == options.term_count@,
    {
        match Expression::generate_with(options, weights, generator) {
            Ok(expression) => Ok(Self { expression }),
            Err(error) => Err(error),
        }
    }

    /// Generates the expression of a problem, as [`Expression::generate`]
    /// does.
    pub fn generate(options: &ExpressionOption, weights: OperatorWeights) -> (r: Result<
        Self,
        Error,
    >)
        ensures
            r is Ok <==> usable(weights_of(eligible(weights@, options.allowed_operators@))),
            r matches Err(error) ==> error == Error::SamplingFailure,
            r matches Ok(equation) ==> exists|first: int, draws: Seq<(Operator, int)>|
                #![trigger assembled(first, draws)]
                fits_request(
                    options.constant.min(),
                    options.constant.max(),
                    options.allowed_operators@,
                    options.term_count@,
                    first,
                    draws,
                ) && equation.expression@ == assembled(first, draws),
            r matches Ok(equation) ==> equation.expression@.leaves() == options.term_count@,
    {
        match Expression::generate(options, weights) {
            Ok(expression) => Ok(Self { expression }),
            Err(error) => Err(error),
        }
    }
}

} // verus!
