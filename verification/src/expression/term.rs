//! Leaves of an expression: integer constants.
use super::decimal::{decimal, render};
use super::options::ConstantOption;
use super::sampler::{entropy_generator, uniform_between};
use rand::rngs::StdRng;
use vstd::prelude::*;
use vstd::std_specs::convert::FromSpecImpl;

verus! {

/// A signed integer literal.
#[derive(Debug, Clone, Copy, PartialEq, Eq, Structural)]
pub struct Constant(i32);

impl View for Constant {
    type V = int;

    closed spec fn view(&self) -> int {
        self.0 as int
    }
}

impl Constant {
    /// Wraps an integer; every `i32` is a constant.
    pub fn new(value: i32) -> (r: Self)
        ensures
            r@ == value,
    {
        Constant(value)
    }

    /// Writes the constant in decimal notation.
    pub fn to_string(self) -> (r: String)
        ensures
            r@ == decimal(self@),
    {
        render(self.0)
    }

    /// A constant holds an integer of the 32-bit signed range.
    pub proof fn lemma_view_range(self)
        ensures
            i32::MIN <= self@ <= i32::MAX,
    {
    }
}

impl From<Constant> for i32 {
    fn from(value: Constant) -> (r: i32) {
        value.0
    }
}

impl FromSpecImpl<Constant> for i32 {
    open spec fn obeys_from_spec() -> bool {
        true
    }

    open spec fn from_spec(value: Constant) -> i32 {
        value@ as i32
    }
}

/// A leaf of an expression.
#[derive(Debug, Clone, Copy)]
pub enum Term {
    Constant(Constant),
}

impl View for Term {
    type V = int;

    open spec fn view(&self) -> int {
        match self {
            Term::Constant(constant) => constant@,
        }
    }
}

impl Term {
    /// Draws a constant from the range with the generator, every value of
    /// the range having the same chance.
    pub fn random_constant_with(constant: &ConstantOption, generator: &mut StdRng) -> (r: Term)
        ensures
            constant.min() <= r@ <= constant.max(),
    {
        let value = uniform_between(generator, constant.get_min(), constant.get_max());
        Term::Constant(Constant::new(value))
    }

    /// Draws a constant from the range as [`Term::random_constant_with`]
    /// does, with a generator seeded by the operating system.
    pub fn random_constant(constant: &ConstantOption) -> (r: Term)
        ensures
            constant.min() <= r@ <= constant.max(),
    {
        let mut generator = entropy_generator();
        Term::random_constant_with(constant, &mut generator)
    }

    /// Writes the leaf as its token.
    pub fn format_str(&self) -> (r: String)
        ensures
            r@ == decimal(self@),
    {
        match self {
            Term::Constant(constant) => constant.to_string(),
        }
    }
}

} // verus!
