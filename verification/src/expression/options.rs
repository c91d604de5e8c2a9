//! The request that a generation is made for.
use super::operator::Operator;
use crate::Error;
use vstd::prelude::*;
use vstd::std_specs::convert::FromSpecImpl;

verus! {

/// The inclusive range that constants are drawn from.
pub struct ConstantOption {
    min: i32,
    max: i32,
}

impl ConstantOption {
    /// The lower bound of the range.
    pub closed spec fn min(&self) -> int {
        self.min as int
    }

    /// The upper bound of the range.
    pub closed spec fn max(&self) -> int {
        self.max as int
    }

    #[verifier::type_invariant]
    spec fn ordered(&self) -> bool {
        self.min <= self.max
    }

    /// Builds the range `min..=max`, or refuses one whose bounds are crossed.
    pub fn new(min: i32, max: i32) -> (r: Result<Self, Error>)
        ensures
            min <= max ==> r.is_ok() && r.unwrap().min() == min && r.unwrap().max() == max,
            min > max ==> r == Err::<Self, Error>(Error::ConstantOptionOutOfRange),
    {
        if min > max {
            return Err(Error::ConstantOptionOutOfRange);
        }
        Ok(Self { min, max })
    }

    /// Returns the lower bound, which is never above the upper one.
    pub fn get_min(&self) -> (r: i32)
        ensures
            r == self.min(),
            self.min() <= self.max(),
    {
        proof {
            use_type_invariant(self);
        }
        self.min
    }

    /// Returns the upper bound, which is never below the lower one.
    pub fn get_max(&self) -> (r: i32)
        ensures
            r == self.max(),
            self.min() <= self.max(),
    {
        proof {
            use_type_invariant(self);
        }
        self.max
    }
}

/// The operators that a generated expression may use; never empty.
pub struct AllowedOperators(Vec<Operator>);

impl View for AllowedOperators {
    type V = Seq<Operator>;

    closed spec fn view(&self) -> Seq<Operator> {
        self.0@
    }
}

impl AllowedOperators {
    #[verifier::type_invariant]
    spec fn inhabited(&self) -> bool {
        self.0@.len() > 0
    }

    /// Keeps the operators as given, repetitions included, or refuses an empty list.
    pub fn new(items: Vec<Operator>) -> (r: Result<Self, Error>)
        ensures
            items@.len() > 0 ==> r.is_ok() && r.unwrap()@ == items@,
            items@.len() == 0 ==> r == Err::<Self, Error>(Error::OperatorMissing),
    {
        if items.len() == 0 {
            return Err(Error::OperatorMissing);
        }
        Ok(AllowedOperators(items))
    }

    /// Tells whether the operator is among the allowed ones.
    pub fn contains(&self, operator: &Operator) -> (r: bool)
        ensures
            r == self@.contains(*operator),
            self@.len() > 0,
    {
        proof {
            use_type_invariant(self);
        }
        let mut i: usize = 0;
        while i < self.0.len()
            invariant
                i <= self.0@.len(),
                forall|j: int| 0 <= j < i ==> self.0@[j] != *operator,
            decreases self.0@.len() - i,
        {
            if self.0[i] == *operator {
                return true;
            }
            i += 1;
        }
        false
    }
}

/// The number of constants in a generated expression; at least two.
#[derive(Clone, Copy)]
pub struct TermCount(u8);

impl View for TermCount {
    type V = int;

    closed spec fn view(&self) -> int {
        self.0 as int
    }
}

impl TermCount {
    #[verifier::type_invariant]
    spec fn at_least_two(&self) -> bool {
        self.0 >= 2
    }

    /// Accepts a count of two or more.
    pub fn new(count: u8) -> (r: Result<Self, Error>)
        ensures
            count >= 2 ==> r.is_ok() && r.unwrap()@ == count,
            count < 2 ==> r == Err::<Self, Error>(Error::TermMissing),
    {
        if count < 2 {
            return Err(Error::TermMissing);
        }
        Ok(TermCount(count))
    }

    /// Returns the count, which is never below two.
    pub(crate) fn get(&self) -> (r: u8)
        ensures
            r == self@,
            r >= 2,
    {
        proof {
            use_type_invariant(self);
        }
        self.0
    }
}

impl From<TermCount> for u8 {
    fn from(value: TermCount) -> (r: u8) {
        value.0
    }
}

impl FromSpecImpl<TermCount> for u8 {
    open spec fn obeys_from_spec() -> bool {
        true
    }

    open spec fn from_spec(value: TermCount) -> u8 {
        value@ as u8
    }
}

/// One generation request.
pub struct ExpressionOption {
    pub constant: ConstantOption,
    pub allowed_operators: AllowedOperators,
    pub term_count: TermCount,
}

} // verus!
