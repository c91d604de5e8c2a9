//! Static facts about the four arithmetic operators.
use vstd::prelude::*;

verus! {

/// One of the four arithmetic operators.
#[derive(Debug, PartialEq, Eq, Clone, Copy, Structural)]
pub enum Operator {
    Addition,
    Subtraction,
    Multiplication,
    Division,
}

impl Operator {
    /// Precedence tier of the operator: a lower tier binds tighter.
    pub open spec fn order(self) -> int {
        match self {
            Operator::Multiplication | Operator::Division => 0,
            Operator::Addition | Operator::Subtraction => 1,
        }
    }

    /// Whether reordering the operands keeps the result.
    pub open spec fn commutative(self) -> bool {
        self == Operator::Addition || self == Operator::Multiplication
    }

    /// The one-character token that prints the operator.
    pub open spec fn symbol_char(self) -> char {
        match self {
            Operator::Addition => '+',
            Operator::Subtraction => '-',
            Operator::Multiplication => '*',
            Operator::Division => '/',
        }
    }

    /// The four operators, in their fixed order.
    pub open spec fn all() -> Seq<Operator> {
        seq![
            Operator::Addition,
            Operator::Subtraction,
            Operator::Multiplication,
            Operator::Division,
        ]
    }

    /// Lists the four operators in their fixed order.
    pub fn list_options() -> (r: Vec<Operator>)
        ensures
            r@ == Operator::all(),
    {
        vec![
            Operator::Addition,
            Operator::Subtraction,
            Operator::Multiplication,
            Operator::Division,
        ]
    }

    /// Returns the precedence tier: 0 for `*` and `/`, 1 for `+` and `-`.
    pub fn get_operator_order(&self) -> (r: u8)
        ensures
            r == self.order(),
    {
        match self {
            Operator::Multiplication => 0,
            Operator::Division => 0,
            Operator::Addition => 1,
            Operator::Subtraction => 1,
        }
    }

    /// Tells whether the operator is commutative: true for `+` and `*`.
    pub fn is_commutative(&self) -> (r: bool)
        ensures
            r == self.commutative(),
    {
        match self {
            Operator::Addition => true,
            Operator::Multiplication => true,
            Operator::Division => false,
            Operator::Subtraction => false,
        }
    }

    /// Returns the token that prints the operator.
    pub fn symbol(&self) -> (r: &'static str)
        ensures
            r@ == seq![self.symbol_char()],
    {
        match self {
            Operator::Addition => {
                proof {
                    reveal_strlit("+");
                }
                "+"
            },
            Operator::Subtraction => {
                proof {
                    reveal_strlit("-");
                }
                "-"
            },
            Operator::Multiplication => {
                proof {
                    reveal_strlit("*");
                }
                "*"
            },
            Operator::Division => {
                proof {
                    reveal_strlit("/");
                }
                "/"
            },
        }
    }
}

/// Every operator occurs exactly once in the fixed list.
pub proof fn lemma_all_operators_listed(operator: Operator)
    ensures
        Operator::all().contains(operator),
        Operator::all().len() == 4,
        Operator::all().no_duplicates(),
{
    let all = Operator::all();
    match operator {
        Operator::Addition => assert(all[0] == operator),
        Operator::Subtraction => assert(all[1] == operator),
        Operator::Multiplication => assert(all[2] == operator),
        Operator::Division => assert(all[3] == operator),
    }
}

} // verus!
