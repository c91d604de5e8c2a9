//! The expression tree, its mathematical model and the operations on it.
use crate::Error;
use operator::Operator;
use term::{Constant, Term};
use tree::Tree;
use vstd::prelude::*;
use vstd::std_specs::convert::FromSpecImpl;
use vstd::string::StringExecFns;

pub mod constant_weights;
pub mod decimal;
pub mod generate;
pub mod operator;
pub mod operator_weights;
pub mod options;
pub mod reading;
pub mod sampler;
pub mod term;
pub mod tree;
pub mod weight;

verus! {

/// One operator applied to two or more operands, from left to right.
#[derive(Debug)]
pub struct OperatorNode {
    operator: Operator,
    operands: Vec<Expression>,
}

/// An arithmetic expression: a constant, or an operator node.
#[derive(Debug)]
pub enum Expression {
    Term(Term),
    Operation(OperatorNode),
}

impl View for OperatorNode {
    type V = Tree;

    closed spec fn view(&self) -> Tree
        decreases self,
    {
        Tree::Node(
            self.operator,
            Seq::new(
                self.operands@.len(),
                // The bound is what shows that the recursion descends into an operand.
                |i: int|
                    if 0 <= i < self.operands@.len() {
                        self.operands@[i].view()
                    } else {
                        Tree::Leaf(0)
                    },
            ),
        )
    }
}

impl View for Expression {
    type V = Tree;

    open spec fn view(&self) -> Tree
        decreases self,
    {
        match self {
            Expression::Term(term) => Tree::Leaf(term@),
            Expression::Operation(node) => node.view(),
        }
    }
}

/// The models of a sequence of expressions, in order.
pub open spec fn views(expressions: Seq<Expression>) -> Seq<Tree> {
    Seq::new(expressions.len(), |i: int| expressions[i]@)
}

/// The character sequences of a list of strings, in order.
pub open spec fn texts(strings: Seq<String>) -> Seq<Seq<char>> {
    Seq::new(strings.len(), |i: int| strings[i]@)
}

/// A machine integer, if there is one, as a mathematical integer.
pub open spec fn widened(value: Option<i64>) -> Option<int> {
    match value {
        Some(v) => Some(v as int),
        None => None,
    }
}

/// Applies the operator to two values, where both exist and the result is an
/// integer of the machine range.
fn combine_values(operator: Operator, left: Option<i64>, right: Option<i64>) -> (r: Option<i64>)
    ensures
        widened(r) == tree::bounded(tree::combine(operator, widened(left), widened(right))),
{
    match (left, right) {
        (Some(a), Some(b)) => match operator {
            Operator::Addition => a.checked_add(b),
            Operator::Subtraction => a.checked_sub(b),
            Operator::Multiplication => a.checked_mul(b),
            Operator::Division => match a.checked_rem_euclid(b) {
                Some(remainder) => if remainder == 0 {
                    a.checked_div_euclid(b)
                } else {
                    None
                },
                None => None,
            },
        },
        _ => None,
    }
}

impl OperatorNode {
    #[verifier::type_invariant]
    spec fn at_least_two_operands(&self) -> bool {
        self.operands@.len() >= 2
    }

    /// Applies the operator to the operands in the order given, or refuses
    /// fewer than two of them.
    pub fn new(operator: Operator, operands: Vec<Expression>) -> (r: Result<Self, Error>)
        ensures
            operands@.len() >= 2 ==> r.is_ok() && r.unwrap()@ == Tree::Node(
                operator,
                views(operands@),
            ),
            operands@.len() < 2 ==> r == Err::<Self, Error>(Error::ExpressionTooShort),
    {
        if operands.len() < 2 {
            return Err(Error::ExpressionTooShort);
        }
        let ghost given = operands@;
        let node = OperatorNode { operator, operands };
        assert(node@ =~= Tree::Node(operator, views(given))) by {
            assert(node@->Node_1 =~= views(given));
        }
        Ok(node)
    }

    /// Returns the operator of the node.
    pub fn operator(&self) -> (r: Operator)
        ensures
            self@.operator() == Some(r),
    {
        self.operator
    }

    /// Returns the operands, in order; there are at least two.
    pub fn operands(&self) -> (r: &Vec<Expression>)
        ensures
            self@ == Tree::Node(self@.operator()->0, views(r@)),
            r@.len() >= 2,
    {
        proof {
            use_type_invariant(self);
            assert(self@->Node_1 =~= views(self.operands@));
        }
        &self.operands
    }

    /// Prints the node: the tokens of the first operand, then for each
    /// further operand the operator's symbol and the operand's tokens, in
    /// parentheses where the operand is an operator node that binds no
    /// tighter and could not be chained. A first operand is never put in
    /// parentheses.
    pub fn formatted_vec(&self) -> (r: Vec<String>)
        ensures
            texts(r@) == self@.tokens(),
            self@.well_formed(),
        decreases self,
    {
        proof {
            use_type_invariant(self);
        }
        let ghost operands = views(self.operands@);
        assert(self@ == Tree::Node(self.operator, operands)) by {
            assert(self@->Node_1 =~= operands);
        }
        let mut response = self.operands[0].formatted_vec();
        let current_operator = self.operator();
        let current_operator_order = current_operator.get_operator_order();
        let current_operator_commutative = current_operator.is_commutative();
        let mut i: usize = 1;
        while i < self.operands.len()
            invariant
                1 <= i <= self.operands@.len(),
                operands == views(self.operands@),
                current_operator == self.operator,
                current_operator_order == current_operator.order(),
                current_operator_commutative == current_operator.commutative(),
                texts(response@) == Tree::joined(current_operator, operands, i as nat),
                forall|j: int| 0 <= j < i ==> (#[trigger] operands[j]).well_formed(),
            decreases self.operands@.len() - i,
        {
            let item = &self.operands[i];
            let ghost before = response@;
            response.push(String::from_str(current_operator.symbol()));
            let ghost with_symbol = response@;
            assert(texts(with_symbol) =~= texts(before) + seq![
                tree::symbol_token(current_operator),
            ]);
            let has_parenthesis = match item.get_operator() {
                Some(inner) => {
                    let item_operator_order = inner.get_operator_order();
                    current_operator_order <= item_operator_order && (!current_operator_commutative
                        || !inner.is_commutative() || current_operator_order
                        < item_operator_order)
                },
                None => false,
            };
            let mut inner_tokens = item.formatted_vec();
            let ghost inner = inner_tokens@;
            if has_parenthesis {
                proof {
                    reveal_strlit("(");
                    reveal_strlit(")");
                }
                response.push(String::from_str("("));
                response.append(&mut inner_tokens);
                response.push(String::from_str(")"));
                assert("("@ =~= tree::open_token());
                assert(")"@ =~= tree::close_token());
                assert(texts(response@) =~= texts(with_symbol) + (seq![tree::open_token()] + texts(
                    inner,
                ) + seq![tree::close_token()]));
            } else {
                response.append(&mut inner_tokens);
            }
            assert(texts(response@) =~= texts(before) + seq![tree::symbol_token(current_operator)]
                + item@.operand_tokens(current_operator));
            assert(Tree::joined(current_operator, operands, (i + 1) as nat) == Tree::joined(
                current_operator,
                operands,
                i as nat,
            ) + seq![tree::symbol_token(current_operator)] + operands[i as int].operand_tokens(
                current_operator,
            ));
            i += 1;
        }
        response
    }

    /// Evaluates the node exactly, by folding the operator over the answers
    /// of the operands from the left. There is no answer where a division is
    /// by zero or leaves a remainder, or where a step leaves the 64-bit signed
    /// range; an answer is the value of the node.
    pub fn get_answer(&self) -> (r: Option<i64>)
        ensures
            widened(r) == self@.answer(),
            r is Some ==> widened(r) == self@.value(),
            self@.well_formed(),
        decreases self,
    {
        proof {
            use_type_invariant(self);
            self@.lemma_answer_is_value();
        }
        let ghost operands = views(self.operands@);
        assert(self@ == Tree::Node(self.operator, operands)) by {
            assert(self@->Node_1 =~= operands);
        }
        let mut answer = self.operands[0].get_answer();
        let mut i: usize = 1;
        while i < self.operands.len()
            invariant
                1 <= i <= self.operands@.len(),
                operands == views(self.operands@),
                widened(answer) == Tree::answer_of(self.operator, operands, i as nat),
                forall|j: int| 0 <= j < i ==> (#[trigger] operands[j]).well_formed(),
            decreases self.operands@.len() - i,
        {
            let next = self.operands[i].get_answer();
            answer = combine_values(self.operator, answer, next);
            i += 1;
        }
        answer
    }
}

impl Expression {
    /// Evaluates the expression exactly. There is no answer where a division
    /// is by zero or leaves a remainder, or where a step leaves the 64-bit
    /// signed range; an answer is the value of the expression.
    pub fn get_answer(&self) -> (r: Option<i64>)
        ensures
            widened(r) == self@.answer(),
            r is Some ==> widened(r) == self@.value(),
            self@.well_formed(),
        decreases self,
    {
        proof {
            self@.lemma_answer_is_value();
        }
        match self {
            Expression::Term(term) => match term {
                Term::Constant(constant) => {
                    proof {
                        constant.lemma_view_range();
                    }
                    let value: i32 = (*constant).into();
                    Some(value as i64)
                },
            },
            Expression::Operation(node) => node.get_answer(),
        }
    }

    /// Builds the operator node of `operator` over `items`, or refuses fewer
    /// than two items.
    pub fn create(operator: &Operator, items: Vec<Expression>) -> (r: Result<Self, Error>)
        ensures
            items@.len() >= 2 ==> r.is_ok() && r.unwrap()@ == Tree::Node(*operator, views(items@)),
            items@.len() < 2 ==> r == Err::<Self, Error>(Error::ExpressionTooShort),
    {
        match OperatorNode::new(*operator, items) {
            Ok(node) => Ok(Expression::Operation(node)),
            Err(error) => Err(error),
        }
    }

    /// Returns the operator at the root, or nothing for a leaf.
    pub fn get_operator(&self) -> (r: Option<Operator>)
        ensures
            r == self@.operator(),
    {
        match self {
            Expression::Term(_) => None,
            Expression::Operation(node) => Some(node.operator()),
        }
    }

    /// Prints the expression as its token sequence: a constant as its
    /// decimal notation, an operator node as [`OperatorNode::formatted_vec`]
    /// does.
    pub fn formatted_vec(&self) -> (r: Vec<String>)
        ensures
            texts(r@) == self@.tokens(),
            self@.well_formed(),
        decreases self,
    {
        match self {
            Expression::Term(term) => {
                proof {
                    match term {
                        Term::Constant(constant) => constant.lemma_view_range(),
                    }
                }
                let r = vec![term.format_str()];
                r
            },
            Expression::Operation(node) => node.formatted_vec(),
        }
    }
}

impl Clone for OperatorNode {
    /// Copies the node with all its operands.
    fn clone(&self) -> (r: Self)
        ensures
            r@ == self@,
        decreases self,
    {
        proof {
            use_type_invariant(self);
        }
        let mut operands: Vec<Expression> = Vec::new();
        let mut i: usize = 0;
        while i < self.operands.len()
            invariant
                i <= self.operands@.len(),
                operands@.len() == i,
                forall|j: int| 0 <= j < i ==> (#[trigger] operands@[j])@ == self.operands@[j]@,
            decreases self.operands@.len() - i,
        {
            operands.push(self.operands[i].clone());
            i += 1;
        }
        let r = OperatorNode { operator: self.operator, operands };
        assert(r@->Node_1 =~= self@->Node_1);
        r
    }
}

impl Clone for Expression {
    /// Copies the expression with all its operands.
    fn clone(&self) -> (r: Self)
        ensures
            r@ == self@,
        decreases self,
    {
        match self {
            Expression::Term(term) => Expression::Term(*term),
            Expression::Operation(node) => Expression::Operation(node.clone()),
        }
    }
}

impl From<Constant> for Expression {
    fn from(value: Constant) -> (r: Expression) {
        Expression::Term(Term::Constant(value))
    }
}

impl FromSpecImpl<Constant> for Expression {
    open spec fn obeys_from_spec() -> bool {
        true
    }

    open spec fn from_spec(value: Constant) -> Expression {
        Expression::Term(Term::Constant(value))
    }
}

} // verus!
