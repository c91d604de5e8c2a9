//! The mathematical model of an expression, and what printing and evaluating
//! mean on it.
use super::decimal::decimal;
use super::operator::Operator;
use vstd::prelude::*;

verus! {

/// An expression as a mathematical tree: a constant, or an operator applied to
/// a sequence of operands from left to right.
pub enum Tree {
    Leaf(int),
    Node(Operator, Seq<Tree>),
}

/// Whether an integer lies in the range that evaluation works in.
pub open spec fn representable(value: int) -> bool {
    i64::MIN <= value <= i64::MAX
}

/// The result of one binary operation, where it is an integer: a division
/// yields one only if the divisor is not zero and leaves no remainder.
pub open spec fn apply(operator: Operator, left: int, right: int) -> Option<int> {
    match operator {
        Operator::Addition => Some(left + right),
        Operator::Subtraction => Some(left - right),
        Operator::Multiplication => Some(left * right),
        Operator::Division => if right != 0 && left % right == 0 {
            Some(left / right)
        } else {
            None
        },
    }
}

/// One step of a left fold: the operator applied to the value so far and the
/// value of the next operand, as long as both exist.
pub open spec fn combine(operator: Operator, left: Option<int>, right: Option<int>) -> Option<int> {
    if left is Some && right is Some {
        apply(operator, left->0, right->0)
    } else {
        None
    }
}

/// The result, if there is one and it is representable.
pub open spec fn bounded(result: Option<int>) -> Option<int> {
    if result is Some && representable(result->0) {
        result
    } else {
        None
    }
}

/// The token of an operator.
pub open spec fn symbol_token(operator: Operator) -> Seq<char> {
    seq![operator.symbol_char()]
}

/// The token that opens a parenthesized operand.
pub open spec fn open_token() -> Seq<char> {
    seq!['(']
}

/// The token that closes a parenthesized operand.
pub open spec fn close_token() -> Seq<char> {
    seq![')']
}

impl Tree {
    /// The operator at the root, if the tree is not a leaf.
    pub open spec fn operator(self) -> Option<Operator> {
        match self {
            Tree::Leaf(_) => None,
            Tree::Node(operator, _) => Some(operator),
        }
    }

    /// Every constant is a 32-bit signed integer and every operator has at
    /// least two operands.
    pub open spec fn well_formed(self) -> bool
        decreases self,
    {
        match self {
            Tree::Leaf(value) => i32::MIN <= value <= i32::MAX,
            Tree::Node(_, operands) => {
                &&& operands.len() >= 2
                &&& forall|i: int|
                    0 <= i < operands.len() ==> (#[trigger] operands[i]).well_formed()
            },
        }
    }

    /// The number of constants in the tree.
    pub open spec fn leaves(self) -> nat
        decreases self, 0nat,
    {
        match self {
            Tree::Leaf(_) => 1,
            Tree::Node(_, operands) => Tree::leaves_of(operands, operands.len()),
        }
    }

    /// The number of constants in the first `count` trees of a sequence.
    pub open spec fn leaves_of(operands: Seq<Tree>, count: nat) -> nat
        decreases operands, count,
    {
        if count == 0 || count > operands.len() {
            0
        } else {
            Tree::leaves_of(operands, (count - 1) as nat) + operands[count - 1].leaves()
        }
    }

    /// Whether this tree, standing as an operand after the first under
    /// `outer`, is printed in parentheses: it is an operator node that binds
    /// no tighter than `outer`, and the two could not be chained without
    /// changing the grouping.
    pub open spec fn parenthesized_under(self, outer: Operator) -> bool {
        match self {
            Tree::Leaf(_) => false,
            Tree::Node(inner, _) => {
                &&& outer.order() <= inner.order()
                &&& (!outer.commutative() || !inner.commutative() || outer.order() < inner.order())
            },
        }
    }

    /// The tokens that print the tree.
    pub open spec fn tokens(self) -> Seq<Seq<char>>
        decreases self, 0nat,
    {
        match self {
            Tree::Leaf(value) => seq![decimal(value)],
            Tree::Node(operator, operands) => Tree::joined(operator, operands, operands.len()),
        }
    }

    /// The tokens of the tree as an operand after the first under `outer`.
    pub open spec fn operand_tokens(self, outer: Operator) -> Seq<Seq<char>>
        decreases self, 1nat,
    {
        if self.parenthesized_under(outer) {
            seq![open_token()] + self.tokens() + seq![close_token()]
        } else {
            self.tokens()
        }
    }

    /// The tokens of the first `count` operands joined by the operator: those
    /// of the first operand as they are, then for each further one the
    /// operator's token and the operand's tokens.
    pub open spec fn joined(operator: Operator, operands: Seq<Tree>, count: nat) -> Seq<Seq<char>>
        decreases operands, count,
    {
        if count == 0 || count > operands.len() {
            seq![]
        } else if count == 1 {
            operands[0].tokens()
        } else {
            Tree::joined(operator, operands, (count - 1) as nat) + seq![symbol_token(operator)]
                + operands[count - 1].operand_tokens(operator)
        }
    }

    /// Joining operands looks at no operand past the count.
    pub proof fn lemma_joined_prefix(operator: Operator, a: Seq<Tree>, b: Seq<Tree>, count: nat)
        requires
            count <= a.len(),
            count <= b.len(),
            forall|i: int| 0 <= i < count ==> a[i] == b[i],
        ensures
            Tree::joined(operator, a, count) == Tree::joined(operator, b, count),
        decreases count,
    {
        if count > 1 {
            Tree::lemma_joined_prefix(operator, a, b, (count - 1) as nat);
        }
    }

    /// A chain of one commutative operator prints flat: where the last
    /// operand of a node is a node of the same commutative operator, the
    /// tokens are those of the one node that holds the operands of both, as
    /// long as the first of the inner operands needs no parentheses either.
    pub proof fn lemma_commutative_chain_prints_flat(
        operator: Operator,
        outer: Seq<Tree>,
        inner: Seq<Tree>,
    )
        requires
            operator.commutative(),
            outer.len() >= 1,
            inner.len() >= 1,
            !inner[0].parenthesized_under(operator),
        ensures
            Tree::Node(operator, outer.push(Tree::Node(operator, inner))).tokens() == Tree::Node(
                operator,
                outer + inner,
            ).tokens(),
    {
        let chain = Tree::Node(operator, inner);
        let nested = outer.push(chain);
        Tree::lemma_joined_prefix(operator, nested, outer, outer.len());
        Tree::lemma_joined_appended(operator, outer, inner, inner.len());
        assert(Tree::joined(operator, nested, nested.len()) == Tree::joined(
            operator,
            nested,
            outer.len(),
        ) + seq![symbol_token(operator)] + chain.operand_tokens(operator));
    }

    /// Joining past the end of a first sequence into a second one.
    pub proof fn lemma_joined_appended(
        operator: Operator,
        outer: Seq<Tree>,
        inner: Seq<Tree>,
        count: nat,
    )
        requires
            outer.len() >= 1,
            1 <= count <= inner.len(),
            !inner[0].parenthesized_under(operator),
        ensures
            Tree::joined(operator, outer + inner, outer.len() + count) == Tree::joined(
                operator,
                outer,
                outer.len(),
            ) + seq![symbol_token(operator)] + Tree::joined(operator, inner, count),
        decreases count,
    {
        let flat = outer + inner;
        let reached = (outer.len() + count) as nat;
        let symbol = seq![symbol_token(operator)];
        assert(Tree::joined(operator, flat, reached) == Tree::joined(
            operator,
            flat,
            (reached - 1) as nat,
        ) + symbol + inner[count - 1].operand_tokens(operator));
        if count == 1 {
            Tree::lemma_joined_prefix(operator, flat, outer, outer.len());
        } else {
            Tree::lemma_joined_appended(operator, outer, inner, (count - 1) as nat);
            assert(Tree::joined(operator, inner, count) == Tree::joined(
                operator,
                inner,
                (count - 1) as nat,
            ) + symbol + inner[count - 1].operand_tokens(operator));
            assert(Tree::joined(operator, flat, reached) =~= Tree::joined(
                operator,
                outer,
                outer.len(),
            ) + symbol + Tree::joined(operator, inner, count));
        }
    }

    /// The value of the tree, where it has one: that of a leaf is its
    /// constant; that of an operator node is the left fold of the operator
    /// over the values of its operands. There is none where a division is by
    /// zero or leaves a remainder.
    pub open spec fn value(self) -> Option<int>
        decreases self, 0nat,
    {
        match self {
            Tree::Leaf(value) => Some(value),
            Tree::Node(operator, operands) => Tree::value_of(operator, operands, operands.len()),
        }
    }

    /// The left fold of the operator over the values of the first `count`
    /// operands.
    pub open spec fn value_of(operator: Operator, operands: Seq<Tree>, count: nat) -> Option<int>
        decreases operands, count,
    {
        if count == 0 || count > operands.len() {
            None
        } else if count == 1 {
            operands[0].value()
        } else {
            combine(
                operator,
                Tree::value_of(operator, operands, (count - 1) as nat),
                operands[count - 1].value(),
            )
        }
    }

    /// The answer that evaluation gives: the value of the tree, provided that
    /// the constants and every result of the folds are representable.
    pub open spec fn answer(self) -> Option<int>
        decreases self, 0nat,
    {
        match self {
            Tree::Leaf(value) => bounded(Some(value)),
            Tree::Node(operator, operands) => Tree::answer_of(operator, operands, operands.len()),
        }
    }

    /// The left fold of the operator over the answers of the first `count`
    /// operands, each result being representable.
    pub open spec fn answer_of(operator: Operator, operands: Seq<Tree>, count: nat) -> Option<int>
        decreases operands, count,
    {
        if count == 0 || count > operands.len() {
            None
        } else if count == 1 {
            operands[0].answer()
        } else {
            bounded(
                combine(
                    operator,
                    Tree::answer_of(operator, operands, (count - 1) as nat),
                    operands[count - 1].answer(),
                ),
            )
        }
    }

    /// An answer is the value: evaluation never gives anything else.
    pub proof fn lemma_answer_is_value(self)
        ensures
            self.answer() is Some ==> self.answer() == self.value(),
        decreases self, 0nat,
    {
        match self {
            Tree::Leaf(_) => {},
            Tree::Node(operator, operands) => {
                Tree::lemma_answer_of_is_value_of(operator, operands, operands.len());
            },
        }
    }

    /// An answer of a fold is the value of the fold.
    pub proof fn lemma_answer_of_is_value_of(operator: Operator, operands: Seq<Tree>, count: nat)
        ensures
            Tree::answer_of(operator, operands, count) is Some ==> Tree::answer_of(
                operator,
                operands,
                count,
            ) == Tree::value_of(operator, operands, count),
        decreases operands, count,
    {
        if count == 0 || count > operands.len() {
        } else if count == 1 {
            operands[0].lemma_answer_is_value();
        } else {
            Tree::lemma_answer_of_is_value_of(operator, operands, (count - 1) as nat);
            operands[count - 1].lemma_answer_is_value();
        }
    }
}

} // verus!
