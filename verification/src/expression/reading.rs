//! Reading a printed expression back under the standard rules of precedence.
//!
//! The reader knows nothing of trees. It takes a token sequence and follows
//! the usual grammar: a sum is a chain of products joined by `+` and `-`, a
//! product is a chain of atoms joined by `*` and `/`, both grouped from the
//! left, and an atom is a number or a sum in parentheses. What it computes
//! for the printed tokens of a tree is the value of the tree, as long as no
//! first operand in the tree would have needed parentheses.
use super::decimal::{decimal, lemma_decimal_injective, lemma_decimal_is_no_symbol};
use super::operator::Operator;
use super::tree::{apply, close_token, open_token, symbol_token, Tree};
use vstd::prelude::*;

verus! {

/// One token of a printed expression, by its meaning.
pub enum Token {
    Number(int),
    Symbol(Operator),
    Open,
    Close,
}

/// The text of a token.
pub open spec fn spelling(token: Token) -> Seq<char> {
    match token {
        Token::Number(value) => decimal(value),
        Token::Symbol(operator) => symbol_token(operator),
        Token::Open => open_token(),
        Token::Close => close_token(),
    }
}

/// The texts of the tokens, in order.
pub open spec fn spelled(tokens: Seq<Token>) -> Seq<Seq<char>> {
    Seq::new(tokens.len(), |i: int| spelling(tokens[i]))
}

/// The token that a text spells; an arbitrary one where the text spells none.
pub open spec fn token_of(text: Seq<char>) -> Token {
    choose|token: Token| spelling(token) == text
}

/// The tokens that the texts spell, in order.
pub open spec fn lexed(texts: Seq<Seq<char>>) -> Seq<Token> {
    Seq::new(texts.len(), |i: int| token_of(texts[i]))
}

/// The value that printed tokens read as under the standard rules of
/// precedence.
pub open spec fn reading_of_text(texts: Seq<Seq<char>>) -> Option<int> {
    reading(lexed(texts))
}

/// A text spells at most one token.
pub proof fn lemma_spelling_injective(a: Token, b: Token)
    requires
        spelling(a) == spelling(b),
    ensures
        a == b,
{
    // The one-character tokens differ in their character.
    assert(seq!['('][0] == '(');
    assert(seq![')'][0] == ')');
    assert(seq!['+'][0] == '+');
    assert(seq!['-'][0] == '-');
    assert(seq!['*'][0] == '*');
    assert(seq!['/'][0] == '/');
    if a is Number {
        lemma_decimal_is_no_symbol(a->Number_0);
        if b is Number {
            lemma_decimal_injective(a->Number_0, b->Number_0);
        }
    } else if b is Number {
        lemma_decimal_is_no_symbol(b->Number_0);
    }
}

/// Spelling tokens and lexing the texts gives the tokens back.
pub proof fn lemma_lexed_spelled(tokens: Seq<Token>)
    ensures
        lexed(spelled(tokens)) == tokens,
{
    assert forall|i: int| 0 <= i < tokens.len() implies lexed(spelled(tokens))[i] == tokens[i] by {
        lemma_spelling_injective(token_of(spelling(tokens[i])), tokens[i]);
    }
}

/// What has been read of an input: the value so far, and the tokens that are
/// left.
pub struct Progress {
    pub value: int,
    pub rest: Seq<Token>,
}

/// Whether the input starts with an operator symbol of the precedence tier.
pub open spec fn continues(input: Seq<Token>, tier: int) -> bool {
    input.len() > 0 && input[0] is Symbol && input[0]->Symbol_0.order() == tier
}

/// Reads an atom from the front of the input: a number, or a sum between
/// parentheses.
pub open spec fn read_atom(input: Seq<Token>) -> Option<Progress>
    decreases input.len(), 0nat,
{
    if input.len() == 0 {
        None
    } else {
        match input[0] {
            Token::Number(value) => Some(Progress { value, rest: input.skip(1) }),
            Token::Open => match read_sum(input.skip(1)) {
                Some(inner) => if inner.rest.len() > 0 && inner.rest[0] is Close {
                    Some(Progress { value: inner.value, rest: inner.rest.skip(1) })
                } else {
                    None
                },
                None => None,
            },
            _ => None,
        }
    }
}

/// Continues a product: with `left` read so far and `operator` just passed,
/// reads the next atom, applies the operator, and goes on as long as a
/// symbol of the product tier follows.
pub open spec fn read_product_from(left: int, operator: Operator, input: Seq<Token>) -> Option<
    Progress,
>
    decreases input.len(), 1nat,
{
    match read_atom(input) {
        Some(atom) => match apply(operator, left, atom.value) {
            Some(value) => if continues(atom.rest, 0) && atom.rest.len() < input.len() {
                read_product_from(value, atom.rest[0]->Symbol_0, atom.rest.skip(1))
            } else {
                Some(Progress { value, rest: atom.rest })
            },
            None => None,
        },
        None => None,
    }
}

/// Reads a product from the front of the input.
pub open spec fn read_product(input: Seq<Token>) -> Option<Progress>
    decreases input.len(), 2nat,
{
    read_product_from(1, Operator::Multiplication, input)
}

/// Continues a sum: with `left` read so far and `operator` just passed,
/// reads the next product, applies the operator, and goes on as long as a
/// symbol of the sum tier follows.
pub open spec fn read_sum_from(left: int, operator: Operator, input: Seq<Token>) -> Option<
    Progress,
>
    decreases input.len(), 3nat,
{
    match read_product(input) {
        Some(product) => match apply(operator, left, product.value) {
            Some(value) => if continues(product.rest, 1) && product.rest.len() < input.len() {
                read_sum_from(value, product.rest[0]->Symbol_0, product.rest.skip(1))
            } else {
                Some(Progress { value, rest: product.rest })
            },
            None => None,
        },
        None => None,
    }
}

/// Reads a sum from the front of the input.
pub open spec fn read_sum(input: Seq<Token>) -> Option<Progress>
    decreases input.len(), 4nat,
{
    read_sum_from(0, Operator::Addition, input)
}

/// The value that the whole input reads as, if it is one sum and nothing is
/// left over.
pub open spec fn reading(input: Seq<Token>) -> Option<int> {
    match read_sum(input) {
        Some(sum) => if sum.rest.len() == 0 {
            Some(sum.value)
        } else {
            None
        },
        None => None,
    }
}

impl Tree {
    /// The tokens that print the tree, by their meaning.
    pub open spec fn lexemes(self) -> Seq<Token>
        decreases self, 0nat,
    {
        match self {
            Tree::Leaf(value) => seq![Token::Number(value)],
            Tree::Node(operator, operands) => Tree::joined_lexemes(
                operator,
                operands,
                operands.len(),
            ),
        }
    }

    /// The tokens of the tree as an operand after the first under `outer`,
    /// by their meaning.
    pub open spec fn operand_lexemes(self, outer: Operator) -> Seq<Token>
        decreases self, 1nat,
    {
        if self.parenthesized_under(outer) {
            seq![Token::Open] + self.lexemes() + seq![Token::Close]
        } else {
            self.lexemes()
        }
    }

    /// The tokens of the first `count` operands joined by the operator, by
    /// their meaning.
    pub open spec fn joined_lexemes(operator: Operator, operands: Seq<Tree>, count: nat) -> Seq<
        Token,
    >
        decreases operands, count,
    {
        if count == 0 || count > operands.len() {
            seq![]
        } else if count == 1 {
            operands[0].lexemes()
        } else {
            Tree::joined_lexemes(operator, operands, (count - 1) as nat) + seq![
                Token::Symbol(operator),
            ] + operands[count - 1].operand_lexemes(operator)
        }
    }

    /// Whether the tree binds as a product: it is a constant, or its
    /// operator is of the product tier.
    pub open spec fn is_factor(self) -> bool {
        match self {
            Tree::Leaf(_) => true,
            Tree::Node(operator, _) => operator.order() == 0,
        }
    }

    /// Whether every first operand in the tree can stand without parentheses:
    /// it is a constant, or its operator binds at least as tightly as the one
    /// it stands under. The printer never parenthesizes a first operand, so
    /// the product whose first operand is the sum of 1 and 2 and whose second
    /// is 3 prints as `1+2*3`, and only trees without such an operand keep
    /// their grouping in print.
    pub open spec fn first_operands_bind(self) -> bool
        decreases self,
    {
        match self {
            Tree::Leaf(_) => true,
            Tree::Node(operator, operands) => {
                &&& operands.len() > 0 ==> (operands[0] is Leaf || operands[0]->Node_0.order()
                    <= operator.order())
                &&& forall|i: int|
                    0 <= i < operands.len() ==> (#[trigger] operands[i]).first_operands_bind()
            },
        }
    }
}

/// How a product goes on after a value: with the next symbol of the product
/// tier, if one follows, and else no further.
pub open spec fn product_continued(state: Option<int>, rest: Seq<Token>) -> Option<Progress> {
    match state {
        Some(value) => if continues(rest, 0) {
            read_product_from(value, rest[0]->Symbol_0, rest.skip(1))
        } else {
            Some(Progress { value, rest })
        },
        None => None,
    }
}

/// How a sum goes on after a value: with the next symbol of the sum tier, if
/// one follows, and else no further.
pub open spec fn sum_continued(state: Option<int>, rest: Seq<Token>) -> Option<Progress> {
    match state {
        Some(value) => if continues(rest, 1) {
            read_sum_from(value, rest[0]->Symbol_0, rest.skip(1))
        } else {
            Some(Progress { value, rest })
        },
        None => None,
    }
}

/// A tree with a value prints at least one token.
pub proof fn lemma_lexemes_not_empty(tree: Tree)
    requires
        tree.value() is Some,
    ensures
        tree.lexemes().len() >= 1,
    decreases tree,
{
    match tree {
        Tree::Leaf(_) => {},
        Tree::Node(operator, operands) => {
            if operands.len() == 1 {
                lemma_lexemes_not_empty(operands[0]);
            }
        },
    }
}

/// Multiplying a dividend keeps a division exact and multiplies the quotient.
proof fn lemma_scaled_quotient(scale: int, dividend: int, divisor: int)
    requires
        divisor != 0,
        dividend % divisor == 0,
    ensures
        (scale * dividend) % divisor == 0,
        (scale * dividend) / divisor == scale * (dividend / divisor),
{
    let quotient = dividend / divisor;
    assert(dividend == quotient * divisor) by (nonlinear_arith)
        requires
            divisor != 0,
            dividend % divisor == 0,
            quotient == dividend / divisor,
    ;
    let scaled = scale * dividend;
    let scaled_quotient = scale * quotient;
    assert(scaled == scaled_quotient * divisor) by (nonlinear_arith)
        requires
            scaled == scale * dividend,
            scaled_quotient == scale * quotient,
            dividend == quotient * divisor,
    ;
    assert(scaled % divisor == 0 && scaled / divisor == scaled_quotient) by (nonlinear_arith)
        requires
            divisor != 0,
            scaled == scaled_quotient * divisor,
    ;
}

/// Reading a parenthesized tree as an atom gives its value and passes the
/// closing parenthesis.
pub proof fn lemma_read_parenthesized(tree: Tree, rest: Seq<Token>)
    requires
        tree.first_operands_bind(),
        tree.value() is Some,
    ensures
        read_atom(seq![Token::Open] + tree.lexemes() + seq![Token::Close] + rest) == Some(
            Progress { value: tree.value()->0, rest },
        ),
    decreases tree, 3nat, 0nat,
{
    let input = seq![Token::Open] + tree.lexemes() + seq![Token::Close] + rest;
    let closing = seq![Token::Close] + rest;
    assert(input.skip(1) =~= tree.lexemes() + closing);
    lemma_read_sum(tree, 0, Operator::Addition, closing);
    assert(closing.skip(1) =~= rest);
}

/// Reading the tokens of a tree as the next term of a sum gives the sum so
/// far with the value of the tree applied. The tree follows a `+`, or is a
/// product; no symbol of the product tier comes after it.
pub proof fn lemma_read_sum(tree: Tree, left: int, operator: Operator, rest: Seq<Token>)
    requires
        tree.first_operands_bind(),
        tree.value() is Some,
        operator.order() == 1,
        operator == Operator::Addition || tree.is_factor(),
        !continues(rest, 0),
    ensures
        read_sum_from(left, operator, tree.lexemes() + rest) == sum_continued(
            apply(operator, left, tree.value()->0),
            rest,
        ),
    decreases tree, 2nat, 0nat,
{
    let input = tree.lexemes() + rest;
    lemma_lexemes_not_empty(tree);
    if tree.is_factor() {
        lemma_read_product(tree, 1, Operator::Multiplication, rest);
        assert(read_product(input) == Some(Progress { value: tree.value()->0, rest }));
    } else {
        let operands = tree->Node_1;
        lemma_read_sum_operands(tree->Node_0, operands, operands.len(), left, rest);
    }
}

/// Reading the tokens of a product as the next factor gives the product so
/// far with the value of the tree applied. The tree follows a `*`, or is a
/// constant.
pub proof fn lemma_read_product(tree: Tree, left: int, operator: Operator, rest: Seq<Token>)
    requires
        tree.first_operands_bind(),
        tree.value() is Some,
        tree.is_factor(),
        operator.order() == 0,
        operator == Operator::Multiplication || tree is Leaf,
    ensures
        read_product_from(left, operator, tree.lexemes() + rest) == product_continued(
            apply(operator, left, tree.value()->0),
            rest,
        ),
    decreases tree, 1nat, 0nat,
{
    let input = tree.lexemes() + rest;
    match tree {
        Tree::Leaf(value) => {
            assert(input.skip(1) =~= rest);
            assert(read_atom(input) == Some(Progress { value, rest }));
        },
        Tree::Node(operator_t, operands) => {
            lemma_read_product_operands(operator_t, operands, operands.len(), left, rest);
        },
    }
}

/// Reading the first `count` operands of a product node, joined by its
/// operator, after a `*`.
pub proof fn lemma_read_product_operands(
    operator: Operator,
    operands: Seq<Tree>,
    count: nat,
    left: int,
    rest: Seq<Token>,
)
    requires
        Tree::Node(operator, operands).first_operands_bind(),
        operator.order() == 0,
        1 <= count <= operands.len(),
        Tree::value_of(operator, operands, count) is Some,
    ensures
        read_product_from(
            left,
            Operator::Multiplication,
            Tree::joined_lexemes(operator, operands, count) + rest,
        ) == product_continued(
            Some(left * Tree::value_of(operator, operands, count)->0),
            rest,
        ),
    decreases operands, 0nat, count,
{
    if count == 1 {
        lemma_read_product(operands[0], left, Operator::Multiplication, rest);
    } else {
        let before = (count - 1) as nat;
        let operand = operands[count - 1];
        let so_far = Tree::value_of(operator, operands, before)->0;
        let value = operand.value()->0;
        let symbol = seq![Token::Symbol(operator)];
        let tail = operand.operand_lexemes(operator) + rest;
        let after = symbol + tail;
        assert(Tree::joined_lexemes(operator, operands, count) + rest =~= Tree::joined_lexemes(
            operator,
            operands,
            before,
        ) + after);
        lemma_read_product_operands(operator, operands, before, left, after);
        assert(after.skip(1) =~= tail);
        // What is left to show: reading the operand after the symbol.
        let scaled = left * so_far;
        if operand.parenthesized_under(operator) {
            lemma_read_parenthesized(operand, rest);
        } else {
            lemma_read_product(operand, scaled, operator, rest);
        }
        lemma_lexemes_not_empty(operand);
        assert(read_product_from(scaled, operator, tail) == product_continued(
            apply(operator, scaled, value),
            rest,
        ));
        if operator == Operator::Multiplication {
            assert((left * so_far) * value == left * (so_far * value)) by (nonlinear_arith);
        } else {
            lemma_scaled_quotient(left, so_far, value);
        }
    }
}

/// Reading the first `count` operands of a sum node, joined by its
/// operator, after a `+`.
pub proof fn lemma_read_sum_operands(
    operator: Operator,
    operands: Seq<Tree>,
    count: nat,
    left: int,
    rest: Seq<Token>,
)
    requires
        Tree::Node(operator, operands).first_operands_bind(),
        operator.order() == 1,
        1 <= count <= operands.len(),
        Tree::value_of(operator, operands, count) is Some,
        !continues(rest, 0),
    ensures
        read_sum_from(
            left,
            Operator::Addition,
            Tree::joined_lexemes(operator, operands, count) + rest,
        ) == sum_continued(Some(left + Tree::value_of(operator, operands, count)->0), rest),
    decreases operands, 0nat, count,
{
    if count == 1 {
        lemma_read_sum(operands[0], left, Operator::Addition, rest);
    } else {
        let before = (count - 1) as nat;
        let operand = operands[count - 1];
        let so_far = Tree::value_of(operator, operands, before)->0;
        let value = operand.value()->0;
        let symbol = seq![Token::Symbol(operator)];
        let tail = operand.operand_lexemes(operator) + rest;
        let after = symbol + tail;
        assert(Tree::joined_lexemes(operator, operands, count) + rest =~= Tree::joined_lexemes(
            operator,
            operands,
            before,
        ) + after);
        assert(after.skip(1) =~= tail);
        lemma_read_sum_operands(operator, operands, before, left, after);
        let summed = left + so_far;
        lemma_lexemes_not_empty(operand);
        if operand.parenthesized_under(operator) {
            lemma_read_parenthesized(operand, rest);
            assert(read_product(tail) == Some(Progress { value, rest }));
        } else {
            lemma_read_sum(operand, summed, operator, rest);
        }
        assert(read_sum_from(summed, operator, tail) == sum_continued(
            apply(operator, summed, value),
            rest,
        ));
    }
}

impl Tree {
    /// The printed tokens of a tree are the spellings of its lexemes.
    pub proof fn lemma_tokens_spelled(self)
        ensures
            self.tokens() == spelled(self.lexemes()),
        decreases self, 0nat,
    {
        match self {
            Tree::Leaf(_) => {},
            Tree::Node(operator, operands) => {
                Tree::lemma_joined_spelled(operator, operands, operands.len());
            },
        }
    }

    /// The tokens of an operand are the spellings of its lexemes.
    pub proof fn lemma_operand_tokens_spelled(self, outer: Operator)
        ensures
            self.operand_tokens(outer) == spelled(self.operand_lexemes(outer)),
        decreases self, 1nat,
    {
        self.lemma_tokens_spelled();
    }

    /// The tokens of joined operands are the spellings of their lexemes.
    pub proof fn lemma_joined_spelled(operator: Operator, operands: Seq<Tree>, count: nat)
        ensures
            Tree::joined(operator, operands, count) == spelled(
                Tree::joined_lexemes(operator, operands, count),
            ),
        decreases operands, count,
    {
        if count == 0 || count > operands.len() {
            assert(Tree::joined(operator, operands, count) =~= spelled(
                Tree::joined_lexemes(operator, operands, count),
            ));
        } else if count == 1 {
            operands[0].lemma_tokens_spelled();
        } else {
            Tree::lemma_joined_spelled(operator, operands, (count - 1) as nat);
            operands[count - 1].lemma_operand_tokens_spelled(operator);
            assert(Tree::joined(operator, operands, count) =~= spelled(
                Tree::joined_lexemes(operator, operands, count),
            ));
        }
    }
}

/// The round trip on the printed text: the tokens that print a tree, read
/// back under the standard rules of precedence, give the value of the tree.
/// It holds of every tree with a value whose first operands need no
/// parentheses.
pub proof fn lemma_printed_text_reads_as_value(tree: Tree)
    requires
        tree.first_operands_bind(),
        tree.value() is Some,
    ensures
        reading_of_text(tree.tokens()) == tree.value(),
{
    tree.lemma_tokens_spelled();
    lemma_lexed_spelled(tree.lexemes());
    lemma_reading_gives_value(tree);
}

/// The round trip: the printed tokens of a tree, read back under the
/// standard rules of precedence, give the value of the tree. It holds of
/// every tree with a value whose first operands need no parentheses.
pub proof fn lemma_reading_gives_value(tree: Tree)
    requires
        tree.first_operands_bind(),
        tree.value() is Some,
    ensures
        reading(tree.lexemes()) == tree.value(),
{
    let nothing = Seq::<Token>::empty();
    lemma_read_sum(tree, 0, Operator::Addition, nothing);
}

} // verus!
