//! Expressions: the trees that evaluate to values.

use crate::token::{Token, TokenModel, TokenType};
use vstd::prelude::*;

verus! {

/// An expression: a tree that evaluates to a value.
#[derive(Debug, PartialEq, Eq)]
pub enum Expr {
    /// A number literal, held as the digits that were written.
    Number(String),
    /// A string literal, held as its contents.
    String(String),
    True,
    False,
    Nil,
    /// A parenthesized expression.
    Grouping(Box<Expr>),
    /// A prefix operator and its operand.
    Unary(Token, Box<Expr>),
    /// An arithmetic, comparison or equality operator between two operands.
    Binary(Box<Expr>, Token, Box<Expr>),
    /// A read of the variable that the token names.
    Variable(Token),
    /// A write to the variable that the token names.
    Assignment(Token, Box<Expr>),
    /// `and` or `or` between two operands.
    Logical(Box<Expr>, Token, Box<Expr>),
    /// A call: the callee, the closing parenthesis and the arguments.
    Call(Box<Expr>, Token, Vec<Expr>),
}

/// What an [`Expr`] is, as a mathematical value.
pub enum ExprModel {
    Number(Seq<char>),
    String(Seq<char>),
    True,
    False,
    Nil,
    Grouping(Box<ExprModel>),
    Unary(TokenModel, Box<ExprModel>),
    Binary(Box<ExprModel>, TokenModel, Box<ExprModel>),
    Variable(TokenModel),
    Assignment(TokenModel, Box<ExprModel>),
    Logical(Box<ExprModel>, TokenModel, Box<ExprModel>),
    Call(Box<ExprModel>, TokenModel, Seq<ExprModel>),
}

impl Expr {
    /// The model of the expression, node by node.
    pub open spec fn model(&self) -> ExprModel
        decreases self,
    {
        match self {
            Expr::Number(digits) => ExprModel::Number(digits@),
            Expr::String(contents) => ExprModel::String(contents@),
            Expr::True => ExprModel::True,
            Expr::False => ExprModel::False,
            Expr::Nil => ExprModel::Nil,
            Expr::Grouping(inner) => ExprModel::Grouping(Box::new(inner.model())),
            Expr::Unary(operator, operand) => ExprModel::Unary(
                operator@,
                Box::new(operand.model()),
            ),
            Expr::Binary(left, operator, right) => ExprModel::Binary(
                Box::new(left.model()),
                operator@,
                Box::new(right.model()),
            ),
            Expr::Variable(name) => ExprModel::Variable(name@),
            Expr::Assignment(name, value) => ExprModel::Assignment(name@, Box::new(value.model())),
            Expr::Logical(left, operator, right) => ExprModel::Logical(
                Box::new(left.model()),
                operator@,
                Box::new(right.model()),
            ),
            Expr::Call(callee, paren, arguments) => ExprModel::Call(
                Box::new(callee.model()),
                paren@,
                Seq::new(
                    arguments.len() as nat,
                    |i: int|
                        if 0 <= i < arguments.len() {
                            arguments[i].model()
                        } else {
                            ExprModel::Nil
                        },
                ),
            ),
        }
    }
}

impl View for Expr {
    type V = ExprModel;

    open spec fn view(&self) -> ExprModel {
        self.model()
    }
}

/// Whether `kind` is an operator that stands between two operands of an
/// arithmetic, comparison or equality expression.
pub open spec fn is_binary_operator(kind: TokenType) -> bool {
    kind == TokenType::Plus || kind == TokenType::Minus || kind == TokenType::Star || kind
        == TokenType::Slash || kind == TokenType::Less || kind == TokenType::LessEqual || kind
        == TokenType::Greater || kind == TokenType::GreaterEqual || kind == TokenType::EqualEqual
        || kind == TokenType::BangEqual
}

impl ExprModel {
    /// Whether every node of the tree carries a token of the kind that the
    /// node calls for: an identifier where a variable is named, `!` or `-`
    /// in front of one operand, `and` or `or` between the operands of a
    /// logical expression, and a binary operator between those of a binary
    /// one.
    pub open spec fn well_formed(self) -> bool
        decreases self,
    {
        match self {
            ExprModel::Number(_) => true,
            ExprModel::String(_) => true,
            ExprModel::True => true,
            ExprModel::False => true,
            ExprModel::Nil => true,
            ExprModel::Grouping(inner) => inner.well_formed(),
            ExprModel::Unary(operator, operand) => {
                &&& operator.token_type == TokenType::Bang || operator.token_type
                    == TokenType::Minus
                &&& operand.well_formed()
            },
            ExprModel::Binary(left, operator, right) => {
                &&& is_binary_operator(operator.token_type)
                &&& left.well_formed()
                &&& right.well_formed()
            },
            ExprModel::Variable(name) => name.token_type == TokenType::Identifier,
            ExprModel::Assignment(name, value) => {
                &&& name.token_type == TokenType::Identifier
                &&& value.well_formed()
            },
            ExprModel::Logical(left, operator, right) => {
                &&& operator.token_type == TokenType::Or || operator.token_type == TokenType::And
                &&& left.well_formed()
                &&& right.well_formed()
            },
            ExprModel::Call(callee, _, arguments) => {
                &&& callee.well_formed()
                &&& forall|i: int|
                    0 <= i < arguments.len() ==> (#[trigger] arguments[i]).well_formed()
            },
        }
    }
}

/// The models of a sequence of expressions.
pub open spec fn expr_models(exprs: Seq<Expr>) -> Seq<ExprModel> {
    exprs.map_values(|expr: Expr| expr@)
}

/// The model of a call's argument list is the list of its arguments' models.
pub proof fn lemma_call_model(callee: Expr, paren: Token, arguments: Vec<Expr>)
    ensures
        Expr::Call(Box::new(callee), paren, arguments)@ == ExprModel::Call(
            Box::new(callee@),
            paren@,
            expr_models(arguments@),
        ),
{
    let call = Expr::Call(Box::new(callee), paren, arguments);
    assert(call.model()->Call_2 =~= expr_models(arguments@));
}

} // verus!
