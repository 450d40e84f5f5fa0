//! Reading back: the tokens that an expression was parsed from are the
//! tokens that spell it.
//!
//! The grammar says which tree a list of tokens stands for. Here is the way
//! back, from a tree to the kinds of the tokens that write it down, and the
//! proof that the two agree: see [`lemma_expression_spelled`].

use crate::expression::ExprModel;
use crate::grammar::{
    arguments, assignment, at_end, binary, binary_rest, call, call_rest, check, consume,
    expression, finish_call, operand, primary, proper, unary, Parsed, Precedence, MAX_ARITY,
};
use crate::token::{TokenModel, TokenType};
use vstd::prelude::*;

verus! {

/// The kinds of the tokens that spell `expr`, in order.
pub open spec fn spelling(expr: ExprModel) -> Seq<TokenType>
    decreases expr,
{
    match expr {
        ExprModel::Number(_) => seq![TokenType::Number],
        ExprModel::String(_) => seq![TokenType::String],
        ExprModel::True => seq![TokenType::True],
        ExprModel::False => seq![TokenType::False],
        ExprModel::Nil => seq![TokenType::Nil],
        ExprModel::Grouping(inner) => seq![TokenType::LeftParen] + spelling(*inner)
            + seq![TokenType::RightParen],
        ExprModel::Unary(operator, operand) => seq![operator.token_type] + spelling(*operand),
        ExprModel::Binary(left, operator, right) => spelling(*left) + seq![operator.token_type]
            + spelling(*right),
        ExprModel::Variable(name) => seq![name.token_type],
        ExprModel::Assignment(name, value) => seq![name.token_type, TokenType::Equal] + spelling(
            *value,
        ),
        ExprModel::Logical(left, operator, right) => spelling(*left) + seq![operator.token_type]
            + spelling(*right),
        ExprModel::Call(callee, paren, arguments) => spelling(*callee) + seq![TokenType::LeftParen]
            + spelling_of_list(arguments) + seq![paren.token_type],
    }
}

/// The kinds of the tokens that spell a list of arguments: the arguments in
/// order, with a comma between each two.
pub open spec fn spelling_of_list(exprs: Seq<ExprModel>) -> Seq<TokenType>
    decreases exprs,
{
    if exprs.len() == 0 {
        Seq::empty()
    } else if exprs.len() == 1 {
        spelling(exprs[0])
    } else {
        spelling_of_list(exprs.drop_last()) + seq![TokenType::Comma] + spelling(exprs.last())
    }
}

/// The kinds of the tokens from `from` up to `to`.
pub open spec fn kinds(tokens: Seq<TokenModel>, from: int, to: int) -> Seq<TokenType> {
    tokens.subrange(from, to).map_values(|token: TokenModel| token.token_type)
}

/// Whether `parsed`, if it is a tree, ends inside the tokens behind `from`
/// and has been parsed from the tokens that spell it.
pub open spec fn reads(tokens: Seq<TokenModel>, from: int, parsed: Parsed<ExprModel>) -> bool {
    match parsed {
        Parsed::Tree(tree, next) => {
            &&& 0 <= from < next <= tokens.len()
            &&& kinds(tokens, from, next) == spelling(tree)
        },
        Parsed::Error(_) => true,
    }
}

/// The kinds of a stretch of tokens are those of its two parts, one after
/// the other.
proof fn lemma_kinds_split(tokens: Seq<TokenModel>, from: int, middle: int, to: int)
    requires
        0 <= from <= middle <= to <= tokens.len(),
    ensures
        kinds(tokens, from, to) == kinds(tokens, from, middle) + kinds(tokens, middle, to),
{
    assert(kinds(tokens, from, to) =~= kinds(tokens, from, middle) + kinds(tokens, middle, to));
}

/// The kinds of a stretch of one token.
proof fn lemma_kinds_one(tokens: Seq<TokenModel>, at: int)
    requires
        0 <= at < tokens.len(),
    ensures
        kinds(tokens, at, at + 1) == seq![tokens[at].token_type],
        kinds(tokens, at, at) == Seq::<TokenType>::empty(),
{
    assert(kinds(tokens, at, at + 1) =~= seq![tokens[at].token_type]);
    assert(kinds(tokens, at, at) =~= Seq::<TokenType>::empty());
}

/// An expression is parsed from the tokens that spell it: where the grammar
/// finds an expression, the kinds of the tokens from its start to its end
/// are, one for one, the spelling of its tree.
pub proof fn lemma_expression_spelled(tokens: Seq<TokenModel>, pos: int)
    ensures
        reads(tokens, pos, expression(tokens, pos)),
    decreases crate::grammar::remaining(tokens, pos), 60nat,
{
    lemma_assignment_spelled(tokens, pos);
}

proof fn lemma_assignment_spelled(tokens: Seq<TokenModel>, pos: int)
    ensures
        reads(tokens, pos, assignment(tokens, pos)),
    decreases crate::grammar::remaining(tokens, pos), 50nat,
{
    lemma_binary_spelled(tokens, pos, Precedence::Or);
    match proper(tokens, pos, binary(tokens, pos, Precedence::Or)) {
        Parsed::Tree(target, next) => {
            if check(tokens, next, TokenType::Equal) {
                lemma_assignment_spelled(tokens, next + 1);
                match assignment(tokens, next + 1) {
                    Parsed::Tree(value, end) => {
                        match target {
                            ExprModel::Variable(name) => {
                                lemma_kinds_one(tokens, next);
                                lemma_kinds_split(tokens, pos, next, end);
                                lemma_kinds_split(tokens, next, next + 1, end);
                                assert(seq![name.token_type, TokenType::Equal] =~= seq![
                                    name.token_type,
                                ] + seq![TokenType::Equal]);
                                assert(kinds(tokens, pos, end) =~= seq![
                                    name.token_type,
                                    TokenType::Equal,
                                ] + spelling(value));
                            },
                            _ => {},
                        }
                    },
                    Parsed::Error(_) => {},
                }
            }
        },
        Parsed::Error(_) => {},
    }
}

proof fn lemma_binary_spelled(tokens: Seq<TokenModel>, pos: int, class: Precedence)
    ensures
        reads(tokens, pos, binary(tokens, pos, class)),
    decreases crate::grammar::remaining(tokens, pos), 2 * class.rank() + 12,
{
    lemma_operand_spelled(tokens, pos, class);
    match proper(tokens, pos, operand(tokens, pos, class)) {
        Parsed::Tree(left, next) => lemma_binary_rest_spelled(tokens, pos, next, class, left),
        Parsed::Error(_) => {},
    }
}

proof fn lemma_operand_spelled(tokens: Seq<TokenModel>, pos: int, class: Precedence)
    ensures
        reads(tokens, pos, operand(tokens, pos, class)),
    decreases crate::grammar::remaining(tokens, pos), 2 * class.rank() + 11,
{
    match class.tighter() {
        Some(tighter) => lemma_binary_spelled(tokens, pos, tighter),
        None => lemma_unary_spelled(tokens, pos),
    }
}

proof fn lemma_binary_rest_spelled(
    tokens: Seq<TokenModel>,
    start: int,
    pos: int,
    class: Precedence,
    left: ExprModel,
)
    requires
        0 <= start < pos <= tokens.len(),
        kinds(tokens, start, pos) == spelling(left),
    ensures
        reads(tokens, start, binary_rest(tokens, pos, class, left)),
    decreases crate::grammar::remaining(tokens, pos), 2 * class.rank() + 12,
{
    if !at_end(tokens, pos) && class.has(tokens[pos].token_type) {
        lemma_operand_spelled(tokens, pos + 1, class);
        match proper(tokens, pos + 1, operand(tokens, pos + 1, class)) {
            Parsed::Tree(right, next) => {
                let joined = class.combine(left, tokens[pos], right);
                lemma_kinds_one(tokens, pos);
                lemma_kinds_split(tokens, start, pos, next);
                lemma_kinds_split(tokens, pos, pos + 1, next);
                assert(spelling(joined) == spelling(left) + seq![tokens[pos].token_type]
                    + spelling(right));
                assert(kinds(tokens, start, next) =~= spelling(joined));
                lemma_binary_rest_spelled(tokens, start, next, class, joined);
            },
            Parsed::Error(_) => {},
        }
    }
}

proof fn lemma_unary_spelled(tokens: Seq<TokenModel>, pos: int)
    ensures
        reads(tokens, pos, unary(tokens, pos)),
    decreases crate::grammar::remaining(tokens, pos), 5nat,
{
    if check(tokens, pos, TokenType::Bang) || check(tokens, pos, TokenType::Minus) {
        lemma_unary_spelled(tokens, pos + 1);
        match unary(tokens, pos + 1) {
            Parsed::Tree(right, next) => {
                lemma_kinds_one(tokens, pos);
                lemma_kinds_split(tokens, pos, pos + 1, next);
            },
            Parsed::Error(_) => {},
        }
    } else {
        lemma_call_spelled(tokens, pos);
    }
}

proof fn lemma_call_spelled(tokens: Seq<TokenModel>, pos: int)
    ensures
        reads(tokens, pos, call(tokens, pos)),
    decreases crate::grammar::remaining(tokens, pos), 4nat,
{
    lemma_primary_spelled(tokens, pos);
    match proper(tokens, pos, primary(tokens, pos)) {
        Parsed::Tree(callee, next) => lemma_call_rest_spelled(tokens, pos, next, callee),
        Parsed::Error(_) => {},
    }
}

proof fn lemma_call_rest_spelled(
    tokens: Seq<TokenModel>,
    start: int,
    pos: int,
    callee: ExprModel,
)
    requires
        0 <= start < pos <= tokens.len(),
        kinds(tokens, start, pos) == spelling(callee),
    ensures
        reads(tokens, start, call_rest(tokens, pos, callee)),
    decreases crate::grammar::remaining(tokens, pos), 3nat,
{
    if check(tokens, pos, TokenType::LeftParen) {
        lemma_finish_call_spelled(tokens, start, pos + 1, callee);
        match proper(tokens, pos, finish_call(tokens, pos + 1, callee)) {
            Parsed::Tree(called, next) => lemma_call_rest_spelled(tokens, start, next, called),
            Parsed::Error(_) => {},
        }
    }
}

proof fn lemma_finish_call_spelled(
    tokens: Seq<TokenModel>,
    start: int,
    pos: int,
    callee: ExprModel,
)
    requires
        0 <= start < pos - 1,
        check(tokens, pos - 1, TokenType::LeftParen),
        kinds(tokens, start, pos - 1) == spelling(callee),
    ensures
        reads(tokens, start, finish_call(tokens, pos, callee)),
    decreases crate::grammar::remaining(tokens, pos), 80nat,
{
    let list = if check(tokens, pos, TokenType::RightParen) {
        Parsed::Tree(Seq::empty(), pos)
    } else {
        arguments(tokens, pos, Seq::empty())
    };
    if !check(tokens, pos, TokenType::RightParen) {
        lemma_arguments_spelled(tokens, pos, pos, Seq::empty());
    }
    match list {
        Parsed::Tree(given, next) => {
            match consume(tokens, next, TokenType::RightParen, "Expected ')' after arguments."@) {
                Parsed::Tree(paren, end) => {
                    lemma_kinds_one(tokens, pos - 1);
                    lemma_kinds_one(tokens, next);
                    if pos < tokens.len() {
                        lemma_kinds_one(tokens, pos);
                    }
                    lemma_kinds_split(tokens, start, pos - 1, end);
                    lemma_kinds_split(tokens, pos - 1, pos, end);
                    lemma_kinds_split(tokens, pos, next, end);
                    assert(kinds(tokens, pos, next) == spelling_of_list(given));
                    assert(kinds(tokens, start, end) =~= spelling(callee) + seq![
                        TokenType::LeftParen,
                    ] + spelling_of_list(given) + seq![paren.token_type]);
                },
                Parsed::Error(_) => {},
            }
        },
        Parsed::Error(_) => {},
    }
}

proof fn lemma_arguments_spelled(
    tokens: Seq<TokenModel>,
    first: int,
    pos: int,
    given: Seq<ExprModel>,
)
    requires
        0 <= first <= pos <= tokens.len(),
        if given.len() == 0 {
            pos == first
        } else {
            kinds(tokens, first, pos) == spelling_of_list(given) + seq![TokenType::Comma]
        },
    ensures
        match arguments(tokens, pos, given) {
            Parsed::Tree(all, next) => {
                &&& pos < next <= tokens.len()
                &&& kinds(tokens, first, next) == spelling_of_list(all)
            },
            Parsed::Error(_) => true,
        },
    decreases crate::grammar::remaining(tokens, pos), 70nat,
{
    if given.len() < MAX_ARITY {
        lemma_expression_spelled(tokens, pos);
        match proper(tokens, pos, expression(tokens, pos)) {
            Parsed::Tree(argument, next) => {
                let more = given.push(argument);
                assert(more.drop_last() =~= given);
                assert(more.last() == argument);
                lemma_kinds_split(tokens, first, pos, next);
                if given.len() == 0 {
                    lemma_kinds_one(tokens, pos);
                    assert(more[0] == argument);
                    assert(kinds(tokens, first, next) =~= spelling_of_list(more));
                } else {
                    assert(kinds(tokens, first, next) =~= spelling_of_list(more));
                }
                if check(tokens, next, TokenType::Comma) {
                    lemma_kinds_one(tokens, next);
                    lemma_kinds_split(tokens, first, next, next + 1);
                    lemma_arguments_spelled(tokens, first, next + 1, more);
                }
            },
            Parsed::Error(_) => {},
        }
    }
}

proof fn lemma_primary_spelled(tokens: Seq<TokenModel>, pos: int)
    ensures
        reads(tokens, pos, primary(tokens, pos)),
    decreases crate::grammar::remaining(tokens, pos), 1nat,
{
    if 0 <= pos < tokens.len() {
        lemma_kinds_one(tokens, pos);
    }
    if check(tokens, pos, TokenType::False) || check(tokens, pos, TokenType::True) || check(
        tokens,
        pos,
        TokenType::Nil,
    ) || check(tokens, pos, TokenType::Number) || check(tokens, pos, TokenType::String) {
    } else if check(tokens, pos, TokenType::LeftParen) {
        lemma_expression_spelled(tokens, pos + 1);
        match expression(tokens, pos + 1) {
            Parsed::Tree(inner, next) => {
                match consume(
                    tokens,
                    next,
                    TokenType::RightParen,
                    "Expected ')' after expression."@,
                ) {
                    Parsed::Tree(_, end) => {
                        lemma_kinds_one(tokens, next);
                        lemma_kinds_split(tokens, pos, pos + 1, end);
                        lemma_kinds_split(tokens, pos + 1, next, end);
                        assert(kinds(tokens, pos, end) =~= seq![TokenType::LeftParen] + spelling(
                            inner,
                        ) + seq![TokenType::RightParen]);
                    },
                    Parsed::Error(_) => {},
                }
            },
            Parsed::Error(_) => {},
        }
    }
}

} // verus!
