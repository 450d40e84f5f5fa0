//! Evaluation is local: what the interpreter does with the work on top of
//! its stacks does not depend on what lies below.
//!
//! This is what lets a law speak of the value of an expression, whatever the
//! expression is and wherever it stands: see [`evaluates`] and
//! [`lemma_declared_variable_prints_its_value`].

use crate::expression::Expr;
use crate::semantics::{
    lemma_declared_value_is_printed, print_request, Frame, InterpreterModel, Outcome, RequestModel,
};
use crate::statement::Stmt;
use crate::token::{Token, TokenType};
use crate::value::{Callable, Number, ValueModel};
use vstd::prelude::*;

verus! {

/// The state `local` with the pending work `frames` and the operands
/// `operands` below its own.
pub open spec fn under<'a>(
    frames: Seq<Frame<'a>>,
    operands: Seq<ValueModel<'a>>,
    local: InterpreterModel<'a>,
) -> InterpreterModel<'a> {
    InterpreterModel { frames: frames + local.frames, operands: operands + local.operands, ..local }
}

/// The outcome `local` with the pending work `frames` and the operands
/// `operands` below its own.
pub open spec fn lifted<'a>(
    frames: Seq<Frame<'a>>,
    operands: Seq<ValueModel<'a>>,
    local: Outcome<'a>,
) -> Outcome<'a> {
    Outcome { state: under(frames, operands, local.state), request: local.request }
}

/// The state after as many steps as there are replies, each step with the
/// reply of the host to the request of the step before.
pub open spec fn run<'a>(state: InterpreterModel<'a>, replies: Seq<Option<Number>>) -> InterpreterModel<
    'a,
>
    decreases replies.len(),
{
    if replies.len() == 0 {
        state
    } else {
        run(state.step(replies[0]).state, replies.drop_first())
    }
}

/// Whether the steps with these replies all find work to do, or a number
/// that was waited for, and none of them fails.
pub open spec fn in_progress(state: InterpreterModel, replies: Seq<Option<Number>>) -> bool
    decreases replies.len(),
{
    replies.len() == 0 || {
        &&& state.frames.len() > 0 || state.awaiting
        &&& !(state.step(replies[0]).request is Failed)
        &&& in_progress(state.step(replies[0]).state, replies.drop_first())
    }
}

/// The state in which nothing is pending but the evaluation of `expr`, in
/// the scopes and the scope of `state`.
pub open spec fn evaluation<'a>(state: InterpreterModel<'a>, expr: &'a Expr) -> InterpreterModel<'a> {
    InterpreterModel {
        scopes: state.scopes,
        current: state.current,
        frames: seq![Frame::Evaluate(expr)],
        operands: Seq::empty(),
        unwinding: None,
        awaiting: false,
    }
}

/// Whether `expr`, evaluated in the scopes and the scope of `state` by a
/// host that gives `replies`, has the value `value` and leaves the state
/// `after` behind, in which nothing is pending and `value` is the only
/// operand.
pub open spec fn evaluates<'a>(
    state: InterpreterModel<'a>,
    expr: &'a Expr,
    replies: Seq<Option<Number>>,
    value: ValueModel<'a>,
    after: InterpreterModel<'a>,
) -> bool {
    &&& in_progress(evaluation(state, expr), replies)
    &&& run(evaluation(state, expr), replies) == after
    &&& after.frames.len() == 0
    &&& after.operands == seq![value]
    &&& after.unwinding is None
    &&& !after.awaiting
}

/// A literal that is not a number evaluates in one step, to itself: `nil`
/// to nil, `true` and `false` to the booleans, and a string to its
/// contents.
pub proof fn lemma_literal_evaluates<'a>(state: InterpreterModel<'a>, expr: &'a Expr)
    requires
        expr is Nil || expr is True || expr is False || expr is String,
    ensures
        ({
            let value = match expr {
                Expr::True => ValueModel::Bool(true),
                Expr::False => ValueModel::Bool(false),
                Expr::String(contents) => ValueModel::String(contents@),
                _ => ValueModel::Nil,
            };
            evaluates(
                state,
                expr,
                seq![None],
                value,
                InterpreterModel { frames: Seq::empty(), operands: seq![value], ..evaluation(state, expr) },
            )
        }),
{
    let value = match expr {
        Expr::True => ValueModel::Bool(true),
        Expr::False => ValueModel::Bool(false),
        Expr::String(contents) => ValueModel::String(contents@),
        _ => ValueModel::Nil,
    };
    let start = evaluation(state, expr);
    let replies = seq![None::<Number>];
    let stepped = start.step(None);
    assert(start.frames.drop_last() =~= Seq::empty());
    assert(stepped.state.operands =~= seq![value]);
    assert(replies.drop_first() =~= Seq::empty());
    assert(run(stepped.state, replies.drop_first()) == stepped.state);
    assert(in_progress(stepped.state, replies.drop_first()));
}

proof fn lemma_under_with_frame<'a>(
    frames: Seq<Frame<'a>>,
    operands: Seq<ValueModel<'a>>,
    local: InterpreterModel<'a>,
    frame: Frame<'a>,
)
    ensures
        under(frames, operands, local.with_frame(frame)) == under(
            frames,
            operands,
            local,
        ).with_frame(frame),
{
    assert(frames + local.frames.push(frame) =~= (frames + local.frames).push(frame));
}

proof fn lemma_under_with_operand<'a>(
    frames: Seq<Frame<'a>>,
    operands: Seq<ValueModel<'a>>,
    local: InterpreterModel<'a>,
    value: ValueModel<'a>,
)
    ensures
        under(frames, operands, local.with_operand(value)) == under(
            frames,
            operands,
            local,
        ).with_operand(value),
{
    assert(operands + local.operands.push(value) =~= (operands + local.operands).push(value));
}

proof fn lemma_under_without_operands<'a>(
    frames: Seq<Frame<'a>>,
    operands: Seq<ValueModel<'a>>,
    local: InterpreterModel<'a>,
    count: int,
)
    requires
        0 <= count <= local.operands.len(),
    ensures
        under(frames, operands, local.without_operands(count)) == under(
            frames,
            operands,
            local,
        ).without_operands(count),
        forall|depth: int|
            0 <= depth < local.operands.len() ==> under(frames, operands, local).operand(depth)
                == local.operand(depth),
        count > 0 ==> under(frames, operands, local).operands.skip(
            operands.len() + local.operands.len() - count,
        ) == local.operands.skip(local.operands.len() - count),
{
    let whole = operands + local.operands;
    assert(operands + local.operands.take(local.operands.len() - count) =~= whole.take(
        whole.len() - count,
    ));
    if count > 0 {
        assert(whole.skip(whole.len() - count) =~= local.operands.skip(
            local.operands.len() - count,
        ));
    }
}

/// Running a statement does the same with anything below.
proof fn lemma_execute_under<'a>(
    frames: Seq<Frame<'a>>,
    operands: Seq<ValueModel<'a>>,
    local: InterpreterModel<'a>,
    statement: &'a Stmt,
)
    requires
        !(local.execute(statement).request is Failed),
    ensures
        under(frames, operands, local).execute(statement) == lifted(
            frames,
            operands,
            local.execute(statement),
        ),
{
    let below = under(frames, operands, local);
    match statement {
        Stmt::Print(expr) => {
            lemma_under_with_frame(frames, operands, local, Frame::Print);
            lemma_under_with_frame(
                frames,
                operands,
                local.with_frame(Frame::Print),
                Frame::Evaluate(expr),
            );
        },
        Stmt::Expr(expr) => {
            lemma_under_with_frame(frames, operands, local, Frame::Discard);
            lemma_under_with_frame(
                frames,
                operands,
                local.with_frame(Frame::Discard),
                Frame::Evaluate(expr),
            );
        },
        Stmt::Var(name, initializer) => {
            match initializer {
                Some(expr) => {
                    lemma_under_with_frame(frames, operands, local, Frame::Define(name));
                    lemma_under_with_frame(
                        frames,
                        operands,
                        local.with_frame(Frame::Define(name)),
                        Frame::Evaluate(expr),
                    );
                },
                None => {},
            }
        },
        Stmt::Block(statements) => {
            let widened = local.with_scopes(
                local.scopes.push(crate::environment::ScopeModel::empty(Some(local.current))),
            );
            lemma_under_with_frame(frames, operands, widened, Frame::LeaveScope(local.current));
            lemma_under_with_frame(
                frames,
                operands,
                widened.with_frame(Frame::LeaveScope(local.current)),
                Frame::Statements(statements, 0),
            );
        },
        Stmt::If(condition, then_branch, else_branch) => {
            let branch = Frame::Branch(
                then_branch,
                match else_branch {
                    Some(branch) => Some(&**branch),
                    None => None,
                },
            );
            lemma_under_with_frame(frames, operands, local, branch);
            lemma_under_with_frame(
                frames,
                operands,
                local.with_frame(branch),
                Frame::Evaluate(condition),
            );
        },
        Stmt::While(condition, body) => {
            lemma_under_with_frame(frames, operands, local, Frame::Loop(condition, body));
            lemma_under_with_frame(
                frames,
                operands,
                local.with_frame(Frame::Loop(condition, body)),
                Frame::Evaluate(condition),
            );
        },
        Stmt::Function(function) => {},
        Stmt::Ret(value) => {
            match value {
                Some(expr) => {
                    lemma_under_with_frame(frames, operands, local, Frame::Return);
                    lemma_under_with_frame(
                        frames,
                        operands,
                        local.with_frame(Frame::Return),
                        Frame::Evaluate(expr),
                    );
                },
                None => {},
            }
        },
    }
}

/// Evaluating an expression does the same with anything below.
proof fn lemma_evaluate_under<'a>(
    frames: Seq<Frame<'a>>,
    operands: Seq<ValueModel<'a>>,
    local: InterpreterModel<'a>,
    expr: &'a Expr,
)
    requires
        !(local.evaluate(expr).request is Failed),
    ensures
        under(frames, operands, local).evaluate(expr) == lifted(
            frames,
            operands,
            local.evaluate(expr),
        ),
    decreases expr,
{
    match expr {
        Expr::Number(_) => {},
        Expr::String(contents) => {
            lemma_under_with_operand(frames, operands, local, ValueModel::String(contents@));
        },
        Expr::True => {
            lemma_under_with_operand(frames, operands, local, ValueModel::Bool(true));
        },
        Expr::False => {
            lemma_under_with_operand(frames, operands, local, ValueModel::Bool(false));
        },
        Expr::Nil => {
            lemma_under_with_operand(frames, operands, local, ValueModel::Nil);
        },
        Expr::Grouping(inner) => {
            lemma_evaluate_under(frames, operands, local, inner);
        },
        Expr::Unary(operator, operand) => {
            let frame = if operator.token_type == TokenType::Bang {
                Frame::Not
            } else {
                Frame::Negate
            };
            lemma_under_with_frame(frames, operands, local, frame);
            lemma_under_with_frame(
                frames,
                operands,
                local.with_frame(frame),
                Frame::Evaluate(operand),
            );
        },
        Expr::Binary(left, operator, right) => {
            let first = local.with_frame(Frame::Apply(operator));
            let second = first.with_frame(Frame::Evaluate(right));
            lemma_under_with_frame(frames, operands, local, Frame::Apply(operator));
            lemma_under_with_frame(frames, operands, first, Frame::Evaluate(right));
            lemma_under_with_frame(frames, operands, second, Frame::Evaluate(left));
        },
        Expr::Variable(name) => {
            match crate::environment::lookup(local.scopes, local.current as int, name.literal@) {
                Some(value) => {
                    lemma_under_with_operand(frames, operands, local, value);
                },
                None => {},
            }
        },
        Expr::Assignment(name, value) => {
            lemma_under_with_frame(frames, operands, local, Frame::Assign(name));
            lemma_under_with_frame(
                frames,
                operands,
                local.with_frame(Frame::Assign(name)),
                Frame::Evaluate(value),
            );
        },
        Expr::Logical(left, operator, right) => {
            lemma_under_with_frame(frames, operands, local, Frame::ShortCircuit(operator, right));
            lemma_under_with_frame(
                frames,
                operands,
                local.with_frame(Frame::ShortCircuit(operator, right)),
                Frame::Evaluate(left),
            );
        },
        Expr::Call(callee, _, arguments) => {
            let first = local.with_frame(Frame::Invoke(arguments.len()));
            let second = first.with_frame(Frame::Arguments(arguments, 0));
            let third = second.with_frame(Frame::Callee);
            lemma_under_with_frame(frames, operands, local, Frame::Invoke(arguments.len()));
            lemma_under_with_frame(frames, operands, first, Frame::Arguments(arguments, 0));
            lemma_under_with_frame(frames, operands, second, Frame::Callee);
            lemma_under_with_frame(frames, operands, third, Frame::Evaluate(callee));
        },
    }
}

/// Applying a binary operator does the same with anything below.
proof fn lemma_apply_under<'a>(
    frames: Seq<Frame<'a>>,
    operands: Seq<ValueModel<'a>>,
    local: InterpreterModel<'a>,
    left: ValueModel<'a>,
    operator: &'a Token,
    right: ValueModel<'a>,
)
    requires
        !(local.apply(left, operator, right).request is Failed),
    ensures
        under(frames, operands, local).apply(left, operator, right) == lifted(
            frames,
            operands,
            local.apply(left, operator, right),
        ),
{
    lemma_under_with_operand(frames, operands, local, ValueModel::Bool(true));
    lemma_under_with_operand(frames, operands, local, ValueModel::Bool(false));
    match (left, right) {
        (ValueModel::String(a), ValueModel::String(b)) => {
            lemma_under_with_operand(frames, operands, local, ValueModel::String(a + b));
        },
        _ => {},
    }
}

/// Calling a callable does the same with anything below.
proof fn lemma_call_under<'a>(
    frames: Seq<Frame<'a>>,
    operands: Seq<ValueModel<'a>>,
    local: InterpreterModel<'a>,
    callable: Callable<'a>,
    arguments: Seq<ValueModel<'a>>,
)
    requires
        !(local.call(callable, arguments).request is Failed),
    ensures
        under(frames, operands, local).call(callable, arguments) == lifted(
            frames,
            operands,
            local.call(callable, arguments),
        ),
{
    match callable {
        Callable::Function { func_stmt, environment, .. } => {
            let inside = local.scopes.len() as usize;
            let params = func_stmt.params@;
            let count = if params.len() < arguments.len() {
                params.len()
            } else {
                arguments.len()
            };
            let widened = local.with_scopes(
                crate::semantics::bound_parameters(
                    local.scopes.push(crate::environment::ScopeModel::empty(Some(environment))),
                    inside as int,
                    params,
                    arguments,
                    count,
                ),
            );
            let first = widened.with_frame(Frame::CallBoundary(local.current));
            lemma_under_with_frame(frames, operands, widened, Frame::CallBoundary(local.current));
            lemma_under_with_frame(frames, operands, first, Frame::Statements(&func_stmt.body, 0));
        },
        Callable::Native { .. } => {},
    }
}

/// Calling the callee below its arguments does the same with anything
/// below.
proof fn lemma_invoke_under<'a>(
    frames: Seq<Frame<'a>>,
    operands: Seq<ValueModel<'a>>,
    local: InterpreterModel<'a>,
    count: usize,
)
    requires
        !(local.invoke(count).request is Failed),
    ensures
        under(frames, operands, local).invoke(count) == lifted(
            frames,
            operands,
            local.invoke(count),
        ),
{
    lemma_under_without_operands(frames, operands, local, count + 1);
    match local.operand(count as int) {
        ValueModel::Callable(callable) => {
            lemma_call_under(
                frames,
                operands,
                local.without_operands(count + 1),
                callable,
                local.operands.skip(local.operands.len() - count),
            );
            let whole = operands + local.operands;
            assert(whole.skip(whole.len() - count) =~= local.operands.skip(
                local.operands.len() - count,
            ));
        },
        _ => {},
    }
}

/// Doing pending work that takes the topmost operand does the same with
/// anything below.
proof fn lemma_consume_under<'a>(
    frames: Seq<Frame<'a>>,
    operands: Seq<ValueModel<'a>>,
    local: InterpreterModel<'a>,
    frame: Frame<'a>,
    value: ValueModel<'a>,
)
    requires
        local.operands.len() > 0,
        !(local.consume(frame, value).request is Failed),
    ensures
        under(frames, operands, local).consume(frame, value) == lifted(
            frames,
            operands,
            local.consume(frame, value),
        ),
{
    let popped = local.without_operands(1);
    lemma_under_without_operands(frames, operands, local, 1);
    match frame {
        Frame::Branch(then_branch, else_branch) => {
            lemma_under_with_frame(frames, operands, popped, Frame::Execute(then_branch));
            match else_branch {
                Some(branch) => {
                    lemma_under_with_frame(frames, operands, popped, Frame::Execute(branch));
                },
                None => {},
            }
        },
        Frame::Loop(condition, body) => {
            let first = popped.with_frame(Frame::Loop(condition, body));
            let second = first.with_frame(Frame::Evaluate(condition));
            lemma_under_with_frame(frames, operands, popped, Frame::Loop(condition, body));
            lemma_under_with_frame(frames, operands, first, Frame::Evaluate(condition));
            lemma_under_with_frame(frames, operands, second, Frame::Execute(body));
        },
        Frame::Not => {
            lemma_under_with_operand(frames, operands, popped, ValueModel::Bool(!value.truthy()));
        },
        Frame::Negate => {
            match value {
                ValueModel::Number(number) => {
                    lemma_under_with_operand(
                        frames,
                        operands,
                        popped,
                        ValueModel::Number(number.negated()),
                    );
                },
                _ => {},
            }
        },
        Frame::Apply(operator) => {
            lemma_under_without_operands(frames, operands, local, 2);
            lemma_apply_under(
                frames,
                operands,
                local.without_operands(2),
                local.operand(1),
                operator,
                value,
            );
        },
        Frame::ShortCircuit(operator, right) => {
            lemma_under_with_frame(frames, operands, popped, Frame::Evaluate(right));
        },
        _ => {},
    }
}

/// Doing a piece of pending work does the same with anything below.
proof fn lemma_resume_under<'a>(
    frames: Seq<Frame<'a>>,
    operands: Seq<ValueModel<'a>>,
    local: InterpreterModel<'a>,
    frame: Frame<'a>,
)
    requires
        !(local.resume(frame).request is Failed),
    ensures
        under(frames, operands, local).resume(frame) == lifted(
            frames,
            operands,
            local.resume(frame),
        ),
{
    match frame {
        Frame::Statements(statements, next) => {
            if next < statements.len() {
                let following = Frame::Statements(statements, (next + 1) as usize);
                lemma_under_with_frame(frames, operands, local, following);
                lemma_execute_under(
                    frames,
                    operands,
                    local.with_frame(following),
                    &statements[next as int],
                );
            }
        },
        Frame::Execute(statement) => {
            lemma_execute_under(frames, operands, local, statement);
        },
        Frame::Evaluate(expr) => {
            lemma_evaluate_under(frames, operands, local, expr);
        },
        Frame::Arguments(arguments, next) => {
            if next < arguments.len() {
                let following = Frame::Arguments(arguments, (next + 1) as usize);
                lemma_under_with_frame(frames, operands, local, following);
                lemma_under_with_frame(
                    frames,
                    operands,
                    local.with_frame(following),
                    Frame::Evaluate(&arguments[next as int]),
                );
            }
        },
        Frame::LeaveScope(scope) => {},
        Frame::CallBoundary(scope) => {
            lemma_under_with_operand(frames, operands, local.in_scope(scope), ValueModel::Nil);
        },
        Frame::Invoke(count) => {
            lemma_invoke_under(frames, operands, local, count);
        },
        _ => {
            let whole = operands + local.operands;
            assert(whole.last() == local.operands.last());
            lemma_consume_under(frames, operands, local, frame, local.operands.last());
        },
    }
}

/// A step does the same with anything below, as long as it finds work to do
/// above and does not fail.
pub proof fn lemma_step_under<'a>(
    frames: Seq<Frame<'a>>,
    operands: Seq<ValueModel<'a>>,
    local: InterpreterModel<'a>,
    reply: Option<Number>,
)
    requires
        local.frames.len() > 0 || local.awaiting,
        !(local.step(reply).request is Failed),
    ensures
        under(frames, operands, local).step(reply) == lifted(
            frames,
            operands,
            local.step(reply),
        ),
{
    let below = under(frames, operands, local);
    if local.awaiting {
        match reply {
            Some(number) => {
                lemma_under_with_operand(
                    frames,
                    operands,
                    InterpreterModel { awaiting: false, ..local },
                    ValueModel::Number(number),
                );
            },
            None => {},
        }
    } else {
        let rest = InterpreterModel { frames: local.frames.drop_last(), ..local };
        assert(below.frames.drop_last() =~= frames + rest.frames);
        assert(below.frames.last() == local.frames.last());
        assert(InterpreterModel { frames: below.frames.drop_last(), ..below } == under(
            frames,
            operands,
            rest,
        ));
        match local.unwinding {
            Some(signal) => {
                match local.frames.last() {
                    Frame::CallBoundary(scope) => {
                        lemma_under_with_operand(
                            frames,
                            operands,
                            InterpreterModel { unwinding: None, ..rest }.in_scope(scope),
                            signal.result(),
                        );
                    },
                    _ => {},
                }
            },
            None => {
                lemma_resume_under(frames, operands, rest, local.frames.last());
            },
        }
    }
}

/// A run does the same with anything below, as long as it is in progress.
pub proof fn lemma_run_under<'a>(
    frames: Seq<Frame<'a>>,
    operands: Seq<ValueModel<'a>>,
    local: InterpreterModel<'a>,
    replies: Seq<Option<Number>>,
)
    requires
        in_progress(local, replies),
    ensures
        run(under(frames, operands, local), replies) == under(
            frames,
            operands,
            run(local, replies),
        ),
    decreases replies.len(),
{
    if replies.len() > 0 {
        lemma_step_under(frames, operands, local, replies[0]);
        lemma_run_under(frames, operands, local.step(replies[0]).state, replies.drop_first());
    }
}

/// A run with two lists of replies, one after the other, is the run with
/// the first list followed by the run with the second.
pub proof fn lemma_run_append<'a>(
    state: InterpreterModel<'a>,
    first: Seq<Option<Number>>,
    second: Seq<Option<Number>>,
)
    ensures
        run(state, first + second) == run(run(state, first), second),
        in_progress(state, first + second) == (in_progress(state, first) && in_progress(
            run(state, first),
            second,
        )),
    decreases first.len(),
{
    if first.len() == 0 {
        assert(first + second =~= second);
    } else {
        assert((first + second).drop_first() =~= first.drop_first() + second);
        lemma_run_append(state.step(first[0]).state, first.drop_first(), second);
    }
}

/// A run that is in progress is in progress with anything below.
pub proof fn lemma_in_progress_under<'a>(
    frames: Seq<Frame<'a>>,
    operands: Seq<ValueModel<'a>>,
    local: InterpreterModel<'a>,
    replies: Seq<Option<Number>>,
)
    requires
        in_progress(local, replies),
    ensures
        in_progress(under(frames, operands, local), replies),
    decreases replies.len(),
{
    if replies.len() > 0 {
        lemma_step_under(frames, operands, local, replies[0]);
        lemma_in_progress_under(
            frames,
            operands,
            local.step(replies[0]).state,
            replies.drop_first(),
        );
    }
}

/// For every expression, the expression in parentheses has the value of
/// the expression itself: it evaluates with the same replies of the host to
/// the same value, and leaves the same state behind.
pub proof fn lemma_grouping_has_the_value_inside<'a>(
    state: InterpreterModel<'a>,
    grouping: &'a Expr,
    replies: Seq<Option<Number>>,
    value: ValueModel<'a>,
    after: InterpreterModel<'a>,
)
    requires
        grouping is Grouping,
    ensures
        evaluates(state, grouping, replies, value, after) == evaluates(
            state,
            &*grouping->Grouping_0,
            replies,
            value,
            after,
        ),
{
    let inner = &*grouping->Grouping_0;
    let outside = evaluation(state, grouping);
    let inside = evaluation(state, inner);
    if replies.len() > 0 {
        assert(outside.frames.drop_last() =~= inside.frames.drop_last());
        assert(outside.step(replies[0]) == inside.step(replies[0]));
    }
}

/// `and` and `or` do not evaluate their right operand when the left one
/// decides. If the left operand of `or` evaluates to a truthy value, or
/// that of `and` to a falsy one, then the whole expression evaluates to
/// that very value, and the state that it leaves behind is the one that the
/// left operand alone leaves behind: the right operand has done nothing.
pub proof fn lemma_decided_by_the_left_operand<'a>(
    state: InterpreterModel<'a>,
    logical: &'a Expr,
    replies: Seq<Option<Number>>,
    value: ValueModel<'a>,
    after: InterpreterModel<'a>,
)
    requires
        logical is Logical,
        logical->Logical_1.token_type == TokenType::Or || logical->Logical_1.token_type
            == TokenType::And,
        evaluates(state, &*logical->Logical_0, replies, value, after),
        (logical->Logical_1.token_type == TokenType::Or) == value.truthy(),
    ensures
        evaluates(state, logical, seq![None] + replies + seq![None], value, after),
{
    let left = &*logical->Logical_0;
    let operator = &logical->Logical_1;
    let right = &*logical->Logical_2;
    let start = evaluation(state, logical);
    let one = seq![None::<Number>];
    let base = seq![Frame::ShortCircuit(operator, right)];
    let local = evaluation(state, left);
    let scheduled = start.step(None).state;
    assert(start.frames.drop_last() =~= Seq::empty());
    assert(scheduled.frames =~= base + local.frames);
    assert(scheduled.operands =~= Seq::<ValueModel>::empty() + local.operands);
    assert(scheduled == under(base, Seq::empty(), local));
    lemma_run_under(base, Seq::empty(), local, replies);
    lemma_in_progress_under(base, Seq::empty(), local, replies);
    let decided = run(scheduled, replies);
    assert(decided == under(base, Seq::empty(), after));
    assert(decided.frames =~= base);
    assert(decided.operands =~= seq![value]);
    let last = decided.step(None);
    assert(decided.frames.drop_last() =~= Seq::empty());
    assert(last.state == after) by {
        assert(last.state.frames =~= after.frames);
        assert(last.state.operands =~= after.operands);
    }
    assert(last.request == RequestModel::Continue);
    // The run of the whole: one step to schedule, the steps of the left
    // operand, one step to decide.
    assert(one.drop_first() =~= Seq::empty());
    assert(one[0] == None::<Number>);
    assert(run(scheduled, one.drop_first()) == scheduled);
    assert(run(start, one) == scheduled);
    assert(in_progress(start, one)) by {
        assert(in_progress(scheduled, one.drop_first()));
    }
    lemma_run_append(start, one, replies);
    assert(run(last.state, one.drop_first()) == last.state);
    assert(run(decided, one) == after);
    assert(in_progress(decided, one)) by {
        assert(in_progress(last.state, one.drop_first()));
    }
    lemma_run_append(start, one + replies, one);
}

/// For all `var name = e; print name;`, what is printed is the value of
/// `e`, whatever `e` is.
///
/// In a state whose next piece of work is these two statements of a list:
/// if `e`, evaluated where the statements stand by a host that gives
/// `replies`, has the value `value`, then the interpreter, one step for the
/// declaration and the steps of the evaluation later, binds the name, reads
/// it again and asks the host to write `value`, in four steps that ask the
/// host for nothing else.
pub proof fn lemma_declared_variable_prints_its_value<'a>(
    state: InterpreterModel<'a>,
    statements: &'a Vec<Stmt>,
    at: usize,
    replies: Seq<Option<Number>>,
    value: ValueModel<'a>,
    after: InterpreterModel<'a>,
)
    requires
        !state.awaiting,
        state.unwinding is None,
        state.frames.len() > 0,
        state.frames.last() == Frame::Statements(statements, at),
        at + 1 < statements@.len(),
        statements@[at as int] is Var,
        statements@[at as int]->Var_0.token_type == TokenType::Identifier,
        statements@[at as int]->Var_1 is Some,
        statements@[at + 1] is Print,
        statements@[at + 1]->Print_0 is Variable,
        (statements@[at + 1]->Print_0->Variable_0).token_type == TokenType::Identifier,
        (statements@[at + 1]->Print_0->Variable_0).literal@ == statements@[at as int]->Var_0.literal@,
        evaluates(state, &statements@[at as int]->Var_1->0, replies, value, after),
        after.current < after.scopes.len(),
    ensures
        ({
            let declared = state.step(None);
            let evaluated = run(declared.state, replies);
            let first = evaluated.step(None);
            let second = first.state.step(None);
            let third = second.state.step(None);
            let fourth = third.state.step(None);
            &&& declared.request == RequestModel::Continue
            &&& first.request == RequestModel::Continue
            &&& second.request == RequestModel::Continue
            &&& third.request == RequestModel::Continue
            &&& fourth.request == print_request(value)
        }),
{
    let name = &statements@[at as int]->Var_0;
    let initializer = &statements@[at as int]->Var_1->0;
    let declared = state.step(None);
    let base = state.frames.drop_last().push(
        Frame::Statements(statements, (at + 1) as usize),
    ).push(Frame::Define(name));
    let local = evaluation(state, initializer);
    assert(declared.state.frames =~= base + local.frames);
    assert(declared.state.operands =~= state.operands + local.operands);
    assert(declared.state == under(base, state.operands, local));
    lemma_run_under(base, state.operands, local, replies);
    let evaluated = run(declared.state, replies);
    assert(evaluated == under(base, state.operands, after));
    assert(evaluated.frames =~= base);
    assert(evaluated.operands =~= state.operands.push(value));
    lemma_declared_value_is_printed(evaluated, name, statements, (at + 1) as usize, value);
}

} // verus!
