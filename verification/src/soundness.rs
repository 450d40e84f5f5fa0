//! Why the interpreter never finds itself out of order.
//!
//! The interpreter reports a state or a tree that should not be as a failure
//! of its own. This module shows that no such failure happens to a program
//! that the parser has built: see [`lemma_step_sound`].

use crate::environment::{
    assigned, defined, holder, lemma_holder_on_chain, lookup, undefined_read, undefined_write,
    ScopeModel,
};
use crate::expression::{expr_models, is_binary_operator, lemma_call_model, Expr, ExprModel};
use crate::interpreter::{initial_state, Interpreter};
use crate::semantics::{
    bound_parameters, broken_state, malformed_tree, missing_reply, not_a_number, not_addable,
    not_callable, not_numbers, stray_return, wrong_arity, Frame, InterpreterModel, Outcome,
    RequestModel,
};
use crate::statement::{
    all_well_formed, lemma_block_model, lemma_function_model, stmt_models, Stmt, StmtModel,
};
use crate::token::{Token, TokenType};
use crate::value::{Callable, Number, ValueModel};
use vstd::prelude::*;

verus! {

/// Whether every statement of the list is a well-formed tree.
pub open spec fn sound_statements(statements: &Vec<Stmt>) -> bool {
    forall|i: int| 0 <= i < statements@.len() ==> (#[trigger] statements@[i])@.well_formed()
}

/// The statements of a list are sound when their models are well formed.
pub proof fn lemma_sound_statements(statements: &Vec<Stmt>)
    ensures
        sound_statements(statements) <==> all_well_formed(stmt_models(statements@)),
{
    let models = stmt_models(statements@);
    if sound_statements(statements) {
        assert forall|i: int| 0 <= i < models.len() implies (#[trigger] models[i]).well_formed() by {
            assert(models[i] == statements@[i]@);
        }
    }
    if all_well_formed(models) {
        assert forall|i: int| 0 <= i < statements@.len() implies (#[trigger] statements@[i])@.well_formed() by {
            assert(models[i] == statements@[i]@);
        }
    }
}

/// Whether every expression of the list is a well-formed tree.
pub open spec fn sound_expressions(exprs: &Vec<Expr>) -> bool {
    forall|i: int| 0 <= i < exprs@.len() ==> (#[trigger] exprs@[i])@.well_formed()
}

/// Whether `value` can be used among `count` scopes: a function of the
/// program has a well-formed body and was declared in one of the scopes.
pub open spec fn sound_value(value: ValueModel, count: nat) -> bool {
    match value {
        ValueModel::Callable(Callable::Function { func_stmt, environment, .. }) => {
            &&& environment < count
            &&& sound_statements(&func_stmt.body)
        },
        _ => true,
    }
}

/// Whether every value that is bound in the scopes can be used among them.
pub open spec fn sound_scopes(scopes: Seq<ScopeModel>) -> bool {
    forall|i: int, name: Seq<char>|
        0 <= i < scopes.len() && (#[trigger] scopes[i].bindings.dom().contains(name))
            ==> sound_value(scopes[i].bindings[name], scopes.len())
}

/// Whether the pending work `frame` can be done among `count` scopes: its
/// trees are well formed, its position lies in its list, and the scope it
/// goes back to exists.
pub open spec fn sound_frame(frame: Frame, count: nat) -> bool {
    match frame {
        Frame::Statements(statements, next) => next <= statements@.len() && sound_statements(
            statements,
        ),
        Frame::Execute(statement) => statement@.well_formed(),
        Frame::Evaluate(expr) => expr@.well_formed(),
        Frame::Branch(then_branch, else_branch) => {
            &&& then_branch@.well_formed()
            &&& match else_branch {
                Some(branch) => branch@.well_formed(),
                None => true,
            }
        },
        Frame::Loop(condition, body) => condition@.well_formed() && body@.well_formed(),
        Frame::LeaveScope(scope) => scope < count,
        Frame::CallBoundary(scope) => scope < count,
        Frame::Apply(operator) => is_binary_operator(operator.token_type),
        Frame::ShortCircuit(_, right) => right@.well_formed(),
        Frame::Arguments(arguments, next) => next <= arguments@.len() && sound_expressions(
            arguments,
        ),
        _ => true,
    }
}

/// The number of operands that the pending work `frame` takes from the
/// stack.
pub open spec fn demand(frame: Frame) -> int {
    match frame {
        Frame::Statements(_, _) => 0,
        Frame::Execute(_) => 0,
        Frame::Evaluate(_) => 0,
        Frame::LeaveScope(_) => 0,
        Frame::CallBoundary(_) => 0,
        Frame::Arguments(_, _) => 0,
        Frame::Apply(_) => 2,
        Frame::Invoke(count) => count + 1,
        _ => 1,
    }
}

/// The number of operands that the pending work `frame` has put on the
/// stack when it is done.
pub open spec fn supply(frame: Frame) -> int {
    match frame {
        Frame::Evaluate(_) => 1,
        Frame::CallBoundary(_) => 1,
        Frame::Not => 1,
        Frame::Negate => 1,
        Frame::Apply(_) => 1,
        Frame::Assign(_) => 1,
        Frame::ShortCircuit(_, _) => 1,
        Frame::Callee => 1,
        Frame::Invoke(_) => 1,
        Frame::Arguments(arguments, next) => if next <= arguments@.len() {
            arguments@.len() - next
        } else {
            0
        },
        _ => 0,
    }
}

/// Whether the pending work `frame` runs statements, so that a return
/// signal may be raised while it is done.
pub open spec fn raises(frame: Frame) -> bool {
    match frame {
        Frame::Statements(_, _) => true,
        Frame::Execute(_) => true,
        Frame::Branch(_, _) => true,
        Frame::Loop(_, _) => true,
        Frame::Return => true,
        _ => false,
    }
}

/// Whether the pending work finds the operands it needs when it starts with
/// `height` operands on the stack: each piece finds what it takes, leaves
/// what the next one needs, and, where it runs statements, leaves the stack
/// as a return signal needs it.
pub open spec fn balanced(frames: Seq<Frame>, height: int) -> bool
    decreases frames.len(), 1nat,
{
    if frames.len() == 0 {
        true
    } else {
        let frame = frames.last();
        let rest = frames.drop_last();
        &&& height >= demand(frame)
        &&& balanced(rest, height - demand(frame) + supply(frame))
        &&& raises(frame) ==> unwinds(rest, height - demand(frame))
    }
}

/// Whether a return signal that is raised with `height` operands on the
/// stack finds, at the call boundary where it stops, the stack as the
/// caller needs it.
pub open spec fn unwinds(frames: Seq<Frame>, height: int) -> bool
    decreases frames.len(), 0nat,
{
    if frames.len() == 0 {
        true
    } else {
        match frames.last() {
            Frame::CallBoundary(_) => balanced(frames.drop_last(), height + 1),
            _ => unwinds(frames.drop_last(), height),
        }
    }
}

/// The scopes, the trees and the values of the state are in order, apart
/// from the balance of pending work and operands.
pub open spec fn sound_parts(state: InterpreterModel) -> bool {
    &&& state.current < state.scopes.len()
    &&& sound_scopes(state.scopes)
    &&& forall|i: int|
        0 <= i < state.frames.len() ==> sound_frame(#[trigger] state.frames[i], state.scopes.len())
    &&& forall|i: int|
        0 <= i < state.operands.len() ==> sound_value(
            #[trigger] state.operands[i],
            state.scopes.len(),
        )
}

/// The state is one that the interpreter can go on from without finding
/// anything out of order: what [`sound_parts`] says, and the pending work
/// finds its operands, whether the interpreter is going on as usual, waits
/// for a number or carries a return signal.
pub open spec fn sound(state: InterpreterModel) -> bool {
    &&& sound_parts(state)
    &&& match state.unwinding {
        Some(signal) => {
            &&& !state.awaiting
            &&& sound_value(signal.result(), state.scopes.len())
            &&& unwinds(state.frames, state.operands.len() as int)
        },
        None => balanced(
            state.frames,
            state.operands.len() + if state.awaiting {
                1int
            } else {
                0int
            },
        ),
    }
}

/// Whether the request reports a state or a tree that is out of order,
/// rather than a mistake of the program or of the host.
pub open spec fn is_bug(request: RequestModel) -> bool {
    request == RequestModel::Failed(broken_state()) || request == RequestModel::Failed(
        malformed_tree(),
    )
}

/// A message that reports a mistake of the program or of the host.
pub open spec fn is_user_message(message: Seq<char>) -> bool {
    message.len() > 0 && message[0] != 'I'
}

/// The messages for mistakes of the program and of the host differ from
/// those for a state or a tree that is out of order.
pub proof fn lemma_user_messages()
    ensures
        !is_user_message(broken_state()),
        !is_user_message(malformed_tree()),
        is_user_message(missing_reply()),
        is_user_message(stray_return()),
        is_user_message(not_a_number()),
        is_user_message(not_callable()),
        forall|line: usize| is_user_message(#[trigger] not_numbers(line)),
        forall|line: usize| is_user_message(#[trigger] not_addable(line)),
        forall|expected: usize, given: usize| is_user_message(#[trigger] wrong_arity(expected, given)),
        forall|name: Seq<char>| is_user_message(#[trigger] undefined_read(name)),
        forall|name: Seq<char>| is_user_message(#[trigger] undefined_write(name)),
{
    reveal_strlit("Interpreter bug: unexpected state.");
    reveal_strlit("Interpreter bug: unexpected syntax tree.");
    reveal_strlit("The host gave no number.");
    reveal_strlit("return from top level");
    reveal_strlit("Error: operand must be a number.");
    reveal_strlit("Can only call functions and classes.");
    reveal_strlit("Error in line: ");
    reveal_strlit("Expected ");
    reveal_strlit("Undefined variable: ");
    reveal_strlit("Undefined variable '");
    assert forall|line: usize| is_user_message(#[trigger] not_numbers(line)) by {
        assert(not_numbers(line)[0] == "Error in line: "@[0]);
    }
    assert forall|line: usize| is_user_message(#[trigger] not_addable(line)) by {
        assert(not_addable(line)[0] == "Error in line: "@[0]);
    }
    assert forall|expected: usize, given: usize|
        is_user_message(#[trigger] wrong_arity(expected, given)) by {
        assert(wrong_arity(expected, given)[0] == "Expected "@[0]);
    }
    assert forall|name: Seq<char>| is_user_message(#[trigger] undefined_read(name)) by {
        assert(undefined_read(name)[0] == "Undefined variable: "@[0]);
    }
    assert forall|name: Seq<char>| is_user_message(#[trigger] undefined_write(name)) by {
        assert(undefined_write(name)[0] == "Undefined variable '"@[0]);
    }
}

/// What it takes for pending work with one more piece to be balanced.
proof fn lemma_balanced_push(frames: Seq<Frame>, frame: Frame, height: int)
    ensures
        balanced(frames.push(frame), height) <==> {
            &&& height >= demand(frame)
            &&& balanced(frames, height - demand(frame) + supply(frame))
            &&& raises(frame) ==> unwinds(frames, height - demand(frame))
        },
{
    assert(frames.push(frame).drop_last() =~= frames);
}

/// What it takes for a return signal to pass one more piece of pending
/// work.
proof fn lemma_unwinds_push(frames: Seq<Frame>, frame: Frame, height: int)
    ensures
        unwinds(frames.push(frame), height) <==> match frame {
            Frame::CallBoundary(_) => balanced(frames, height + 1),
            _ => unwinds(frames, height),
        },
{
    assert(frames.push(frame).drop_last() =~= frames);
}

/// The state with one more sound piece of pending work has sound parts.
proof fn lemma_parts_with_frame<'a>(state: InterpreterModel<'a>, frame: Frame<'a>)
    requires
        sound_parts(state),
        sound_frame(frame, state.scopes.len()),
    ensures
        sound_parts(state.with_frame(frame)),
{
}

/// The state with one more sound operand has sound parts.
proof fn lemma_parts_with_operand<'a>(state: InterpreterModel<'a>, value: ValueModel<'a>)
    requires
        sound_parts(state),
        sound_value(value, state.scopes.len()),
    ensures
        sound_parts(state.with_operand(value)),
        state.with_operand(value).operands.len() == state.operands.len() + 1,
{
}

/// The state without its topmost operands has sound parts.
proof fn lemma_parts_without_operands<'a>(state: InterpreterModel<'a>, count: int)
    requires
        sound_parts(state),
        0 <= count <= state.operands.len(),
    ensures
        sound_parts(state.without_operands(count)),
        state.without_operands(count).operands.len() == state.operands.len() - count,
{
}

/// The state with more scopes, all of them sound, has sound parts.
proof fn lemma_parts_with_scopes<'a>(state: InterpreterModel<'a>, scopes: Seq<ScopeModel<'a>>)
    requires
        sound_parts(state),
        sound_scopes(scopes),
        state.scopes.len() <= scopes.len(),
    ensures
        sound_parts(state.with_scopes(scopes)),
{
    let after = state.with_scopes(scopes);
    assert forall|i: int| 0 <= i < after.frames.len() implies sound_frame(
        #[trigger] after.frames[i],
        scopes.len(),
    ) by {
        assert(sound_frame(state.frames[i], state.scopes.len()));
    }
    assert forall|i: int| 0 <= i < after.operands.len() implies sound_value(
        #[trigger] after.operands[i],
        scopes.len(),
    ) by {
        assert(sound_value(state.operands[i], state.scopes.len()));
    }
}

/// Sound scopes stay sound when a sound value is bound in one of them.
proof fn lemma_defined_sound<'a>(
    scopes: Seq<ScopeModel<'a>>,
    scope: int,
    name: Seq<char>,
    value: ValueModel<'a>,
)
    requires
        sound_scopes(scopes),
        sound_value(value, scopes.len()),
        0 <= scope < scopes.len(),
    ensures
        sound_scopes(defined(scopes, scope, name, value)),
        defined(scopes, scope, name, value).len() == scopes.len(),
{
    let after = defined(scopes, scope, name, value);
    assert forall|i: int, other: Seq<char>|
        0 <= i < after.len() && (#[trigger] after[i].bindings.dom().contains(
            other,
        )) implies sound_value(after[i].bindings[other], after.len()) by {
        if i == scope && other == name {
        } else {
            assert(scopes[i].bindings.dom().contains(other));
        }
    }
}

/// Sound scopes stay sound when a sound value is assigned to a name.
proof fn lemma_assigned_sound<'a>(
    scopes: Seq<ScopeModel<'a>>,
    scope: int,
    name: Seq<char>,
    value: ValueModel<'a>,
)
    requires
        sound_scopes(scopes),
        sound_value(value, scopes.len()),
    ensures
        sound_scopes(assigned(scopes, scope, name, value)),
        assigned(scopes, scope, name, value).len() == scopes.len(),
{
    lemma_holder_on_chain(scopes, scope, name);
    match holder(scopes, scope, name) {
        Some(found) => lemma_defined_sound(scopes, found, name, value),
        None => {},
    }
}

/// Sound scopes stay sound with one more scope, which is empty.
proof fn lemma_grown_sound<'a>(scopes: Seq<ScopeModel<'a>>, enclosed: Option<usize>)
    requires
        sound_scopes(scopes),
    ensures
        sound_scopes(scopes.push(ScopeModel::empty(enclosed))),
{
    let after = scopes.push(ScopeModel::empty(enclosed));
    assert forall|i: int, name: Seq<char>|
        0 <= i < after.len() && (#[trigger] after[i].bindings.dom().contains(
            name,
        )) implies sound_value(after[i].bindings[name], after.len()) by {
        if i < scopes.len() {
            assert(scopes[i].bindings.dom().contains(name));
        }
    }
}

/// What is read from sound scopes is a sound value.
proof fn lemma_lookup_sound<'a>(scopes: Seq<ScopeModel<'a>>, scope: int, name: Seq<char>)
    requires
        sound_scopes(scopes),
    ensures
        match lookup(scopes, scope, name) {
            Some(value) => sound_value(value, scopes.len()),
            None => true,
        },
{
    lemma_holder_on_chain(scopes, scope, name);
}

/// Sound scopes stay sound when parameters are bound to sound arguments.
proof fn lemma_bound_parameters_sound<'a>(
    scopes: Seq<ScopeModel<'a>>,
    scope: int,
    params: Seq<Token>,
    arguments: Seq<ValueModel<'a>>,
    count: nat,
)
    requires
        sound_scopes(scopes),
        0 <= scope < scopes.len(),
        forall|i: int| 0 <= i < arguments.len() ==> sound_value(
            #[trigger] arguments[i],
            scopes.len(),
        ),
    ensures
        sound_scopes(bound_parameters(scopes, scope, params, arguments, count)),
        bound_parameters(scopes, scope, params, arguments, count).len() == scopes.len(),
    decreases count,
{
    if !(count == 0 || count > params.len() || count > arguments.len()) {
        let fewer = (count - 1) as nat;
        lemma_bound_parameters_sound(scopes, scope, params, arguments, fewer);
        let before = bound_parameters(scopes, scope, params, arguments, fewer);
        if params[count - 1].token_type == TokenType::Identifier {
            lemma_defined_sound(before, scope, params[count - 1].literal@, arguments[count - 1]);
        }
    }
}

/// A failure leaves a sound state behind.
proof fn lemma_fail_sound<'a>(state: InterpreterModel<'a>, message: Seq<char>)
    requires
        sound_parts(state),
    ensures
        sound(state.fail(message).state),
        state.fail(message).request == RequestModel::Failed(message),
{
}

/// The outcome leaves a sound state behind and reports nothing out of
/// order.
pub open spec fn fine(outcome: Outcome) -> bool {
    sound(outcome.state) && !is_bug(outcome.request)
}

/// The statements of a well-formed block are well formed.
proof fn lemma_sound_block(statement: &Stmt)
    requires
        statement is Block,
        statement@.well_formed(),
    ensures
        sound_statements(&statement->Block_0),
{
    let statements = statement->Block_0;
    lemma_block_model(statements);
    assert(*statement == Stmt::Block(statements));
    assert(statement@ == StmtModel::Block(stmt_models(statements@)));
    assert forall|i: int| 0 <= i < statements@.len() implies (#[trigger] statements@[i])@.well_formed() by {
        assert(stmt_models(statements@)[i] == statements@[i]@);
        assert(statement@->Block_0[i].well_formed());
    }
}

/// The body of a well-formed function declaration is well formed.
proof fn lemma_sound_function(statement: &Stmt)
    requires
        statement is Function,
        statement@.well_formed(),
    ensures
        sound_statements(&statement->Function_0.body),
        statement->Function_0.name.token_type == TokenType::Identifier,
{
    let function = statement->Function_0;
    lemma_function_model(function);
    assert(*statement == Stmt::Function(function));
    assert(statement@ == StmtModel::Function(function@));
    let body = function.body;
    assert forall|i: int| 0 <= i < body@.len() implies (#[trigger] body@[i])@.well_formed() by {
        assert(stmt_models(body@)[i] == body@[i]@);
        assert(statement@->Function_0.body[i].well_formed());
    }
}

/// The callee and the arguments of a well-formed call are well formed.
proof fn lemma_sound_call(expr: &Expr)
    requires
        expr is Call,
        expr@.well_formed(),
    ensures
        sound_expressions(&expr->Call_2),
        expr->Call_0@.well_formed(),
{
    let arguments = expr->Call_2;
    lemma_call_model(*expr->Call_0, expr->Call_1, arguments);
    assert(*expr == Expr::Call(expr->Call_0, expr->Call_1, arguments));
    assert(expr@ == ExprModel::Call(
        Box::new(expr->Call_0@),
        expr->Call_1@,
        expr_models(arguments@),
    ));
    assert forall|i: int| 0 <= i < arguments@.len() implies (#[trigger] arguments@[i])@.well_formed() by {
        assert(expr_models(arguments@)[i] == arguments@[i]@);
        assert(expr@->Call_2[i].well_formed());
    }
}

/// Running a well-formed statement from a sound state, at a place where a
/// return signal may be raised, is fine.
proof fn lemma_execute_fine<'a>(state: InterpreterModel<'a>, statement: &'a Stmt)
    requires
        sound_parts(state),
        state.scopes.len() < usize::MAX,
        !state.awaiting,
        state.unwinding is None,
        statement@.well_formed(),
        balanced(state.frames, state.operands.len() as int),
        unwinds(state.frames, state.operands.len() as int),
    ensures
        fine(state.execute(statement)),
{
    lemma_user_messages();
    let height = state.operands.len() as int;
    let count = state.scopes.len();
    match statement {
        Stmt::Print(expr) => {
            let first = state.with_frame(Frame::Print);
            lemma_balanced_push(state.frames, Frame::Print, height + 1);
            lemma_balanced_push(first.frames, Frame::Evaluate(expr), height);
        },
        Stmt::Expr(expr) => {
            let first = state.with_frame(Frame::Discard);
            lemma_balanced_push(state.frames, Frame::Discard, height + 1);
            lemma_balanced_push(first.frames, Frame::Evaluate(expr), height);
        },
        Stmt::Var(name, initializer) => {
            match initializer {
                Some(expr) => {
                    let first = state.with_frame(Frame::Define(name));
                    lemma_balanced_push(state.frames, Frame::Define(name), height + 1);
                    lemma_balanced_push(first.frames, Frame::Evaluate(expr), height);
                },
                None => {
                    lemma_defined_sound(
                        state.scopes,
                        state.current as int,
                        name.literal@,
                        ValueModel::Nil,
                    );
                    lemma_parts_with_scopes(
                        state,
                        defined(state.scopes, state.current as int, name.literal@, ValueModel::Nil),
                    );
                },
            }
        },
        Stmt::Block(statements) => {
            lemma_sound_block(statement);
            let grown = state.scopes.push(ScopeModel::empty(Some(state.current)));
            lemma_grown_sound(state.scopes, Some(state.current));
            lemma_parts_with_scopes(state, grown);
            let widened = state.with_scopes(grown);
            let first = widened.with_frame(Frame::LeaveScope(state.current));
            lemma_parts_with_frame(widened, Frame::LeaveScope(state.current));
            lemma_parts_with_frame(first, Frame::Statements(statements, 0));
            lemma_balanced_push(state.frames, Frame::LeaveScope(state.current), height);
            lemma_unwinds_push(state.frames, Frame::LeaveScope(state.current), height);
            lemma_balanced_push(first.frames, Frame::Statements(statements, 0), height);
        },
        Stmt::If(condition, then_branch, else_branch) => {
            let branch = Frame::Branch(
                then_branch,
                match else_branch {
                    Some(branch) => Some(&**branch),
                    None => None,
                },
            );
            let first = state.with_frame(branch);
            lemma_balanced_push(state.frames, branch, height + 1);
            lemma_balanced_push(first.frames, Frame::Evaluate(condition), height);
        },
        Stmt::While(condition, body) => {
            let looping = Frame::Loop(condition, body);
            let first = state.with_frame(looping);
            lemma_balanced_push(state.frames, looping, height + 1);
            lemma_balanced_push(first.frames, Frame::Evaluate(condition), height);
        },
        Stmt::Function(function) => {
            lemma_sound_function(statement);
            let value = ValueModel::Callable(
                Callable::Function {
                    arity: function.params.len(),
                    func_stmt: function,
                    environment: state.current,
                },
            );
            lemma_defined_sound(state.scopes, state.current as int, function.name.literal@, value);
            lemma_parts_with_scopes(
                state,
                defined(state.scopes, state.current as int, function.name.literal@, value),
            );
        },
        Stmt::Ret(value) => {
            match value {
                Some(expr) => {
                    let first = state.with_frame(Frame::Return);
                    lemma_balanced_push(state.frames, Frame::Return, height + 1);
                    lemma_balanced_push(first.frames, Frame::Evaluate(expr), height);
                },
                None => {},
            }
        },
    }
}

/// Evaluating a well-formed expression from a sound state whose pending
/// work waits for one more operand is fine.
proof fn lemma_evaluate_fine<'a>(state: InterpreterModel<'a>, expr: &'a Expr)
    requires
        sound_parts(state),
        !state.awaiting,
        state.unwinding is None,
        expr@.well_formed(),
        balanced(state.frames, state.operands.len() as int + 1),
    ensures
        fine(state.evaluate(expr)),
    decreases expr,
{
    lemma_user_messages();
    let height = state.operands.len() as int;
    match expr {
        Expr::Number(_) => {},
        Expr::String(contents) => {
            lemma_parts_with_operand(state, ValueModel::String(contents@));
        },
        Expr::True => {
            lemma_parts_with_operand(state, ValueModel::Bool(true));
        },
        Expr::False => {
            lemma_parts_with_operand(state, ValueModel::Bool(false));
        },
        Expr::Nil => {
            lemma_parts_with_operand(state, ValueModel::Nil);
        },
        Expr::Grouping(inner) => {
            lemma_evaluate_fine(state, inner);
        },
        Expr::Unary(operator, operand) => {
            let frame = if operator.token_type == TokenType::Bang {
                Frame::Not
            } else {
                Frame::Negate
            };
            let first = state.with_frame(frame);
            lemma_balanced_push(state.frames, frame, height + 1);
            lemma_balanced_push(first.frames, Frame::Evaluate(operand), height);
        },
        Expr::Binary(left, operator, right) => {
            let first = state.with_frame(Frame::Apply(operator));
            let second = first.with_frame(Frame::Evaluate(right));
            lemma_balanced_push(state.frames, Frame::Apply(operator), height + 2);
            lemma_balanced_push(first.frames, Frame::Evaluate(right), height + 1);
            lemma_balanced_push(second.frames, Frame::Evaluate(left), height);
        },
        Expr::Variable(name) => {
            lemma_lookup_sound(state.scopes, state.current as int, name.literal@);
            match lookup(state.scopes, state.current as int, name.literal@) {
                Some(value) => {
                    lemma_parts_with_operand(state, value);
                },
                None => {},
            }
        },
        Expr::Assignment(name, value) => {
            let first = state.with_frame(Frame::Assign(name));
            lemma_balanced_push(state.frames, Frame::Assign(name), height + 1);
            lemma_balanced_push(first.frames, Frame::Evaluate(value), height);
        },
        Expr::Logical(left, operator, right) => {
            let first = state.with_frame(Frame::ShortCircuit(operator, right));
            lemma_balanced_push(state.frames, Frame::ShortCircuit(operator, right), height + 1);
            lemma_balanced_push(first.frames, Frame::Evaluate(left), height);
        },
        Expr::Call(callee, _, arguments) => {
            lemma_sound_call(expr);
            let count = arguments.len();
            let first = state.with_frame(Frame::Invoke(count));
            let second = first.with_frame(Frame::Arguments(arguments, 0));
            let third = second.with_frame(Frame::Callee);
            lemma_balanced_push(state.frames, Frame::Invoke(count), height + 1 + count);
            lemma_balanced_push(first.frames, Frame::Arguments(arguments, 0), height + 1);
            lemma_balanced_push(second.frames, Frame::Callee, height + 1);
            lemma_balanced_push(third.frames, Frame::Evaluate(callee), height);
        },
    }
}

/// Applying a binary operator in a sound state whose pending work waits
/// for the result is fine.
proof fn lemma_apply_fine<'a>(
    state: InterpreterModel<'a>,
    left: ValueModel<'a>,
    operator: &'a Token,
    right: ValueModel<'a>,
)
    requires
        sound_parts(state),
        !state.awaiting,
        state.unwinding is None,
        is_binary_operator(operator.token_type),
        balanced(state.frames, state.operands.len() as int + 1),
    ensures
        fine(state.apply(left, operator, right)),
{
    lemma_user_messages();
    lemma_parts_with_operand(state, ValueModel::Bool(true));
    lemma_parts_with_operand(state, ValueModel::Bool(false));
    match (left, right) {
        (ValueModel::String(a), ValueModel::String(b)) => {
            lemma_parts_with_operand(state, ValueModel::String(a + b));
        },
        _ => {},
    }
}

/// Calling a sound callable with sound arguments in a sound state whose
/// pending work waits for the result is fine.
proof fn lemma_call_fine<'a>(
    state: InterpreterModel<'a>,
    callable: Callable<'a>,
    arguments: Seq<ValueModel<'a>>,
)
    requires
        sound_parts(state),
        state.scopes.len() < usize::MAX,
        !state.awaiting,
        state.unwinding is None,
        sound_value(ValueModel::Callable(callable), state.scopes.len()),
        forall|i: int| 0 <= i < arguments.len() ==> sound_value(
            #[trigger] arguments[i],
            state.scopes.len(),
        ),
        balanced(state.frames, state.operands.len() as int + 1),
    ensures
        fine(state.call(callable, arguments)),
{
    lemma_user_messages();
    let height = state.operands.len() as int;
    match callable {
        Callable::Function { func_stmt, environment, .. } => {
            let inside = state.scopes.len() as usize;
            let grown = state.scopes.push(ScopeModel::empty(Some(environment)));
            let params = func_stmt.params@;
            let count = if params.len() < arguments.len() {
                params.len()
            } else {
                arguments.len()
            };
            let bound = bound_parameters(grown, inside as int, params, arguments, count);
            lemma_grown_sound(state.scopes, Some(environment));
            assert forall|i: int| 0 <= i < arguments.len() implies sound_value(
                #[trigger] arguments[i],
                grown.len(),
            ) by {
                assert(sound_value(arguments[i], state.scopes.len()));
            }
            lemma_bound_parameters_sound(grown, inside as int, params, arguments, count);
            lemma_parts_with_scopes(state, bound);
            let widened = state.with_scopes(bound);
            let first = widened.with_frame(Frame::CallBoundary(state.current));
            lemma_parts_with_frame(widened, Frame::CallBoundary(state.current));
            lemma_parts_with_frame(first, Frame::Statements(&func_stmt.body, 0));
            lemma_balanced_push(state.frames, Frame::CallBoundary(state.current), height);
            lemma_unwinds_push(state.frames, Frame::CallBoundary(state.current), height);
            lemma_balanced_push(first.frames, Frame::Statements(&func_stmt.body, 0), height);
        },
        Callable::Native { .. } => {},
    }
}

/// Calling the callee below `count` arguments in a sound state is fine.
proof fn lemma_invoke_fine<'a>(state: InterpreterModel<'a>, count: usize)
    requires
        sound_parts(state),
        state.scopes.len() < usize::MAX,
        !state.awaiting,
        state.unwinding is None,
        state.operands.len() >= count + 1,
        balanced(state.frames, state.operands.len() - count),
    ensures
        fine(state.invoke(count)),
{
    lemma_user_messages();
    let height = state.operands.len() as int;
    match state.operand(count as int) {
        ValueModel::Callable(callable) => {
            if callable.arity_of() == count {
                let popped = state.without_operands(count + 1);
                let arguments = state.operands.skip(height - count);
                lemma_parts_without_operands(state, count + 1);
                assert(sound_value(state.operands[height - 1 - count], state.scopes.len()));
                assert forall|i: int| 0 <= i < arguments.len() implies sound_value(
                    #[trigger] arguments[i],
                    state.scopes.len(),
                ) by {
                    assert(arguments[i] == state.operands[height - count + i]);
                }
                lemma_call_fine(popped, callable, arguments);
            }
        },
        _ => {},
    }
}

/// Doing pending work that takes the topmost operand, in a sound state, is
/// fine.
proof fn lemma_consume_fine<'a>(
    state: InterpreterModel<'a>,
    frame: Frame<'a>,
    value: ValueModel<'a>,
)
    requires
        sound_parts(state),
        state.scopes.len() < usize::MAX,
        !state.awaiting,
        state.unwinding is None,
        state.operands.len() > 0,
        value == state.operands.last(),
        sound_frame(frame, state.scopes.len()),
        demand(frame) >= 1,
        !(frame is Invoke),
        state.operands.len() >= demand(frame),
        balanced(state.frames, state.operands.len() - demand(frame) + supply(frame)),
        raises(frame) ==> unwinds(state.frames, state.operands.len() - demand(frame)),
    ensures
        fine(state.consume(frame, value)),
{
    lemma_user_messages();
    let height = state.operands.len() as int;
    let popped = state.without_operands(1);
    lemma_parts_without_operands(state, 1);
    assert(sound_value(state.operands[height - 1], state.scopes.len()));
    match frame {
        Frame::Discard => {},
        Frame::Print => {},
        Frame::Define(name) => {
            lemma_defined_sound(state.scopes, state.current as int, name.literal@, value);
            lemma_parts_with_scopes(
                popped,
                defined(state.scopes, state.current as int, name.literal@, value),
            );
        },
        Frame::Branch(then_branch, else_branch) => {
            lemma_balanced_push(popped.frames, Frame::Execute(then_branch), height - 1);
            match else_branch {
                Some(branch) => {
                    lemma_balanced_push(popped.frames, Frame::Execute(branch), height - 1);
                },
                None => {},
            }
        },
        Frame::Loop(condition, body) => {
            let first = popped.with_frame(Frame::Loop(condition, body));
            let second = first.with_frame(Frame::Evaluate(condition));
            lemma_balanced_push(popped.frames, Frame::Loop(condition, body), height);
            lemma_unwinds_push(popped.frames, Frame::Loop(condition, body), height - 1);
            lemma_balanced_push(first.frames, Frame::Evaluate(condition), height - 1);
            lemma_unwinds_push(first.frames, Frame::Evaluate(condition), height - 1);
            lemma_balanced_push(second.frames, Frame::Execute(body), height - 1);
        },
        Frame::Return => {},
        Frame::Not => {
            lemma_parts_with_operand(popped, ValueModel::Bool(!value.truthy()));
        },
        Frame::Negate => {
            match value {
                ValueModel::Number(number) => {
                    lemma_parts_with_operand(popped, ValueModel::Number(number.negated()));
                },
                _ => {},
            }
        },
        Frame::Apply(operator) => {
            lemma_parts_without_operands(state, 2);
            lemma_apply_fine(state.without_operands(2), state.operand(1), operator, value);
        },
        Frame::Assign(name) => {
            lemma_assigned_sound(state.scopes, state.current as int, name.literal@, value);
            lemma_parts_with_scopes(
                state,
                assigned(state.scopes, state.current as int, name.literal@, value),
            );
        },
        Frame::ShortCircuit(operator, right) => {
            lemma_balanced_push(popped.frames, Frame::Evaluate(right), height - 1);
        },
        Frame::Callee => {},
        _ => {},
    }
}

/// Doing the next piece of pending work in a sound state is fine.
proof fn lemma_resume_fine<'a>(state: InterpreterModel<'a>, frame: Frame<'a>)
    requires
        sound_parts(state),
        state.scopes.len() < usize::MAX,
        !state.awaiting,
        state.unwinding is None,
        sound_frame(frame, state.scopes.len()),
        balanced(state.frames.push(frame), state.operands.len() as int),
    ensures
        fine(state.resume(frame)),
{
    lemma_user_messages();
    let height = state.operands.len() as int;
    lemma_balanced_push(state.frames, frame, height);
    match frame {
        Frame::Statements(statements, next) => {
            if next < statements.len() {
                let following = Frame::Statements(statements, (next + 1) as usize);
                let prepared = state.with_frame(following);
                lemma_balanced_push(state.frames, following, height);
                lemma_unwinds_push(state.frames, following, height);
                assert(statements@[next as int]@.well_formed());
                lemma_execute_fine(prepared, &statements[next as int]);
            }
        },
        Frame::Execute(statement) => {
            lemma_execute_fine(state, statement);
        },
        Frame::Evaluate(expr) => {
            lemma_evaluate_fine(state, expr);
        },
        Frame::Arguments(arguments, next) => {
            if next < arguments.len() {
                let following = Frame::Arguments(arguments, (next + 1) as usize);
                let prepared = state.with_frame(following);
                lemma_balanced_push(state.frames, following, height + 1);
                assert(arguments@[next as int]@.well_formed());
                lemma_balanced_push(
                    prepared.frames,
                    Frame::Evaluate(&arguments[next as int]),
                    height,
                );
            }
        },
        Frame::LeaveScope(scope) => {},
        Frame::CallBoundary(scope) => {
            lemma_parts_with_operand(state.in_scope(scope), ValueModel::Nil);
        },
        Frame::Invoke(count) => {
            lemma_invoke_fine(state, count);
        },
        _ => {
            lemma_consume_fine(state, frame, state.operands.last());
        },
    }
}

/// Passing a piece of pending work with a return signal, in a sound state,
/// is fine.
proof fn lemma_unwind_fine<'a>(state: InterpreterModel<'a>, frame: Frame<'a>)
    requires
        sound_parts(state),
        !state.awaiting,
        state.unwinding is Some,
        sound_value(state.unwinding.unwrap().result(), state.scopes.len()),
        sound_frame(frame, state.scopes.len()),
        unwinds(state.frames.push(frame), state.operands.len() as int),
    ensures
        fine(state.unwind(frame, state.unwinding.unwrap())),
{
    lemma_user_messages();
    let height = state.operands.len() as int;
    let signal = state.unwinding.unwrap();
    lemma_unwinds_push(state.frames, frame, height);
    match frame {
        Frame::CallBoundary(scope) => {
            let landed = InterpreterModel { unwinding: None, ..state }.in_scope(scope);
            lemma_parts_with_operand(landed, signal.result());
        },
        _ => {},
    }
}

/// A new interpreter is in a sound state.
pub proof fn lemma_initial_state_sound()
    ensures
        sound(initial_state()),
{
    let state = initial_state();
    assert(state.scopes.len() == 1);
    assert forall|i: int, name: Seq<char>|
        0 <= i < state.scopes.len() && (#[trigger] state.scopes[i].bindings.dom().contains(
            name,
        )) implies sound_value(state.scopes[i].bindings[name], state.scopes.len()) by {
        assert(name == "clock"@);
    }
}

/// A sound state with a program of well-formed statements loaded into it is
/// sound.
pub proof fn lemma_load_sound<'a>(state: InterpreterModel<'a>, statements: &'a Vec<Stmt>)
    requires
        sound(state),
        sound_statements(statements),
    ensures
        sound(state.load(statements)),
{
    let idle = state.idle();
    lemma_balanced_push(idle.frames, Frame::Statements(statements, 0), 0);
    lemma_unwinds_push(idle.frames, Frame::Statements(statements, 0), 0);
}

/// The interpreter never finds itself out of order: a step from a sound
/// state, with room for one more scope, leads to a sound state, and what it
/// reports is never a state or a tree that should not be. Together with
/// [`lemma_initial_state_sound`] and [`lemma_load_sound`], whatever a new
/// interpreter does with programs of well-formed statements, such as the
/// parser builds, the only failures are mistakes of the program or of the
/// host.
pub proof fn lemma_step_sound<'a>(state: InterpreterModel<'a>, reply: Option<Number>)
    requires
        sound(state),
        state.scopes.len() < usize::MAX,
    ensures
        sound(state.step(reply).state),
        !is_bug(state.step(reply).request),
{
    lemma_user_messages();
    let height = state.operands.len() as int;
    if state.awaiting {
        match reply {
            Some(number) => {
                let woken = InterpreterModel { awaiting: false, ..state };
                lemma_parts_with_operand(woken, ValueModel::Number(number));
            },
            None => {
                lemma_fail_sound(state, missing_reply());
            },
        }
    } else if state.frames.len() == 0 {
        lemma_fail_sound(state, stray_return());
    } else {
        let rest = InterpreterModel { frames: state.frames.drop_last(), ..state };
        let frame = state.frames.last();
        assert(state.frames =~= rest.frames.push(frame));
        assert(sound_frame(state.frames[state.frames.len() - 1], state.scopes.len()));
        assert forall|i: int| 0 <= i < rest.frames.len() implies sound_frame(
            #[trigger] rest.frames[i],
            rest.scopes.len(),
        ) by {
            assert(rest.frames[i] == state.frames[i]);
        }
        match state.unwinding {
            Some(signal) => lemma_unwind_fine(rest, frame),
            None => lemma_resume_fine(rest, frame),
        }
    }
}

} // verus!
