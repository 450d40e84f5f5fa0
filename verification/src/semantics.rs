//! What the interpreter does, as a mathematical model: the state of an
//! interpreter, and the state and the request that each step leads to.

use crate::environment::{
    assigned, defined, holder, lemma_assign_then_get, lemma_define_then_get, lemma_found_below,
    lemma_holder_ignores_later_scopes, lemma_holder_on_chain, lookup, undefined_read,
    undefined_write, ScopeModel, GLOBAL,
};
use crate::expression::Expr;
use crate::statement::Stmt;
use crate::text::decimal;
use crate::token::{Token, TokenType};
use crate::value::{Callable, NativeFunction, Number, ReturnModel, ValueModel};
use vstd::prelude::*;

verus! {

/// The arithmetic that the interpreter asks of its host.
#[derive(Clone, Copy, Debug, PartialEq, Eq, Structural)]
pub enum ArithmeticOp {
    Add,
    Subtract,
    Multiply,
    Divide,
}

/// A piece of pending work. The interpreter keeps its pending work on a
/// stack; the innermost piece, which is done next, is the last one.
#[derive(Clone, Copy, Debug)]
pub enum Frame<'a> {
    /// Run the statements of the list from the given position on.
    Statements(&'a Vec<Stmt>, usize),
    /// Run the statement.
    Execute(&'a Stmt),
    /// Evaluate the expression and leave its value on the operand stack.
    Evaluate(&'a Expr),
    /// Drop the value of an expression statement.
    Discard,
    /// Write out the value of a print statement.
    Print,
    /// Bind the value of an initializer to the name.
    Define(&'a Token),
    /// Choose a branch by the value of a condition.
    Branch(&'a Stmt, Option<&'a Stmt>),
    /// Run the body once more, or leave the loop, by the value of the
    /// condition.
    Loop(&'a Expr, &'a Stmt),
    /// Leave a block: go back to the scope around it.
    LeaveScope(usize),
    /// Raise the return signal with the value of a return statement.
    Return,
    /// The end of a function body: go back to the caller's scope. This is
    /// where a return signal stops.
    CallBoundary(usize),
    /// Negate the truthiness of an operand.
    Not,
    /// Flip the sign of an operand.
    Negate,
    /// Apply a binary operator to the two operands.
    Apply(&'a Token),
    /// Assign the value to the name.
    Assign(&'a Token),
    /// Decide by the left operand of `and` or `or` whether the right one is
    /// evaluated.
    ShortCircuit(&'a Token, &'a Expr),
    /// Make sure that the value of a callee can be called, before its
    /// arguments are evaluated.
    Callee,
    /// Evaluate the arguments of the list from the given position on.
    Arguments(&'a Vec<Expr>, usize),
    /// Call the callee with the given number of arguments.
    Invoke(usize),
}

/// What the interpreter hands to its host after a step.
pub enum RequestModel {
    /// Work is pending: step again.
    Continue,
    /// The program has run to its end.
    Finished,
    /// Write the text and a line feed, then step again.
    Print(Seq<char>),
    /// Write the number and a line feed, then step again.
    PrintNumber(Number),
    /// Step again with the number that the digits denote.
    ParseNumber(Seq<char>),
    /// Step again with the result of the operation on the two numbers.
    Arithmetic(ArithmeticOp, Number, Number),
    /// Step again with the wall time as a number.
    Clock,
    /// The program has failed with the message.
    Failed(Seq<char>),
}

/// The state of an interpreter, as a mathematical value.
pub struct InterpreterModel<'a> {
    /// Every scope created so far; a scope's handle is its position.
    pub scopes: Seq<ScopeModel<'a>>,
    /// The handle of the scope that code runs in.
    pub current: usize,
    /// The pending work, innermost last.
    pub frames: Seq<Frame<'a>>,
    /// The values of the expressions evaluated so far and not yet used.
    pub operands: Seq<ValueModel<'a>>,
    /// The return signal, while it travels to the nearest call boundary.
    pub unwinding: Option<ReturnModel<'a>>,
    /// Whether the last request asked the host for a number.
    pub awaiting: bool,
}

/// A state and the request that leads to it.
pub struct Outcome<'a> {
    pub state: InterpreterModel<'a>,
    pub request: RequestModel,
}

/// The message for a state that no program brings about.
pub open spec fn broken_state() -> Seq<char> {
    "Interpreter bug: unexpected state."@
}

/// The message for a syntax tree that no parser builds.
pub open spec fn malformed_tree() -> Seq<char> {
    "Interpreter bug: unexpected syntax tree."@
}

/// The message for a host that answers a request for a number with none.
pub open spec fn missing_reply() -> Seq<char> {
    "The host gave no number."@
}

/// The message for a return statement outside any call.
pub open spec fn stray_return() -> Seq<char> {
    "return from top level"@
}

/// The message for a minus sign in front of something that is no number.
pub open spec fn not_a_number() -> Seq<char> {
    "Error: operand must be a number."@
}

/// The message for a call of something that is no function.
pub open spec fn not_callable() -> Seq<char> {
    "Can only call functions and classes."@
}

/// The message for an operator between operands that are not both numbers.
pub open spec fn not_numbers(line: usize) -> Seq<char> {
    "Error in line: "@ + decimal(line as nat) + ", operands must both be numbers."@
}

/// The message for a plus sign between operands that are neither both
/// numbers nor both strings.
pub open spec fn not_addable(line: usize) -> Seq<char> {
    "Error in line: "@ + decimal(line as nat) + ", operands must both be numbers or strings."@
}

/// The message for a call with the wrong number of arguments.
pub open spec fn wrong_arity(expected: usize, given: usize) -> Seq<char> {
    "Expected "@ + decimal(expected as nat) + " arguments but got "@ + decimal(given as nat) + "."@
}

/// The scopes after the first `count` parameters have been bound to the
/// arguments at the same positions in `scope`. A parameter whose token is no
/// identifier binds nothing.
pub open spec fn bound_parameters<'a>(
    scopes: Seq<ScopeModel<'a>>,
    scope: int,
    params: Seq<Token>,
    arguments: Seq<ValueModel<'a>>,
    count: nat,
) -> Seq<ScopeModel<'a>>
    decreases count,
{
    if count == 0 || count > params.len() || count > arguments.len() {
        scopes
    } else {
        let before = bound_parameters(scopes, scope, params, arguments, (count - 1) as nat);
        if params[count - 1].token_type == TokenType::Identifier {
            defined(before, scope, params[count - 1].literal@, arguments[count - 1])
        } else {
            before
        }
    }
}

impl<'a> InterpreterModel<'a> {
    /// The state with `frame` as the innermost pending work.
    pub open spec fn with_frame(self, frame: Frame<'a>) -> InterpreterModel<'a> {
        InterpreterModel { frames: self.frames.push(frame), ..self }
    }

    /// The state with `value` on top of the operand stack.
    pub open spec fn with_operand(self, value: ValueModel<'a>) -> InterpreterModel<'a> {
        InterpreterModel { operands: self.operands.push(value), ..self }
    }

    /// The state without the `count` topmost operands.
    pub open spec fn without_operands(self, count: int) -> InterpreterModel<'a> {
        InterpreterModel { operands: self.operands.take(self.operands.len() - count), ..self }
    }

    /// The operand that lies `depth` values below the top.
    pub open spec fn operand(self, depth: int) -> ValueModel<'a> {
        self.operands[self.operands.len() - 1 - depth]
    }

    /// The state with `scopes` as its scopes.
    pub open spec fn with_scopes(self, scopes: Seq<ScopeModel<'a>>) -> InterpreterModel<'a> {
        InterpreterModel { scopes, ..self }
    }

    /// The state in which code runs in `scope`.
    pub open spec fn in_scope(self, scope: usize) -> InterpreterModel<'a> {
        InterpreterModel { current: scope, ..self }
    }

    /// The state with nothing pending, back in the global scope. The scopes
    /// and their bindings stay.
    pub open spec fn idle(self) -> InterpreterModel<'a> {
        InterpreterModel {
            scopes: self.scopes,
            current: GLOBAL,
            frames: Seq::empty(),
            operands: Seq::empty(),
            unwinding: None,
            awaiting: false,
        }
    }

    /// The idle state with `statements` as the only pending work.
    pub open spec fn load(self, statements: &'a Vec<Stmt>) -> InterpreterModel<'a> {
        self.idle().with_frame(Frame::Statements(statements, 0))
    }

    /// Going on from this state without a word to the host.
    pub open spec fn proceed(self) -> Outcome<'a> {
        Outcome { state: self, request: RequestModel::Continue }
    }

    /// Going on from this state with a request that the host answers with a
    /// number.
    pub open spec fn ask(self, request: RequestModel) -> Outcome<'a> {
        Outcome { state: InterpreterModel { awaiting: true, ..self }, request }
    }

    /// Failing with `message`: everything pending is dropped.
    pub open spec fn fail(self, message: Seq<char>) -> Outcome<'a> {
        Outcome { state: self.idle(), request: RequestModel::Failed(message) }
    }

    /// Running `statements` in the scope `scope`, and going back to the
    /// current scope after them.
    pub open spec fn execute_block(self, statements: &'a Vec<Stmt>, scope: usize) -> Outcome<'a> {
        self.with_frame(Frame::LeaveScope(self.current)).with_frame(
            Frame::Statements(statements, 0),
        ).in_scope(scope).proceed()
    }

    /// Running one statement: its effect where it has one at once, and the
    /// work that it leaves pending.
    pub open spec fn execute(self, statement: &'a Stmt) -> Outcome<'a> {
        match statement {
            Stmt::Print(expr) => self.with_frame(Frame::Print).with_frame(
                Frame::Evaluate(expr),
            ).proceed(),
            Stmt::Expr(expr) => self.with_frame(Frame::Discard).with_frame(
                Frame::Evaluate(expr),
            ).proceed(),
            Stmt::Var(name, initializer) => if name.token_type != TokenType::Identifier {
                self.fail(malformed_tree())
            } else {
                match initializer {
                    Some(expr) => self.with_frame(Frame::Define(name)).with_frame(
                        Frame::Evaluate(expr),
                    ).proceed(),
                    None => self.with_scopes(
                        defined(self.scopes, self.current as int, name.literal@, ValueModel::Nil),
                    ).proceed(),
                }
            },
            Stmt::Block(statements) => self.with_scopes(
                self.scopes.push(ScopeModel::empty(Some(self.current))),
            ).execute_block(statements, self.scopes.len() as usize),
            Stmt::If(condition, then_branch, else_branch) => self.with_frame(
                Frame::Branch(
                    then_branch,
                    match else_branch {
                        Some(branch) => Some(&**branch),
                        None => None,
                    },
                ),
            ).with_frame(Frame::Evaluate(condition)).proceed(),
            Stmt::While(condition, body) => self.with_frame(Frame::Loop(condition, body)).with_frame(
                Frame::Evaluate(condition),
            ).proceed(),
            Stmt::Function(function) => if function.name.token_type != TokenType::Identifier {
                self.fail(malformed_tree())
            } else {
                self.with_scopes(
                    defined(
                        self.scopes,
                        self.current as int,
                        function.name.literal@,
                        ValueModel::Callable(
                            Callable::Function {
                                arity: function.params.len(),
                                func_stmt: function,
                                environment: self.current,
                            },
                        ),
                    ),
                ).proceed()
            },
            Stmt::Ret(value) => match value {
                Some(expr) => self.with_frame(Frame::Return).with_frame(
                    Frame::Evaluate(expr),
                ).proceed(),
                None => InterpreterModel {
                    unwinding: Some(ReturnModel { value: None }),
                    ..self
                }.proceed(),
            },
        }
    }

    /// Evaluating one expression: its value on the operand stack where it
    /// has one at once, and the work that it leaves pending.
    pub open spec fn evaluate(self, expr: &'a Expr) -> Outcome<'a>
        decreases expr,
    {
        match expr {
            Expr::Number(digits) => self.ask(RequestModel::ParseNumber(digits@)),
            Expr::String(contents) => self.with_operand(ValueModel::String(contents@)).proceed(),
            Expr::True => self.with_operand(ValueModel::Bool(true)).proceed(),
            Expr::False => self.with_operand(ValueModel::Bool(false)).proceed(),
            Expr::Nil => self.with_operand(ValueModel::Nil).proceed(),
            Expr::Grouping(inner) => self.evaluate(inner),
            Expr::Unary(operator, operand) => if operator.token_type == TokenType::Bang {
                self.with_frame(Frame::Not).with_frame(Frame::Evaluate(operand)).proceed()
            } else if operator.token_type == TokenType::Minus {
                self.with_frame(Frame::Negate).with_frame(Frame::Evaluate(operand)).proceed()
            } else {
                self.fail(malformed_tree())
            },
            Expr::Binary(left, operator, right) => self.with_frame(Frame::Apply(operator)).with_frame(
                Frame::Evaluate(right),
            ).with_frame(Frame::Evaluate(left)).proceed(),
            Expr::Variable(name) => if name.token_type != TokenType::Identifier {
                self.fail(malformed_tree())
            } else {
                match lookup(self.scopes, self.current as int, name.literal@) {
                    Some(value) => self.with_operand(value).proceed(),
                    None => self.fail(undefined_read(name.literal@)),
                }
            },
            Expr::Assignment(name, value) => if name.token_type != TokenType::Identifier {
                self.fail(malformed_tree())
            } else {
                self.with_frame(Frame::Assign(name)).with_frame(Frame::Evaluate(value)).proceed()
            },
            Expr::Logical(left, operator, right) => if operator.token_type == TokenType::Or
                || operator.token_type == TokenType::And {
                self.with_frame(Frame::ShortCircuit(operator, right)).with_frame(
                    Frame::Evaluate(left),
                ).proceed()
            } else {
                self.fail(malformed_tree())
            },
            Expr::Call(callee, _, arguments) => self.with_frame(
                Frame::Invoke(arguments.len()),
            ).with_frame(Frame::Arguments(arguments, 0)).with_frame(Frame::Callee).with_frame(
                Frame::Evaluate(callee),
            ).proceed(),
        }
    }

    /// Applying a binary operator to the values of its operands.
    pub open spec fn apply(
        self,
        left: ValueModel<'a>,
        operator: &'a Token,
        right: ValueModel<'a>,
    ) -> Outcome<'a> {
        let kind = operator.token_type;
        if kind == TokenType::EqualEqual {
            self.with_operand(ValueModel::Bool(left.same(right))).proceed()
        } else if kind == TokenType::BangEqual {
            self.with_operand(ValueModel::Bool(!left.same(right))).proceed()
        } else if kind == TokenType::Plus {
            match (left, right) {
                (ValueModel::Number(a), ValueModel::Number(b)) => self.ask(
                    RequestModel::Arithmetic(ArithmeticOp::Add, a, b),
                ),
                (ValueModel::String(a), ValueModel::String(b)) => self.with_operand(
                    ValueModel::String(a + b),
                ).proceed(),
                _ => self.fail(not_addable(operator.line)),
            }
        } else if kind == TokenType::Minus || kind == TokenType::Star || kind == TokenType::Slash
            || kind == TokenType::Less || kind == TokenType::LessEqual || kind == TokenType::Greater
            || kind == TokenType::GreaterEqual {
            match (left, right) {
                (ValueModel::Number(a), ValueModel::Number(b)) => if kind == TokenType::Minus {
                    self.ask(RequestModel::Arithmetic(ArithmeticOp::Subtract, a, b))
                } else if kind == TokenType::Star {
                    self.ask(RequestModel::Arithmetic(ArithmeticOp::Multiply, a, b))
                } else if kind == TokenType::Slash {
                    self.ask(RequestModel::Arithmetic(ArithmeticOp::Divide, a, b))
                } else if kind == TokenType::Less {
                    self.with_operand(ValueModel::Bool(a.below(b))).proceed()
                } else if kind == TokenType::LessEqual {
                    self.with_operand(ValueModel::Bool(a.at_most(b))).proceed()
                } else if kind == TokenType::Greater {
                    self.with_operand(ValueModel::Bool(b.below(a))).proceed()
                } else {
                    self.with_operand(ValueModel::Bool(b.at_most(a))).proceed()
                },
                _ => self.fail(not_numbers(operator.line)),
            }
        } else {
            self.fail(malformed_tree())
        }
    }

    /// Calling `callable` with `arguments`, whose number is its arity.
    ///
    /// A function of the program runs its body in a new scope inside the
    /// scope that the function was declared in, with its parameters bound to
    /// the arguments. A function of the host is asked of the host.
    pub open spec fn call(self, callable: Callable<'a>, arguments: Seq<ValueModel<'a>>) -> Outcome<
        'a,
    > {
        match callable {
            Callable::Function { func_stmt, environment, .. } => if environment
                < self.scopes.len() {
                let scope = self.scopes.len() as usize;
                self.with_scopes(
                    bound_parameters(
                        self.scopes.push(ScopeModel::empty(Some(environment))),
                        scope as int,
                        func_stmt.params@,
                        arguments,
                        if func_stmt.params@.len() < arguments.len() {
                            func_stmt.params@.len()
                        } else {
                            arguments.len()
                        },
                    ),
                ).with_frame(Frame::CallBoundary(self.current)).with_frame(
                    Frame::Statements(&func_stmt.body, 0),
                ).in_scope(scope).proceed()
            } else {
                self.fail(broken_state())
            },
            Callable::Native { func, .. } => match func {
                NativeFunction::Clock => self.ask(RequestModel::Clock),
            },
        }
    }

    /// Calling the callee that lies below `count` arguments on the operand
    /// stack.
    pub open spec fn invoke(self, count: usize) -> Outcome<'a> {
        if self.operands.len() <= count {
            self.fail(broken_state())
        } else {
            match self.operand(count as int) {
                ValueModel::Callable(callable) => if callable.arity_of() == count {
                    self.without_operands(count + 1).call(
                        callable,
                        self.operands.skip(self.operands.len() - count),
                    )
                } else {
                    self.fail(wrong_arity(callable.arity_of(), count))
                },
                _ => self.fail(not_callable()),
            }
        }
    }

    /// Writing `value` out.
    pub open spec fn print(self, value: ValueModel<'a>) -> Outcome<'a> {
        Outcome {
            state: self,
            request: match value {
                ValueModel::Number(number) => RequestModel::PrintNumber(number),
                _ => RequestModel::Print(value.display().unwrap()),
            },
        }
    }

    /// Doing the pending work `frame` that needs the topmost operand
    /// `value`; the state is the one without the frame.
    pub open spec fn consume(self, frame: Frame<'a>, value: ValueModel<'a>) -> Outcome<'a> {
        let popped = self.without_operands(1);
        match frame {
            Frame::Discard => popped.proceed(),
            Frame::Print => popped.print(value),
            Frame::Define(name) => popped.with_scopes(
                defined(self.scopes, self.current as int, name.literal@, value),
            ).proceed(),
            Frame::Branch(then_branch, else_branch) => if value.truthy() {
                popped.with_frame(Frame::Execute(then_branch)).proceed()
            } else {
                match else_branch {
                    Some(branch) => popped.with_frame(Frame::Execute(branch)).proceed(),
                    None => popped.proceed(),
                }
            },
            Frame::Loop(condition, body) => if value.truthy() {
                popped.with_frame(Frame::Loop(condition, body)).with_frame(
                    Frame::Evaluate(condition),
                ).with_frame(Frame::Execute(body)).proceed()
            } else {
                popped.proceed()
            },
            Frame::Return => InterpreterModel {
                unwinding: Some(ReturnModel { value: Some(value) }),
                ..popped
            }.proceed(),
            Frame::Not => popped.with_operand(ValueModel::Bool(!value.truthy())).proceed(),
            Frame::Negate => match value {
                ValueModel::Number(number) => popped.with_operand(
                    ValueModel::Number(number.negated()),
                ).proceed(),
                _ => self.fail(not_a_number()),
            },
            Frame::Apply(operator) => if self.operands.len() < 2 {
                self.fail(broken_state())
            } else {
                self.without_operands(2).apply(self.operand(1), operator, value)
            },
            Frame::Assign(name) => match holder(self.scopes, self.current as int, name.literal@) {
                Some(_) => self.with_scopes(
                    assigned(self.scopes, self.current as int, name.literal@, value),
                ).proceed(),
                None => self.fail(undefined_write(name.literal@)),
            },
            Frame::ShortCircuit(operator, right) => if (operator.token_type == TokenType::Or)
                == value.truthy() {
                self.proceed()
            } else {
                popped.with_frame(Frame::Evaluate(right)).proceed()
            },
            Frame::Callee => match value {
                ValueModel::Callable(_) => self.proceed(),
                _ => self.fail(not_callable()),
            },
            _ => self.fail(broken_state()),
        }
    }

    /// Doing the pending work `frame`; the state is the one without the
    /// frame.
    pub open spec fn resume(self, frame: Frame<'a>) -> Outcome<'a> {
        match frame {
            Frame::Statements(statements, next) => if next < statements.len() {
                self.with_frame(Frame::Statements(statements, (next + 1) as usize)).execute(
                    &statements[next as int],
                )
            } else {
                self.proceed()
            },
            Frame::Execute(statement) => self.execute(statement),
            Frame::Evaluate(expr) => self.evaluate(expr),
            Frame::Arguments(arguments, next) => if next < arguments.len() {
                self.with_frame(Frame::Arguments(arguments, (next + 1) as usize)).with_frame(
                    Frame::Evaluate(&arguments[next as int]),
                ).proceed()
            } else {
                self.proceed()
            },
            Frame::LeaveScope(scope) => if scope < self.scopes.len() {
                self.in_scope(scope).proceed()
            } else {
                self.fail(broken_state())
            },
            Frame::CallBoundary(scope) => if scope < self.scopes.len() {
                self.in_scope(scope).with_operand(ValueModel::Nil).proceed()
            } else {
                self.fail(broken_state())
            },
            Frame::Invoke(count) => self.invoke(count),
            _ => if self.operands.len() == 0 {
                self.fail(broken_state())
            } else {
                self.consume(frame, self.operands.last())
            },
        }
    }

    /// Passing the pending work `frame` while the return signal `signal`
    /// travels; the state is the one without the frame. The signal stops at
    /// a call boundary, where the call gets its value; every other frame is
    /// dropped.
    pub open spec fn unwind(self, frame: Frame<'a>, signal: ReturnModel<'a>) -> Outcome<'a> {
        match frame {
            Frame::CallBoundary(scope) => if scope < self.scopes.len() {
                InterpreterModel { unwinding: None, ..self }.in_scope(scope).with_operand(
                    signal.result(),
                ).proceed()
            } else {
                self.fail(broken_state())
            },
            _ => self.proceed(),
        }
    }

    /// One step of the interpreter. `reply` is the host's answer to the last
    /// request, if that asked for a number.
    pub open spec fn step(self, reply: Option<Number>) -> Outcome<'a> {
        if self.awaiting {
            match reply {
                Some(number) => InterpreterModel { awaiting: false, ..self }.with_operand(
                    ValueModel::Number(number),
                ).proceed(),
                None => self.fail(missing_reply()),
            }
        } else if self.frames.len() == 0 {
            match self.unwinding {
                Some(_) => self.fail(stray_return()),
                None => Outcome { state: self, request: RequestModel::Finished },
            }
        } else {
            let rest = InterpreterModel { frames: self.frames.drop_last(), ..self };
            match self.unwinding {
                Some(signal) => rest.unwind(self.frames.last(), signal),
                None => rest.resume(self.frames.last()),
            }
        }
    }
}

/// Whether `name` is one of the first `count` parameters.
pub open spec fn is_parameter(params: Seq<Token>, count: nat, name: Seq<char>) -> bool {
    exists|i: int|
        0 <= i < count && i < params.len() && (#[trigger] params[i]).token_type
            == TokenType::Identifier && params[i].literal@ == name
}

/// Whether `later` holds every scope of `earlier` with the same scope
/// around it and with a binding for every name that was bound.
pub open spec fn keeps_scopes(earlier: Seq<ScopeModel>, later: Seq<ScopeModel>) -> bool {
    &&& earlier.len() <= later.len()
    &&& forall|i: int|
        0 <= i < earlier.len() ==> {
            &&& (#[trigger] later[i]).enclosed == earlier[i].enclosed
            &&& earlier[i].bindings.dom().subset_of(later[i].bindings.dom())
        }
}

/// Binding parameters changes the one scope they are bound in, and there it
/// binds nothing but parameters.
pub proof fn lemma_bound_parameters<'a>(
    scopes: Seq<ScopeModel<'a>>,
    scope: int,
    params: Seq<Token>,
    arguments: Seq<ValueModel<'a>>,
    count: nat,
)
    requires
        0 <= scope < scopes.len(),
    ensures
        ({
            let after = bound_parameters(scopes, scope, params, arguments, count);
            &&& after.len() == scopes.len()
            &&& after[scope].enclosed == scopes[scope].enclosed
            &&& scopes[scope].bindings.dom().subset_of(after[scope].bindings.dom())
            &&& forall|i: int| 0 <= i < scopes.len() && i != scope ==> after[i] == scopes[i]
            &&& forall|name: Seq<char>| #[trigger]
                after[scope].bindings.dom().contains(name) ==> scopes[scope].bindings.dom().contains(
                    name,
                ) || is_parameter(params, count, name)
        }),
    decreases count,
{
    if !(count == 0 || count > params.len() || count > arguments.len()) {
        let fewer = (count - 1) as nat;
        lemma_bound_parameters(scopes, scope, params, arguments, fewer);
        let before = bound_parameters(scopes, scope, params, arguments, fewer);
        let after = bound_parameters(scopes, scope, params, arguments, count);
        assert forall|name: Seq<char>| #[trigger]
            after[scope].bindings.dom().contains(name) implies scopes[scope].bindings.dom().contains(
            name,
        ) || is_parameter(params, count, name) by {
            if before[scope].bindings.dom().contains(name) {
                if !scopes[scope].bindings.dom().contains(name) {
                    let i = choose|i: int|
                        0 <= i < fewer && i < params.len() && (#[trigger] params[i]).token_type
                            == TokenType::Identifier && params[i].literal@ == name;
                    assert(0 <= i < count && params[i].token_type == TokenType::Identifier);
                }
            } else {
                assert(params[count - 1].token_type == TokenType::Identifier);
                assert(params[count - 1].literal@ == name);
            }
        }
    }
}

/// A parenthesized expression evaluates exactly as the expression inside
/// the parentheses: from every state, to the same state, with the same
/// request.
pub proof fn lemma_grouping_is_transparent<'a>(state: InterpreterModel<'a>, grouping: &'a Expr)
    requires
        grouping is Grouping,
    ensures
        state.evaluate(grouping) == state.evaluate(&*grouping->Grouping_0),
{
}

/// When the left operand of `or` is truthy, or that of `and` is falsy, the
/// step that decides the operator schedules nothing: the right operand is
/// never evaluated, and the value of the whole is the left operand itself,
/// which stays on the operand stack. In the other case the left operand is
/// dropped and the right one is scheduled.
pub proof fn lemma_short_circuit<'a>(
    state: InterpreterModel<'a>,
    operator: &'a Token,
    right: &'a Expr,
    reply: Option<Number>,
)
    requires
        !state.awaiting,
        state.unwinding is None,
        state.frames.len() > 0,
        state.frames.last() == Frame::ShortCircuit(operator, right),
        state.operands.len() > 0,
    ensures
        ({
            let left = state.operands.last();
            let rest = InterpreterModel { frames: state.frames.drop_last(), ..state };
            let decided = if operator.token_type == TokenType::Or {
                left.truthy()
            } else {
                !left.truthy()
            };
            state.step(reply) == if decided {
                rest.proceed()
            } else {
                rest.without_operands(1).with_frame(Frame::Evaluate(right)).proceed()
            }
        }),
{
}

/// The request that writes `value` out: its display, or the number itself
/// for the host to display.
pub open spec fn print_request(value: ValueModel) -> RequestModel {
    match value {
        ValueModel::Number(number) => RequestModel::PrintNumber(number),
        _ => RequestModel::Print(value.display().unwrap()),
    }
}

/// A variable declaration with an initializer schedules two things: the
/// evaluation of the initializer, and behind it the binding of its value to
/// the name. Nothing else changes, and the host is asked nothing.
pub proof fn lemma_declaration_schedules_initializer<'a>(
    state: InterpreterModel<'a>,
    statement: &'a Stmt,
)
    requires
        statement is Var,
        statement->Var_0.token_type == TokenType::Identifier,
        statement->Var_1 is Some,
    ensures
        state.execute(statement) == state.with_frame(Frame::Define(&statement->Var_0)).with_frame(
            Frame::Evaluate(&statement->Var_1->0),
        ).proceed(),
{
}

/// For `var name = e; print name;`: once the value of `e` lies on the
/// operand stack, the interpreter binds it, looks the name up again and asks
/// the host to write that very value, in four steps and with no other word
/// to the host.
pub proof fn lemma_declared_value_is_printed<'a>(
    state: InterpreterModel<'a>,
    declared: &'a Token,
    statements: &'a Vec<Stmt>,
    next: usize,
    value: ValueModel<'a>,
)
    requires
        !state.awaiting,
        state.unwinding is None,
        state.current < state.scopes.len(),
        state.frames.len() >= 2,
        state.frames.last() == Frame::Define(declared),
        state.frames[state.frames.len() - 2] == Frame::Statements(statements, next),
        state.operands.len() > 0,
        state.operands.last() == value,
        declared.token_type == TokenType::Identifier,
        next < statements@.len(),
        statements@[next as int] is Print,
        statements@[next as int]->Print_0 is Variable,
        (statements@[next as int]->Print_0->Variable_0).token_type == TokenType::Identifier,
        (statements@[next as int]->Print_0->Variable_0).literal@ == declared.literal@,
    ensures
        ({
            let first = state.step(None);
            let second = first.state.step(None);
            let third = second.state.step(None);
            let fourth = third.state.step(None);
            &&& first.request == RequestModel::Continue
            &&& second.request == RequestModel::Continue
            &&& third.request == RequestModel::Continue
            &&& fourth.request == print_request(value)
            &&& fourth.state.scopes == defined(
                state.scopes,
                state.current as int,
                declared.literal@,
                value,
            )
        }),
{
    let first = state.step(None);
    let second = first.state.step(None);
    let third = second.state.step(None);
    let fourth = third.state.step(None);
    let rest = state.frames.drop_last().drop_last();
    let bound = defined(state.scopes, state.current as int, declared.literal@, value);
    let base = state.operands.drop_last();
    assert(state.operands.take(state.operands.len() - 1) =~= base);
    assert(first.state.frames =~= rest.push(Frame::Statements(statements, next)));
    assert(first.state.operands == base);
    assert(first.state.scopes == bound);
    let printed = &statements@[next as int]->Print_0;
    assert(second.state.frames =~= rest.push(
        Frame::Statements(statements, (next + 1) as usize),
    ).push(Frame::Print).push(Frame::Evaluate(printed)));
    assert(second.request == RequestModel::Continue);
    lemma_define_then_get(state.scopes, state.current as int, declared.literal@, value);
    assert(third.state.frames =~= rest.push(
        Frame::Statements(statements, (next + 1) as usize),
    ).push(Frame::Print));
    assert(third.state.operands == base.push(value));
    assert(third.request == RequestModel::Continue);
    assert(fourth.request == print_request(value));
}

/// A function declaration binds its name, in the scope that it is run in,
/// to a function value that remembers that scope.
pub proof fn lemma_function_remembers_scope<'a>(state: InterpreterModel<'a>, statement: &'a Stmt)
    requires
        statement is Function,
        statement->Function_0.name.token_type == TokenType::Identifier,
        state.current < state.scopes.len(),
    ensures
        ({
            let function = statement->Function_0;
            let after = state.execute(statement);
            &&& after.request == RequestModel::Continue
            &&& after.state.current == state.current
            &&& lookup(after.state.scopes, state.current as int, function.name.literal@) == Some(
                ValueModel::Callable(
                    Callable::Function {
                        arity: function.params.len(),
                        func_stmt: &function,
                        environment: state.current,
                    },
                ),
            )
        }),
{
    let function = statement->Function_0;
    lemma_define_then_get(
        state.scopes,
        state.current as int,
        function.name.literal@,
        ValueModel::Callable(
            Callable::Function {
                arity: function.params.len(),
                func_stmt: &function,
                environment: state.current,
            },
        ),
    );
}

/// A call of a function of the program runs in a new scope whose
/// surrounding scope is the one that the function was declared in, whatever
/// scope the caller is in. Every scope that existed before stays as it was.
/// So a name that is no parameter is read, from the body, as it is read in
/// the declaring scope, and a value that the body assigns to it is found
/// there afterwards.
pub proof fn lemma_call_runs_in_captured_scope<'a>(
    state: InterpreterModel<'a>,
    callable: Callable<'a>,
    arguments: Seq<ValueModel<'a>>,
    name: Seq<char>,
    value: ValueModel<'a>,
)
    requires
        callable is Function,
        callable->environment < state.scopes.len() <= usize::MAX,
        !is_parameter(callable->func_stmt.params@, arguments.len(), name),
    ensures
        ({
            let captured = callable->environment;
            let after = state.call(callable, arguments).state;
            let inside = after.current as int;
            &&& inside == state.scopes.len()
            &&& after.scopes.len() == state.scopes.len() + 1
            &&& after.scopes[inside].enclosed == Some(captured)
            &&& forall|i: int| 0 <= i < state.scopes.len() ==> after.scopes[i] == state.scopes[i]
            &&& lookup(after.scopes, inside, name) == lookup(state.scopes, captured as int, name)
            &&& holder(state.scopes, captured as int, name) is Some ==> lookup(
                assigned(after.scopes, inside, name, value),
                captured as int,
                name,
            ) == Some(value)
        }),
{
    let captured = callable->environment;
    let params = callable->func_stmt.params@;
    let count = if params.len() < arguments.len() {
        params.len()
    } else {
        arguments.len()
    };
    let grown = state.scopes.push(ScopeModel::empty(Some(captured)));
    let inside = state.scopes.len() as int;
    lemma_bound_parameters(grown, inside, params, arguments, count);
    let after = state.call(callable, arguments).state;
    assert(after.scopes == bound_parameters(grown, inside, params, arguments, count));
    assert(!after.scopes[inside].bindings.dom().contains(name)) by {
        if after.scopes[inside].bindings.dom().contains(name) {
            assert(is_parameter(params, count, name));
            let i = choose|i: int|
                0 <= i < count && i < params.len() && (#[trigger] params[i]).token_type
                    == TokenType::Identifier && params[i].literal@ == name;
            assert(0 <= i < arguments.len() && params[i].token_type == TokenType::Identifier);
        }
    }
    lemma_holder_ignores_later_scopes(state.scopes, after.scopes, captured as int, name);
    lemma_found_below(state.scopes, captured as int, name);
    if holder(state.scopes, captured as int, name) is Some {
        lemma_assign_then_get(after.scopes, captured as int, name, value);
    }
}

/// Defining a name keeps every scope.
pub proof fn lemma_defined_keeps_scopes<'a>(
    scopes: Seq<ScopeModel<'a>>,
    scope: int,
    name: Seq<char>,
    value: ValueModel<'a>,
)
    requires
        0 <= scope < scopes.len(),
    ensures
        keeps_scopes(scopes, defined(scopes, scope, name, value)),
        defined(scopes, scope, name, value).len() == scopes.len(),
{
}

/// Evaluating an expression keeps every scope.
pub proof fn lemma_evaluate_keeps_scopes<'a>(state: InterpreterModel<'a>, expr: &'a Expr)
    ensures
        keeps_scopes(state.scopes, state.evaluate(expr).state.scopes),
    decreases expr,
{
    match expr {
        Expr::Grouping(inner) => lemma_evaluate_keeps_scopes(state, inner),
        _ => {},
    }
}

/// No step of the interpreter removes a scope, moves it to another place in
/// the chain or unbinds a name: a scope, once created, stays readable and
/// writable through its handle, also after the block or the call that
/// created it has ended.
pub proof fn lemma_step_keeps_scopes<'a>(state: InterpreterModel<'a>, reply: Option<Number>)
    requires
        state.current < state.scopes.len() <= usize::MAX,
    ensures
        keeps_scopes(state.scopes, state.step(reply).state.scopes),
{
    let scopes = state.scopes;
    if !state.awaiting && state.frames.len() > 0 && state.unwinding is None {
        let rest = InterpreterModel { frames: state.frames.drop_last(), ..state };
        let frame = state.frames.last();
        match frame {
            Frame::Statements(statements, next) => {
                if next < statements.len() {
                    let prepared = rest.with_frame(
                        Frame::Statements(statements, (next + 1) as usize),
                    );
                    lemma_execute_keeps_scopes(prepared, &statements[next as int]);
                }
            },
            Frame::Execute(statement) => lemma_execute_keeps_scopes(rest, statement),
            Frame::Evaluate(expr) => lemma_evaluate_keeps_scopes(rest, expr),
            Frame::Invoke(count) => {
                if rest.operands.len() > count {
                    match rest.operand(count as int) {
                        ValueModel::Callable(callable) => {
                            if callable.arity_of() == count {
                                lemma_call_keeps_scopes(
                                    rest.without_operands(count + 1),
                                    callable,
                                    rest.operands.skip(rest.operands.len() - count),
                                );
                            }
                        },
                        _ => {},
                    }
                }
            },
            Frame::Define(name) => {
                if rest.operands.len() > 0 {
                    lemma_defined_keeps_scopes(
                        scopes,
                        state.current as int,
                        name.literal@,
                        rest.operands.last(),
                    );
                }
            },
            Frame::Assign(name) => {
                if rest.operands.len() > 0 {
                    lemma_holder_on_chain(scopes, state.current as int, name.literal@);
                    match holder(scopes, state.current as int, name.literal@) {
                        Some(found) => lemma_defined_keeps_scopes(
                            scopes,
                            found,
                            name.literal@,
                            rest.operands.last(),
                        ),
                        None => {},
                    }
                }
            },
            _ => {},
        }
    }
}

/// Running a statement keeps every scope.
pub proof fn lemma_execute_keeps_scopes<'a>(state: InterpreterModel<'a>, statement: &'a Stmt)
    requires
        state.current < state.scopes.len(),
    ensures
        keeps_scopes(state.scopes, state.execute(statement).state.scopes),
{
    match statement {
        Stmt::Var(name, _) => lemma_defined_keeps_scopes(
            state.scopes,
            state.current as int,
            name.literal@,
            ValueModel::Nil,
        ),
        Stmt::Function(function) => lemma_defined_keeps_scopes(
            state.scopes,
            state.current as int,
            function.name.literal@,
            ValueModel::Nil,
        ),
        _ => {},
    }
}

/// Calling a callable keeps every scope.
pub proof fn lemma_call_keeps_scopes<'a>(
    state: InterpreterModel<'a>,
    callable: Callable<'a>,
    arguments: Seq<ValueModel<'a>>,
)
    requires
        state.scopes.len() <= usize::MAX,
    ensures
        keeps_scopes(state.scopes, state.call(callable, arguments).state.scopes),
{
    match callable {
        Callable::Function { func_stmt, environment, .. } => {
            if environment < state.scopes.len() {
                let params = func_stmt.params@;
                let count = if params.len() < arguments.len() {
                    params.len()
                } else {
                    arguments.len()
                };
                let grown = state.scopes.push(ScopeModel::empty(Some(environment)));
                let after = bound_parameters(
                    grown,
                    state.scopes.len() as int,
                    params,
                    arguments,
                    count,
                );
                lemma_bound_parameters(grown, state.scopes.len() as int, params, arguments, count);
                assert(state.call(callable, arguments).state.scopes == after);
                assert forall|i: int| 0 <= i < state.scopes.len() implies (#[trigger] after[i])
                    == state.scopes[i] by {
                    assert(after[i] == grown[i]);
                }
            }
        },
        _ => {},
    }
}

/// Evaluating an expression either fails, and then leaves nothing pending,
/// or does not fail.
proof fn lemma_evaluate_fails_idle<'a>(state: InterpreterModel<'a>, expr: &'a Expr)
    ensures
        state.evaluate(expr).request is Failed ==> state.evaluate(expr).state == state.idle(),
    decreases expr,
{
    match expr {
        Expr::Grouping(inner) => lemma_evaluate_fails_idle(state, inner),
        _ => {},
    }
}

/// Whatever fails, the interpreter is left with nothing pending, back in
/// the global scope, and with the scopes as they were: no failure leaves
/// the scope of a block or of a call in force.
pub proof fn lemma_failure_leaves_idle<'a>(state: InterpreterModel<'a>, reply: Option<Number>)
    ensures
        state.step(reply).request is Failed ==> state.step(reply).state == state.idle(),
{
    if !state.awaiting && state.frames.len() > 0 && state.unwinding is None {
        let rest = InterpreterModel { frames: state.frames.drop_last(), ..state };
        match state.frames.last() {
            Frame::Evaluate(expr) => lemma_evaluate_fails_idle(rest, expr),
            _ => {},
        }
    }
}


} // verus!
