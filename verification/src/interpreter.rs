//! The interpreter: runs statements step by step, as [`crate::semantics`]
//! says.

use crate::environment::{Environment, ScopeModel, GLOBAL};
use crate::expression::Expr;
use crate::semantics::{
    bound_parameters, ArithmeticOp, Frame, InterpreterModel, Outcome, RequestModel,
};
use crate::statement::Stmt;
use crate::text::push_decimal;
use crate::token::{Token, TokenType};
use crate::value::{
    value_models, Callable, LoxError, LoxValue, NativeFunction, Number, Return, ValueModel,
};
use vstd::prelude::*;
use vstd::string::StringExecFns;

verus! {

/// What the interpreter hands to its host after a step.
#[derive(Debug)]
pub enum Request {
    /// Work is pending: step again.
    Continue,
    /// The program has run to its end.
    Finished,
    /// Write the text and a line feed, then step again.
    Print(String),
    /// Write the number and a line feed, then step again.
    PrintNumber(Number),
    /// Step again with the number that the digits denote.
    ParseNumber(String),
    /// Step again with the result of the operation on the two numbers.
    Arithmetic(ArithmeticOp, Number, Number),
    /// Step again with the wall time as a number.
    Clock,
    /// The program has failed.
    Failed(LoxError),
}

impl View for Request {
    type V = RequestModel;

    open spec fn view(&self) -> RequestModel {
        match self {
            Request::Continue => RequestModel::Continue,
            Request::Finished => RequestModel::Finished,
            Request::Print(text) => RequestModel::Print(text@),
            Request::PrintNumber(number) => RequestModel::PrintNumber(*number),
            Request::ParseNumber(digits) => RequestModel::ParseNumber(digits@),
            Request::Arithmetic(operation, left, right) => RequestModel::Arithmetic(
                *operation,
                *left,
                *right,
            ),
            Request::Clock => RequestModel::Clock,
            Request::Failed(error) => RequestModel::Failed(error@),
        }
    }
}

/// The model of the global scope of a new interpreter: it binds `clock` to
/// the host's function of that name.
pub open spec fn initial_scope<'a>() -> ScopeModel<'a> {
    ScopeModel::empty(None).bind(
        "clock"@,
        ValueModel::Callable(Callable::Native { arity: 0, func: NativeFunction::Clock }),
    )
}

/// The model of a new interpreter.
pub open spec fn initial_state<'a>() -> InterpreterModel<'a> {
    InterpreterModel {
        scopes: seq![initial_scope()],
        current: GLOBAL,
        frames: Seq::empty(),
        operands: Seq::empty(),
        unwinding: None,
        awaiting: false,
    }
}

/// An interpreter for syntax trees that live for `'a`.
///
/// The interpreter runs a program in steps. Each call of [`Interpreter::step`]
/// does one piece of the pending work and returns a [`Request`]: the host
/// writes what is to be printed, computes what is asked of it, and steps again
/// until the program has finished or failed.
pub struct Interpreter<'a> {
    environment: Environment<'a>,
    current: usize,
    frames: Vec<Frame<'a>>,
    operands: Vec<LoxValue<'a>>,
    unwinding: Option<Return<'a>>,
    awaiting: bool,
}

impl<'a> View for Interpreter<'a> {
    type V = InterpreterModel<'a>;

    closed spec fn view(&self) -> InterpreterModel<'a> {
        InterpreterModel {
            scopes: self.environment@,
            current: self.current,
            frames: self.frames@,
            operands: value_models(self.operands@),
            unwinding: match self.unwinding {
                Some(signal) => Some(signal@),
                None => None,
            },
            awaiting: self.awaiting,
        }
    }
}

impl<'a> Interpreter<'a> {
    /// The scopes are in order and the current scope is one of them.
    pub closed spec fn well_formed(&self) -> bool {
        &&& self.environment.well_formed()
        &&& self.current < self.environment@.len()
    }

    /// The interpreter is in the state of `outcome`, and `request` is what
    /// `outcome` hands to the host.
    pub open spec fn came_to(&self, request: Request, outcome: Outcome<'a>) -> bool {
        &&& self@ == outcome.state
        &&& request@ == outcome.request
    }

    /// The current scope of a well-formed interpreter exists.
    pub proof fn lemma_current_scope(&self)
        requires
            self.well_formed(),
        ensures
            self@.current < self@.scopes.len() <= usize::MAX,
    {
        self.environment.lemma_count_fits();
    }

    /// The scopes of the program.
    pub fn environment(&self) -> (environment: &Environment<'a>)
        ensures
            environment@ == self@.scopes,
            self.well_formed() ==> environment.well_formed(),
    {
        &self.environment
    }

    /// The handle of the scope that code runs in.
    pub fn current(&self) -> (scope: usize)
        ensures
            scope == self@.current,
    {
        self.current
    }

    /// An interpreter with nothing to do, whose global scope binds `clock`.
    pub fn new() -> (interpreter: Interpreter<'a>)
        ensures
            interpreter.well_formed(),
            interpreter@ == initial_state(),
    {
        let mut global = Environment::new();
        let callable = LoxValue::Callable(Callable::Native { arity: 0, func: NativeFunction::Clock });
        global.define(GLOBAL, "clock", &callable);
        let interpreter = Interpreter {
            environment: global,
            current: GLOBAL,
            frames: Vec::new(),
            operands: Vec::new(),
            unwinding: None,
            awaiting: false,
        };
        proof {
            assert(interpreter@.scopes =~= seq![initial_scope()]);
            assert(interpreter@.frames =~= Seq::empty());
            assert(interpreter@.operands =~= Seq::empty());
        }
        interpreter
    }

    /// Drops whatever is pending and makes `statements` the program to run,
    /// in the global scope. The scopes and their bindings stay.
    pub fn interpret(&mut self, statements: &'a Vec<Stmt>)
        requires
            old(self).well_formed(),
        ensures
            final(self).well_formed(),
            final(self)@ == old(self)@.load(statements),
    {
        self.reset();
        self.push_frame(Frame::Statements(statements, 0));
    }

    /// Does one piece of the pending work. `reply` is the host's answer to
    /// the request of the step before, if that asked for a number; any other
    /// reply is ignored.
    pub fn step(&mut self, reply: Option<Number>) -> (request: Request)
        requires
            old(self).well_formed(),
        ensures
            final(self).well_formed(),
            final(self).came_to(request, old(self)@.step(reply)),
    {
        if self.awaiting {
            match reply {
                Some(number) => {
                    self.awaiting = false;
                    self.push_operand(LoxValue::Number(number));
                    Request::Continue
                },
                None => self.fail("The host gave no number."),
            }
        } else if self.frames.len() == 0 {
            if self.unwinding.is_some() {
                self.fail("return from top level")
            } else {
                Request::Finished
            }
        } else {
            let frame = self.frames.pop().unwrap();
            if self.unwinding.is_some() {
                self.unwind(frame)
            } else {
                self.resume(frame)
            }
        }
    }

    /// Runs one statement: does what it can do at once and schedules the
    /// rest.
    pub fn interpret_statement(&mut self, statement: &'a Stmt) -> (request: Request)
        requires
            old(self).well_formed(),
        ensures
            final(self).well_formed(),
            final(self).came_to(request, old(self)@.execute(statement)),
    {
        match statement {
            Stmt::Print(expression) => {
                self.push_frame(Frame::Print);
                self.push_frame(Frame::Evaluate(expression));
                Request::Continue
            },
            Stmt::Expr(expression) => {
                self.push_frame(Frame::Discard);
                self.push_frame(Frame::Evaluate(expression));
                Request::Continue
            },
            Stmt::Var(name, expression) => {
                if name.token_type != TokenType::Identifier {
                    return self.fail("Interpreter bug: unexpected syntax tree.");
                }
                if let Some(expression) = expression {
                    self.push_frame(Frame::Define(name));
                    self.push_frame(Frame::Evaluate(expression));
                } else {
                    self.environment.define(self.current, name.literal.as_str(), &LoxValue::Nil);
                }
                Request::Continue
            },
            Stmt::Block(statements) => {
                let new = self.environment.new_enclosed(self.current);
                self.execute_block(statements, new)
            },
            Stmt::If(condition, then_block, else_block) => {
                let otherwise: Option<&'a Stmt> = match else_block {
                    Some(block) => Some(&**block),
                    None => None,
                };
                self.push_frame(Frame::Branch(&**then_block, otherwise));
                self.push_frame(Frame::Evaluate(condition));
                Request::Continue
            },
            Stmt::While(condition, body) => {
                self.push_frame(Frame::Loop(condition, &**body));
                self.push_frame(Frame::Evaluate(condition));
                Request::Continue
            },
            Stmt::Function(func_stmt) => {
                if func_stmt.name.token_type != TokenType::Identifier {
                    return self.fail("Interpreter bug: unexpected syntax tree.");
                }
                let func = LoxValue::Callable(
                    Callable::Function {
                        arity: func_stmt.params.len(),
                        func_stmt,
                        environment: self.current,
                    },
                );
                self.environment.define(self.current, func_stmt.name.literal.as_str(), &func);
                Request::Continue
            },
            Stmt::Ret(expr) => {
                if let Some(expr) = expr {
                    self.push_frame(Frame::Return);
                    self.push_frame(Frame::Evaluate(expr));
                } else {
                    self.unwinding = Some(Return { value: None });
                }
                Request::Continue
            },
        }
    }

    /// Evaluates one expression: pushes its value where it has one at once
    /// and schedules the rest.
    pub fn interpret_expression(&mut self, expression: &'a Expr) -> (request: Request)
        requires
            old(self).well_formed(),
        ensures
            final(self).well_formed(),
            final(self).came_to(request, old(self)@.evaluate(expression)),
        decreases expression,
    {
        match expression {
            Expr::Number(digits) => {
                self.awaiting = true;
                Request::ParseNumber(digits.clone())
            },
            Expr::String(string) => {
                self.push_operand(LoxValue::String(string.clone()));
                Request::Continue
            },
            Expr::True => {
                self.push_operand(LoxValue::Bool(true));
                Request::Continue
            },
            Expr::False => {
                self.push_operand(LoxValue::Bool(false));
                Request::Continue
            },
            Expr::Nil => {
                self.push_operand(LoxValue::Nil);
                Request::Continue
            },
            Expr::Grouping(expression) => self.interpret_expression(&**expression),
            Expr::Unary(operator, operand) => {
                if operator.token_type == TokenType::Bang {
                    self.push_frame(Frame::Not);
                } else if operator.token_type == TokenType::Minus {
                    self.push_frame(Frame::Negate);
                } else {
                    return self.fail("Interpreter bug: unexpected syntax tree.");
                }
                self.push_frame(Frame::Evaluate(&**operand));
                Request::Continue
            },
            Expr::Binary(left, token, right) => {
                self.push_frame(Frame::Apply(token));
                self.push_frame(Frame::Evaluate(&**right));
                self.push_frame(Frame::Evaluate(&**left));
                Request::Continue
            },
            Expr::Variable(token) => {
                if token.token_type != TokenType::Identifier {
                    return self.fail("Interpreter bug: unexpected syntax tree.");
                }
                match self.environment.get(self.current, token) {
                    Ok(value) => {
                        self.push_operand(value);
                        Request::Continue
                    },
                    Err(error) => self.fail_with(error),
                }
            },
            Expr::Assignment(name, expression) => {
                if name.token_type != TokenType::Identifier {
                    return self.fail("Interpreter bug: unexpected syntax tree.");
                }
                self.push_frame(Frame::Assign(name));
                self.push_frame(Frame::Evaluate(&**expression));
                Request::Continue
            },
            Expr::Logical(left, operator, right) => {
                if operator.token_type != TokenType::Or && operator.token_type != TokenType::And {
                    return self.fail("Interpreter bug: unexpected syntax tree.");
                }
                self.push_frame(Frame::ShortCircuit(operator, &**right));
                self.push_frame(Frame::Evaluate(&**left));
                Request::Continue
            },
            Expr::Call(callee, _, arguments) => {
                self.push_frame(Frame::Invoke(arguments.len()));
                self.push_frame(Frame::Arguments(arguments, 0));
                self.push_frame(Frame::Callee);
                self.push_frame(Frame::Evaluate(&**callee));
                Request::Continue
            },
        }
    }

    /// Applies the binary operator `token` to the values of its operands.
    pub fn interpret_binary_expression(
        &mut self,
        left: LoxValue<'a>,
        token: &'a Token,
        right: LoxValue<'a>,
    ) -> (request: Request)
        requires
            old(self).well_formed(),
        ensures
            final(self).well_formed(),
            final(self).came_to(request, old(self)@.apply(left@, token, right@)),
    {
        let kind = token.token_type;
        if kind == TokenType::EqualEqual {
            self.push_operand(LoxValue::Bool(left.equals(&right)));
            Request::Continue
        } else if kind == TokenType::BangEqual {
            self.push_operand(LoxValue::Bool(!left.equals(&right)));
            Request::Continue
        } else if kind == TokenType::Plus {
            match (left, right) {
                (LoxValue::Number(a), LoxValue::Number(b)) => self.ask(
                    Request::Arithmetic(ArithmeticOp::Add, a, b),
                ),
                (LoxValue::String(a), LoxValue::String(b)) => {
                    self.push_operand(LoxValue::String(a.concat(b.as_str())));
                    Request::Continue
                },
                _ => {
                    let mut message = String::from_str("Error in line: ");
                    push_decimal(&mut message, token.line);
                    message.append(", operands must both be numbers or strings.");
                    self.fail_with(LoxError::Standard(message))
                },
            }
        } else if kind == TokenType::Minus || kind == TokenType::Star || kind == TokenType::Slash
            || kind == TokenType::Less || kind == TokenType::LessEqual || kind == TokenType::Greater
            || kind == TokenType::GreaterEqual {
            match (left, right) {
                (LoxValue::Number(a), LoxValue::Number(b)) => {
                    if kind == TokenType::Minus {
                        self.ask(Request::Arithmetic(ArithmeticOp::Subtract, a, b))
                    } else if kind == TokenType::Star {
                        self.ask(Request::Arithmetic(ArithmeticOp::Multiply, a, b))
                    } else if kind == TokenType::Slash {
                        self.ask(Request::Arithmetic(ArithmeticOp::Divide, a, b))
                    } else {
                        let truth = if kind == TokenType::Less {
                            a.less(&b)
                        } else if kind == TokenType::LessEqual {
                            a.less_or_equal(&b)
                        } else if kind == TokenType::Greater {
                            b.less(&a)
                        } else {
                            b.less_or_equal(&a)
                        };
                        self.push_operand(LoxValue::Bool(truth));
                        Request::Continue
                    }
                },
                _ => {
                    let mut message = String::from_str("Error in line: ");
                    push_decimal(&mut message, token.line);
                    message.append(", operands must both be numbers.");
                    self.fail_with(LoxError::Standard(message))
                },
            }
        } else {
            self.fail("Interpreter bug: unexpected syntax tree.")
        }
    }

    /// Schedules `statements` to run in the scope `new_environment`, and the
    /// return to the current scope after them.
    pub fn execute_block(&mut self, statements: &'a Vec<Stmt>, new_environment: usize) -> (request:
        Request)
        requires
            old(self).well_formed(),
            new_environment < old(self)@.scopes.len(),
        ensures
            final(self).well_formed(),
            final(self).came_to(request, old(self)@.execute_block(statements, new_environment)),
    {
        self.push_frame(Frame::LeaveScope(self.current));
        self.push_frame(Frame::Statements(statements, 0));
        self.current = new_environment;
        Request::Continue
    }

    /// Forgets everything pending and goes back to the global scope.
    fn reset(&mut self)
        requires
            old(self).well_formed(),
        ensures
            final(self).well_formed(),
            final(self)@ == old(self)@.idle(),
    {
        self.frames.clear();
        self.operands.clear();
        self.unwinding = None;
        self.awaiting = false;
        self.current = GLOBAL;
        proof {
            assert(self@.frames =~= Seq::empty());
            assert(self@.operands =~= Seq::empty());
        }
    }

    /// Fails with `message`.
    fn fail(&mut self, message: &str) -> (request: Request)
        requires
            old(self).well_formed(),
        ensures
            final(self).well_formed(),
            final(self).came_to(request, old(self)@.fail(message@)),
    {
        self.reset();
        Request::Failed(LoxError::Standard(String::from_str(message)))
    }

    /// Fails with `error`.
    fn fail_with(&mut self, error: LoxError) -> (request: Request)
        requires
            old(self).well_formed(),
        ensures
            final(self).well_formed(),
            final(self).came_to(request, old(self)@.fail(error@)),
    {
        self.reset();
        Request::Failed(error)
    }

    /// Hands `request`, which asks for a number, to the host.
    fn ask(&mut self, request: Request) -> (asked: Request)
        requires
            old(self).well_formed(),
        ensures
            final(self).well_formed(),
            asked == request,
            final(self).came_to(asked, old(self)@.ask(request@)),
    {
        self.awaiting = true;
        request
    }

    fn push_frame(&mut self, frame: Frame<'a>)
        requires
            old(self).well_formed(),
        ensures
            final(self).well_formed(),
            final(self)@ == old(self)@.with_frame(frame),
    {
        self.frames.push(frame);
    }

    fn push_operand(&mut self, value: LoxValue<'a>)
        requires
            old(self).well_formed(),
        ensures
            final(self).well_formed(),
            final(self)@ == old(self)@.with_operand(value@),
    {
        self.operands.push(value);
        proof {
            assert(self@.operands =~= old(self)@.operands.push(value@));
        }
    }

    fn pop_operand(&mut self) -> (value: LoxValue<'a>)
        requires
            old(self).well_formed(),
            old(self)@.operands.len() > 0,
        ensures
            final(self).well_formed(),
            value@ == old(self)@.operands.last(),
            final(self)@ == old(self)@.without_operands(1),
    {
        let value = self.operands.pop().unwrap();
        proof {
            assert(self@.operands =~= old(self)@.operands.take(old(self)@.operands.len() - 1));
        }
        value
    }

    /// The number of values on the operand stack.
    fn operand_count(&self) -> (count: usize)
        ensures
            count == self@.operands.len(),
    {
        self.operands.len()
    }

    /// Passes `frame` while a return signal travels.
    fn unwind(&mut self, frame: Frame<'a>) -> (request: Request)
        requires
            old(self).well_formed(),
            old(self)@.unwinding is Some,
        ensures
            final(self).well_formed(),
            final(self).came_to(request, old(self)@.unwind(frame, old(self)@.unwinding.unwrap())),
    {
        match frame {
            Frame::CallBoundary(scope) => {
                if scope < self.environment.len() {
                    let signal = self.unwinding.take().unwrap();
                    self.current = scope;
                    let value = match signal.value {
                        Some(value) => value,
                        None => LoxValue::Nil,
                    };
                    self.push_operand(value);
                    Request::Continue
                } else {
                    self.fail("Interpreter bug: unexpected state.")
                }
            },
            _ => Request::Continue,
        }
    }

    /// Does the pending work `frame`.
    fn resume(&mut self, frame: Frame<'a>) -> (request: Request)
        requires
            old(self).well_formed(),
        ensures
            final(self).well_formed(),
            final(self).came_to(request, old(self)@.resume(frame)),
    {
        match frame {
            Frame::Statements(statements, next) => {
                if next < statements.len() {
                    self.push_frame(Frame::Statements(statements, next + 1));
                    self.interpret_statement(&statements[next])
                } else {
                    Request::Continue
                }
            },
            Frame::Execute(statement) => self.interpret_statement(statement),
            Frame::Evaluate(expression) => self.interpret_expression(expression),
            Frame::Arguments(arguments, next) => {
                if next < arguments.len() {
                    self.push_frame(Frame::Arguments(arguments, next + 1));
                    self.push_frame(Frame::Evaluate(&arguments[next]));
                }
                Request::Continue
            },
            Frame::LeaveScope(scope) => {
                if scope < self.environment.len() {
                    self.current = scope;
                    Request::Continue
                } else {
                    self.fail("Interpreter bug: unexpected state.")
                }
            },
            Frame::CallBoundary(scope) => {
                if scope < self.environment.len() {
                    self.current = scope;
                    self.push_operand(LoxValue::Nil);
                    Request::Continue
                } else {
                    self.fail("Interpreter bug: unexpected state.")
                }
            },
            Frame::Invoke(count) => self.invoke(count),
            _ => {
                if self.operand_count() == 0 {
                    self.fail("Interpreter bug: unexpected state.")
                } else {
                    self.consume(frame)
                }
            },
        }
    }

    /// Does the pending work `frame`, which needs the topmost operand.
    fn consume(&mut self, frame: Frame<'a>) -> (request: Request)
        requires
            old(self).well_formed(),
            old(self)@.operands.len() > 0,
        ensures
            final(self).well_formed(),
            final(self).came_to(request, old(self)@.consume(frame, old(self)@.operands.last())),
    {
        match frame {
            Frame::Discard => {
                self.pop_operand();
                Request::Continue
            },
            Frame::Print => {
                let value = self.pop_operand();
                match value {
                    LoxValue::Number(number) => Request::PrintNumber(number),
                    _ => match value.to_text() {
                        Some(text) => Request::Print(text),
                        None => Request::Continue,
                    },
                }
            },
            Frame::Define(name) => {
                let value = self.pop_operand();
                self.environment.define(self.current, name.literal.as_str(), &value);
                Request::Continue
            },
            Frame::Branch(then_block, else_block) => {
                let value = self.pop_operand();
                if value.is_truthy() {
                    self.push_frame(Frame::Execute(then_block));
                } else if let Some(else_block) = else_block {
                    self.push_frame(Frame::Execute(else_block));
                }
                Request::Continue
            },
            Frame::Loop(condition, body) => {
                let value = self.pop_operand();
                if value.is_truthy() {
                    self.push_frame(Frame::Loop(condition, body));
                    self.push_frame(Frame::Evaluate(condition));
                    self.push_frame(Frame::Execute(body));
                }
                Request::Continue
            },
            Frame::Return => {
                let value = self.pop_operand();
                self.unwinding = Some(Return { value: Some(value) });
                Request::Continue
            },
            Frame::Not => {
                let value = self.pop_operand();
                self.push_operand(LoxValue::Bool(!value.is_truthy()));
                Request::Continue
            },
            Frame::Negate => {
                let value = self.pop_operand();
                match value {
                    LoxValue::Number(number) => {
                        self.push_operand(LoxValue::Number(number.negate()));
                        Request::Continue
                    },
                    _ => self.fail("Error: operand must be a number."),
                }
            },
            Frame::Apply(token) => {
                if self.operand_count() < 2 {
                    self.fail("Interpreter bug: unexpected state.")
                } else {
                    let right = self.pop_operand();
                    let left = self.pop_operand();
                    proof {
                        assert(self@.operands =~= old(self)@.operands.take(
                            old(self)@.operands.len() - 2,
                        ));
                    }
                    self.interpret_binary_expression(left, token, right)
                }
            },
            Frame::Assign(name) => {
                let value = self.operands[self.operands.len() - 1].clone();
                match self.environment.assign(self.current, name.literal.as_str(), &value) {
                    Ok(_) => Request::Continue,
                    Err(error) => self.fail_with(error),
                }
            },
            Frame::ShortCircuit(operator, right) => {
                let truthy = self.operands[self.operands.len() - 1].is_truthy();
                if (operator.token_type == TokenType::Or) != truthy {
                    self.pop_operand();
                    self.push_frame(Frame::Evaluate(right));
                }
                Request::Continue
            },
            Frame::Callee => match &self.operands[self.operands.len() - 1] {
                LoxValue::Callable(_) => Request::Continue,
                _ => self.fail("Can only call functions and classes."),
            },
            _ => self.fail("Interpreter bug: unexpected state."),
        }
    }

    /// Calls the callee that lies below `count` arguments on the operand
    /// stack.
    fn invoke(&mut self, count: usize) -> (request: Request)
        requires
            old(self).well_formed(),
        ensures
            final(self).well_formed(),
            final(self).came_to(request, old(self)@.invoke(count)),
    {
        let height = self.operands.len();
        if height <= count {
            return self.fail("Interpreter bug: unexpected state.");
        }
        let function = match &self.operands[height - count - 1] {
            LoxValue::Callable(function) => *function,
            _ => {
                return self.fail("Can only call functions and classes.");
            },
        };
        if function.arity() != count {
            let mut message = String::from_str("Expected ");
            push_decimal(&mut message, function.arity());
            message.append(" arguments but got ");
            push_decimal(&mut message, count);
            message.append(".");
            return self.fail_with(LoxError::Standard(message));
        }
        let arguments = self.operands.split_off(height - count);
        self.operands.pop();
        proof {
            assert(value_models(arguments@) =~= old(self)@.operands.skip(
                old(self)@.operands.len() - count,
            ));
            assert(self@.operands =~= old(self)@.operands.take(
                old(self)@.operands.len() - (count + 1),
            ));
        }
        function.call(self, &arguments)
    }
}

impl<'a> Callable<'a> {
    /// Calls the callable with `arguments`.
    ///
    /// A function of the program gets a new scope inside the scope it was
    /// declared in, with its parameters bound to the arguments, and its body
    /// is scheduled to run there; the call's value is what the body returns,
    /// or nil. A function of the host is asked of the host.
    pub fn call(&self, interpreter: &mut Interpreter<'a>, arguments: &Vec<LoxValue<'a>>) -> (request:
        Request)
        requires
            old(interpreter).well_formed(),
        ensures
            final(interpreter).well_formed(),
            final(interpreter).came_to(
                request,
                old(interpreter)@.call(*self, value_models(arguments@)),
            ),
    {
        match self {
            Callable::Function { func_stmt, environment, .. } => {
                if *environment >= interpreter.environment.len() {
                    return interpreter.fail("Interpreter bug: unexpected state.");
                }
                let ghost base = interpreter.environment@;
                let new_environment = interpreter.environment.new_enclosed(*environment);
                let count = if func_stmt.params.len() < arguments.len() {
                    func_stmt.params.len()
                } else {
                    arguments.len()
                };
                let mut at: usize = 0;
                while at < count
                    invariant
                        at <= count,
                        count <= func_stmt.params@.len(),
                        count <= arguments@.len(),
                        interpreter.environment.well_formed(),
                        new_environment == base.len(),
                        interpreter.environment@.len() == base.len() + 1,
                        interpreter.environment@ == bound_parameters(
                            base.push(ScopeModel::empty(Some(*environment))),
                            new_environment as int,
                            func_stmt.params@,
                            value_models(arguments@),
                            at as nat,
                        ),
                        interpreter.current == old(interpreter).current,
                        interpreter.frames == old(interpreter).frames,
                        interpreter.operands == old(interpreter).operands,
                        interpreter.unwinding == old(interpreter).unwinding,
                        interpreter.awaiting == old(interpreter).awaiting,
                    decreases count - at,
                {
                    let param = &func_stmt.params[at];
                    if param.token_type == TokenType::Identifier {
                        interpreter.environment.define(
                            new_environment,
                            param.literal.as_str(),
                            &arguments[at],
                        );
                    }
                    at += 1;
                }
                interpreter.push_frame(Frame::CallBoundary(interpreter.current));
                interpreter.push_frame(Frame::Statements(&func_stmt.body, 0));
                interpreter.current = new_environment;
                Request::Continue
            },
            Callable::Native { func, .. } => match func {
                NativeFunction::Clock => interpreter.ask(Request::Clock),
            },
        }
    }
}

} // verus!
