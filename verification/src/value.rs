//! The values of a running program.

use crate::statement::FuncStmt;
use crate::text::{decimal, push_decimal};
use vstd::prelude::*;
use vstd::string::StringExecFns;

verus! {

/// The bits of a number that are not its sign.
pub const MAGNITUDE_MASK: u64 = 0x7fff_ffff_ffff_ffff;

/// The sign bit of a number.
pub const SIGN_MASK: u64 = 0x8000_0000_0000_0000;

/// The magnitude of the infinities; every larger magnitude is not a number.
pub const INFINITY_MAGNITUDE: u64 = 0x7ff0_0000_0000_0000;

/// A double-precision number, held as the 64 bits of its IEEE-754 binary
/// interchange format. The library compares and negates numbers; sums,
/// products and the like, and the conversion from and to decimal text, are
/// asked of the host.
#[derive(Clone, Copy, Debug, PartialEq, Eq, Structural)]
pub struct Number {
    pub bits: u64,
}

impl Number {
    /// The number without its sign.
    pub open spec fn magnitude(self) -> u64 {
        self.bits & MAGNITUDE_MASK
    }

    /// Whether the sign bit is set.
    pub open spec fn is_negative(self) -> bool {
        self.bits & SIGN_MASK != 0
    }

    /// Whether the bits encode no number at all.
    pub open spec fn is_nan(self) -> bool {
        self.magnitude() > INFINITY_MAGNITUDE
    }

    /// Whether the number is zero, of either sign.
    pub open spec fn is_zero(self) -> bool {
        self.magnitude() == 0
    }

    /// The number with its sign flipped.
    pub open spec fn negated(self) -> Number {
        Number { bits: self.bits ^ SIGN_MASK }
    }

    /// Numeric equality: nothing equals what is not a number, the two zeros
    /// are equal, and any other two numbers are equal when their bits are.
    pub open spec fn same(self, other: Number) -> bool {
        &&& !self.is_nan()
        &&& !other.is_nan()
        &&& (self.bits == other.bits || (self.is_zero() && other.is_zero()))
    }

    /// Numeric order: nothing is below or above what is not a number, the two
    /// zeros are not below one another, and any other two numbers are ordered
    /// by sign and then by magnitude.
    pub open spec fn below(self, other: Number) -> bool {
        &&& !self.is_nan()
        &&& !other.is_nan()
        &&& !(self.is_zero() && other.is_zero())
        &&& if self.is_negative() {
            !other.is_negative() || self.magnitude() > other.magnitude()
        } else {
            !other.is_negative() && self.magnitude() < other.magnitude()
        }
    }

    /// `self <= other` in numeric order.
    pub open spec fn at_most(self, other: Number) -> bool {
        self.below(other) || self.same(other)
    }

    /// Whether the number is not a number.
    pub fn nan(&self) -> (result: bool)
        ensures
            result == self.is_nan(),
    {
        (self.bits & MAGNITUDE_MASK) > INFINITY_MAGNITUDE
    }

    /// The number with the opposite sign.
    pub fn negate(&self) -> (result: Number)
        ensures
            result == self.negated(),
    {
        Number { bits: self.bits ^ SIGN_MASK }
    }

    /// Whether the two numbers are numerically equal.
    pub fn equals(&self, other: &Number) -> (result: bool)
        ensures
            result == self.same(*other),
    {
        !self.nan() && !other.nan() && (self.bits == other.bits || ((self.bits & MAGNITUDE_MASK) == 0
            && (other.bits & MAGNITUDE_MASK) == 0))
    }

    /// Whether `self` is numerically less than `other`.
    pub fn less(&self, other: &Number) -> (result: bool)
        ensures
            result == self.below(*other),
    {
        let mine = self.bits & MAGNITUDE_MASK;
        let theirs = other.bits & MAGNITUDE_MASK;
        if self.nan() || other.nan() || (mine == 0 && theirs == 0) {
            false
        } else if (self.bits & SIGN_MASK) != 0 {
            (other.bits & SIGN_MASK) == 0 || mine > theirs
        } else {
            (other.bits & SIGN_MASK) == 0 && mine < theirs
        }
    }

    /// Whether `self` is numerically less than or equal to `other`.
    pub fn less_or_equal(&self, other: &Number) -> (result: bool)
        ensures
            result == self.at_most(*other),
    {
        self.less(other) || self.equals(other)
    }
}

/// The functions that the host provides to programs.
#[derive(Clone, Copy, Debug, PartialEq, Eq, Structural)]
pub enum NativeFunction {
    /// The wall time since a fixed epoch, as a number.
    Clock,
}

/// Something that can be called.
#[derive(Clone, Copy, Debug)]
pub enum Callable<'a> {
    /// A function of the program, with the scope it was declared in.
    Function { arity: usize, func_stmt: &'a FuncStmt, environment: usize },
    /// A function of the host.
    Native { arity: usize, func: NativeFunction },
}

impl<'a> Callable<'a> {
    /// The number of arguments that a call must give.
    pub open spec fn arity_of(self) -> usize {
        match self {
            Callable::Function { arity, .. } => arity,
            Callable::Native { arity, .. } => arity,
        }
    }

    /// The text that stands for the callable when it is printed.
    pub open spec fn display(self) -> Seq<char> {
        match self {
            Callable::Function { arity, .. } => "Function : "@ + decimal(arity as nat),
            Callable::Native { .. } => "Native function"@,
        }
    }

    /// The number of arguments that a call must give.
    pub fn arity(&self) -> (count: usize)
        ensures
            count == self.arity_of(),
    {
        match self {
            Callable::Function { arity, .. } => *arity,
            Callable::Native { arity, .. } => *arity,
        }
    }

    /// The text that stands for the callable when it is printed.
    pub fn to_text(&self) -> (text: String)
        ensures
            text@ == self.display(),
    {
        match self {
            Callable::Function { arity, .. } => {
                let mut text = String::from_str("Function : ");
                push_decimal(&mut text, *arity);
                text
            },
            Callable::Native { .. } => String::from_str("Native function"),
        }
    }
}

/// A value of a running program.
#[derive(Debug)]
pub enum LoxValue<'a> {
    Number(Number),
    String(String),
    Bool(bool),
    Nil,
    Callable(Callable<'a>),
}

/// What a [`LoxValue`] is, as a mathematical value.
pub enum ValueModel<'a> {
    Number(Number),
    String(Seq<char>),
    Bool(bool),
    Nil,
    Callable(Callable<'a>),
}

impl<'a> View for LoxValue<'a> {
    type V = ValueModel<'a>;

    open spec fn view(&self) -> ValueModel<'a> {
        match self {
            LoxValue::Number(number) => ValueModel::Number(*number),
            LoxValue::String(text) => ValueModel::String(text@),
            LoxValue::Bool(truth) => ValueModel::Bool(*truth),
            LoxValue::Nil => ValueModel::Nil,
            LoxValue::Callable(callable) => ValueModel::Callable(*callable),
        }
    }
}

impl<'a> Clone for LoxValue<'a> {
    fn clone(&self) -> (copy: LoxValue<'a>)
        ensures
            copy == *self,
    {
        match self {
            LoxValue::Number(number) => LoxValue::Number(*number),
            LoxValue::String(text) => LoxValue::String(text.clone()),
            LoxValue::Bool(truth) => LoxValue::Bool(*truth),
            LoxValue::Nil => LoxValue::Nil,
            LoxValue::Callable(callable) => LoxValue::Callable(*callable),
        }
    }
}

impl<'a> ValueModel<'a> {
    /// Truthiness: nil and false are falsy, every other value is truthy.
    pub open spec fn truthy(self) -> bool {
        match self {
            ValueModel::Nil => false,
            ValueModel::Bool(truth) => truth,
            _ => true,
        }
    }

    /// Equality of values: two numbers, two strings or two booleans are
    /// equal when they hold the same; nil equals nil; values of different
    /// kinds are unequal, and a callable equals nothing.
    pub open spec fn same(self, other: ValueModel<'a>) -> bool {
        match (self, other) {
            (ValueModel::Number(left), ValueModel::Number(right)) => left.same(right),
            (ValueModel::String(left), ValueModel::String(right)) => left == right,
            (ValueModel::Bool(left), ValueModel::Bool(right)) => left == right,
            (ValueModel::Nil, ValueModel::Nil) => true,
            _ => false,
        }
    }

    /// The text that stands for the value when it is printed, for every value
    /// but a number, whose text the host makes.
    pub open spec fn display(self) -> Option<Seq<char>> {
        match self {
            ValueModel::Number(_) => None,
            ValueModel::String(text) => Some(text),
            ValueModel::Bool(truth) => Some(
                if truth {
                    "true"@
                } else {
                    "false"@
                },
            ),
            ValueModel::Nil => Some("nil"@),
            ValueModel::Callable(callable) => Some(callable.display()),
        }
    }
}

impl<'a> LoxValue<'a> {
    /// Whether the value counts as true in a condition.
    pub fn is_truthy(&self) -> (truth: bool)
        ensures
            truth == self@.truthy(),
    {
        match self {
            LoxValue::Nil => false,
            LoxValue::Bool(truth) => *truth,
            _ => true,
        }
    }

    /// Whether the two values are equal.
    pub fn equals(&self, other: &LoxValue<'a>) -> (equal: bool)
        ensures
            equal == self@.same(other@),
    {
        match (self, other) {
            (LoxValue::Number(left), LoxValue::Number(right)) => left.equals(right),
            (LoxValue::String(left), LoxValue::String(right)) => *left == *right,
            (LoxValue::Bool(left), LoxValue::Bool(right)) => *left == *right,
            (LoxValue::Nil, LoxValue::Nil) => true,
            _ => false,
        }
    }

    /// The text that stands for the value when it is printed, or nothing for
    /// a number, whose text the host makes.
    pub fn to_text(&self) -> (text: Option<String>)
        ensures
            match text {
                Some(text) => self@.display() == Some(text@),
                None => self@.display() is None,
            },
    {
        match self {
            LoxValue::Number(_) => None,
            LoxValue::String(text) => Some(text.clone()),
            LoxValue::Bool(truth) => Some(
                if *truth {
                    String::from_str("true")
                } else {
                    String::from_str("false")
                },
            ),
            LoxValue::Nil => Some(String::from_str("nil")),
            LoxValue::Callable(callable) => Some(callable.to_text()),
        }
    }
}

/// The models of a sequence of values.
pub open spec fn value_models<'a>(values: Seq<LoxValue<'a>>) -> Seq<ValueModel<'a>> {
    values.map_values(|value: LoxValue<'a>| value@)
}

/// An error of the parser or of a running program, as a message for the user.
#[derive(Debug, PartialEq, Eq)]
pub enum LoxError {
    Standard(String),
}

impl View for LoxError {
    type V = Seq<char>;

    open spec fn view(&self) -> Seq<char> {
        match self {
            LoxError::Standard(message) => message@,
        }
    }
}

impl LoxError {
    /// The message of the error.
    pub fn message(&self) -> (text: &String)
        ensures
            text@ == self@,
    {
        match self {
            LoxError::Standard(message) => message,
        }
    }
}

/// The signal that a `return` statement raises: it carries the value that
/// the enclosing call evaluates to, if the statement gave one.
#[derive(Debug)]
pub struct Return<'a> {
    pub value: Option<LoxValue<'a>>,
}

/// What a [`Return`] is, as a mathematical value.
pub struct ReturnModel<'a> {
    pub value: Option<ValueModel<'a>>,
}

impl<'a> View for Return<'a> {
    type V = ReturnModel<'a>;

    open spec fn view(&self) -> ReturnModel<'a> {
        ReturnModel {
            value: match self.value {
                Some(value) => Some(value@),
                None => None,
            },
        }
    }
}

impl<'a> ReturnModel<'a> {
    /// The value that the call evaluates to: the one given, or nil.
    pub open spec fn result(self) -> ValueModel<'a> {
        match self.value {
            Some(value) => value,
            None => ValueModel::Nil,
        }
    }
}

} // verus!
