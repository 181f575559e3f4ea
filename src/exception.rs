use vstd::prelude::*;

use crate::value::Type;

verus! {

/// A failed coercion: the type of the value, and the type asked for.
#[derive(Debug, Clone, Copy, PartialEq, Eq, Structural)]
pub struct CoercionError {
    from: Type,
    to: Type,
}

impl CoercionError {
    pub closed spec fn new_spec(from: Type, to: Type) -> CoercionError {
        CoercionError { from, to }
    }

    pub closed spec fn from_spec(&self) -> Type {
        self.from
    }

    pub closed spec fn to_spec(&self) -> Type {
        self.to
    }

    /// A coercion error from one type to another.
    pub fn new(from: Type, to: Type) -> (r: CoercionError)
        ensures
            r == CoercionError::new_spec(from, to),
            r.from_spec() == from,
            r.to_spec() == to,
    {
        CoercionError { from, to }
    }

    /// The type of the value that could not be coerced.
    pub fn from(&self) -> (r: Type)
        ensures
            r == self.from_spec(),
    {
        self.from
    }

    /// The type that was asked for.
    pub fn to(&self) -> (r: Type)
        ensures
            r == self.to_spec(),
    {
        self.to
    }
}

/// A runtime exception. Numbers appear as the bit patterns of their doubles.
#[derive(Debug, Clone, PartialEq, Eq)]
pub enum Exception {
    StackOverflow,
    StackUnderflow,
    /// Execution ran past the end of a function.
    Overrun,
    UnknownOpcode(u8),
    InvalidUserFunction(u32),
    InvalidNativeFunction(u32),
    CallStackOverflow,
    NoReturn,
    OutOfBoundsHeapAddress,
    FreedHeapAddress,
    OutOfMemory,
    CoercionError(CoercionError),
    InvalidVariable(usize),
    InvalidString(usize),
    BadArity { expected: u32, or_more: bool, actual: u32 },
    BadArgumentType { param: String, function: String, expected: String, actual: String },
    MissingField(String),
    WriteToImmutableField(String),
    InvalidIndex(u64),
    OutOfBoundsIndex(u64, usize),
    NonUtf8(String),
    /// Equality or rendering met lists or objects nested deeper than it follows.
    NestingTooDeep,
    Custom(String),
}

/// A frame of a stack trace: a function name and, where one applies, a code address.
#[derive(Debug, Clone, PartialEq, Eq)]
pub struct TraceFrame {
    pub function: String,
    pub address: Option<usize>,
}

/// An exception with the stack trace at the point where it was raised.
#[derive(Debug, Clone, PartialEq, Eq)]
pub struct FormattedException {
    pub exception: Exception,
    pub stack_trace: Vec<TraceFrame>,
}

} // verus!
