use vstd::prelude::*;
use crate::value::Kind;

verus! {

/// What went wrong, while parsing or while evaluating.
#[derive(Debug, PartialEq, Eq)]
pub enum ErrorKind {
    /// The input ended inside a token, a block or a declaration.
    UnexpectedEof,
    /// A delimiter was required and another character stood there.
    Unexpected { expected: char, found: char },
    /// An identifier that is neither a builtin nor a declared variable.
    UndefinedVariable(String),
    /// A digit sequence that does not fit a 32-bit signed integer.
    NumberOutOfRange,
    /// A pop from an empty operand stack.
    StackUnderflow,
    /// An operand of the wrong kind.
    TypeMismatch { expected: Kind, found: Kind },
    /// The left operand of an arithmetic operation is neither Integer nor Real.
    NotNumeric { found: Kind },
    /// The left operand of a comparison is neither Integer, Real nor String.
    NotOrdered { found: Kind },
    /// A Symbol other than `t` or `f` where a boolean was required.
    NotBoolean(String),
    /// Integer division or remainder by zero.
    DivisionByZero,
    /// An integer result outside the 32-bit signed range.
    Overflow,
    /// A reference to a variable slot that holds no binding yet.
    Unbound(u16),
    /// The symbol table has no free variable slot left.
    TooManyVariables,
    /// Nested evaluation of bindings and quotes went deeper than the limit.
    TooDeep,
}

/// A diagnostic with the position (line, column) it refers to.
#[derive(Debug)]
pub struct Error {
    pub line: usize,
    pub column: usize,
    pub kind: ErrorKind,
}

/// Mathematical model of an [`ErrorKind`].
pub enum Fault {
    UnexpectedEof,
    Unexpected { expected: char, found: char },
    UndefinedVariable(Seq<char>),
    NumberOutOfRange,
    StackUnderflow,
    TypeMismatch { expected: Kind, found: Kind },
    NotNumeric { found: Kind },
    NotOrdered { found: Kind },
    NotBoolean(Seq<char>),
    DivisionByZero,
    Overflow,
    Unbound(u16),
    TooManyVariables,
    TooDeep,
}

/// Mathematical model of an [`Error`].
pub struct Failure {
    pub line: usize,
    pub column: usize,
    pub fault: Fault,
}

impl View for ErrorKind {
    type V = Fault;

    open spec fn view(&self) -> Fault {
        match *self {
            ErrorKind::UnexpectedEof => Fault::UnexpectedEof,
            ErrorKind::Unexpected { expected, found } => Fault::Unexpected { expected, found },
            ErrorKind::UndefinedVariable(s) => Fault::UndefinedVariable(s@),
            ErrorKind::NumberOutOfRange => Fault::NumberOutOfRange,
            ErrorKind::StackUnderflow => Fault::StackUnderflow,
            ErrorKind::TypeMismatch { expected, found } => Fault::TypeMismatch { expected, found },
            ErrorKind::NotNumeric { found } => Fault::NotNumeric { found },
            ErrorKind::NotOrdered { found } => Fault::NotOrdered { found },
            ErrorKind::NotBoolean(s) => Fault::NotBoolean(s@),
            ErrorKind::DivisionByZero => Fault::DivisionByZero,
            ErrorKind::Overflow => Fault::Overflow,
            ErrorKind::Unbound(i) => Fault::Unbound(i),
            ErrorKind::TooManyVariables => Fault::TooManyVariables,
            ErrorKind::TooDeep => Fault::TooDeep,
        }
    }
}

impl View for Error {
    type V = Failure;

    open spec fn view(&self) -> Failure {
        Failure { line: self.line, column: self.column, fault: self.kind@ }
    }
}

impl Error {
    pub fn new(line: usize, column: usize, kind: ErrorKind) -> (r: Error)
        ensures
            r.line == line,
            r.column == column,
            r.kind == kind,
    {
        Error { line, column, kind }
    }
}

} // verus!
