//! Errors of parsing and of evaluation, and their models.
use vstd::prelude::*;

verus! {

/// Why a text could not be parsed.
#[derive(Debug)]
pub enum ParserError {
    MalformedInput(String),
    IntegerOverflow,
    InvalidEscapeSequence(char),
    UnmatchedParentheses,
    EmptyFuncall,
    InvalidFuncall,
    NoMatchingParser,
}

/// The model of a parse error.
pub enum ParseFault {
    MalformedInput(Seq<char>),
    IntegerOverflow,
    InvalidEscapeSequence(char),
    UnmatchedParentheses,
    EmptyFuncall,
    InvalidFuncall,
    NoMatchingParser,
}

impl ParserError {
    pub open spec fn model(&self) -> ParseFault {
        match self {
            ParserError::MalformedInput(s) => ParseFault::MalformedInput(s@),
            ParserError::IntegerOverflow => ParseFault::IntegerOverflow,
            ParserError::InvalidEscapeSequence(c) => ParseFault::InvalidEscapeSequence(*c),
            ParserError::UnmatchedParentheses => ParseFault::UnmatchedParentheses,
            ParserError::EmptyFuncall => ParseFault::EmptyFuncall,
            ParserError::InvalidFuncall => ParseFault::InvalidFuncall,
            ParserError::NoMatchingParser => ParseFault::NoMatchingParser,
        }
    }
}

/// Why the arguments of an operation were refused.
#[derive(Clone, Copy, Debug, PartialEq, Eq, Structural)]
pub enum Mismatch {
    /// A user-defined function got fewer arguments than it has parameters.
    NotEnoughArgs,
    /// The operation takes exactly one list argument.
    NotOneList,
    /// The argument evaluated to something other than a list.
    NotAList,
    /// The operation needs at least one argument.
    NoArgs,
    /// The first argument is missing.
    NoCar,
    /// The first argument is not an integer.
    BadStartingValue,
    /// A later argument is not an integer.
    NotAnInteger,
    /// The result does not fit the integer range.
    Overflow,
    /// Division by zero.
    DivisionByZero,
    /// A conditional without its condition.
    NoCondition,
    /// A conditional without its branch.
    NoThenBranch,
    /// A loop without its condition or body.
    NoLoopBody,
    /// A binding form needs exactly a symbol and a value.
    NotABinding,
    /// The first argument of a binding form must evaluate to a symbol.
    NotASymbol,
    /// A definition needs a name and a parameter list.
    DefunArity,
    /// The name of a definition must be a symbol.
    NameNotSymbol,
    /// The parameters of a definition must be a bracketed list.
    ParamsNotList,
    /// A parameter is not a symbol.
    ParamNotSymbol,
    /// A rest parameter is followed by another parameter.
    RestNotLast,
}

impl Mismatch {
    /// The reason in words.
    pub fn reason(&self) -> &'static str {
        match self {
            Mismatch::NotEnoughArgs => "Not enough args passed to the function",
            Mismatch::NotOneList => "This function takes exactly one list argument",
            Mismatch::NotAList => "This function takes a list",
            Mismatch::NoArgs => "This function takes one or more args",
            Mismatch::NoCar => "No car in the list",
            Mismatch::BadStartingValue => "Couldn't convert the starting value",
            Mismatch::NotAnInteger => "Couldn't convert an argument to an integer",
            Mismatch::Overflow => "The result does not fit in an integer",
            Mismatch::DivisionByZero => "Division by zero",
            Mismatch::NoCondition => "This function takes a condition",
            Mismatch::NoThenBranch => "This function takes a 'when' parameter",
            Mismatch::NoLoopBody => "This function takes a condition and loop body",
            Mismatch::NotABinding => "This function takes a symbol and its value",
            Mismatch::NotASymbol => "First argument must be a symbol",
            Mismatch::DefunArity => "This function takes a function name, arg descriptor, and optional body",
            Mismatch::NameNotSymbol => "The first argument must be a symbol",
            Mismatch::ParamsNotList => "The second argument must be a list of symbols",
            Mismatch::ParamNotSymbol => "Args list contains a non-symbol value",
            Mismatch::RestNotLast => "Only the last parameter may be a rest parameter",
        }
    }
}

/// Why an evaluation failed.
#[derive(Debug)]
pub enum EvalError {
    /// The operation (named by its frame) and the reason.
    ArgsMismatch(String, Mismatch),
    VariableIsVoid(String),
    FunctionDefinitionIsVoid(String),
    FailedToParse(ParserError),
    /// A path and what went wrong reading it.
    FailedToReadFile(String, String),
    /// The environment's evaluation budget ran out.
    StepLimitReached,
}

/// The model of an evaluation error.
pub enum ErrorModel {
    ArgsMismatch(Seq<char>, Mismatch),
    VariableIsVoid(Seq<char>),
    FunctionDefinitionIsVoid(Seq<char>),
    FailedToParse(ParseFault),
    FailedToReadFile(Seq<char>, Seq<char>),
    StepLimitReached,
}

impl EvalError {
    pub open spec fn model(&self) -> ErrorModel {
        match self {
            EvalError::ArgsMismatch(s, m) => ErrorModel::ArgsMismatch(s@, *m),
            EvalError::VariableIsVoid(s) => ErrorModel::VariableIsVoid(s@),
            EvalError::FunctionDefinitionIsVoid(s) => ErrorModel::FunctionDefinitionIsVoid(s@),
            EvalError::FailedToParse(p) => ErrorModel::FailedToParse(p.model()),
            EvalError::FailedToReadFile(p, c) => ErrorModel::FailedToReadFile(p@, c@),
            EvalError::StepLimitReached => ErrorModel::StepLimitReached,
        }
    }
}

} // verus!
