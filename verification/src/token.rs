//! The lexical units of the engine and the errors the engine reports.
use vstd::prelude::*;

verus! {

/// A binary arithmetic operator.
#[derive(Clone, Copy, Debug, PartialEq, Eq, Structural)]
pub enum Operator {
    Add,
    Sub,
    Mul,
    Div,
    Pow,
    Mod,
}

/// A named function of one argument.
#[derive(Clone, Copy, Debug, PartialEq, Eq, Structural)]
pub enum Function {
    Sin,
    Cos,
    Tan,
    Sqrt,
    Cbrt,
    Log,
    Log10,
    Abs,
    Floor,
    Ceil,
    Round,
}

/// A named mathematical constant.
#[derive(Clone, Copy, Debug, PartialEq, Eq, Structural)]
pub enum Constant {
    Pi,
    E,
}

/// A parenthesis.
#[derive(Clone, Copy, Debug, PartialEq, Eq, Structural)]
pub enum Bracket {
    Open,
    Close,
}

/// A lexical unit. A number carries the literal text it was scanned from;
/// the text is turned into a machine number only outside the engine.
#[derive(Clone, Debug, PartialEq)]
pub enum Token {
    Number(String),
    Op(Operator),
    Bracket(Bracket),
    Function(Function),
    Constant(Constant),
}

/// The mathematical model of a token: as `Token`, with the literal text of
/// a number seen as a sequence of characters.
pub enum TokenModel {
    Number(Seq<char>),
    Op(Operator),
    Bracket(Bracket),
    Function(Function),
    Constant(Constant),
}

impl View for Token {
    type V = TokenModel;

    open spec fn view(&self) -> TokenModel {
        match self {
            Token::Number(s) => TokenModel::Number(s@),
            Token::Op(o) => TokenModel::Op(*o),
            Token::Bracket(b) => TokenModel::Bracket(*b),
            Token::Function(f) => TokenModel::Function(*f),
            Token::Constant(c) => TokenModel::Constant(*c),
        }
    }
}

impl DeepView for Token {
    type V = TokenModel;

    open spec fn deep_view(&self) -> TokenModel {
        self.view()
    }
}

impl Token {
    /// A copy of the token whose model is the same as this one's.
    pub fn dup(&self) -> (r: Token)
        ensures
            r@ == self@,
    {
        match self {
            Token::Number(s) => Token::Number(s.clone()),
            Token::Op(o) => Token::Op(*o),
            Token::Bracket(b) => Token::Bracket(*b),
            Token::Function(f) => Token::Function(*f),
            Token::Constant(c) => Token::Constant(*c),
        }
    }
}

impl Operator {
    /// The binding strength of the operator: additive operators bind
    /// weakest, multiplicative ones more tightly, the power most tightly.
    pub open spec fn spec_precedence(&self) -> u8 {
        match self {
            Operator::Add | Operator::Sub => 1,
            Operator::Mul | Operator::Div | Operator::Mod => 2,
            Operator::Pow => 3,
        }
    }

    #[verifier::when_used_as_spec(spec_precedence)]
    pub fn precedence(&self) -> (p: u8)
        ensures
            p == self.spec_precedence(),
    {
        match self {
            Operator::Add | Operator::Sub => 1,
            Operator::Mul | Operator::Div | Operator::Mod => 2,
            Operator::Pow => 3,
        }
    }
}

/// An error of the engine.
#[derive(Clone, Debug, PartialEq)]
pub enum Error {
    BadToken(char),
    MismatchedParens,
    InvalidNumber(String),
    DivisionByZero,
    InvalidOperation(String),
    UnknownFunction(String),
}

/// The mathematical model of an error, with carried text seen as a
/// sequence of characters.
pub enum ErrorModel {
    BadToken(char),
    MismatchedParens,
    InvalidNumber(Seq<char>),
    DivisionByZero,
    InvalidOperation(Seq<char>),
    UnknownFunction(Seq<char>),
}

impl View for Error {
    type V = ErrorModel;

    open spec fn view(&self) -> ErrorModel {
        match self {
            Error::BadToken(c) => ErrorModel::BadToken(*c),
            Error::MismatchedParens => ErrorModel::MismatchedParens,
            Error::InvalidNumber(s) => ErrorModel::InvalidNumber(s@),
            Error::DivisionByZero => ErrorModel::DivisionByZero,
            Error::InvalidOperation(s) => ErrorModel::InvalidOperation(s@),
            Error::UnknownFunction(s) => ErrorModel::UnknownFunction(s@),
        }
    }
}

impl DeepView for Error {
    type V = ErrorModel;

    open spec fn deep_view(&self) -> ErrorModel {
        self.view()
    }
}

} // verus!
