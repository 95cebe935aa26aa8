//! A verified arithmetic-expression engine: a lexer that turns a source
//! string into tokens, a shunting-yard converter from infix to postfix
//! order, and the decision logic of a postfix evaluator.
pub mod token;
pub mod lexer;
pub mod postfix;
pub mod eval;
pub mod session;
