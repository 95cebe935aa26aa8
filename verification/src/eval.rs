//! The decision part of the postfix evaluator.
//!
//! Evaluation keeps a stack of machine numbers. Which action a token asks
//! for — push a literal or a constant, apply an operator to two operands or
//! a function to one — and which error it raises instead depend only on the
//! token, on how many operands are on the stack, and on the sign of the
//! operand on top. Those decisions are made here, verified; the caller that
//! owns the number stack performs the arithmetic the returned action names
//! and reports the top of its stack back through the two flags.
use vstd::prelude::*;

use crate::lexer::Calculator;
use crate::token::{Constant, Error, ErrorModel, Function, Operator, Token, TokenModel};

verus! {

/// What the holder of the operand stack must do for one token.
#[derive(Clone, Debug, PartialEq)]
pub enum EvalStep {
    /// Push the number this literal text reads as.
    PushNumber(String),
    /// Push the value of the constant.
    PushConstant(Constant),
    /// Pop the right operand, then the left one, and push the operator
    /// applied to them.
    Apply(Operator),
    /// Pop one operand and push the function applied to it.
    ApplyFunction(Function),
    /// Do nothing: a leftover bracket carries no operation.
    Skip,
}

/// The mathematical model of an evaluation action.
pub enum EvalStepModel {
    PushNumber(Seq<char>),
    PushConstant(Constant),
    Apply(Operator),
    ApplyFunction(Function),
    Skip,
}

impl View for EvalStep {
    type V = EvalStepModel;

    open spec fn view(&self) -> EvalStepModel {
        match self {
            EvalStep::PushNumber(s) => EvalStepModel::PushNumber(s@),
            EvalStep::PushConstant(c) => EvalStepModel::PushConstant(*c),
            EvalStep::Apply(o) => EvalStepModel::Apply(*o),
            EvalStep::ApplyFunction(f) => EvalStepModel::ApplyFunction(*f),
            EvalStep::Skip => EvalStepModel::Skip,
        }
    }
}

/// The action or error for one token, given `stack_len` operands on the
/// stack, of which the top one is zero (`top_zero`) or negative
/// (`top_neg`). An operator needs two operands and, for division and
/// modulo, a nonzero right operand — the top of the stack. A function
/// needs one operand; a square root refuses a negative one and a
/// logarithm refuses one that is not positive.
pub open spec fn spec_eval_step(
    t: TokenModel,
    stack_len: int,
    top_zero: bool,
    top_neg: bool,
) -> Result<EvalStepModel, ErrorModel> {
    match t {
        TokenModel::Number(s) => Ok(EvalStepModel::PushNumber(s)),
        TokenModel::Constant(c) => Ok(EvalStepModel::PushConstant(c)),
        TokenModel::Op(op) => if stack_len < 2 {
            Err(ErrorModel::InvalidOperation("No hay suficientes operandos"@))
        } else if (op == Operator::Div || op == Operator::Mod) && top_zero {
            Err(ErrorModel::DivisionByZero)
        } else {
            Ok(EvalStepModel::Apply(op))
        },
        TokenModel::Function(f) => if stack_len < 1 {
            Err(ErrorModel::InvalidOperation("No hay suficientes operandos para la función"@))
        } else if f == Function::Sqrt && top_neg {
            Err(
                ErrorModel::InvalidOperation(
                    "No se puede sacar raíz cuadrada de un número negativo"@,
                ),
            )
        } else if (f == Function::Log || f == Function::Log10) && (top_neg || top_zero) {
            Err(
                ErrorModel::InvalidOperation(
                    "No se puede tomar el logaritmo de un número no positivo"@,
                ),
            )
        } else {
            Ok(EvalStepModel::ApplyFunction(f))
        },
        TokenModel::Bracket(_) => Ok(EvalStepModel::Skip),
    }
}

/// Whether a finished evaluation may hand out a result: exactly one
/// operand must be left.
pub open spec fn spec_eval_finish(stack_len: int) -> Result<(), ErrorModel> {
    if stack_len == 1 {
        Ok(())
    } else {
        Err(ErrorModel::InvalidOperation("Expresión inválida"@))
    }
}

impl Calculator {
    /// Decide what one postfix token asks of the operand stack: exactly
    /// [`spec_eval_step`]. The caller reports in `top_zero` and `top_neg`
    /// whether the operand on top of its stack is zero or negative; with
    /// an empty stack the flags are not read.
    pub fn eval_step(token: &Token, stack_len: usize, top_zero: bool, top_neg: bool) -> (r: Result<
        EvalStep,
        Error,
    >)
        ensures
            ({
                let out = spec_eval_step(token@, stack_len as int, top_zero, top_neg);
                match r {
                    Ok(a) => out matches Ok(am) && am == a@,
                    Err(e) => out matches Err(em) && em == e@,
                }
            }),
    {
        match token {
            Token::Number(s) => Ok(EvalStep::PushNumber(s.clone())),
            Token::Constant(c) => Ok(EvalStep::PushConstant(*c)),
            Token::Op(op) => {
                if stack_len < 2 {
                    let mut m = String::new();
                    m.append("No hay suficientes operandos");
                    return Err(Error::InvalidOperation(m));
                }
                if matches!(op, Operator::Div | Operator::Mod) && top_zero {
                    return Err(Error::DivisionByZero);
                }
                Ok(EvalStep::Apply(*op))
            },
            Token::Function(f) => {
                if stack_len < 1 {
                    let mut m = String::new();
                    m.append("No hay suficientes operandos para la función");
                    return Err(Error::InvalidOperation(m));
                }
                if matches!(f, Function::Sqrt) && top_neg {
                    let mut m = String::new();
                    m.append("No se puede sacar raíz cuadrada de un número negativo");
                    return Err(Error::InvalidOperation(m));
                }
                if matches!(f, Function::Log | Function::Log10) && (top_neg || top_zero) {
                    let mut m = String::new();
                    m.append("No se puede tomar el logaritmo de un número no positivo");
                    return Err(Error::InvalidOperation(m));
                }
                Ok(EvalStep::ApplyFunction(*f))
            },
            Token::Bracket(_) => Ok(EvalStep::Skip),
        }
    }

    /// Decide whether a finished evaluation is well formed: exactly
    /// [`spec_eval_finish`] of the number of operands left on the stack.
    pub fn eval_finish(stack_len: usize) -> (r: Result<(), Error>)
        ensures
            ({
                let out = spec_eval_finish(stack_len as int);
                match r {
                    Ok(u) => out is Ok,
                    Err(e) => out matches Err(em) && em == e@,
                }
            }),
    {
        if stack_len == 1 {
            Ok(())
        } else {
            let mut m = String::new();
            m.append("Expresión inválida");
            Err(Error::InvalidOperation(m))
        }
    }
}

} // verus!
