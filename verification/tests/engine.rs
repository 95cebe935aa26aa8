use calculator::eval::EvalStep;
use calculator::lexer::Calculator;
use calculator::token::{Constant, Error, Function, Operator, Token};

/// Runs the decision steps of the verified evaluator over a postfix
/// stream, doing the machine-number arithmetic the steps ask for.
fn evaluate(tokens: Vec<Token>) -> Result<f64, Error> {
    let mut stack: Vec<f64> = Vec::new();
    for t in &tokens {
        let top = stack.last().copied();
        let top_zero = matches!(top, Some(v) if v == 0.0);
        let top_neg = matches!(top, Some(v) if v < 0.0);
        match Calculator::eval_step(t, stack.len(), top_zero, top_neg)? {
            EvalStep::PushNumber(text) => {
                stack.push(text.parse::<f64>().unwrap_or(f64::NAN));
            }
            EvalStep::PushConstant(c) => stack.push(match c {
                Constant::Pi => std::f64::consts::PI,
                Constant::E => std::f64::consts::E,
            }),
            EvalStep::Apply(op) => {
                let right = stack.pop().unwrap();
                let left = stack.pop().unwrap();
                stack.push(match op {
                    Operator::Add => left + right,
                    Operator::Sub => left - right,
                    Operator::Mul => left * right,
                    Operator::Div => left / right,
                    Operator::Pow => left.powf(right),
                    Operator::Mod => left % right,
                });
            }
            EvalStep::ApplyFunction(f) => {
                let val = stack.pop().unwrap();
                stack.push(match f {
                    Function::Sin => val.sin(),
                    Function::Cos => val.cos(),
                    Function::Tan => val.tan(),
                    Function::Sqrt => val.sqrt(),
                    Function::Cbrt => val.cbrt(),
                    Function::Log => val.ln(),
                    Function::Log10 => val.log10(),
                    Function::Abs => val.abs(),
                    Function::Floor => val.floor(),
                    Function::Ceil => val.ceil(),
                    Function::Round => val.round(),
                });
            }
            EvalStep::Skip => {}
        }
    }
    Calculator::eval_finish(stack.len())?;
    Ok(stack.pop().unwrap())
}

fn run(expr: &str) -> Result<f64, Error> {
    let tokens = Calculator::parse(expr)?;
    evaluate(Calculator::expression(tokens))
}

fn close(a: f64, b: f64) -> bool {
    (a - b).abs() < 1e-9
}

fn num(text: &str) -> Token {
    Token::Number(String::from(text))
}

#[test]
fn lexes_simple_sum() {
    assert_eq!(
        Calculator::parse("2+3"),
        Ok(vec![num("2"), Token::Op(Operator::Add), num("3")])
    );
}

#[test]
fn lexes_number_literal_alone() {
    assert_eq!(Calculator::parse("3.25e-2"), Ok(vec![num("3.25e-2")]));
    assert!(close(run("3.25e-2").unwrap(), 0.0325));
}

#[test]
fn lexes_leading_dot_and_trailing_dot() {
    assert_eq!(Calculator::parse(".5"), Ok(vec![num(".5")]));
    assert_eq!(Calculator::parse("5."), Ok(vec![num("5.")]));
    assert!(close(run(".5+5.").unwrap(), 5.5));
}

#[test]
fn rejects_invalid_numbers() {
    assert_eq!(
        Calculator::parse("1.2.3"),
        Err(Error::InvalidNumber(String::from("1.2.3")))
    );
    assert_eq!(
        Calculator::parse("2e"),
        Err(Error::InvalidNumber(String::from("2e")))
    );
    assert_eq!(
        Calculator::parse("."),
        Err(Error::InvalidNumber(String::from(".")))
    );
}

#[test]
fn case_folds_input() {
    assert_eq!(
        Calculator::parse("PI"),
        Ok(vec![Token::Constant(Constant::Pi)])
    );
    assert!(close(run("SIN(0)").unwrap(), 0.0));
}

#[test]
fn skips_whitespace() {
    assert!(close(run("2 + \n 3").unwrap(), 5.0));
}

#[test]
fn precedence_of_products() {
    assert!(close(run("2+3*4").unwrap(), 14.0));
    assert!(close(run("(2+3)*4").unwrap(), 20.0));
}

#[test]
fn power_associates_left() {
    assert!(close(run("2^3^2").unwrap(), 64.0));
    assert!(close(run("2^10").unwrap(), 1024.0));
}

#[test]
fn unary_minus() {
    assert!(close(run("-5+3").unwrap(), -2.0));
    assert!(close(run("3--2").unwrap(), 5.0));
    assert!(close(run("-(2+3)").unwrap(), -5.0));
}

#[test]
fn division_and_modulo_by_zero() {
    assert_eq!(run("5/0"), Err(Error::DivisionByZero));
    assert_eq!(run("5%0"), Err(Error::DivisionByZero));
    assert!(close(run("7%3").unwrap(), 1.0));
}

#[test]
fn domain_errors() {
    assert!(matches!(run("sqrt(-4)"), Err(Error::InvalidOperation(_))));
    assert!(matches!(run("log(0)"), Err(Error::InvalidOperation(_))));
    assert!(matches!(run("log10(-1)"), Err(Error::InvalidOperation(_))));
}

#[test]
fn mismatched_parens() {
    assert_eq!(run("(2+3"), Err(Error::MismatchedParens));
    assert_eq!(run("2+3)"), Err(Error::MismatchedParens));
}

#[test]
fn function_application() {
    assert!(close(run("sin(0)").unwrap(), 0.0));
    assert!(close(run("abs(-7)").unwrap(), 7.0));
    assert!(close(run("sqrt(16)").unwrap(), 4.0));
    assert!(close(run("cbrt(-8)").unwrap(), -2.0));
    assert!(close(run("floor(2.7)").unwrap(), 2.0));
    assert!(close(run("ceil(2.2)").unwrap(), 3.0));
    assert!(close(run("round(2.5)").unwrap(), 3.0));
}

#[test]
fn log_names_longest_match_first() {
    assert!(close(run("log10(100)").unwrap(), 2.0));
    assert!(close(run("log(e)").unwrap(), 1.0));
}

#[test]
fn constants() {
    assert!(close(run("pi").unwrap(), std::f64::consts::PI));
    assert!(close(run("e").unwrap(), std::f64::consts::E));
}

#[test]
fn constant_e_next_to_letters_and_exponents() {
    assert!(close(run("2e3").unwrap(), 2000.0));
    assert!(close(run("e+1").unwrap(), std::f64::consts::E + 1.0));
}

#[test]
fn unknown_identifiers() {
    assert_eq!(Calculator::parse("xyz"), Err(Error::BadToken('x')));
    assert_eq!(
        Calculator::parse("snork"),
        Err(Error::UnknownFunction(String::from("s")))
    );
    assert_eq!(
        Calculator::parse("lug"),
        Err(Error::UnknownFunction(String::from("l")))
    );
    assert_eq!(Calculator::parse("px"), Err(Error::BadToken('p')));
}

#[test]
fn postfix_reorders_by_precedence() {
    let tokens = Calculator::parse("2+3*4").unwrap();
    assert_eq!(
        Calculator::expression(tokens),
        vec![
            num("2"),
            num("3"),
            num("4"),
            Token::Op(Operator::Mul),
            Token::Op(Operator::Add),
        ]
    );
}

#[test]
fn postfix_emits_function_after_argument() {
    let tokens = Calculator::parse("sin(0)").unwrap();
    assert_eq!(
        Calculator::expression(tokens),
        vec![num("0"), Token::Function(Function::Sin)]
    );
}

#[test]
fn operator_precedence_levels() {
    assert_eq!(Operator::Add.precedence(), 1);
    assert_eq!(Operator::Sub.precedence(), 1);
    assert_eq!(Operator::Mul.precedence(), 2);
    assert_eq!(Operator::Div.precedence(), 2);
    assert_eq!(Operator::Mod.precedence(), 2);
    assert_eq!(Operator::Pow.precedence(), 3);
}

#[test]
fn eval_step_needs_operands() {
    let r = Calculator::eval_step(&Token::Op(Operator::Add), 1, false, false);
    assert!(matches!(r, Err(Error::InvalidOperation(_))));
    let r = Calculator::eval_step(&Token::Function(Function::Sin), 0, false, false);
    assert!(matches!(r, Err(Error::InvalidOperation(_))));
}

#[test]
fn eval_finish_wants_exactly_one_value() {
    assert!(Calculator::eval_finish(1).is_ok());
    assert!(matches!(
        Calculator::eval_finish(0),
        Err(Error::InvalidOperation(_))
    ));
    assert!(matches!(
        Calculator::eval_finish(2),
        Err(Error::InvalidOperation(_))
    ));
    assert!(matches!(run(""), Err(Error::InvalidOperation(_))));
    assert!(matches!(run("2 3"), Err(Error::InvalidOperation(_))));
}

#[test]
fn round_trip_is_total_on_well_formed_input() {
    for expr in [
        "1+2-3*4/5",
        "((1))",
        "sqrt(sqrt(16))",
        "2^-2",
        "1e10/1e-10",
        "pi*e",
        "abs(-0.5)%0.3",
    ] {
        let _ = run(expr);
    }
}
