use calculator::session::CalculatorApp;
use calculator::token::{Error, Operator, Token};

#[test]
fn default_session_is_empty() {
    let app = CalculatorApp::default();
    assert_eq!(app.display, "");
    assert_eq!(app.result, "");
    assert!(app.error.is_none());
}

#[test]
fn typing_appends_and_function_names_open_a_paren() {
    let mut app = CalculatorApp::default();
    assert!(app.handle_input("2").is_none());
    assert!(app.handle_input("+").is_none());
    assert!(app.handle_input("sin").is_none());
    assert_eq!(app.display, "2+sin(");
}

#[test]
fn clear_resets_the_session() {
    let mut app = CalculatorApp::default();
    app.handle_input("7");
    app.record_evaluation(Ok(String::from("7")));
    app.handle_input("C");
    assert_eq!(app.display, "");
    assert_eq!(app.result, "");
    assert!(app.error.is_none());
}

#[test]
fn calculate_records_a_scan_error() {
    let mut app = CalculatorApp::default();
    app.handle_input("(");
    let pending = app.handle_input("=");
    assert!(pending.is_none());
    assert_eq!(app.error, Some(String::from("MismatchedParens")));
}

#[test]
fn calculate_hands_back_the_postfix_stream() {
    let mut app = CalculatorApp::default();
    app.handle_input("2");
    app.handle_input("+");
    app.handle_input("3");
    let pending = app.handle_input("=").unwrap();
    assert_eq!(
        pending,
        vec![
            Token::Number(String::from("2")),
            Token::Number(String::from("3")),
            Token::Op(Operator::Add),
        ]
    );
    assert!(app.error.is_none());
    app.record_evaluation(Ok(String::from("5")));
    assert_eq!(app.result, "5");
    app.record_evaluation(Err(Error::DivisionByZero));
    assert_eq!(app.error, Some(String::from("DivisionByZero")));
    assert_eq!(app.result, "5");
}

#[test]
fn describe_renders_kind_and_detail() {
    assert_eq!(Error::BadToken('x').describe(), "BadToken('x')");
    assert_eq!(Error::MismatchedParens.describe(), "MismatchedParens");
    assert_eq!(
        Error::InvalidNumber(String::from("1.2.3")).describe(),
        "InvalidNumber(\"1.2.3\")"
    );
    assert_eq!(
        Error::UnknownFunction(String::from("s")).describe(),
        "UnknownFunction(\"s\")"
    );
    assert_eq!(Error::DivisionByZero.describe(), "DivisionByZero");
}
