//! The state of one editing session: the expression being typed, the last
//! result, and the last error, together with the decisions taken on a
//! button press or keystroke. The surface that renders this state and the
//! arithmetic on machine numbers stay outside; they drive this state
//! through [`CalculatorApp::handle_input`] and
//! [`CalculatorApp::record_evaluation`].
use vstd::prelude::*;

use crate::lexer::{lower_of, spec_tokenize, tokens_wf, Calculator};
use crate::postfix::spec_to_postfix;
use crate::token::{Error, ErrorModel, Token};

verus! {

/// The text a reported error renders as: the kind of the error and the
/// detail it carries.
pub open spec fn error_text(e: ErrorModel) -> Seq<char> {
    match e {
        ErrorModel::BadToken(c) => "BadToken('"@ + seq![c] + "')"@,
        ErrorModel::MismatchedParens => "MismatchedParens"@,
        ErrorModel::InvalidNumber(s) => "InvalidNumber(\""@ + s + "\")"@,
        ErrorModel::DivisionByZero => "DivisionByZero"@,
        ErrorModel::InvalidOperation(s) => "InvalidOperation(\""@ + s + "\")"@,
        ErrorModel::UnknownFunction(s) => "UnknownFunction(\""@ + s + "\")"@,
    }
}

/// Relies on String::push: it appends exactly the one character.
#[verifier::external_body]
fn push_char(s: &mut String, c: char)
    ensures
        final(s)@ == old(s)@ + seq![c],
{
    s.push(c)
}

/// Relies on str's equality: two string slices are equal exactly when
/// their character sequences are.
#[verifier::external_body]
fn str_eq(a: &str, b: &str) -> (r: bool)
    ensures
        r == (a@ == b@),
{
    a == b
}

impl Error {
    /// The error as text: exactly [`error_text`] of it.
    pub fn describe(&self) -> (r: String)
        ensures
            r@ == error_text(self@),
    {
        let mut m = String::new();
        match self {
            Error::BadToken(c) => {
                m.append("BadToken('");
                push_char(&mut m, *c);
                m.append("')");
            },
            Error::MismatchedParens => {
                m.append("MismatchedParens");
            },
            Error::InvalidNumber(s) => {
                m.append("InvalidNumber(\"");
                m.append(s.as_str());
                m.append("\")");
            },
            Error::DivisionByZero => {
                m.append("DivisionByZero");
            },
            Error::InvalidOperation(s) => {
                m.append("InvalidOperation(\"");
                m.append(s.as_str());
                m.append("\")");
            },
            Error::UnknownFunction(s) => {
                m.append("UnknownFunction(\"");
                m.append(s.as_str());
                m.append("\")");
            },
        }
        proof {
            assert(m@ =~= error_text(self@));
        }
        m
    }
}

/// The names that get an opening parenthesis appended for the user as
/// soon as they are entered.
pub open spec fn is_function_name(s: Seq<char>) -> bool {
    ||| s == "sin"@
    ||| s == "cos"@
    ||| s == "tan"@
    ||| s == "sqrt"@
    ||| s == "cbrt"@
    ||| s == "log"@
    ||| s == "log10"@
    ||| s == "abs"@
    ||| s == "floor"@
    ||| s == "ceil"@
    ||| s == "round"@
}

/// The state of one editing session.
pub struct CalculatorApp {
    /// The expression as typed so far.
    pub display: String,
    /// The rendering of the last result.
    pub result: String,
    /// The rendering of the last error, if the last calculation failed.
    pub error: Option<String>,
}

impl Default for CalculatorApp {
    /// An empty session: nothing typed, no result, no error.
    fn default() -> (r: Self)
        ensures
            r.display@ =~= Seq::<char>::empty(),
            r.result@ =~= Seq::<char>::empty(),
            r.error is None,
    {
        CalculatorApp { display: String::new(), result: String::new(), error: None }
    }
}

impl CalculatorApp {
    /// Run the displayed expression through the scanner and the
    /// converter. A scan error is recorded as the error text and nothing
    /// is pending; otherwise the pending postfix tokens are handed back
    /// for their owner to evaluate and [`Self::record_evaluation`].
    pub fn calculate(&mut self) -> (pending: Option<Vec<Token>>)
        ensures
            final(self).display == old(self).display,
            final(self).result == old(self).result,
            ({
                match spec_tokenize(lower_of(old(self).display@)) {
                    Err(e) => {
                        &&& final(self).error matches Some(m) && m@ == error_text(e)
                        &&& pending is None
                    },
                    Ok(ts) => {
                        &&& final(self).error is None
                        &&& pending matches Some(v) && v.deep_view() == spec_to_postfix(ts)
                            && tokens_wf(v.deep_view())
                    },
                }
            }),
    {
        self.error = None;
        match Calculator::parse(self.display.as_str()) {
            Ok(tokens) => Some(Calculator::expression(tokens)),
            Err(e) => {
                self.error = Some(e.describe());
                None
            },
        }
    }

    /// Record what the evaluation of the pending tokens came to: the
    /// rendered number as the result, or the error as the error text.
    pub fn record_evaluation(&mut self, outcome: Result<String, Error>)
        ensures
            final(self).display == old(self).display,
            ({
                match outcome {
                    Ok(s) => {
                        &&& final(self).result == s
                        &&& final(self).error == old(self).error
                    },
                    Err(e) => {
                        &&& final(self).result == old(self).result
                        &&& final(self).error matches Some(m) && m@ == error_text(e@)
                    },
                }
            }),
    {
        match outcome {
            Ok(s) => {
                self.result = s;
            },
            Err(e) => {
                self.error = Some(e.describe());
            },
        }
    }

    /// Take one button press or keystroke. `C` clears the session; `=`
    /// asks for a calculation as [`Self::calculate`]; anything else is
    /// appended to the display, a function name together with an opening
    /// parenthesis.
    pub fn handle_input(&mut self, input: &str) -> (pending: Option<Vec<Token>>)
        ensures
            input@ == "C"@ ==> {
                &&& final(self).display@ =~= Seq::<char>::empty()
                &&& final(self).result@ =~= Seq::<char>::empty()
                &&& final(self).error is None
                &&& pending is None
            },
            input@ == "="@ ==> {
                &&& final(self).display == old(self).display
                &&& final(self).result == old(self).result
                &&& match spec_tokenize(lower_of(old(self).display@)) {
                    Err(e) => {
                        &&& final(self).error matches Some(m) && m@ == error_text(e)
                        &&& pending is None
                    },
                    Ok(ts) => {
                        &&& final(self).error is None
                        &&& pending matches Some(v) && v.deep_view() == spec_to_postfix(ts)
                            && tokens_wf(v.deep_view())
                    },
                }
            },
            input@ != "C"@ && input@ != "="@ ==> {
                &&& final(self).display@ == old(self).display@ + input@ + (if is_function_name(
                    input@,
                ) {
                    "("@
                } else {
                    Seq::<char>::empty()
                })
                &&& final(self).result == old(self).result
                &&& final(self).error == old(self).error
                &&& pending is None
            },
    {
        proof {
            reveal_strlit("C");
            reveal_strlit("=");
            assert("C"@[0] == 'C' && "="@[0] == '=');
            assert("C"@ != "="@);
        }
        if str_eq(input, "C") {
            self.display = String::new();
            self.result = String::new();
            self.error = None;
            None
        } else if str_eq(input, "=") {
            self.calculate()
        } else {
            let ghost d0 = self.display@;
            self.display.append(input);
            let is_name = str_eq(input, "sin") || str_eq(input, "cos") || str_eq(input, "tan")
                || str_eq(input, "sqrt") || str_eq(input, "cbrt") || str_eq(input, "log") || str_eq(
                input,
                "log10",
            ) || str_eq(input, "abs") || str_eq(input, "floor") || str_eq(input, "ceil") || str_eq(
                input,
                "round",
            );
            if is_name {
                self.display.append("(");
                proof {
                    assert(self.display@ =~= d0 + input@ + "("@);
                }
            } else {
                proof {
                    assert(self.display@ =~= d0 + input@ + Seq::<char>::empty());
                }
            }
            None
        }
    }
}

} // verus!
