//! The lexer: it scans a source string into the token sequence that the
//! converter and the evaluator consume.
//!
//! The scanner works on the case-folded form of the input. A numeric
//! literal is the maximal run of digits, dots, exponent markers and signs
//! that follow an exponent marker; the run is kept as text in the token and
//! must satisfy [`is_number_literal`], the grammar of a decimal number with
//! an optional fraction and an optional exponent. Parentheses are balanced
//! with a counter. A `-` that opens the input, or follows an operator or an
//! open parenthesis, negates the operand after it: it is scanned as the
//! literal `-1` followed by a multiplication. Named functions and constants
//! are matched letter by letter at the scan position, longer names before
//! shorter ones that share a prefix.
use vstd::prelude::*;

use crate::token::{Bracket, Constant, Error, ErrorModel, Function, Operator, Token, TokenModel};

verus! {

/// An ASCII decimal digit.
pub open spec fn spec_is_digit(c: char) -> bool {
    ('0' as u32) <= (c as u32) && (c as u32) <= ('9' as u32)
}

/// An ASCII letter. The scanner uses this after a bare `e` to tell the
/// constant from the first letter of a longer word; a non-ASCII letter
/// there is never the start of a known name and ends in a bad-token error
/// at the next scan step either way.
pub open spec fn spec_is_letter(c: char) -> bool {
    (('a' as u32) <= (c as u32) && (c as u32) <= ('z' as u32))
    || (('A' as u32) <= (c as u32) && (c as u32) <= ('Z' as u32))
}

/// The end of the numeric run that starts at `j`: digits and dots are
/// consumed, an exponent marker is consumed together with a sign that
/// directly follows it, and any other character ends the run.
pub open spec fn num_end(s: Seq<char>, j: int) -> int
    decreases s.len() - j,
{
    if j < 0 || j >= s.len() {
        j
    } else if spec_is_digit(s[j]) || s[j] == '.' {
        num_end(s, j + 1)
    } else if s[j] == 'e' {
        if j + 1 < s.len() && (s[j + 1] == '+' || s[j + 1] == '-') {
            num_end(s, j + 2)
        } else {
            num_end(s, j + 1)
        }
    } else {
        j
    }
}

pub proof fn lemma_num_end_bounds(s: Seq<char>, j: int)
    requires
        0 <= j <= s.len(),
    ensures
        j <= num_end(s, j) <= s.len(),
    decreases s.len() - j,
{
    if j < s.len() {
        if spec_is_digit(s[j]) || s[j] == '.' {
            lemma_num_end_bounds(s, j + 1);
        } else if s[j] == 'e' {
            if j + 1 < s.len() && (s[j + 1] == '+' || s[j + 1] == '-') {
                lemma_num_end_bounds(s, j + 2);
            } else {
                lemma_num_end_bounds(s, j + 1);
            }
        }
    }
}

/// Every character of `s[lo..hi]` is a digit.
pub open spec fn all_digits(s: Seq<char>, lo: int, hi: int) -> bool {
    forall|k: int| lo <= k < hi ==> spec_is_digit(#[trigger] s[k])
}

/// `s[lo..hi]` is a mantissa: nonempty, made of digits and at most one
/// dot, with at least one digit.
pub open spec fn mantissa_ok(s: Seq<char>, lo: int, hi: int) -> bool {
    &&& lo < hi
    &&& forall|k: int| lo <= k < hi ==> spec_is_digit(#[trigger] s[k]) || s[k] == '.'
    &&& exists|k: int| lo <= k < hi && spec_is_digit(#[trigger] s[k])
    &&& forall|k1: int, k2: int|
        #![trigger s[k1], s[k2]]
        lo <= k1 < k2 < hi ==> !(s[k1] == '.' && s[k2] == '.')
}

/// `s[lo..hi]` is what may follow an exponent marker: an optional sign,
/// then at least one digit and nothing else.
pub open spec fn exp_tail_ok(s: Seq<char>, lo: int, hi: int) -> bool {
    if lo >= hi {
        false
    } else if s[lo] == '+' || s[lo] == '-' {
        lo + 1 < hi && all_digits(s, lo + 1, hi)
    } else {
        all_digits(s, lo, hi)
    }
}

/// The position of the first `e` in `s[lo..hi]`, or `hi` if there is none.
pub open spec fn first_e_from(s: Seq<char>, lo: int, hi: int) -> int
    decreases hi - lo,
{
    if lo >= hi {
        hi
    } else if s[lo] == 'e' {
        lo
    } else {
        first_e_from(s, lo + 1, hi)
    }
}

pub proof fn lemma_first_e_from(s: Seq<char>, lo: int, hi: int)
    requires
        lo <= hi,
    ensures
        lo <= first_e_from(s, lo, hi) <= hi,
        first_e_from(s, lo, hi) < hi ==> s[first_e_from(s, lo, hi)] == 'e',
        forall|k: int| lo <= k < first_e_from(s, lo, hi) ==> #[trigger] s[k] != 'e',
    decreases hi - lo,
{
    if lo < hi && s[lo] != 'e' {
        lemma_first_e_from(s, lo + 1, hi);
    }
}

/// The first position in `[lo, hi)` where `s` holds an `e` is `p`; if no
/// position does, `p` is `hi`.
pub proof fn lemma_first_e_from_is(s: Seq<char>, lo: int, hi: int, p: int)
    requires
        lo <= p <= hi,
        p < hi ==> s[p] == 'e',
        forall|k: int| lo <= k < p ==> #[trigger] s[k] != 'e',
    ensures
        first_e_from(s, lo, hi) == p,
    decreases hi - lo,
{
    if lo < hi && s[lo] != 'e' {
        lemma_first_e_from_is(s, lo + 1, hi, p);
    }
}

/// `s[lo..hi]` is a valid numeric literal: a mantissa, optionally followed
/// by `e`, an optional sign and digits.
pub open spec fn number_run_ok(s: Seq<char>, lo: int, hi: int) -> bool {
    let p = first_e_from(s, lo, hi);
    if p >= hi {
        mantissa_ok(s, lo, hi)
    } else {
        mantissa_ok(s, lo, p) && exp_tail_ok(s, p + 1, hi)
    }
}

/// `t` as a whole is a valid numeric literal.
pub open spec fn is_number_literal(t: Seq<char>) -> bool {
    number_run_ok(t, 0, t.len() as int)
}

proof fn lemma_first_e_shift(s: Seq<char>, lo: int, hi: int, k: int)
    requires
        0 <= lo <= hi <= s.len(),
        lo <= k <= hi,
    ensures
        first_e_from(s.subrange(lo, hi), k - lo, hi - lo) == first_e_from(s, k, hi) - lo,
    decreases hi - k,
{
    let sub = s.subrange(lo, hi);
    if k < hi {
        assert(sub[k - lo] == s[k]);
        if s[k] != 'e' {
            lemma_first_e_shift(s, lo, hi, k + 1);
        }
    }
}

/// A run of `s` is a valid numeric literal exactly when the text of the
/// run, taken by itself, is one.
pub proof fn lemma_number_run_subrange(s: Seq<char>, lo: int, hi: int)
    requires
        0 <= lo <= hi <= s.len(),
    ensures
        number_run_ok(s, lo, hi) == is_number_literal(s.subrange(lo, hi)),
{
    let sub = s.subrange(lo, hi);
    lemma_first_e_shift(s, lo, hi, lo);
    let p = first_e_from(s, lo, hi);
    lemma_first_e_from(s, lo, hi);
    assert(first_e_from(sub, 0, hi - lo) == p - lo);
    assert(forall|m: int| 0 <= m < hi - lo ==> #[trigger] sub[m] == s[lo + m]);
    if p >= hi {
        assert(mantissa_ok(s, lo, hi) ==> mantissa_ok(sub, 0, hi - lo)) by {
            if mantissa_ok(s, lo, hi) {
                let w = choose|k: int| lo <= k < hi && spec_is_digit(s[k]);
                assert(spec_is_digit(sub[w - lo]));
            }
        }
        assert(mantissa_ok(sub, 0, hi - lo) ==> mantissa_ok(s, lo, hi)) by {
            if mantissa_ok(sub, 0, hi - lo) {
                assert forall|k: int| lo <= k < hi implies spec_is_digit(#[trigger] s[k]) || s[k]
                    == '.' by {
                    assert(sub[k - lo] == s[k]);
                }
                assert forall|k1: int, k2: int|
                    #![trigger s[k1], s[k2]]
                    lo <= k1 < k2 < hi implies !(s[k1] == '.' && s[k2] == '.') by {
                    assert(sub[k1 - lo] == s[k1]);
                    assert(sub[k2 - lo] == s[k2]);
                }
                let w = choose|k: int| 0 <= k < hi - lo && spec_is_digit(sub[k]);
                assert(spec_is_digit(s[lo + w]));
            }
        }
    } else {
        assert(mantissa_ok(s, lo, p) ==> mantissa_ok(sub, 0, p - lo)) by {
            if mantissa_ok(s, lo, p) {
                let w = choose|k: int| lo <= k < p && spec_is_digit(s[k]);
                assert(spec_is_digit(sub[w - lo]));
            }
        }
        assert(mantissa_ok(sub, 0, p - lo) ==> mantissa_ok(s, lo, p)) by {
            if mantissa_ok(sub, 0, p - lo) {
                assert forall|k: int| lo <= k < p implies spec_is_digit(#[trigger] s[k]) || s[k]
                    == '.' by {
                    assert(sub[k - lo] == s[k]);
                }
                assert forall|k1: int, k2: int|
                    #![trigger s[k1], s[k2]]
                    lo <= k1 < k2 < p implies !(s[k1] == '.' && s[k2] == '.') by {
                    assert(sub[k1 - lo] == s[k1]);
                    assert(sub[k2 - lo] == s[k2]);
                }
                let w = choose|k: int| 0 <= k < p - lo && spec_is_digit(sub[k]);
                assert(spec_is_digit(s[lo + w]));
            }
        }
        assert(exp_tail_ok(s, p + 1, hi) == exp_tail_ok(sub, p + 1 - lo, hi - lo)) by {
            if p + 1 < hi {
                assert(sub[p + 1 - lo] == s[p + 1]);
                assert(all_digits(s, p + 1, hi) ==> all_digits(sub, p + 1 - lo, hi - lo)) by {
                    if all_digits(s, p + 1, hi) {
                        assert forall|k: int| p + 1 - lo <= k < hi - lo implies spec_is_digit(
                            #[trigger] sub[k],
                        ) by {
                            assert(sub[k] == s[lo + k]);
                        }
                    }
                }
                assert(all_digits(sub, p + 1 - lo, hi - lo) ==> all_digits(s, p + 1, hi)) by {
                    if all_digits(sub, p + 1 - lo, hi - lo) {
                        assert forall|k: int| p + 1 <= k < hi implies spec_is_digit(
                            #[trigger] s[k],
                        ) by {
                            assert(sub[k - lo] == s[k]);
                        }
                    }
                }
                assert(all_digits(s, p + 2, hi) ==> all_digits(sub, p + 2 - lo, hi - lo)) by {
                    if all_digits(s, p + 2, hi) {
                        assert forall|k: int| p + 2 - lo <= k < hi - lo implies spec_is_digit(
                            #[trigger] sub[k],
                        ) by {
                            assert(sub[k] == s[lo + k]);
                        }
                    }
                }
                assert(all_digits(sub, p + 2 - lo, hi - lo) ==> all_digits(s, p + 2, hi)) by {
                    if all_digits(sub, p + 2 - lo, hi - lo) {
                        assert forall|k: int| p + 2 <= k < hi implies spec_is_digit(
                            #[trigger] s[k],
                        ) by {
                            assert(sub[k - lo] == s[k]);
                        }
                    }
                }
            }
        }
    }
}

/// The literal text that stands for a negated operand.
pub open spec fn minus_one_text() -> Seq<char> {
    seq!['-', '1']
}

/// A `-` at this point negates the operand after it rather than
/// subtracting: nothing has been scanned yet, or an operator or an open
/// parenthesis came directly before.
pub open spec fn last_allows_negation(acc: Seq<TokenModel>) -> bool {
    acc.len() == 0 || acc.last() is Op || acc.last() == TokenModel::Bracket(Bracket::Open)
}

/// One pass of the scanner from position `i`, with `depth` parentheses
/// open and `acc` already produced. Mirrors of this function's branches
/// are proved against the executable scanner loop.
pub open spec fn lex_from(s: Seq<char>, i: int, depth: int, acc: Seq<TokenModel>) -> Result<
    Seq<TokenModel>,
    ErrorModel,
>
    decreases s.len() - i,
    via lex_from_decreases
{
    if i < 0 || i >= s.len() {
        if depth > 0 {
            Err(ErrorModel::MismatchedParens)
        } else {
            Ok(acc)
        }
    } else {
        let c = s[i];
        if spec_is_digit(c) || c == '.' {
            let j = num_end(s, i + 1);
            let text = s.subrange(i, j);
            if number_run_ok(s, i, j) {
                lex_from(s, j, depth, acc.push(TokenModel::Number(text)))
            } else {
                Err(ErrorModel::InvalidNumber(text))
            }
        } else if c == '(' {
            lex_from(s, i + 1, depth + 1, acc.push(TokenModel::Bracket(Bracket::Open)))
        } else if c == ')' {
            if depth <= 0 {
                Err(ErrorModel::MismatchedParens)
            } else {
                lex_from(s, i + 1, depth - 1, acc.push(TokenModel::Bracket(Bracket::Close)))
            }
        } else if c == '+' {
            lex_from(s, i + 1, depth, acc.push(TokenModel::Op(Operator::Add)))
        } else if c == '-' {
            if last_allows_negation(acc) {
                lex_from(
                    s,
                    i + 1,
                    depth,
                    acc.push(TokenModel::Number(minus_one_text())).push(
                        TokenModel::Op(Operator::Mul),
                    ),
                )
            } else {
                lex_from(s, i + 1, depth, acc.push(TokenModel::Op(Operator::Sub)))
            }
        } else if c == '*' {
            lex_from(s, i + 1, depth, acc.push(TokenModel::Op(Operator::Mul)))
        } else if c == '/' {
            lex_from(s, i + 1, depth, acc.push(TokenModel::Op(Operator::Div)))
        } else if c == '^' {
            lex_from(s, i + 1, depth, acc.push(TokenModel::Op(Operator::Pow)))
        } else if c == '%' {
            lex_from(s, i + 1, depth, acc.push(TokenModel::Op(Operator::Mod)))
        } else if c == 'p' {
            if i + 2 <= s.len() && s[i + 1] == 'i' {
                lex_from(s, i + 2, depth, acc.push(TokenModel::Constant(Constant::Pi)))
            } else {
                Err(ErrorModel::BadToken('p'))
            }
        } else if c == 'e' {
            if i + 1 < s.len() && spec_is_letter(s[i + 1]) {
                lex_from(s, i + 1, depth, acc)
            } else {
                lex_from(s, i + 1, depth, acc.push(TokenModel::Constant(Constant::E)))
            }
        } else if c == 's' {
            if i + 3 <= s.len() && s[i + 1] == 'i' && s[i + 2] == 'n' {
                lex_from(s, i + 3, depth, acc.push(TokenModel::Function(Function::Sin)))
            } else if i + 4 <= s.len() && s[i + 1] == 'q' && s[i + 2] == 'r' && s[i + 3] == 't' {
                lex_from(s, i + 4, depth, acc.push(TokenModel::Function(Function::Sqrt)))
            } else {
                Err(ErrorModel::UnknownFunction(seq!['s']))
            }
        } else if c == 'c' {
            if i + 3 <= s.len() && s[i + 1] == 'o' && s[i + 2] == 's' {
                lex_from(s, i + 3, depth, acc.push(TokenModel::Function(Function::Cos)))
            } else if i + 4 <= s.len() && s[i + 1] == 'b' && s[i + 2] == 'r' && s[i + 3] == 't' {
                lex_from(s, i + 4, depth, acc.push(TokenModel::Function(Function::Cbrt)))
            } else if i + 4 <= s.len() && s[i + 1] == 'e' && s[i + 2] == 'i' && s[i + 3] == 'l' {
                lex_from(s, i + 4, depth, acc.push(TokenModel::Function(Function::Ceil)))
            } else {
                Err(ErrorModel::UnknownFunction(seq!['c']))
            }
        } else if c == 't' {
            if i + 3 <= s.len() && s[i + 1] == 'a' && s[i + 2] == 'n' {
                lex_from(s, i + 3, depth, acc.push(TokenModel::Function(Function::Tan)))
            } else {
                Err(ErrorModel::UnknownFunction(seq!['t']))
            }
        } else if c == 'l' {
            if i + 5 <= s.len() && s[i + 1] == 'o' && s[i + 2] == 'g' && s[i + 3] == '1' && s[i + 4]
                == '0' {
                lex_from(s, i + 5, depth, acc.push(TokenModel::Function(Function::Log10)))
            } else if i + 3 <= s.len() && s[i + 1] == 'o' && s[i + 2] == 'g' {
                lex_from(s, i + 3, depth, acc.push(TokenModel::Function(Function::Log)))
            } else {
                Err(ErrorModel::UnknownFunction(seq!['l']))
            }
        } else if c == 'a' {
            if i + 3 <= s.len() && s[i + 1] == 'b' && s[i + 2] == 's' {
                lex_from(s, i + 3, depth, acc.push(TokenModel::Function(Function::Abs)))
            } else {
                Err(ErrorModel::UnknownFunction(seq!['a']))
            }
        } else if c == 'f' {
            if i + 5 <= s.len() && s[i + 1] == 'l' && s[i + 2] == 'o' && s[i + 3] == 'o' && s[i + 4]
                == 'r' {
                lex_from(s, i + 5, depth, acc.push(TokenModel::Function(Function::Floor)))
            } else {
                Err(ErrorModel::UnknownFunction(seq!['f']))
            }
        } else if c == 'r' {
            if i + 5 <= s.len() && s[i + 1] == 'o' && s[i + 2] == 'u' && s[i + 3] == 'n' && s[i + 4]
                == 'd' {
                lex_from(s, i + 5, depth, acc.push(TokenModel::Function(Function::Round)))
            } else {
                Err(ErrorModel::UnknownFunction(seq!['r']))
            }
        } else if c == ' ' || c == '\n' {
            lex_from(s, i + 1, depth, acc)
        } else {
            Err(ErrorModel::BadToken(c))
        }
    }
}

#[via_fn]
proof fn lex_from_decreases(s: Seq<char>, i: int, depth: int, acc: Seq<TokenModel>) {
    if 0 <= i < s.len() {
        if spec_is_digit(s[i]) || s[i] == '.' {
            lemma_num_end_bounds(s, i + 1);
        }
    }
}

/// What the scanner makes of the character sequence `s`: the tokens, or
/// the first error.
pub open spec fn spec_tokenize(s: Seq<char>) -> Result<Seq<TokenModel>, ErrorModel> {
    lex_from(s, 0, 0, Seq::<TokenModel>::empty())
}

/// Every number token carries either a valid numeric literal or the `-1`
/// that stands for a negated operand, so the text always reads back as a
/// machine number.
pub open spec fn tokens_wf(ts: Seq<TokenModel>) -> bool {
    forall|k: int|
        0 <= k < ts.len() ==> (#[trigger] ts[k] matches TokenModel::Number(t) ==> is_number_literal(
            t,
        ) || t == minus_one_text())
}

/// The numeric run that starts inside a valid literal is only over at its
/// end: every character of the literal is a digit, a dot, an exponent
/// marker, or a sign directly after an exponent marker, and the scanner
/// consumes them all.
proof fn lemma_num_end_run(s: Seq<char>, i: int)
    requires
        0 <= i <= s.len(),
        forall|k: int|
            0 <= k < s.len() ==> spec_is_digit(#[trigger] s[k]) || s[k] == '.' || s[k] == 'e'
                || s[k] == '+' || s[k] == '-',
        forall|k: int|
            0 <= k < s.len() && ((#[trigger] s[k]) == '+' || s[k] == '-') ==> k > 0 && s[k - 1]
                == 'e',
        i == s.len() || !(s[i] == '+' || s[i] == '-'),
    ensures
        num_end(s, i) == s.len(),
    decreases s.len() - i,
{
    if i < s.len() {
        if spec_is_digit(s[i]) || s[i] == '.' {
            lemma_num_end_run(s, i + 1);
        } else if s[i] == 'e' {
            if i + 1 < s.len() && (s[i + 1] == '+' || s[i + 1] == '-') {
                lemma_num_end_run(s, i + 2);
            } else {
                lemma_num_end_run(s, i + 1);
            }
        }
    }
}

/// A valid numeric literal, scanned on its own, is exactly one number
/// token that carries the literal.
pub proof fn lemma_number_literal_tokenizes_alone(s: Seq<char>)
    requires
        is_number_literal(s),
    ensures
        spec_tokenize(s) == Ok::<Seq<TokenModel>, ErrorModel>(seq![TokenModel::Number(s)]),
{
    let len = s.len() as int;
    let p = first_e_from(s, 0, len);
    lemma_first_e_from(s, 0, len);
    assert forall|k: int|
        0 <= k < len implies spec_is_digit(#[trigger] s[k]) || s[k] == '.' || s[k] == 'e' || s[k]
        == '+' || s[k] == '-' by {
        if k < p {
        } else if k == p {
        } else {
            if s[p + 1] == '+' || s[p + 1] == '-' {
                assert(k == p + 1 || spec_is_digit(s[k]));
            } else {
                assert(spec_is_digit(s[k]));
            }
        }
    }
    assert forall|k: int|
        0 <= k < len && ((#[trigger] s[k]) == '+' || s[k] == '-') implies k > 0 && s[k - 1]
        == 'e' by {
        if k < p {
            assert(spec_is_digit(s[k]) || s[k] == '.');
        } else if k > p {
            if s[p + 1] == '+' || s[p + 1] == '-' {
                if k > p + 1 {
                    assert(spec_is_digit(s[k]));
                }
            } else {
                assert(spec_is_digit(s[k]));
            }
        }
    }
    assert(len > 0);
    assert(spec_is_digit(s[0]) || s[0] == '.');
    lemma_num_end_run(s, 0);
    assert(num_end(s, 1) == len);
    assert(s.subrange(0, len) =~= s);
    let acc = Seq::<TokenModel>::empty();
    assert(lex_from(s, 0, 0, acc) == lex_from(s, len, 0, acc.push(TokenModel::Number(s))));
    assert(acc.push(TokenModel::Number(s)) =~= seq![TokenModel::Number(s)]);
}

/// The case-folded form of a character sequence.
pub uninterp spec fn lower_of(s: Seq<char>) -> Seq<char>;

/// Relies on str::to_lowercase: the lowercase form depends on the
/// characters of the input alone.
#[verifier::external_body]
fn lowercase(s: &str) -> (r: String)
    ensures
        r@ == lower_of(s@),
{
    s.to_lowercase()
}

fn is_digit(c: char) -> (b: bool)
    ensures
        b == spec_is_digit(c),
{
    let u = c as u32;
    ('0' as u32) <= u && u <= ('9' as u32)
}

fn is_letter(c: char) -> (b: bool)
    ensures
        b == spec_is_letter(c),
{
    let u = c as u32;
    (('a' as u32) <= u && u <= ('z' as u32)) || (('A' as u32) <= u && u <= ('Z' as u32))
}

/// Whether `cs[lo..hi]` is a valid numeric literal.
#[verifier::loop_isolation(false)]
fn check_number(cs: &Vec<char>, lo: usize, hi: usize) -> (b: bool)
    requires
        lo <= hi <= cs.len(),
    ensures
        b == number_run_ok(cs@, lo as int, hi as int),
{
    let s = cs;
    let mut p: usize = lo;
    while p < hi && s[p] != 'e'
        invariant
            lo <= p <= hi,
            forall|k: int| lo <= k < p ==> s@[k] != 'e',
        decreases hi - p,
    {
        p += 1;
    }
    proof {
        lemma_first_e_from_is(s@, lo as int, hi as int, p as int);
    }
    if p == lo {
        return false;
    }
    let mut saw_digit = false;
    let mut saw_dot = false;
    let mut k = lo;
    while k < p
        invariant
            lo <= k <= p,
            forall|m: int| lo <= m < k ==> spec_is_digit(#[trigger] s@[m]) || s@[m] == '.',
            saw_digit == exists|m: int| lo <= m < k && spec_is_digit(#[trigger] s@[m]),
            saw_dot == exists|m: int| lo <= m < k && #[trigger] s@[m] == '.',
            forall|m1: int, m2: int|
                #![trigger s@[m1], s@[m2]]
                lo <= m1 < m2 < k ==> !(s@[m1] == '.' && s@[m2] == '.'),
        decreases p - k,
    {
        let c = s[k];
        if is_digit(c) {
            saw_digit = true;
        } else if c == '.' {
            if saw_dot {
                proof {
                    let w = choose|m: int| lo <= m < k && #[trigger] s@[m] == '.';
                    assert(s@[w] == '.' && s@[k as int] == '.');
                    assert(!mantissa_ok(s@, lo as int, p as int));
                }
                return false;
            }
            saw_dot = true;
        } else {
            return false;
        }
        k += 1;
    }
    if !saw_digit {
        return false;
    }
    if p == hi {
        return true;
    }
    let mut q = p + 1;
    if q == hi {
        return false;
    }
    let c0 = s[q];
    if c0 == '+' || c0 == '-' {
        q += 1;
        if q == hi {
            return false;
        }
    }
    let ghost q0 = q as int;
    while q < hi
        invariant
            q0 <= q <= hi,
            forall|m: int| q0 <= m < q ==> spec_is_digit(#[trigger] s@[m]),
        decreases hi - q,
    {
        if !is_digit(s[q]) {
            return false;
        }
        q += 1;
    }
    true
}

/// The engine. Scanning, conversion to postfix order and the decision
/// part of evaluation are its associated functions.
pub struct Calculator {}

impl Calculator {
    /// Scan `expr`, case-folded, into tokens: exactly the tokens that
    /// [`spec_tokenize`] gives on the folded character sequence, or its
    /// error.
    #[verifier::loop_isolation(false)]
    #[verifier::rlimit(60)]
    pub fn parse(expr: &str) -> (r: Result<Vec<Token>, Error>)
        ensures
            ({
                let out = spec_tokenize(lower_of(expr@));
                match r {
                    Ok(v) => out matches Ok(ts) && ts == v.deep_view() && tokens_wf(ts),
                    Err(e) => out matches Err(em) && em == e@,
                }
            }),
    {
        let low = lowercase(expr);
        let ghost s = low@;
        let n = low.as_str().unicode_len();
        let mut cs: Vec<char> = Vec::new();
        let mut k: usize = 0;
        while k < n
            invariant
                k <= n,
                cs@.len() == k as int,
                forall|m: int| 0 <= m < k ==> cs@[m] == s[m],
            decreases n - k,
        {
            let ch = low.as_str().get_char(k);
            cs.push(ch);
            k += 1;
        }
        proof {
            assert(cs@ =~= s);
        }

        let mut tokens: Vec<Token> = Vec::new();
        proof {
            assert(tokens.deep_view() =~= Seq::<TokenModel>::empty());
        }
        let mut i: usize = 0;
        let mut depth: usize = 0;
        while i < n
            invariant
                i <= n,
                depth <= i,
                lex_from(s, i as int, depth as int, tokens.deep_view()) == spec_tokenize(s),
                tokens_wf(tokens.deep_view()),
            decreases n - i,
        {
            let ghost old_dv = tokens.deep_view();
            let ghost old_i = i as int;
            let ghost old_depth = depth as int;
            let c = cs[i];
            if is_digit(c) || c == '.' {
                let ghost end = num_end(s, i as int + 1);
                proof {
                    lemma_num_end_bounds(s, i as int + 1);
                }
                let mut j: usize = i + 1;
                let mut run = true;
                while run && j < n
                    invariant
                        i + 1 <= j <= n,
                        num_end(s, j as int) == end,
                        !run ==> j as int == end,
                    decreases n - j, (if run { 1int } else { 0int }),
                {
                    let c2 = cs[j];
                    if is_digit(c2) || c2 == '.' {
                        j += 1;
                    } else if c2 == 'e' {
                        if n - j > 1 && (cs[j + 1] == '+' || cs[j + 1] == '-') {
                            j += 2;
                        } else {
                            j += 1;
                        }
                    } else {
                        run = false;
                    }
                }
                proof {
                    assert(j as int == end);
                }
                let text = low.as_str().substring_char(i, j).to_owned();
                if check_number(&cs, i, j) {
                    tokens.push(Token::Number(text));
                    proof {
                        assert(tokens.deep_view() =~= old_dv.push(
                            TokenModel::Number(s.subrange(old_i, j as int)),
                        ));
                        lemma_number_run_subrange(s, old_i, j as int);
                    }
                    i = j;
                } else {
                    return Err(Error::InvalidNumber(text));
                }
            } else if c == '(' {
                tokens.push(Token::Bracket(Bracket::Open));
                proof {
                    assert(tokens.deep_view() =~= old_dv.push(
                        TokenModel::Bracket(Bracket::Open),
                    ));
                }
                depth = depth + 1;
                i = i + 1;
            } else if c == ')' {
                if depth == 0 {
                    return Err(Error::MismatchedParens);
                }
                tokens.push(Token::Bracket(Bracket::Close));
                proof {
                    assert(tokens.deep_view() =~= old_dv.push(
                        TokenModel::Bracket(Bracket::Close),
                    ));
                }
                depth = depth - 1;
                i = i + 1;
            } else if c == '+' {
                tokens.push(Token::Op(Operator::Add));
                proof {
                    assert(tokens.deep_view() =~= old_dv.push(TokenModel::Op(Operator::Add)));
                }
                i = i + 1;
            } else if c == '-' {
                let neg = if tokens.len() == 0 {
                    true
                } else {
                    match &tokens[tokens.len() - 1] {
                        Token::Op(_) => true,
                        Token::Bracket(b) => matches!(b, Bracket::Open),
                        _ => false,
                    }
                };
                proof {
                    assert(neg == last_allows_negation(old_dv));
                }
                if neg {
                    let mut lit = String::new();
                    lit.append("-1");
                    tokens.push(Token::Number(lit));
                    tokens.push(Token::Op(Operator::Mul));
                    proof {
                        reveal_strlit("-1");
                        assert("-1"@ =~= minus_one_text());
                        assert(tokens.deep_view() =~= old_dv.push(
                            TokenModel::Number(minus_one_text()),
                        ).push(TokenModel::Op(Operator::Mul)));
                    }
                } else {
                    tokens.push(Token::Op(Operator::Sub));
                    proof {
                        assert(tokens.deep_view() =~= old_dv.push(TokenModel::Op(Operator::Sub)));
                    }
                }
                i = i + 1;
            } else if c == '*' {
                tokens.push(Token::Op(Operator::Mul));
                proof {
                    assert(tokens.deep_view() =~= old_dv.push(TokenModel::Op(Operator::Mul)));
                }
                i = i + 1;
            } else if c == '/' {
                tokens.push(Token::Op(Operator::Div));
                proof {
                    assert(tokens.deep_view() =~= old_dv.push(TokenModel::Op(Operator::Div)));
                }
                i = i + 1;
            } else if c == '^' {
                tokens.push(Token::Op(Operator::Pow));
                proof {
                    assert(tokens.deep_view() =~= old_dv.push(TokenModel::Op(Operator::Pow)));
                }
                i = i + 1;
            } else if c == '%' {
                tokens.push(Token::Op(Operator::Mod));
                proof {
                    assert(tokens.deep_view() =~= old_dv.push(TokenModel::Op(Operator::Mod)));
                }
                i = i + 1;
            } else if c == 'p' {
                if n - i > 1 && cs[i + 1] == 'i' {
                    tokens.push(Token::Constant(Constant::Pi));
                    proof {
                        assert(tokens.deep_view() =~= old_dv.push(
                            TokenModel::Constant(Constant::Pi),
                        ));
                    }
                    i = i + 2;
                } else {
                    return Err(Error::BadToken('p'));
                }
            } else if c == 'e' {
                if n - i > 1 && is_letter(cs[i + 1]) {
                    i = i + 1;
                } else {
                    tokens.push(Token::Constant(Constant::E));
                    proof {
                        assert(tokens.deep_view() =~= old_dv.push(
                            TokenModel::Constant(Constant::E),
                        ));
                    }
                    i = i + 1;
                }
            } else if c == 's' {
                if n - i > 2 && cs[i + 1] == 'i' && cs[i + 2] == 'n' {
                    tokens.push(Token::Function(Function::Sin));
                    proof {
                        assert(tokens.deep_view() =~= old_dv.push(
                            TokenModel::Function(Function::Sin),
                        ));
                    }
                    i = i + 3;
                } else if n - i > 3 && cs[i + 1] == 'q' && cs[i + 2] == 'r' && cs[i + 3] == 't' {
                    tokens.push(Token::Function(Function::Sqrt));
                    proof {
                        assert(tokens.deep_view() =~= old_dv.push(
                            TokenModel::Function(Function::Sqrt),
                        ));
                    }
                    i = i + 4;
                } else {
                    let mut name = String::new();
                    name.append("s");
                    proof {
                        reveal_strlit("s");
                        assert(name@ =~= seq!['s']);
                    }
                    return Err(Error::UnknownFunction(name));
                }
            } else if c == 'c' {
                if n - i > 2 && cs[i + 1] == 'o' && cs[i + 2] == 's' {
                    tokens.push(Token::Function(Function::Cos));
                    proof {
                        assert(tokens.deep_view() =~= old_dv.push(
                            TokenModel::Function(Function::Cos),
                        ));
                    }
                    i = i + 3;
                } else if n - i > 3 && cs[i + 1] == 'b' && cs[i + 2] == 'r' && cs[i + 3] == 't' {
                    tokens.push(Token::Function(Function::Cbrt));
                    proof {
                        assert(tokens.deep_view() =~= old_dv.push(
                            TokenModel::Function(Function::Cbrt),
                        ));
                    }
                    i = i + 4;
                } else if n - i > 3 && cs[i + 1] == 'e' && cs[i + 2] == 'i' && cs[i + 3] == 'l' {
                    tokens.push(Token::Function(Function::Ceil));
                    proof {
                        assert(tokens.deep_view() =~= old_dv.push(
                            TokenModel::Function(Function::Ceil),
                        ));
                    }
                    i = i + 4;
                } else {
                    let mut name = String::new();
                    name.append("c");
                    proof {
                        reveal_strlit("c");
                        assert(name@ =~= seq!['c']);
                    }
                    return Err(Error::UnknownFunction(name));
                }
            } else if c == 't' {
                if n - i > 2 && cs[i + 1] == 'a' && cs[i + 2] == 'n' {
                    tokens.push(Token::Function(Function::Tan));
                    proof {
                        assert(tokens.deep_view() =~= old_dv.push(
                            TokenModel::Function(Function::Tan),
                        ));
                    }
                    i = i + 3;
                } else {
                    let mut name = String::new();
                    name.append("t");
                    proof {
                        reveal_strlit("t");
                        assert(name@ =~= seq!['t']);
                    }
                    return Err(Error::UnknownFunction(name));
                }
            } else if c == 'l' {
                if n - i > 4 && cs[i + 1] == 'o' && cs[i + 2] == 'g' && cs[i + 3] == '1' && cs[i
                    + 4] == '0' {
                    tokens.push(Token::Function(Function::Log10));
                    proof {
                        assert(tokens.deep_view() =~= old_dv.push(
                            TokenModel::Function(Function::Log10),
                        ));
                    }
                    i = i + 5;
                } else if n - i > 2 && cs[i + 1] == 'o' && cs[i + 2] == 'g' {
                    tokens.push(Token::Function(Function::Log));
                    proof {
                        assert(tokens.deep_view() =~= old_dv.push(
                            TokenModel::Function(Function::Log),
                        ));
                    }
                    i = i + 3;
                } else {
                    let mut name = String::new();
                    name.append("l");
                    proof {
                        reveal_strlit("l");
                        assert(name@ =~= seq!['l']);
                    }
                    return Err(Error::UnknownFunction(name));
                }
            } else if c == 'a' {
                if n - i > 2 && cs[i + 1] == 'b' && cs[i + 2] == 's' {
                    tokens.push(Token::Function(Function::Abs));
                    proof {
                        assert(tokens.deep_view() =~= old_dv.push(
                            TokenModel::Function(Function::Abs),
                        ));
                    }
                    i = i + 3;
                } else {
                    let mut name = String::new();
                    name.append("a");
                    proof {
                        reveal_strlit("a");
                        assert(name@ =~= seq!['a']);
                    }
                    return Err(Error::UnknownFunction(name));
                }
            } else if c == 'f' {
                if n - i > 4 && cs[i + 1] == 'l' && cs[i + 2] == 'o' && cs[i + 3] == 'o' && cs[i
                    + 4] == 'r' {
                    tokens.push(Token::Function(Function::Floor));
                    proof {
                        assert(tokens.deep_view() =~= old_dv.push(
                            TokenModel::Function(Function::Floor),
                        ));
                    }
                    i = i + 5;
                } else {
                    let mut name = String::new();
                    name.append("f");
                    proof {
                        reveal_strlit("f");
                        assert(name@ =~= seq!['f']);
                    }
                    return Err(Error::UnknownFunction(name));
                }
            } else if c == 'r' {
                if n - i > 4 && cs[i + 1] == 'o' && cs[i + 2] == 'u' && cs[i + 3] == 'n' && cs[i
                    + 4] == 'd' {
                    tokens.push(Token::Function(Function::Round));
                    proof {
                        assert(tokens.deep_view() =~= old_dv.push(
                            TokenModel::Function(Function::Round),
                        ));
                    }
                    i = i + 5;
                } else {
                    let mut name = String::new();
                    name.append("r");
                    proof {
                        reveal_strlit("r");
                        assert(name@ =~= seq!['r']);
                    }
                    return Err(Error::UnknownFunction(name));
                }
            } else if c == ' ' || c == '\n' {
                i = i + 1;
            } else {
                return Err(Error::BadToken(c));
            }
        }
        if depth > 0 {
            return Err(Error::MismatchedParens);
        }
        Ok(tokens)
    }
}

} // verus!
