//! The converter: it reorders an infix token sequence into postfix
//! (reverse Polish) order with an operator stack.
//!
//! Numbers and constants go straight to the output queue. An incoming
//! operator first moves every operator atop the stack whose precedence is
//! greater than or equal to its own to the queue — equal precedence moves
//! too, so every operator, the power included, associates to the left. A
//! function or an open parenthesis is pushed as it is; a close parenthesis
//! moves stack entries to the queue until the matching open parenthesis,
//! drops the pair, and then moves a function left atop the stack, so that
//! the function follows its argument in the output. Leftover open
//! parentheses are dropped silently: balance was already settled by the
//! scanner.
use vstd::prelude::*;

use crate::lexer::{tokens_wf, Calculator};
use crate::token::{Bracket, Operator, Token, TokenModel};

verus! {

/// What the stack adds to the queue when the input is over: everything
/// from the top down, open parentheses left out.
pub open spec fn drain(stack: Seq<TokenModel>) -> Seq<TokenModel>
    decreases stack.len(),
{
    if stack.len() == 0 {
        Seq::<TokenModel>::empty()
    } else {
        let t = stack.last();
        let rest = stack.drop_last();
        if t == TokenModel::Bracket(Bracket::Open) {
            drain(rest)
        } else {
            seq![t] + drain(rest)
        }
    }
}

/// The stack and queue after an incoming operator `op` has moved every
/// operator atop the stack of greater or equal precedence to the queue.
pub open spec fn pop_ge(op: Operator, stack: Seq<TokenModel>, queue: Seq<TokenModel>) -> (
    Seq<TokenModel>,
    Seq<TokenModel>,
)
    decreases stack.len(),
{
    if stack.len() == 0 {
        (stack, queue)
    } else {
        match stack.last() {
            TokenModel::Op(top) => if op.spec_precedence() <= top.spec_precedence() {
                pop_ge(op, stack.drop_last(), queue.push(stack.last()))
            } else {
                (stack, queue)
            },
            _ => (stack, queue),
        }
    }
}

/// The stack and queue after a close parenthesis: entries move to the
/// queue until an open parenthesis, which is dropped; a function then atop
/// the stack moves to the queue right after.
pub open spec fn close_paren(stack: Seq<TokenModel>, queue: Seq<TokenModel>) -> (
    Seq<TokenModel>,
    Seq<TokenModel>,
)
    decreases stack.len(),
{
    if stack.len() == 0 {
        (stack, queue)
    } else {
        let t = stack.last();
        let rest = stack.drop_last();
        if t == TokenModel::Bracket(Bracket::Open) {
            if rest.len() > 0 && rest.last() is Function {
                (rest.drop_last(), queue.push(rest.last()))
            } else {
                (rest, queue)
            }
        } else {
            close_paren(rest, queue.push(t))
        }
    }
}

/// One pass of the converter over the remaining input, with the given
/// stack and queue.
pub open spec fn shunt(rest: Seq<TokenModel>, stack: Seq<TokenModel>, queue: Seq<TokenModel>) -> Seq<
    TokenModel,
>
    decreases rest.len(),
{
    if rest.len() == 0 {
        queue + drain(stack)
    } else {
        let t = rest[0];
        let rest2 = rest.drop_first();
        match t {
            TokenModel::Number(_) => shunt(rest2, stack, queue.push(t)),
            TokenModel::Constant(_) => shunt(rest2, stack, queue.push(t)),
            TokenModel::Op(op) => {
                let sq = pop_ge(op, stack, queue);
                shunt(rest2, sq.0.push(t), sq.1)
            },
            TokenModel::Function(_) => shunt(rest2, stack.push(t), queue),
            TokenModel::Bracket(b) => if b == Bracket::Open {
                shunt(rest2, stack.push(t), queue)
            } else {
                let sq = close_paren(stack, queue);
                shunt(rest2, sq.0, sq.1)
            },
        }
    }
}

/// The postfix order of `ts`.
pub open spec fn spec_to_postfix(ts: Seq<TokenModel>) -> Seq<TokenModel> {
    shunt(ts, Seq::<TokenModel>::empty(), Seq::<TokenModel>::empty())
}

/// No parenthesis in the sequence.
pub open spec fn bracket_free(ts: Seq<TokenModel>) -> bool {
    forall|k: int| 0 <= k < ts.len() ==> !((#[trigger] ts[k]) is Bracket)
}

/// The converter's stack only ever holds operators, functions and open
/// parentheses.
pub open spec fn stack_elems_ok(st: Seq<TokenModel>) -> bool {
    forall|k: int|
        0 <= k < st.len() ==> (#[trigger] st[k]) is Op || st[k] is Function || st[k]
            == TokenModel::Bracket(Bracket::Open)
}

proof fn lemma_drain_bracket_free(st: Seq<TokenModel>)
    requires
        stack_elems_ok(st),
    ensures
        bracket_free(drain(st)),
    decreases st.len(),
{
    if st.len() > 0 {
        assert(stack_elems_ok(st.drop_last()));
        lemma_drain_bracket_free(st.drop_last());
    }
}

proof fn lemma_pop_ge_ok(op: Operator, st: Seq<TokenModel>, q: Seq<TokenModel>)
    requires
        stack_elems_ok(st),
        bracket_free(q),
    ensures
        stack_elems_ok(pop_ge(op, st, q).0),
        bracket_free(pop_ge(op, st, q).1),
    decreases st.len(),
{
    if st.len() > 0 && st.last() is Op && op.spec_precedence()
        <= st.last()->Op_0.spec_precedence() {
        assert(stack_elems_ok(st.drop_last()));
        assert(bracket_free(q.push(st.last())));
        lemma_pop_ge_ok(op, st.drop_last(), q.push(st.last()));
    }
}

proof fn lemma_close_paren_ok(st: Seq<TokenModel>, q: Seq<TokenModel>)
    requires
        stack_elems_ok(st),
        bracket_free(q),
    ensures
        stack_elems_ok(close_paren(st, q).0),
        bracket_free(close_paren(st, q).1),
    decreases st.len(),
{
    if st.len() > 0 {
        let rest = st.drop_last();
        assert(stack_elems_ok(rest));
        if st.last() == TokenModel::Bracket(Bracket::Open) {
            if rest.len() > 0 && rest.last() is Function {
                assert(stack_elems_ok(rest.drop_last()));
                assert(bracket_free(q.push(rest.last())));
            }
        } else {
            assert(bracket_free(q.push(st.last())));
            lemma_close_paren_ok(rest, q.push(st.last()));
        }
    }
}

proof fn lemma_shunt_bracket_free(rest: Seq<TokenModel>, st: Seq<TokenModel>, q: Seq<TokenModel>)
    requires
        stack_elems_ok(st),
        bracket_free(q),
    ensures
        bracket_free(shunt(rest, st, q)),
    decreases rest.len(),
{
    if rest.len() == 0 {
        lemma_drain_bracket_free(st);
        assert(bracket_free(q + drain(st)));
    } else {
        let t = rest[0];
        let rest2 = rest.drop_first();
        match t {
            TokenModel::Number(_) | TokenModel::Constant(_) => {
                assert(bracket_free(q.push(t)));
                lemma_shunt_bracket_free(rest2, st, q.push(t));
            },
            TokenModel::Op(op) => {
                lemma_pop_ge_ok(op, st, q);
                let sq = pop_ge(op, st, q);
                assert(stack_elems_ok(sq.0.push(t)));
                lemma_shunt_bracket_free(rest2, sq.0.push(t), sq.1);
            },
            TokenModel::Function(_) => {
                assert(stack_elems_ok(st.push(t)));
                lemma_shunt_bracket_free(rest2, st.push(t), q);
            },
            TokenModel::Bracket(b) => {
                if b == Bracket::Open {
                    assert(stack_elems_ok(st.push(t)));
                    lemma_shunt_bracket_free(rest2, st.push(t), q);
                } else {
                    lemma_close_paren_ok(st, q);
                    let sq = close_paren(st, q);
                    lemma_shunt_bracket_free(rest2, sq.0, sq.1);
                }
            },
        }
    }
}

/// The converter's output never holds a parenthesis, whatever the input:
/// every parenthesis is either matched away or dropped. So every token of
/// a converted stream asks the evaluator for a defined action or error,
/// and its defensive arm for leftover brackets never fires.
pub proof fn lemma_postfix_bracket_free(ts: Seq<TokenModel>)
    ensures
        bracket_free(spec_to_postfix(ts)),
{
    assert(stack_elems_ok(Seq::<TokenModel>::empty()));
    assert(bracket_free(Seq::<TokenModel>::empty()));
    lemma_shunt_bracket_free(ts, Seq::<TokenModel>::empty(), Seq::<TokenModel>::empty());
}

/// Operators resolve to the left: in `a op1 b op2 c`, whenever `op2` does
/// not bind more tightly than `op1`, the first operator is applied to `a`
/// and `b` before the second sees `c`. With `op1 == op2` this is the
/// left-associative tie-break, which holds for the power operator too.
pub proof fn lemma_left_associative(
    a: Seq<char>,
    b: Seq<char>,
    c: Seq<char>,
    op1: Operator,
    op2: Operator,
)
    requires
        op2.spec_precedence() <= op1.spec_precedence(),
    ensures
        spec_to_postfix(
            seq![
                TokenModel::Number(a),
                TokenModel::Op(op1),
                TokenModel::Number(b),
                TokenModel::Op(op2),
                TokenModel::Number(c),
            ],
        ) == seq![
            TokenModel::Number(a),
            TokenModel::Number(b),
            TokenModel::Op(op1),
            TokenModel::Number(c),
            TokenModel::Op(op2),
        ],
{
    let na = TokenModel::Number(a);
    let nb = TokenModel::Number(b);
    let nc = TokenModel::Number(c);
    let o1 = TokenModel::Op(op1);
    let o2 = TokenModel::Op(op2);
    let ts = seq![na, o1, nb, o2, nc];
    let e = Seq::<TokenModel>::empty();
    assert(ts.drop_first() =~= seq![o1, nb, o2, nc]);
    assert(seq![o1, nb, o2, nc].drop_first() =~= seq![nb, o2, nc]);
    assert(seq![nb, o2, nc].drop_first() =~= seq![o2, nc]);
    assert(seq![o2, nc].drop_first() =~= seq![nc]);
    assert(seq![nc].drop_first() =~= e);
    assert(shunt(ts, e, e) == shunt(seq![o1, nb, o2, nc], e, e.push(na)));
    assert(pop_ge(op1, e, e.push(na)) == (e, e.push(na)));
    assert(shunt(seq![o1, nb, o2, nc], e, e.push(na)) == shunt(
        seq![nb, o2, nc],
        e.push(o1),
        e.push(na),
    ));
    assert(shunt(seq![nb, o2, nc], e.push(o1), e.push(na)) == shunt(
        seq![o2, nc],
        e.push(o1),
        e.push(na).push(nb),
    ));
    assert(e.push(o1).drop_last() =~= e);
    assert(e.push(o1).last() == o1);
    assert(pop_ge(op2, e.push(o1), e.push(na).push(nb)) == pop_ge(
        op2,
        e,
        e.push(na).push(nb).push(o1),
    ));
    assert(pop_ge(op2, e, e.push(na).push(nb).push(o1)) == (e, e.push(na).push(nb).push(o1)));
    assert(shunt(seq![o2, nc], e.push(o1), e.push(na).push(nb)) == shunt(
        seq![nc],
        e.push(o2),
        e.push(na).push(nb).push(o1),
    ));
    assert(shunt(seq![nc], e.push(o2), e.push(na).push(nb).push(o1)) == shunt(
        e,
        e.push(o2),
        e.push(na).push(nb).push(o1).push(nc),
    ));
    assert(e.push(o2).drop_last() =~= e);
    assert(drain(e.push(o2)) == seq![o2] + drain(e));
    assert(drain(e) == e);
    assert(shunt(e, e.push(o2), e.push(na).push(nb).push(o1).push(nc)) == e.push(na).push(
        nb,
    ).push(o1).push(nc) + (seq![o2] + e));
    assert(e.push(na).push(nb).push(o1).push(nc) + (seq![o2] + e) =~= seq![na, nb, o1, nc, o2]);
}

/// Precedence binds: in `a op1 b op2 c`, when `op2` binds more tightly
/// than `op1`, the second operator is applied to `b` and `c` first and
/// the first one last.
pub proof fn lemma_precedence_binds(
    a: Seq<char>,
    b: Seq<char>,
    c: Seq<char>,
    op1: Operator,
    op2: Operator,
)
    requires
        op1.spec_precedence() < op2.spec_precedence(),
    ensures
        spec_to_postfix(
            seq![
                TokenModel::Number(a),
                TokenModel::Op(op1),
                TokenModel::Number(b),
                TokenModel::Op(op2),
                TokenModel::Number(c),
            ],
        ) == seq![
            TokenModel::Number(a),
            TokenModel::Number(b),
            TokenModel::Number(c),
            TokenModel::Op(op2),
            TokenModel::Op(op1),
        ],
{
    let na = TokenModel::Number(a);
    let nb = TokenModel::Number(b);
    let nc = TokenModel::Number(c);
    let o1 = TokenModel::Op(op1);
    let o2 = TokenModel::Op(op2);
    let ts = seq![na, o1, nb, o2, nc];
    let e = Seq::<TokenModel>::empty();
    assert(ts.drop_first() =~= seq![o1, nb, o2, nc]);
    assert(seq![o1, nb, o2, nc].drop_first() =~= seq![nb, o2, nc]);
    assert(seq![nb, o2, nc].drop_first() =~= seq![o2, nc]);
    assert(seq![o2, nc].drop_first() =~= seq![nc]);
    assert(seq![nc].drop_first() =~= e);
    assert(shunt(ts, e, e) == shunt(seq![o1, nb, o2, nc], e, e.push(na)));
    assert(pop_ge(op1, e, e.push(na)) == (e, e.push(na)));
    assert(shunt(seq![o1, nb, o2, nc], e, e.push(na)) == shunt(
        seq![nb, o2, nc],
        e.push(o1),
        e.push(na),
    ));
    assert(shunt(seq![nb, o2, nc], e.push(o1), e.push(na)) == shunt(
        seq![o2, nc],
        e.push(o1),
        e.push(na).push(nb),
    ));
    assert(e.push(o1).last() == o1);
    assert(pop_ge(op2, e.push(o1), e.push(na).push(nb)) == (e.push(o1), e.push(na).push(nb)));
    assert(shunt(seq![o2, nc], e.push(o1), e.push(na).push(nb)) == shunt(
        seq![nc],
        e.push(o1).push(o2),
        e.push(na).push(nb),
    ));
    assert(shunt(seq![nc], e.push(o1).push(o2), e.push(na).push(nb)) == shunt(
        e,
        e.push(o1).push(o2),
        e.push(na).push(nb).push(nc),
    ));
    assert(e.push(o1).push(o2).drop_last() =~= e.push(o1));
    assert(e.push(o1).drop_last() =~= e);
    assert(drain(e.push(o1).push(o2)) == seq![o2] + drain(e.push(o1)));
    assert(drain(e.push(o1)) == seq![o1] + drain(e));
    assert(drain(e) == e);
    assert(shunt(e, e.push(o1).push(o2), e.push(na).push(nb).push(nc)) == e.push(na).push(
        nb,
    ).push(nc) + (seq![o2] + (seq![o1] + e)));
    assert(e.push(na).push(nb).push(nc) + (seq![o2] + (seq![o1] + e)) =~= seq![
        na,
        nb,
        nc,
        o2,
        o1,
    ]);
}

impl Calculator {
    /// Reorder `tokens` from infix to postfix order: exactly
    /// [`spec_to_postfix`] of the input. Number tokens keep their literal
    /// text, so a well-formed input gives a well-formed output.
    #[verifier::loop_isolation(false)]
    pub fn expression(tokens: Vec<Token>) -> (r: Vec<Token>)
        ensures
            r.deep_view() == spec_to_postfix(tokens.deep_view()),
            tokens_wf(tokens.deep_view()) ==> tokens_wf(r.deep_view()),
    {
        let ghost ts = tokens.deep_view();
        let mut queue: Vec<Token> = Vec::new();
        let mut stack: Vec<Token> = Vec::new();
        proof {
            assert(queue.deep_view() =~= Seq::<TokenModel>::empty());
            assert(stack.deep_view() =~= Seq::<TokenModel>::empty());
            assert(ts.skip(0) =~= ts);
        }
        let mut i: usize = 0;
        while i < tokens.len()
            invariant
                i <= tokens.len(),
                shunt(ts.skip(i as int), stack.deep_view(), queue.deep_view()) == spec_to_postfix(
                    ts,
                ),
                tokens_wf(ts) ==> tokens_wf(stack.deep_view()) && tokens_wf(queue.deep_view()),
            decreases tokens.len() - i,
        {
            let ghost s0 = stack.deep_view();
            let ghost q0 = queue.deep_view();
            proof {
                assert(ts.skip(i as int)[0] == ts[i as int]);
                assert(ts.skip(i as int).drop_first() =~= ts.skip(i as int + 1));
            }
            let t = &tokens[i];
            match t {
                Token::Number(_) | Token::Constant(_) => {
                    queue.push(t.dup());
                    proof {
                        assert(queue.deep_view() =~= q0.push(ts[i as int]));
                    }
                },
                Token::Op(op) => {
                    let op = *op;
                    let mut going = true;
                    while going
                        invariant
                            pop_ge(op, stack.deep_view(), queue.deep_view()) == pop_ge(
                                op,
                                s0,
                                q0,
                            ),
                            !going ==> pop_ge(op, stack.deep_view(), queue.deep_view()) == (
                                stack.deep_view(),
                                queue.deep_view(),
                            ),
                            tokens_wf(ts) ==> tokens_wf(stack.deep_view()) && tokens_wf(
                                queue.deep_view(),
                            ),
                        decreases stack.len(), (if going {
                            1int
                        } else {
                            0int
                        }),
                    {
                        let ghost s1 = stack.deep_view();
                        let ghost q1 = queue.deep_view();
                        if stack.len() == 0 {
                            going = false;
                        } else {
                            let top_pops = match &stack[stack.len() - 1] {
                                Token::Op(top) => op.precedence() <= top.precedence(),
                                _ => false,
                            };
                            if top_pops {
                                let popped = stack.pop().unwrap();
                                queue.push(popped);
                                proof {
                                    assert(stack.deep_view() =~= s1.drop_last());
                                    assert(queue.deep_view() =~= q1.push(s1.last()));
                                }
                            } else {
                                going = false;
                            }
                        }
                    }
                    stack.push(t.dup());
                    proof {
                        assert(stack.deep_view() =~= pop_ge(op, s0, q0).0.push(ts[i as int]));
                    }
                },
                Token::Function(_) => {
                    stack.push(t.dup());
                    proof {
                        assert(stack.deep_view() =~= s0.push(ts[i as int]));
                    }
                },
                Token::Bracket(Bracket::Open) => {
                    stack.push(t.dup());
                    proof {
                        assert(stack.deep_view() =~= s0.push(ts[i as int]));
                    }
                },
                Token::Bracket(Bracket::Close) => {
                    let mut going = true;
                    while going
                        invariant
                            going ==> close_paren(stack.deep_view(), queue.deep_view())
                                == close_paren(s0, q0),
                            !going ==> close_paren(s0, q0) == (
                                stack.deep_view(),
                                queue.deep_view(),
                            ),
                            tokens_wf(ts) ==> tokens_wf(stack.deep_view()) && tokens_wf(
                                queue.deep_view(),
                            ),
                        decreases stack.len(), (if going {
                            1int
                        } else {
                            0int
                        }),
                    {
                        let ghost s1 = stack.deep_view();
                        let ghost q1 = queue.deep_view();
                        if stack.len() == 0 {
                            going = false;
                        } else {
                            let is_open = matches!(
                                &stack[stack.len() - 1],
                                Token::Bracket(Bracket::Open)
                            );
                            if is_open {
                                stack.pop();
                                let ghost s2 = stack.deep_view();
                                proof {
                                    assert(s2 =~= s1.drop_last());
                                }
                                let fun_top = stack.len() > 0 && matches!(
                                    &stack[stack.len() - 1],
                                    Token::Function(_)
                                );
                                if fun_top {
                                    let f = stack.pop().unwrap();
                                    queue.push(f);
                                    proof {
                                        assert(stack.deep_view() =~= s2.drop_last());
                                        assert(queue.deep_view() =~= q1.push(s2.last()));
                                    }
                                }
                                going = false;
                            } else {
                                let x = stack.pop().unwrap();
                                queue.push(x);
                                proof {
                                    assert(stack.deep_view() =~= s1.drop_last());
                                    assert(queue.deep_view() =~= q1.push(s1.last()));
                                }
                            }
                        }
                    }
                },
            }
            i = i + 1;
        }
        proof {
            assert(ts.skip(tokens.len() as int) =~= Seq::<TokenModel>::empty());
        }
        while stack.len() > 0
            invariant
                queue.deep_view() + drain(stack.deep_view()) == spec_to_postfix(ts),
                tokens_wf(ts) ==> tokens_wf(stack.deep_view()) && tokens_wf(queue.deep_view()),
            decreases stack.len(),
        {
            let ghost s1 = stack.deep_view();
            let ghost q1 = queue.deep_view();
            let t = stack.pop().unwrap();
            proof {
                assert(stack.deep_view() =~= s1.drop_last());
            }
            match &t {
                Token::Bracket(Bracket::Open) => {},
                _ => {
                    queue.push(t);
                    proof {
                        assert(queue.deep_view() =~= q1.push(s1.last()));
                        assert(q1.push(s1.last()) + drain(s1.drop_last()) =~= q1 + (seq![
                            s1.last(),
                        ] + drain(s1.drop_last())));
                    }
                },
            }
        }
        proof {
            assert(queue.deep_view() + drain(stack.deep_view()) =~= queue.deep_view());
        }
        queue
    }
}

} // verus!
