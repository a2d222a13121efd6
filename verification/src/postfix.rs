//! The postfix converter: shunting-yard over the infix token sequence.
//!
//! Operands pass straight to the output queue; operators wait on a
//! stack until an incoming operator of lower (or, for left-associative
//! operators, equal) binding power forces them out; parentheses and
//! commas delimit function argument lists. The specification mirrors
//! the per-token rules with pure functions over `Seq<TokenModel>`, and
//! `convert_to_postfix` is proved to return exactly what those rules
//! compute.

use vstd::prelude::*;

use crate::token::Expression;
use crate::token::Operator;
use crate::token::Token;
use crate::token::TokenModel;
use crate::token::token_models;

verus! {

/// Why a conversion failed.
///
/// `UnmatchedComma`: a comma with no enclosing open parenthesis on the
/// stack. `UnmatchedClose`: a close parenthesis with no matching open.
/// `UnmatchedOpen`: an open parenthesis never closed, found on the
/// stack after the scan. `UnknownToken`: a fragment the classifier
/// could not resolve was carried into conversion; it names the
/// offending text.
#[derive(Debug)]
pub enum ConvError {
    UnmatchedComma,
    UnmatchedClose,
    UnmatchedOpen,
    UnknownToken(String),
}

/// The specification-level view of `ConvError`.
pub enum ConvErrorModel {
    UnmatchedComma,
    UnmatchedClose,
    UnmatchedOpen,
    UnknownToken(Seq<char>),
}

impl View for ConvError {
    type V = ConvErrorModel;

    open spec fn view(&self) -> ConvErrorModel {
        match self {
            ConvError::UnmatchedComma => ConvErrorModel::UnmatchedComma,
            ConvError::UnmatchedClose => ConvErrorModel::UnmatchedClose,
            ConvError::UnmatchedOpen => ConvErrorModel::UnmatchedOpen,
            ConvError::UnknownToken(s) => ConvErrorModel::UnknownToken(s@),
        }
    }
}

/// The descriptive text of each failure.
pub open spec fn spec_message(e: ConvErrorModel) -> Seq<char> {
    match e {
        ConvErrorModel::UnmatchedComma => "Malformed Expression, comma but no Parenthesis"@,
        ConvErrorModel::UnmatchedClose => "Malformed Expression, found a ) without ("@,
        ConvErrorModel::UnmatchedOpen => "Malformed Expression, found a ( without )"@,
        ConvErrorModel::UnknownToken(x) =>
            "You either misspelled a function, or it is not yet implemented. The unknown string was: "@
            + x,
    }
}

impl ConvError {
    /// The failure as a human-readable message, naming the offending
    /// text for an unknown token.
    pub fn message(&self) -> (r: String)
        ensures
            r@ == spec_message(self@),
    {
        match self {
            ConvError::UnmatchedComma => "Malformed Expression, comma but no Parenthesis".to_owned(),
            ConvError::UnmatchedClose => "Malformed Expression, found a ) without (".to_owned(),
            ConvError::UnmatchedOpen => "Malformed Expression, found a ( without )".to_owned(),
            ConvError::UnknownToken(x) => {
                let base =
                    "You either misspelled a function, or it is not yet implemented. The unknown string was: ".to_owned();
                base.concat(x.as_str())
            },
        }
    }
}

/// Whether an incoming operator `o1` forces a stacked operator `o2`
/// to the output queue. `Negate` never displaces anything; `Pow`
/// displaces only `Negate` (so `Pow` is right-associative); `Mul`,
/// `Div` and `Mod` displace their own precedence level and above
/// (left-associative); `Add` and `Sub` displace every operator.
pub open spec fn op_pops(o1: Operator, o2: Operator) -> bool {
    match o1 {
        Operator::Negate => false,
        Operator::Pow => o2 == Operator::Negate,
        Operator::Mul | Operator::Div | Operator::Mod => match o2 {
            Operator::Negate | Operator::Pow | Operator::Mul | Operator::Div | Operator::Mod
                => true,
            _ => false,
        },
        Operator::Add | Operator::Sub => true,
    }
}

/// Whether an incoming operator `o1` moves the stack top `t` to the
/// output queue; a non-operator stack top (`Open` or `Func`) always
/// stops the scan.
pub open spec fn should_pop(o1: Operator, t: TokenModel) -> bool {
    match t {
        TokenModel::Op(o2) => op_pops(o1, o2),
        _ => false,
    }
}

/// The stack and queue after an incoming operator `o1` has displaced
/// every stacked token it outranks.
pub open spec fn pop_ops(o1: Operator, stack: Seq<TokenModel>, out: Seq<TokenModel>) -> (
    Seq<TokenModel>,
    Seq<TokenModel>,
)
    decreases stack.len(),
{
    if stack.len() > 0 && should_pop(o1, stack.last()) {
        pop_ops(o1, stack.drop_last(), out.push(stack.last()))
    } else {
        (stack, out)
    }
}

/// Pops the stack into the output queue until an `Open` appears on
/// top (the `Open` itself stays); `None` when the stack empties first.
pub open spec fn pop_to_open(stack: Seq<TokenModel>, out: Seq<TokenModel>) -> Option<
    (Seq<TokenModel>, Seq<TokenModel>),
>
    decreases stack.len(),
{
    if stack.len() == 0 {
        None
    } else if stack.last() is Open {
        Some((stack, out))
    } else {
        pop_to_open(stack.drop_last(), out.push(stack.last()))
    }
}

/// The close-parenthesis rule: pop to the matching `Open`, discard it,
/// and if a `Func` is then on top, move it to the output queue at
/// once, binding the function to its just-closed argument list.
pub open spec fn close_step(stack: Seq<TokenModel>, out: Seq<TokenModel>) -> Option<
    (Seq<TokenModel>, Seq<TokenModel>),
> {
    match pop_to_open(stack, out) {
        None => None,
        Some((s, o)) => {
            let s2 = s.drop_last();
            if s2.len() > 0 && s2.last() is Func {
                Some((s2.drop_last(), o.push(s2.last())))
            } else {
                Some((s2, o))
            }
        },
    }
}

/// One shunting-yard step: the stack and queue after consuming `t`.
pub open spec fn shunt_step(stack: Seq<TokenModel>, out: Seq<TokenModel>, t: TokenModel) -> Result<
    (Seq<TokenModel>, Seq<TokenModel>),
    ConvErrorModel,
> {
    match t {
        TokenModel::Literal(_) => Ok((stack, out.push(t))),
        TokenModel::Var(_) => Ok((stack, out.push(t))),
        TokenModel::Func(_) => Ok((stack.push(t), out)),
        TokenModel::Open => Ok((stack.push(t), out)),
        TokenModel::Comma => match pop_to_open(stack, out) {
            None => Err(ConvErrorModel::UnmatchedComma),
            Some(p) => Ok(p),
        },
        TokenModel::Op(o1) => {
            let p = pop_ops(o1, stack, out);
            Ok((p.0.push(t), p.1))
        },
        TokenModel::Close => match close_step(stack, out) {
            None => Err(ConvErrorModel::UnmatchedClose),
            Some(p) => Ok(p),
        },
        TokenModel::Unknown(x) => Err(ConvErrorModel::UnknownToken(x)),
    }
}

/// The stack and queue after the first `i` tokens of `ts`, or the
/// error on which the scan stopped.
pub open spec fn shunt_upto(ts: Seq<TokenModel>, i: int) -> Result<
    (Seq<TokenModel>, Seq<TokenModel>),
    ConvErrorModel,
>
    decreases i,
{
    if i <= 0 {
        Ok((Seq::<TokenModel>::empty(), Seq::<TokenModel>::empty()))
    } else {
        match shunt_upto(ts, i - 1) {
            Err(e) => Err(e),
            Ok((stack, out)) => shunt_step(stack, out, ts[i - 1]),
        }
    }
}

/// Draining the remaining operator stack into the output queue, in
/// last-in-first-out order.
pub open spec fn drain_stack(stack: Seq<TokenModel>, out: Seq<TokenModel>) -> Seq<TokenModel>
    decreases stack.len(),
{
    if stack.len() == 0 {
        out
    } else {
        drain_stack(stack.drop_last(), out.push(stack.last()))
    }
}

/// Whether an `Open` is left anywhere on the stack.
pub open spec fn has_open(stack: Seq<TokenModel>) -> bool {
    exists|i: int| 0 <= i < stack.len() && stack[i] is Open
}

/// The whole conversion: the postfix token sequence for the infix
/// sequence `ts`, or the error on which it stopped. An `Open` still
/// on the stack after the scan was never closed: that is an error,
/// not a token to be drained into the output.
pub open spec fn spec_convert(ts: Seq<TokenModel>) -> Result<Seq<TokenModel>, ConvErrorModel> {
    match shunt_upto(ts, ts.len() as int) {
        Err(e) => Err(e),
        Ok((stack, out)) => if has_open(stack) {
            Err(ConvErrorModel::UnmatchedOpen)
        } else {
            Ok(drain_stack(stack, out))
        },
    }
}

/// Once the scan has stopped on an error, the error stands: every
/// longer prefix yields the same error.
pub proof fn lemma_shunt_error_persists(ts: Seq<TokenModel>, i: int, j: int)
    requires
        0 <= i <= j <= ts.len(),
        shunt_upto(ts, i) is Err,
    ensures
        shunt_upto(ts, j) == shunt_upto(ts, i),
    decreases j - i,
{
    if j > i {
        lemma_shunt_error_persists(ts, i, j - 1);
    }
}

/// Whether an incoming operator displaces the stack top; mirrors
/// `should_pop`.
fn should_pop_exec(o1: Operator, t: &Token) -> (r: bool)
    ensures
        r == should_pop(o1, t@),
{
    match t {
        Token::Op(o2) => match o1 {
            Operator::Negate => false,
            Operator::Pow => matches!(o2, Operator::Negate),
            Operator::Mul | Operator::Div | Operator::Mod => matches!(
                o2,
                Operator::Negate | Operator::Pow | Operator::Mul | Operator::Div | Operator::Mod
            ),
            Operator::Add | Operator::Sub => true,
        },
        _ => false,
    }
}

/// Whether an `Open` is left anywhere on the stack; mirrors
/// `has_open`.
fn stack_contains_open(stack: &Vec<Token>) -> (r: bool)
    ensures
        r == has_open(token_models(stack@)),
{
    let mut found = false;
    let mut j: usize = 0;
    while j < stack.len()
        invariant
            j <= stack@.len(),
            found == exists|k: int|
                0 <= k < j && #[trigger] token_models(stack@)[k] is Open,
        decreases stack@.len() - j,
    {
        if matches!(stack[j], Token::Open) {
            found = true;
            proof {
                assert(token_models(stack@)[j as int] is Open);
            }
        } else {
            proof {
                assert(!(token_models(stack@)[j as int] is Open));
            }
        }
        j = j + 1;
    }
    found
}

/// The shunting-yard conversion. Consumes the infix `expr`, returning
/// the variable name unchanged together with either the postfix
/// expression or the error on which the scan stopped; on an error no
/// partial output is returned. An open parenthesis that is never
/// closed is detected after the scan and reported, rather than
/// silently dropped into the output.
pub fn convert_to_postfix(variable: String, expr: Expression) -> (r: (
    String,
    Result<Expression, ConvError>,
))
    ensures
        r.0@ == variable@,
        match r.1 {
            Ok(e) => spec_convert(expr@) == Result::<Seq<TokenModel>, ConvErrorModel>::Ok(e@),
            Err(er) => spec_convert(expr@) == Result::<Seq<TokenModel>, ConvErrorModel>::Err(er@),
        },
{
    let ghost ts = expr@;
    let n = expr.len();
    let mut op_stack: Vec<Token> = Vec::with_capacity(n);
    let mut out_queue: Vec<Token> = Vec::with_capacity(n);
    proof {
        assert(token_models(op_stack@) =~= Seq::<TokenModel>::empty());
        assert(token_models(out_queue@) =~= Seq::<TokenModel>::empty());
    }
    let mut i: usize = 0;
    while i < n
        invariant
            n == ts.len(),
            i <= n,
            expr@ == ts,
            shunt_upto(ts, i as int) == Result::<(Seq<TokenModel>, Seq<TokenModel>),
                ConvErrorModel,
            >::Ok((token_models(op_stack@), token_models(out_queue@))),
        decreases n - i,
    {
        let ghost st0 = token_models(op_stack@);
        let ghost q0 = token_models(out_queue@);
        let current_token = expr.get_token(i);
        match current_token {
            Token::Literal(_) | Token::Var(_) => {
                out_queue.push(current_token.clone());
                proof {
                    assert(token_models(out_queue@) =~= q0.push(ts[i as int]));
                }
            },
            Token::Func(_) => {
                op_stack.push(current_token.clone());
                proof {
                    assert(token_models(op_stack@) =~= st0.push(ts[i as int]));
                }
            },
            Token::Open => {
                op_stack.push(Token::Open);
                proof {
                    assert(token_models(op_stack@) =~= st0.push(ts[i as int]));
                }
            },
            Token::Comma => {
                loop
                    invariant
                        expr@ == ts,
                        i < ts.len(),
                        ts[i as int] is Comma,
                        shunt_upto(ts, i as int) == Result::<
                            (Seq<TokenModel>, Seq<TokenModel>),
                            ConvErrorModel,
                        >::Ok((st0, q0)),
                        pop_to_open(token_models(op_stack@), token_models(out_queue@))
                            == pop_to_open(st0, q0),
                    ensures
                        pop_to_open(st0, q0) == Some(
                            (token_models(op_stack@), token_models(out_queue@)),
                        ),
                    decreases op_stack@.len(),
                {
                    if op_stack.len() == 0 {
                        proof {
                            assert(token_models(op_stack@) =~= Seq::<TokenModel>::empty());
                            assert(pop_to_open(st0, q0) is None);
                            assert(shunt_upto(ts, i as int + 1) == Result::<
                                (Seq<TokenModel>, Seq<TokenModel>),
                                ConvErrorModel,
                            >::Err(ConvErrorModel::UnmatchedComma));
                            lemma_shunt_error_persists(ts, i as int + 1, ts.len() as int);
                        }
                        return (variable, Err(ConvError::UnmatchedComma));
                    }
                    if matches!(op_stack[op_stack.len() - 1], Token::Open) {
                        break;
                    }
                    let ghost spre = op_stack@;
                    let ghost qpre = out_queue@;
                    let stack_token = op_stack.pop().unwrap();
                    out_queue.push(stack_token);
                    proof {
                        assert(token_models(op_stack@) =~= token_models(spre).drop_last());
                        assert(token_models(out_queue@) =~= token_models(qpre).push(
                            spre.last()@,
                        ));
                    }
                }
            },
            Token::Op(o) => {
                let o1 = *o;
                assert(ts[i as int] == TokenModel::Op(o1));
                loop
                    invariant
                        pop_ops(o1, token_models(op_stack@), token_models(out_queue@)) == pop_ops(
                            o1,
                            st0,
                            q0,
                        ),
                    ensures
                        (token_models(op_stack@), token_models(out_queue@)) == pop_ops(
                            o1,
                            st0,
                            q0,
                        ),
                    decreases op_stack@.len(),
                {
                    if op_stack.len() < 1 {
                        break;
                    }
                    if !should_pop_exec(o1, &op_stack[op_stack.len() - 1]) {
                        break;
                    }
                    let ghost spre = op_stack@;
                    let ghost qpre = out_queue@;
                    let o2 = op_stack.pop().unwrap();
                    out_queue.push(o2);
                    proof {
                        assert(token_models(op_stack@) =~= token_models(spre).drop_last());
                        assert(token_models(out_queue@) =~= token_models(qpre).push(
                            spre.last()@,
                        ));
                    }
                }
                let ghost spre = op_stack@;
                op_stack.push(Token::Op(o1));
                proof {
                    assert(token_models(op_stack@) =~= token_models(spre).push(
                        TokenModel::Op(o1),
                    ));
                }
            },
            Token::Close => {
                loop
                    invariant_except_break
                        pop_to_open(token_models(op_stack@), token_models(out_queue@))
                            == pop_to_open(st0, q0),
                    invariant
                        expr@ == ts,
                        i < ts.len(),
                        ts[i as int] is Close,
                        shunt_upto(ts, i as int) == Result::<
                            (Seq<TokenModel>, Seq<TokenModel>),
                            ConvErrorModel,
                        >::Ok((st0, q0)),
                    ensures
                        pop_to_open(st0, q0) matches Some(p) && token_models(op_stack@)
                            == p.0.drop_last() && token_models(out_queue@) == p.1,
                    decreases op_stack@.len(),
                {
                    if op_stack.len() == 0 {
                        proof {
                            assert(token_models(op_stack@) =~= Seq::<TokenModel>::empty());
                            assert(pop_to_open(st0, q0) is None);
                            assert(shunt_upto(ts, i as int + 1) == Result::<
                                (Seq<TokenModel>, Seq<TokenModel>),
                                ConvErrorModel,
                            >::Err(ConvErrorModel::UnmatchedClose));
                            lemma_shunt_error_persists(ts, i as int + 1, ts.len() as int);
                        }
                        return (variable, Err(ConvError::UnmatchedClose));
                    }
                    let ghost spre = op_stack@;
                    let ghost qpre = out_queue@;
                    if matches!(op_stack[op_stack.len() - 1], Token::Open) {
                        let _open = op_stack.pop();
                        proof {
                            assert(token_models(op_stack@) =~= token_models(spre).drop_last());
                        }
                        break;
                    }
                    let stack_token = op_stack.pop().unwrap();
                    out_queue.push(stack_token);
                    proof {
                        assert(token_models(op_stack@) =~= token_models(spre).drop_last());
                        assert(token_models(out_queue@) =~= token_models(qpre).push(
                            spre.last()@,
                        ));
                    }
                }
                if op_stack.len() > 0 {
                    let ghost spre = op_stack@;
                    let ghost qpre = out_queue@;
                    if matches!(op_stack[op_stack.len() - 1], Token::Func(_)) {
                        let next_token = op_stack.pop().unwrap();
                        out_queue.push(next_token);
                        proof {
                            assert(token_models(op_stack@) =~= token_models(spre).drop_last());
                            assert(token_models(out_queue@) =~= token_models(qpre).push(
                                spre.last()@,
                            ));
                        }
                    }
                }
            },
            Token::Unknown(x) => {
                proof {
                    assert(shunt_upto(ts, i as int + 1) == Result::<
                        (Seq<TokenModel>, Seq<TokenModel>),
                        ConvErrorModel,
                    >::Err(ConvErrorModel::UnknownToken(x@)));
                    lemma_shunt_error_persists(ts, i as int + 1, ts.len() as int);
                }
                return (variable, Err(ConvError::UnknownToken(x.clone())));
            },
        }
        i = i + 1;
    }
    if stack_contains_open(&op_stack) {
        return (variable, Err(ConvError::UnmatchedOpen));
    }
    let ghost st_end = token_models(op_stack@);
    let ghost q_end = token_models(out_queue@);
    while op_stack.len() > 0
        invariant
            drain_stack(token_models(op_stack@), token_models(out_queue@)) == drain_stack(
                st_end,
                q_end,
            ),
        decreases op_stack@.len(),
    {
        let ghost spre = op_stack@;
        let ghost qpre = out_queue@;
        let t = op_stack.pop().unwrap();
        out_queue.push(t);
        proof {
            assert(token_models(op_stack@) =~= token_models(spre).drop_last());
            assert(token_models(out_queue@) =~= token_models(qpre).push(spre.last()@));
        }
    }
    (variable, Ok(Expression::from_tokens(out_queue)))
}

} // verus!
