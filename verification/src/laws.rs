//! Proved laws of the conversion: uniqueness, precedence,
//! associativity, unary negation, parenthesized grouping and function
//! application, stated over arbitrary operand tokens.

use vstd::prelude::*;

use crate::token::Operator;
use crate::token::TokenModel;
use crate::postfix::ConvErrorModel;
use crate::postfix::drain_stack;
use crate::postfix::has_open;
use crate::postfix::pop_ops;
use crate::postfix::pop_to_open;
use crate::postfix::shunt_step;
use crate::postfix::shunt_upto;
use crate::postfix::spec_convert;

verus! {

/// A token that passes straight to the output queue: a literal or a
/// variable.
pub open spec fn is_operand(t: TokenModel) -> bool {
    t is Literal || t is Var
}

/// Shorthand for the `Ok` outcome of a partial scan.
spec fn st_ok(stack: Seq<TokenModel>, out: Seq<TokenModel>) -> Result<
    (Seq<TokenModel>, Seq<TokenModel>),
    ConvErrorModel,
> {
    Ok((stack, out))
}

/// The empty stack holds no open parenthesis.
proof fn lemma_no_open_empty()
    ensures
        !has_open(Seq::<TokenModel>::empty()),
{
}

/// Pushing anything but an open parenthesis cannot leave one on the
/// stack.
proof fn lemma_no_open_push(stack: Seq<TokenModel>, t: TokenModel)
    requires
        !has_open(stack),
        !(t is Open),
    ensures
        !has_open(stack.push(t)),
{
    assert forall|k: int| 0 <= k < stack.push(t).len() implies !(#[trigger] stack.push(t)[k]
        is Open) by {
        if k < stack.len() {
            assert(stack.push(t)[k] == stack[k]);
        } else {
            assert(stack.push(t)[k] == t);
        }
    }
}

/// Conversion is a pure function of the token sequence: equal inputs
/// convert to equal outcomes, so the postfix form of an expression is
/// unique.
pub proof fn lemma_conversion_unique(a: Seq<TokenModel>, b: Seq<TokenModel>)
    requires
        a == b,
    ensures
        spec_convert(a) == spec_convert(b),
{
}

/// A fully parenthesized binary expression: an operand at each leaf,
/// and at each node a binary operator whose rendering wraps both
/// operands in one pair of parentheses.
pub enum Ast {
    Leaf(TokenModel),
    Node(Box<Ast>, Operator, Box<Ast>),
}

/// Well-formedness: every leaf is an operand and every node carries a
/// binary operator.
pub open spec fn ast_wf(a: Ast) -> bool
    decreases a,
{
    match a {
        Ast::Leaf(t) => is_operand(t),
        Ast::Node(l, o, r) => o != Operator::Negate && ast_wf(*l) && ast_wf(*r),
    }
}

/// The fully parenthesized infix rendering of an expression tree.
pub open spec fn ast_infix(a: Ast) -> Seq<TokenModel>
    decreases a,
{
    match a {
        Ast::Leaf(t) => seq![t],
        Ast::Node(l, o, r) => seq![TokenModel::Open] + ast_infix(*l) + seq![TokenModel::Op(o)]
            + ast_infix(*r) + seq![TokenModel::Close],
    }
}

/// The manual reverse-Polish derivation of an expression tree: left
/// operand, right operand, operator.
pub open spec fn ast_rpn(a: Ast) -> Seq<TokenModel>
    decreases a,
{
    match a {
        Ast::Leaf(t) => seq![t],
        Ast::Node(l, o, r) => ast_rpn(*l) + ast_rpn(*r) + seq![TokenModel::Op(o)],
    }
}

/// The scan over an arbitrary token sequence from an arbitrary
/// starting state; `shunt_upto` is this runner started from the empty
/// state.
pub open spec fn shunt_seq(ts: Seq<TokenModel>, stack: Seq<TokenModel>, out: Seq<TokenModel>)
    -> Result<(Seq<TokenModel>, Seq<TokenModel>), ConvErrorModel>
    decreases ts.len(),
{
    if ts.len() == 0 {
        Ok((stack, out))
    } else {
        match shunt_step(stack, out, ts[0]) {
            Err(e) => Err(e),
            Ok((s, o)) => shunt_seq(ts.drop_first(), s, o),
        }
    }
}

/// Scanning a concatenation is scanning the first part, then the
/// second from where the first left off.
proof fn lemma_shunt_seq_app(
    a: Seq<TokenModel>,
    b: Seq<TokenModel>,
    stack: Seq<TokenModel>,
    out: Seq<TokenModel>,
)
    ensures
        shunt_seq(a + b, stack, out) == (match shunt_seq(a, stack, out) {
            Err(e) => Err::<(Seq<TokenModel>, Seq<TokenModel>), ConvErrorModel>(e),
            Ok((s, o)) => shunt_seq(b, s, o),
        }),
    decreases a.len(),
{
    if a.len() == 0 {
        assert(a + b =~= b);
    } else {
        assert((a + b)[0] == a[0]);
        assert((a + b).drop_first() =~= a.drop_first() + b);
        match shunt_step(stack, out, a[0]) {
            Err(_) => {
            },
            Ok((s, o)) => {
                lemma_shunt_seq_app(a.drop_first(), b, s, o);
            },
        }
    }
}

/// Scanning a single token is one step.
proof fn lemma_shunt_seq_one(t: TokenModel, stack: Seq<TokenModel>, out: Seq<TokenModel>)
    ensures
        shunt_seq(seq![t], stack, out) == shunt_step(stack, out, t),
{
    reveal_with_fuel(shunt_seq, 2);
    assert(seq![t].drop_first() =~= Seq::<TokenModel>::empty());
}

/// The indexed prefix scan agrees with the runner on the whole
/// sequence.
proof fn lemma_upto_is_seq(ts: Seq<TokenModel>, i: int)
    requires
        0 <= i <= ts.len(),
    ensures
        shunt_upto(ts, i) == shunt_seq(ts.take(i), Seq::<TokenModel>::empty(), Seq::<TokenModel>::empty()),
    decreases i,
{
    let e = Seq::<TokenModel>::empty();
    if i == 0 {
        assert(ts.take(0) =~= e);
    } else {
        lemma_upto_is_seq(ts, i - 1);
        assert(ts.take(i) =~= ts.take(i - 1).push(ts[i - 1]));
        assert(ts.take(i - 1).push(ts[i - 1]) =~= ts.take(i - 1) + seq![ts[i - 1]]);
        lemma_shunt_seq_app(ts.take(i - 1), seq![ts[i - 1]], e, e);
        match shunt_seq(ts.take(i - 1), e, e) {
            Err(_) => {
            },
            Ok((s, o)) => {
                lemma_shunt_seq_one(ts[i - 1], s, o);
            },
        }
    }
}

/// Scanning the rendering of a well-formed tree from any state whose
/// stack top is not a function leaves the stack as it was and appends
/// exactly the tree's reverse-Polish form to the output queue.
proof fn lemma_shunt_seq_ast(a: Ast, stack: Seq<TokenModel>, out: Seq<TokenModel>)
    requires
        ast_wf(a),
        stack.len() == 0 || !(stack.last() is Func),
    ensures
        shunt_seq(ast_infix(a), stack, out) == Result::<
            (Seq<TokenModel>, Seq<TokenModel>),
            ConvErrorModel,
        >::Ok((stack, out + ast_rpn(a))),
    decreases a,
{
    match a {
        Ast::Leaf(t) => {
            lemma_shunt_seq_one(t, stack, out);
            assert(out.push(t) =~= out + seq![t]);
        },
        Ast::Node(l, o, r) => {
            let e = Seq::<TokenModel>::empty();
            let opn = TokenModel::Open;
            let cls = TokenModel::Close;
            let ot = TokenModel::Op(o);
            let i2 = ast_infix(*l);
            let i4 = ast_infix(*r);
            let rest = i2 + (seq![ot] + (i4 + seq![cls]));
            assert(ast_infix(a) =~= seq![opn] + rest);
            lemma_shunt_seq_app(seq![opn], rest, stack, out);
            lemma_shunt_seq_one(opn, stack, out);
            let s1 = stack.push(opn);
            lemma_shunt_seq_app(i2, seq![ot] + (i4 + seq![cls]), s1, out);
            lemma_shunt_seq_ast(*l, s1, out);
            let o1 = out + ast_rpn(*l);
            lemma_shunt_seq_app(seq![ot], i4 + seq![cls], s1, o1);
            lemma_shunt_seq_one(ot, s1, o1);
            assert(pop_ops(o, s1, o1) == (s1, o1));
            let s2 = s1.push(ot);
            lemma_shunt_seq_app(i4, seq![cls], s2, o1);
            lemma_shunt_seq_ast(*r, s2, o1);
            let o2 = o1 + ast_rpn(*r);
            lemma_shunt_seq_one(cls, s2, o2);
            assert(s2.drop_last() =~= s1);
            assert(s1.drop_last() =~= stack);
            assert(pop_to_open(s1, o2.push(ot)) == Some((s1, o2.push(ot))));
            assert(pop_to_open(s2, o2) == Some((s1, o2.push(ot))));
            assert(shunt_step(s2, o2, cls) == Result::<
                (Seq<TokenModel>, Seq<TokenModel>),
                ConvErrorModel,
            >::Ok((stack, o2.push(ot))));
            assert(o2.push(ot) =~= out + ast_rpn(a));
        },
    }
}

/// Every well-formed fully parenthesized expression converts, without
/// error, to exactly its manual reverse-Polish derivation.
pub proof fn lemma_fully_parenthesized_rpn(a: Ast)
    requires
        ast_wf(a),
    ensures
        spec_convert(ast_infix(a)) == Result::<Seq<TokenModel>, ConvErrorModel>::Ok(ast_rpn(a)),
{
    let e = Seq::<TokenModel>::empty();
    let ts = ast_infix(a);
    lemma_upto_is_seq(ts, ts.len() as int);
    assert(ts.take(ts.len() as int) =~= ts);
    lemma_shunt_seq_ast(a, e, e);
    lemma_no_open_empty();
    assert(e + ast_rpn(a) =~= ast_rpn(a));
}

/// Power is right-associative: `x ^ y ^ z` converts to `x y z ^ ^`,
/// not `x y ^ z ^`.
pub proof fn lemma_pow_right_assoc(x: TokenModel, y: TokenModel, z: TokenModel)
    requires
        is_operand(x),
        is_operand(y),
        is_operand(z),
    ensures
        spec_convert(seq![x, TokenModel::Op(Operator::Pow), y, TokenModel::Op(Operator::Pow), z])
            == Result::<Seq<TokenModel>, ConvErrorModel>::Ok(
            seq![x, y, z, TokenModel::Op(Operator::Pow), TokenModel::Op(Operator::Pow)],
        ),
{
    let p = TokenModel::Op(Operator::Pow);
    let e = Seq::<TokenModel>::empty();
    let ts = e.push(x).push(p).push(y).push(p).push(z);
    assert(ts =~= seq![x, p, y, p, z]);
    assert(shunt_upto(ts, 0) == st_ok(e, e));
    assert(shunt_upto(ts, 1) == st_ok(e, e.push(x)));
    assert(pop_ops(Operator::Pow, e, e.push(x)) == (e, e.push(x)));
    assert(shunt_upto(ts, 2) == st_ok(e.push(p), e.push(x)));
    assert(shunt_upto(ts, 3) == st_ok(e.push(p), e.push(x).push(y)));
    assert(pop_ops(Operator::Pow, e.push(p), e.push(x).push(y)) == (
        e.push(p),
        e.push(x).push(y),
    ));
    assert(shunt_upto(ts, 4) == st_ok(e.push(p).push(p), e.push(x).push(y)));
    assert(shunt_upto(ts, 5) == st_ok(e.push(p).push(p), e.push(x).push(y).push(z)));
    let o3 = e.push(x).push(y).push(z);
    lemma_no_open_empty();
    lemma_no_open_push(e, p);
    lemma_no_open_push(e.push(p), p);
    assert(e.push(p).push(p).drop_last() =~= e.push(p));
    assert(e.push(p).drop_last() =~= e);
    assert(drain_stack(e.push(p).push(p), o3) == drain_stack(e.push(p), o3.push(p)));
    assert(drain_stack(e.push(p), o3.push(p)) == drain_stack(e, o3.push(p).push(p)));
    assert(drain_stack(e, o3.push(p).push(p)) == o3.push(p).push(p));
    assert(o3.push(p).push(p) =~= seq![x, y, z, p, p]);
}

/// Subtraction is left-associative: `x - y - z` converts to
/// `x y - z -`.
pub proof fn lemma_sub_left_assoc(x: TokenModel, y: TokenModel, z: TokenModel)
    requires
        is_operand(x),
        is_operand(y),
        is_operand(z),
    ensures
        spec_convert(seq![x, TokenModel::Op(Operator::Sub), y, TokenModel::Op(Operator::Sub), z])
            == Result::<Seq<TokenModel>, ConvErrorModel>::Ok(
            seq![x, y, TokenModel::Op(Operator::Sub), z, TokenModel::Op(Operator::Sub)],
        ),
{
    let s = TokenModel::Op(Operator::Sub);
    let e = Seq::<TokenModel>::empty();
    let ts = e.push(x).push(s).push(y).push(s).push(z);
    assert(ts =~= seq![x, s, y, s, z]);
    assert(shunt_upto(ts, 0) == st_ok(e, e));
    assert(shunt_upto(ts, 1) == st_ok(e, e.push(x)));
    assert(pop_ops(Operator::Sub, e, e.push(x)) == (e, e.push(x)));
    assert(shunt_upto(ts, 2) == st_ok(e.push(s), e.push(x)));
    assert(shunt_upto(ts, 3) == st_ok(e.push(s), e.push(x).push(y)));
    let o2 = e.push(x).push(y);
    assert(e.push(s).drop_last() =~= e);
    assert(pop_ops(Operator::Sub, e, o2.push(s)) == (e, o2.push(s)));
    assert(pop_ops(Operator::Sub, e.push(s), o2) == (e, o2.push(s)));
    assert(shunt_upto(ts, 4) == st_ok(e.push(s), o2.push(s)));
    assert(shunt_upto(ts, 5) == st_ok(e.push(s), o2.push(s).push(z)));
    lemma_no_open_empty();
    lemma_no_open_push(e, s);
    assert(drain_stack(e.push(s), o2.push(s).push(z)) == drain_stack(
        e,
        o2.push(s).push(z).push(s),
    ));
    assert(drain_stack(e, o2.push(s).push(z).push(s)) == o2.push(s).push(z).push(s));
    assert(o2.push(s).push(z).push(s) =~= seq![x, y, s, z, s]);
}

/// Multiplication binds tighter than addition on its right:
/// `x + y * z` converts to `x y z * +`.
pub proof fn lemma_mul_binds_tighter_right(x: TokenModel, y: TokenModel, z: TokenModel)
    requires
        is_operand(x),
        is_operand(y),
        is_operand(z),
    ensures
        spec_convert(seq![x, TokenModel::Op(Operator::Add), y, TokenModel::Op(Operator::Mul), z])
            == Result::<Seq<TokenModel>, ConvErrorModel>::Ok(
            seq![x, y, z, TokenModel::Op(Operator::Mul), TokenModel::Op(Operator::Add)],
        ),
{
    let a = TokenModel::Op(Operator::Add);
    let m = TokenModel::Op(Operator::Mul);
    let e = Seq::<TokenModel>::empty();
    let ts = e.push(x).push(a).push(y).push(m).push(z);
    assert(ts =~= seq![x, a, y, m, z]);
    assert(shunt_upto(ts, 0) == st_ok(e, e));
    assert(shunt_upto(ts, 1) == st_ok(e, e.push(x)));
    assert(pop_ops(Operator::Add, e, e.push(x)) == (e, e.push(x)));
    assert(shunt_upto(ts, 2) == st_ok(e.push(a), e.push(x)));
    assert(shunt_upto(ts, 3) == st_ok(e.push(a), e.push(x).push(y)));
    let o2 = e.push(x).push(y);
    assert(pop_ops(Operator::Mul, e.push(a), o2) == (e.push(a), o2));
    assert(shunt_upto(ts, 4) == st_ok(e.push(a).push(m), o2));
    assert(shunt_upto(ts, 5) == st_ok(e.push(a).push(m), o2.push(z)));
    lemma_no_open_empty();
    lemma_no_open_push(e, a);
    lemma_no_open_push(e.push(a), m);
    assert(e.push(a).push(m).drop_last() =~= e.push(a));
    assert(e.push(a).drop_last() =~= e);
    assert(drain_stack(e.push(a).push(m), o2.push(z)) == drain_stack(
        e.push(a),
        o2.push(z).push(m),
    ));
    assert(drain_stack(e.push(a), o2.push(z).push(m)) == drain_stack(
        e,
        o2.push(z).push(m).push(a),
    ));
    assert(drain_stack(e, o2.push(z).push(m).push(a)) == o2.push(z).push(m).push(a));
    assert(o2.push(z).push(m).push(a) =~= seq![x, y, z, m, a]);
}

/// Multiplication binds tighter than addition on its left:
/// `x * y + z` converts to `x y * z +`.
pub proof fn lemma_mul_binds_tighter_left(x: TokenModel, y: TokenModel, z: TokenModel)
    requires
        is_operand(x),
        is_operand(y),
        is_operand(z),
    ensures
        spec_convert(seq![x, TokenModel::Op(Operator::Mul), y, TokenModel::Op(Operator::Add), z])
            == Result::<Seq<TokenModel>, ConvErrorModel>::Ok(
            seq![x, y, TokenModel::Op(Operator::Mul), z, TokenModel::Op(Operator::Add)],
        ),
{
    let a = TokenModel::Op(Operator::Add);
    let m = TokenModel::Op(Operator::Mul);
    let e = Seq::<TokenModel>::empty();
    let ts = e.push(x).push(m).push(y).push(a).push(z);
    assert(ts =~= seq![x, m, y, a, z]);
    assert(shunt_upto(ts, 0) == st_ok(e, e));
    assert(shunt_upto(ts, 1) == st_ok(e, e.push(x)));
    assert(pop_ops(Operator::Mul, e, e.push(x)) == (e, e.push(x)));
    assert(shunt_upto(ts, 2) == st_ok(e.push(m), e.push(x)));
    assert(shunt_upto(ts, 3) == st_ok(e.push(m), e.push(x).push(y)));
    let o2 = e.push(x).push(y);
    assert(e.push(m).drop_last() =~= e);
    assert(pop_ops(Operator::Add, e, o2.push(m)) == (e, o2.push(m)));
    assert(pop_ops(Operator::Add, e.push(m), o2) == (e, o2.push(m)));
    assert(shunt_upto(ts, 4) == st_ok(e.push(a), o2.push(m)));
    assert(shunt_upto(ts, 5) == st_ok(e.push(a), o2.push(m).push(z)));
    lemma_no_open_empty();
    lemma_no_open_push(e, a);
    assert(e.push(a).drop_last() =~= e);
    assert(drain_stack(e.push(a), o2.push(m).push(z)) == drain_stack(
        e,
        o2.push(m).push(z).push(a),
    ));
    assert(drain_stack(e, o2.push(m).push(z).push(a)) == o2.push(m).push(z).push(a));
    assert(o2.push(m).push(z).push(a) =~= seq![x, y, m, z, a]);
}

/// Unary negation binds tighter than any binary operator and is never
/// displaced from directly preceding its operand's application point:
/// `- x o y` converts to `x Negate y o` for every binary `o`.
pub proof fn lemma_negate_binds_tightest(x: TokenModel, y: TokenModel, o: Operator)
    requires
        is_operand(x),
        is_operand(y),
        o != Operator::Negate,
    ensures
        spec_convert(seq![TokenModel::Op(Operator::Negate), x, TokenModel::Op(o), y])
            == Result::<Seq<TokenModel>, ConvErrorModel>::Ok(
            seq![x, TokenModel::Op(Operator::Negate), y, TokenModel::Op(o)],
        ),
{
    let ng = TokenModel::Op(Operator::Negate);
    let ot = TokenModel::Op(o);
    let e = Seq::<TokenModel>::empty();
    let ts = e.push(ng).push(x).push(ot).push(y);
    assert(ts =~= seq![ng, x, ot, y]);
    assert(shunt_upto(ts, 0) == st_ok(e, e));
    assert(pop_ops(Operator::Negate, e, e) == (e, e));
    assert(shunt_upto(ts, 1) == st_ok(e.push(ng), e));
    assert(shunt_upto(ts, 2) == st_ok(e.push(ng), e.push(x)));
    assert(e.push(ng).drop_last() =~= e);
    assert(pop_ops(o, e, e.push(x).push(ng)) == (e, e.push(x).push(ng)));
    assert(pop_ops(o, e.push(ng), e.push(x)) == (e, e.push(x).push(ng)));
    assert(shunt_upto(ts, 3) == st_ok(e.push(ot), e.push(x).push(ng)));
    assert(shunt_upto(ts, 4) == st_ok(e.push(ot), e.push(x).push(ng).push(y)));
    let o3 = e.push(x).push(ng).push(y);
    lemma_no_open_empty();
    lemma_no_open_push(e, ot);
    assert(e.push(ot).drop_last() =~= e);
    assert(drain_stack(e.push(ot), o3) == drain_stack(e, o3.push(ot)));
    assert(drain_stack(e, o3.push(ot)) == o3.push(ot));
    assert(o3.push(ot) =~= seq![x, ng, y, ot]);
}

/// A fully parenthesized binary application converts to its manual
/// reverse-Polish form: `( x o y )` becomes `x y o`.
pub proof fn lemma_paren_binary(x: TokenModel, y: TokenModel, o: Operator)
    requires
        is_operand(x),
        is_operand(y),
        o != Operator::Negate,
    ensures
        spec_convert(seq![TokenModel::Open, x, TokenModel::Op(o), y, TokenModel::Close])
            == Result::<Seq<TokenModel>, ConvErrorModel>::Ok(seq![x, y, TokenModel::Op(o)]),
{
    let op = TokenModel::Open;
    let cl = TokenModel::Close;
    let ot = TokenModel::Op(o);
    let e = Seq::<TokenModel>::empty();
    let ts = e.push(op).push(x).push(ot).push(y).push(cl);
    assert(ts =~= seq![op, x, ot, y, cl]);
    assert(shunt_upto(ts, 0) == st_ok(e, e));
    assert(shunt_upto(ts, 1) == st_ok(e.push(op), e));
    assert(shunt_upto(ts, 2) == st_ok(e.push(op), e.push(x)));
    assert(pop_ops(o, e.push(op), e.push(x)) == (e.push(op), e.push(x)));
    assert(shunt_upto(ts, 3) == st_ok(e.push(op).push(ot), e.push(x)));
    assert(shunt_upto(ts, 4) == st_ok(e.push(op).push(ot), e.push(x).push(y)));
    let o2 = e.push(x).push(y);
    assert(e.push(op).push(ot).drop_last() =~= e.push(op));
    assert(e.push(op).drop_last() =~= e);
    assert(pop_to_open(e.push(op), o2.push(ot)) == Some((e.push(op), o2.push(ot))));
    assert(pop_to_open(e.push(op).push(ot), o2) == Some((e.push(op), o2.push(ot))));
    assert(shunt_upto(ts, 5) == st_ok(e, o2.push(ot)));
    lemma_no_open_empty();
    assert(drain_stack(e, o2.push(ot)) == o2.push(ot));
    assert(o2.push(ot) =~= seq![x, y, ot]);
}

/// Function call argument grouping: in `f ( x , y )` the comma is
/// discarded and the function token is emitted only after both
/// arguments and the matching close parenthesis, so the conversion
/// ends `x y f`.
pub proof fn lemma_func_args_grouping(f: Seq<char>, x: TokenModel, y: TokenModel)
    requires
        is_operand(x),
        is_operand(y),
    ensures
        spec_convert(
            seq![
                TokenModel::Func(f),
                TokenModel::Open,
                x,
                TokenModel::Comma,
                y,
                TokenModel::Close,
            ],
        ) == Result::<Seq<TokenModel>, ConvErrorModel>::Ok(seq![x, y, TokenModel::Func(f)]),
{
    let ft = TokenModel::Func(f);
    let op = TokenModel::Open;
    let cl = TokenModel::Close;
    let cm = TokenModel::Comma;
    let e = Seq::<TokenModel>::empty();
    let ts = e.push(ft).push(op).push(x).push(cm).push(y).push(cl);
    assert(ts =~= seq![ft, op, x, cm, y, cl]);
    assert(shunt_upto(ts, 0) == st_ok(e, e));
    assert(shunt_upto(ts, 1) == st_ok(e.push(ft), e));
    assert(shunt_upto(ts, 2) == st_ok(e.push(ft).push(op), e));
    assert(shunt_upto(ts, 3) == st_ok(e.push(ft).push(op), e.push(x)));
    assert(pop_to_open(e.push(ft).push(op), e.push(x)) == Some(
        (e.push(ft).push(op), e.push(x)),
    ));
    assert(shunt_upto(ts, 4) == st_ok(e.push(ft).push(op), e.push(x)));
    assert(shunt_upto(ts, 5) == st_ok(e.push(ft).push(op), e.push(x).push(y)));
    let o2 = e.push(x).push(y);
    assert(pop_to_open(e.push(ft).push(op), o2) == Some((e.push(ft).push(op), o2)));
    assert(e.push(ft).push(op).drop_last() =~= e.push(ft));
    assert(e.push(ft).drop_last() =~= e);
    assert(shunt_upto(ts, 6) == st_ok(e, o2.push(ft)));
    lemma_no_open_empty();
    assert(drain_stack(e, o2.push(ft)) == o2.push(ft));
    assert(o2.push(ft) =~= seq![x, y, ft]);
}

} // verus!

