//! The lexical classifier.
//!
//! `string_to_expr` scans a raw input line left to right, accumulating
//! runs of non-structural characters in a buffer. At each structural
//! character (`( ) + - * / ^ % , =`) the buffer, if non-empty, is
//! resolved to one token — numeric literal first, then function name,
//! then plain variable — and the structural character contributes its
//! own token, with two exceptions: the first `=` seen with a non-empty
//! buffer turns the buffer into the assignment target instead, and `-`
//! after an empty buffer becomes unary `Negate` rather than binary
//! `Sub`.

use vstd::prelude::*;

use crate::matcher::Matcher;
use crate::matcher::pattern_matches;
use crate::token::Expression;
use crate::token::Operator;
use crate::token::Token;
use crate::token::TokenModel;

verus! {

/// The names the name-to-function mapping step recognizes.
pub open spec fn is_known_func(name: Seq<char>) -> bool {
    ||| name == "sin"@
    ||| name == "cos"@
    ||| name == "tan"@
    ||| name == "sqrt"@
    ||| name == "ln"@
    ||| name == "log"@
    ||| name == "exp"@
    ||| name == "abs"@
}

/// What the name-to-function mapping step yields for a
/// function-shaped fragment.
pub open spec fn spec_map_func(name: Seq<char>) -> TokenModel {
    if is_known_func(name) {
        TokenModel::Func(name)
    } else {
        TokenModel::Unknown(name)
    }
}

/// Resolution of a non-empty buffer: numeric form is checked before
/// function-name form before falling back to variable.
pub open spec fn spec_classify(buf: Seq<char>, numpat: Seq<char>, funpat: Seq<char>) -> TokenModel {
    if pattern_matches(numpat, buf) {
        TokenModel::Literal(buf)
    } else if pattern_matches(funpat, buf) {
        spec_map_func(buf)
    } else {
        TokenModel::Var(buf)
    }
}

/// The scanner state: the assignment target if one has been taken,
/// the tokens emitted so far, and the pending buffer.
pub type LexState = (Option<Seq<char>>, Seq<TokenModel>, Seq<char>);

/// Appends the resolution of the buffer when it is non-empty.
pub open spec fn lex_flush(
    toks: Seq<TokenModel>,
    buf: Seq<char>,
    numpat: Seq<char>,
    funpat: Seq<char>,
) -> Seq<TokenModel> {
    if buf.len() > 0 {
        toks.push(spec_classify(buf, numpat, funpat))
    } else {
        toks
    }
}

/// One scanner step: the state after reading character `c`.
pub open spec fn lex_step(st: LexState, c: char, numpat: Seq<char>, funpat: Seq<char>) -> LexState {
    let (var, toks, buf) = st;
    if c == '(' {
        (var, lex_flush(toks, buf, numpat, funpat).push(TokenModel::Open), Seq::<char>::empty())
    } else if c == ')' {
        (var, lex_flush(toks, buf, numpat, funpat).push(TokenModel::Close), Seq::<char>::empty())
    } else if c == '+' {
        (
            var,
            lex_flush(toks, buf, numpat, funpat).push(TokenModel::Op(Operator::Add)),
            Seq::<char>::empty(),
        )
    } else if c == '*' {
        (
            var,
            lex_flush(toks, buf, numpat, funpat).push(TokenModel::Op(Operator::Mul)),
            Seq::<char>::empty(),
        )
    } else if c == '/' {
        (
            var,
            lex_flush(toks, buf, numpat, funpat).push(TokenModel::Op(Operator::Div)),
            Seq::<char>::empty(),
        )
    } else if c == '^' {
        (
            var,
            lex_flush(toks, buf, numpat, funpat).push(TokenModel::Op(Operator::Pow)),
            Seq::<char>::empty(),
        )
    } else if c == '%' {
        (
            var,
            lex_flush(toks, buf, numpat, funpat).push(TokenModel::Op(Operator::Mod)),
            Seq::<char>::empty(),
        )
    } else if c == ',' {
        (var, lex_flush(toks, buf, numpat, funpat).push(TokenModel::Comma), Seq::<char>::empty())
    } else if c == '-' {
        // A `-` with a pending buffer is binary subtraction; with an
        // empty buffer there is no left operand, so it is unary
        // negation.
        if buf.len() > 0 {
            (
                var,
                toks.push(spec_classify(buf, numpat, funpat)).push(TokenModel::Op(Operator::Sub)),
                Seq::<char>::empty(),
            )
        } else {
            (var, toks.push(TokenModel::Op(Operator::Negate)), buf)
        }
    } else if c == '=' {
        // The first `=` after a non-empty buffer takes the buffer as
        // the assignment target; `=` never becomes a token. Once the
        // target is taken, later `=` characters merely accumulate
        // like ordinary characters.
        if var is None && buf.len() > 0 {
            (Some(buf), toks, Seq::<char>::empty())
        } else if var is Some {
            (var, toks, buf.push('='))
        } else {
            (var, toks, buf)
        }
    } else {
        (var, toks, buf.push(c))
    }
}

/// The scanner state after the first `i` characters of `cs`.
pub open spec fn lex_upto(cs: Seq<char>, numpat: Seq<char>, funpat: Seq<char>, i: int) -> LexState
    decreases i,
{
    if i <= 0 {
        (None, Seq::<TokenModel>::empty(), Seq::<char>::empty())
    } else {
        lex_step(lex_upto(cs, numpat, funpat, i - 1), cs[i - 1], numpat, funpat)
    }
}

/// The classifier as a whole: the assignment target (empty when none
/// was requested) and the infix token sequence for the input `cs`,
/// when the numeric matcher's pattern is `numpat` and the
/// function-name matcher's pattern is `funpat`.
pub open spec fn spec_lex(cs: Seq<char>, numpat: Seq<char>, funpat: Seq<char>) -> (
    Seq<char>,
    Seq<TokenModel>,
) {
    let (var, toks, buf) = lex_upto(cs, numpat, funpat, cs.len() as int);
    (
        match var {
            Some(v) => v,
            None => Seq::<char>::empty(),
        },
        lex_flush(toks, buf, numpat, funpat),
    )
}

/// Relies on `String: FromIterator<&char>` (via `Iterator::collect`):
/// the string of exactly these characters, in order.
#[verifier::external_body]
pub(crate) fn chars_to_string(cs: &Vec<char>) -> (r: String)
    ensures
        r@ == cs@,
{
    cs.iter().collect()
}

/// Whether `name` is one of the recognized function names.
fn is_known_name(name: &String) -> (r: bool)
    ensures
        r == is_known_func(name@),
{
    ||| *name == "sin".to_owned()
    ||| *name == "cos".to_owned()
    ||| *name == "tan".to_owned()
    ||| *name == "sqrt".to_owned()
    ||| *name == "ln".to_owned()
    ||| *name == "log".to_owned()
    ||| *name == "exp".to_owned()
    ||| *name == "abs".to_owned()
}

/// The name-to-function mapping step: a recognized name becomes a
/// `Func` token, an unrecognized (but function-shaped) one becomes
/// `Unknown`, whose presence during conversion is always an error.
pub fn map_string_to_func(name: &String) -> (r: Token)
    ensures
        r@ == spec_map_func(name@),
{
    if is_known_name(name) {
        Token::Func(name.clone())
    } else {
        Token::Unknown(name.clone())
    }
}

/// Resolves a buffered fragment to a token: `None` when the buffer is
/// empty, otherwise the literal / function / variable classification.
pub fn decide_what_to_push(builder: &String, numeric: &Matcher, function: &Matcher) -> (r: Option<
    Token,
>)
    ensures
        builder@.len() == 0 <==> r is None,
        r matches Some(t) ==> t@ == spec_classify(
            builder@,
            numeric.pattern_view(),
            function.pattern_view(),
        ),
{
    if builder.as_str().is_empty() {
        None
    } else if numeric.is_match(builder.as_str()) {
        Some(Token::Literal(builder.clone()))
    } else if function.is_match(builder.as_str()) {
        Some(map_string_to_func(builder))
    } else {
        Some(Token::Var(builder.clone()))
    }
}

/// The lexical classifier: scans `input` and yields the assignment
/// target (empty when none) and the infix token sequence.
pub fn string_to_expr(input: &String, numeric: &Matcher, function: &Matcher) -> (r: (
    String,
    Expression,
))
    ensures
        r.0@ == spec_lex(input@, numeric.pattern_view(), function.pattern_view()).0,
        r.1@ == spec_lex(input@, numeric.pattern_view(), function.pattern_view()).1,
{
    let s = input.as_str();
    let n = s.unicode_len();
    let mut variable: String = String::new();
    let mut var_set: bool = false;
    let mut expr = Expression::new();
    let mut builder: Vec<char> = Vec::new();
    let mut i: usize = 0;
    while i < n
        invariant
            n == input@.len(),
            i <= n,
            s@ == input@,
            ({
                let st = lex_upto(input@, numeric.pattern_view(), function.pattern_view(), i as int);
                &&& if var_set {
                    st.0 == Some(variable@)
                } else {
                    st.0 is None && variable@ == Seq::<char>::empty()
                }
                &&& st.1 == expr@
                &&& st.2 == builder@
            }),
        decreases n - i,
    {
        let c = s.get_char(i);
        match c {
            '(' => {
                if let Some(x) = decide_what_to_push(&chars_to_string(&builder), numeric, function) {
                    expr.push(x);
                    builder = Vec::new();
                }
                expr.push(Token::Open);
            },
            ')' => {
                if let Some(x) = decide_what_to_push(&chars_to_string(&builder), numeric, function) {
                    expr.push(x);
                    builder = Vec::new();
                }
                expr.push(Token::Close);
            },
            '+' => {
                if let Some(x) = decide_what_to_push(&chars_to_string(&builder), numeric, function) {
                    expr.push(x);
                    builder = Vec::new();
                }
                expr.push(Token::Op(Operator::Add));
            },
            '-' => {
                if let Some(x) = decide_what_to_push(&chars_to_string(&builder), numeric, function) {
                    expr.push(x);
                    expr.push(Token::Op(Operator::Sub));
                    builder = Vec::new();
                } else {
                    expr.push(Token::Op(Operator::Negate));
                }
            },
            '*' => {
                if let Some(x) = decide_what_to_push(&chars_to_string(&builder), numeric, function) {
                    expr.push(x);
                    builder = Vec::new();
                }
                expr.push(Token::Op(Operator::Mul));
            },
            '/' => {
                if let Some(x) = decide_what_to_push(&chars_to_string(&builder), numeric, function) {
                    expr.push(x);
                    builder = Vec::new();
                }
                expr.push(Token::Op(Operator::Div));
            },
            '^' => {
                if let Some(x) = decide_what_to_push(&chars_to_string(&builder), numeric, function) {
                    expr.push(x);
                    builder = Vec::new();
                }
                expr.push(Token::Op(Operator::Pow));
            },
            ',' => {
                if let Some(x) = decide_what_to_push(&chars_to_string(&builder), numeric, function) {
                    expr.push(x);
                    builder = Vec::new();
                }
                expr.push(Token::Comma);
            },
            '%' => {
                if let Some(x) = decide_what_to_push(&chars_to_string(&builder), numeric, function) {
                    expr.push(x);
                    builder = Vec::new();
                }
                expr.push(Token::Op(Operator::Mod));
            },
            '=' => {
                if !var_set && builder.len() > 0 {
                    variable = chars_to_string(&builder);
                    var_set = true;
                    builder = Vec::new();
                } else if var_set {
                    builder.push('=');
                }
            },
            _ => {
                builder.push(c);
            },
        }
        i = i + 1;
    }
    if let Some(x) = decide_what_to_push(&chars_to_string(&builder), numeric, function) {
        expr.push(x);
    }
    (variable, expr)
}

/// An input line without any `=` character requests no assignment:
/// the classifier leaves the variable name empty.
pub proof fn lemma_no_assign_no_variable(cs: Seq<char>, numpat: Seq<char>, funpat: Seq<char>)
    requires
        forall|i: int| 0 <= i < cs.len() ==> cs[i] != '=',
    ensures
        spec_lex(cs, numpat, funpat).0 == Seq::<char>::empty(),
{
    lemma_no_assign_upto(cs, numpat, funpat, cs.len() as int);
}

proof fn lemma_no_assign_upto(cs: Seq<char>, numpat: Seq<char>, funpat: Seq<char>, i: int)
    requires
        i <= cs.len(),
        forall|j: int| 0 <= j < cs.len() ==> cs[j] != '=',
    ensures
        lex_upto(cs, numpat, funpat, i).0 is None,
    decreases i,
{
    if i > 0 {
        lemma_no_assign_upto(cs, numpat, funpat, i - 1);
    }
}

} // verus!
