//! The token data model: operators, tokens, and expressions.
//!
//! An `Expression` is an ordered, appendable sequence of `Token`s; it is
//! the token stream itself, in infix or postfix order depending on which
//! stage produced it. At the specification level a token is abstracted by
//! `TokenModel`, where every piece of text is a `Seq<char>`.

use vstd::prelude::*;

verus! {

/// The closed set of operators. `Negate` is unary negation, distinct
/// from binary subtraction `Sub`.
#[derive(Clone, Copy, PartialEq, Eq, Structural, Debug)]
pub enum Operator {
    Add,
    Sub,
    Mul,
    Div,
    Pow,
    Mod,
    Negate,
}

/// The specification-level view of a `Token`: the same shape, with all
/// text abstracted to sequences of characters.
pub enum TokenModel {
    Literal(Seq<char>),
    Var(Seq<char>),
    Func(Seq<char>),
    Op(Operator),
    Open,
    Close,
    Comma,
    Unknown(Seq<char>),
}

/// A lexical token.
///
/// `Literal` keeps the original textual form of a numeric literal;
/// `Var` is an identifier that is neither a literal nor a function name;
/// `Func` is a recognized function name; `Unknown` records text that was
/// function-shaped but not recognized, which the postfix converter
/// always rejects.
#[derive(Debug)]
pub enum Token {
    Literal(String),
    Var(String),
    Func(String),
    Op(Operator),
    Open,
    Close,
    Comma,
    Unknown(String),
}

impl View for Token {
    type V = TokenModel;

    open spec fn view(&self) -> TokenModel {
        match self {
            Token::Literal(s) => TokenModel::Literal(s@),
            Token::Var(s) => TokenModel::Var(s@),
            Token::Func(s) => TokenModel::Func(s@),
            Token::Op(o) => TokenModel::Op(*o),
            Token::Open => TokenModel::Open,
            Token::Close => TokenModel::Close,
            Token::Comma => TokenModel::Comma,
            Token::Unknown(s) => TokenModel::Unknown(s@),
        }
    }
}

impl Clone for Token {
    fn clone(&self) -> (r: Token)
        ensures
            r@ == self@,
    {
        match self {
            Token::Literal(s) => Token::Literal(s.clone()),
            Token::Var(s) => Token::Var(s.clone()),
            Token::Func(s) => Token::Func(s.clone()),
            Token::Op(o) => Token::Op(*o),
            Token::Open => Token::Open,
            Token::Close => Token::Close,
            Token::Comma => Token::Comma,
            Token::Unknown(s) => Token::Unknown(s.clone()),
        }
    }
}

impl PartialEq for Token {
    fn eq(&self, other: &Token) -> (r: bool) {
        match (self, other) {
            (Token::Literal(a), Token::Literal(b)) => *a == *b,
            (Token::Var(a), Token::Var(b)) => *a == *b,
            (Token::Func(a), Token::Func(b)) => *a == *b,
            (Token::Op(a), Token::Op(b)) => *a == *b,
            (Token::Open, Token::Open) => true,
            (Token::Close, Token::Close) => true,
            (Token::Comma, Token::Comma) => true,
            (Token::Unknown(a), Token::Unknown(b)) => *a == *b,
            _ => false,
        }
    }
}

impl vstd::std_specs::cmp::PartialEqSpecImpl for Token {
    open spec fn obeys_eq_spec() -> bool {
        true
    }

    open spec fn eq_spec(&self, other: &Token) -> bool {
        self@ == other@
    }
}

/// The views of a sequence of tokens, in order.
pub open spec fn token_models(ts: Seq<Token>) -> Seq<TokenModel> {
    ts.map_values(|t: Token| t@)
}

/// An ordered, appendable sequence of tokens. Tokens are only ever
/// appended; an expression is built by one stage and then handed,
/// fully formed, to the next.
#[derive(Debug)]
pub struct Expression {
    tokens: Vec<Token>,
}

impl View for Expression {
    type V = Seq<TokenModel>;

    closed spec fn view(&self) -> Seq<TokenModel> {
        self.tokens@.map_values(|t: Token| t@)
    }
}

impl Expression {
    /// An empty expression.
    pub fn new() -> (r: Expression)
        ensures
            r@ == Seq::<TokenModel>::empty(),
    {
        let r = Expression { tokens: Vec::new() };
        proof {
            assert(r@ =~= Seq::<TokenModel>::empty());
        }
        r
    }

    /// An expression over the given tokens, in their order.
    pub fn from_tokens(tokens: Vec<Token>) -> (r: Expression)
        ensures
            r@ == token_models(tokens@),
    {
        Expression { tokens }
    }

    /// Appends one token at the end.
    pub fn push(&mut self, t: Token)
        ensures
            final(self)@ == old(self)@.push(t@),
    {
        self.tokens.push(t);
        proof {
            assert(self@ =~= old(self)@.push(self.tokens@.last()@));
        }
    }

    /// The number of tokens.
    pub fn len(&self) -> (r: usize)
        ensures
            r == self@.len(),
    {
        self.tokens.len()
    }

    /// The token at position `i`.
    pub fn get_token(&self, i: usize) -> (r: &Token)
        requires
            i < self@.len(),
        ensures
            r@ == self@[i as int],
    {
        &self.tokens[i]
    }
}

} // verus!
