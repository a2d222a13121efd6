use shunting::matcher::Matcher;
use shunting::parse_input;
use shunting::postfix::ConvError;
use shunting::strip_white_space;
use shunting::token::Expression;
use shunting::token::Operator;
use shunting::token::Token;

fn matchers() -> (Matcher, Matcher) {
    let numeric = Matcher::compile("^[0-9]+(\\.[0-9]+)?$".to_string()).unwrap();
    let function = Matcher::compile("^[a-z]{2,}$".to_string()).unwrap();
    (numeric, function)
}

fn tokens_of(e: &Expression) -> Vec<Token> {
    let mut out: Vec<Token> = Vec::new();
    let mut i = 0;
    while i < e.len() {
        out.push(e.get_token(i).clone());
        i += 1;
    }
    out
}

fn lit(s: &str) -> Token {
    Token::Literal(s.to_string())
}

fn var(s: &str) -> Token {
    Token::Var(s.to_string())
}

fn op(o: Operator) -> Token {
    Token::Op(o)
}

fn parse_ok(input: &str) -> (String, Vec<Token>) {
    let (numeric, function) = matchers();
    let (variable, result) = parse_input(&input.to_string(), &numeric, &function);
    (variable, tokens_of(&result.unwrap()))
}

fn parse_err(input: &str) -> (String, ConvError) {
    let (numeric, function) = matchers();
    let (variable, result) = parse_input(&input.to_string(), &numeric, &function);
    (variable, result.unwrap_err())
}

#[test]
fn paren_grouping() {
    let (variable, toks) = parse_ok("(1+2)*3");
    assert_eq!(variable, "");
    assert_eq!(
        toks,
        vec![lit("1"), lit("2"), op(Operator::Add), lit("3"), op(Operator::Mul)]
    );
}

#[test]
fn precedence_add_then_mul() {
    let (_, toks) = parse_ok("2+3*4");
    assert_eq!(
        toks,
        vec![lit("2"), lit("3"), lit("4"), op(Operator::Mul), op(Operator::Add)]
    );
}

#[test]
fn precedence_mul_then_add() {
    let (_, toks) = parse_ok("2*3+4");
    assert_eq!(
        toks,
        vec![lit("2"), lit("3"), op(Operator::Mul), lit("4"), op(Operator::Add)]
    );
}

#[test]
fn pow_right_assoc() {
    let (_, toks) = parse_ok("2^3^4");
    assert_eq!(
        toks,
        vec![lit("2"), lit("3"), lit("4"), op(Operator::Pow), op(Operator::Pow)]
    );
}

#[test]
fn sub_left_assoc() {
    let (_, toks) = parse_ok("5-3-1");
    assert_eq!(
        toks,
        vec![lit("5"), lit("3"), op(Operator::Sub), lit("1"), op(Operator::Sub)]
    );
}

#[test]
fn unary_negation_before_pow() {
    let (_, toks) = parse_ok("-2^2");
    assert_eq!(
        toks,
        vec![lit("2"), op(Operator::Negate), lit("2"), op(Operator::Pow)]
    );
}

#[test]
fn unary_negation_alone() {
    let (_, toks) = parse_ok("-x");
    assert_eq!(toks, vec![var("x"), op(Operator::Negate)]);
}

#[test]
fn func_call_argument_grouping() {
    let (_, toks) = parse_ok("sin(x,y)");
    assert_eq!(toks, vec![var("x"), var("y"), Token::Func("sin".to_string())]);
}

#[test]
fn func_call_single_argument() {
    let (_, toks) = parse_ok("sqrt(9)");
    assert_eq!(toks, vec![lit("9"), Token::Func("sqrt".to_string())]);
}

#[test]
fn assignment_extraction() {
    let (variable, toks) = parse_ok("x=2+3");
    assert_eq!(variable, "x");
    assert_eq!(toks, vec![lit("2"), lit("3"), op(Operator::Add)]);
}

#[test]
fn no_assignment_empty_variable() {
    let (variable, toks) = parse_ok("2+3");
    assert_eq!(variable, "");
    assert_eq!(toks, vec![lit("2"), lit("3"), op(Operator::Add)]);
}

#[test]
fn assignment_kept_on_error() {
    let (variable, err) = parse_err("x=1+2)");
    assert_eq!(variable, "x");
    assert!(matches!(err, ConvError::UnmatchedClose));
}

#[test]
fn close_without_open() {
    let (_, err) = parse_err("1+2)");
    assert!(matches!(err, ConvError::UnmatchedClose));
}

#[test]
fn open_without_close() {
    let (_, err) = parse_err("(1+2");
    assert!(matches!(err, ConvError::UnmatchedOpen));
}

#[test]
fn func_call_missing_close() {
    let (_, err) = parse_err("sin(x,y");
    assert!(matches!(err, ConvError::UnmatchedOpen));
}

#[test]
fn lone_open_parenthesis() {
    let (_, err) = parse_err("(");
    assert!(matches!(err, ConvError::UnmatchedOpen));
}

#[test]
fn error_messages() {
    assert_eq!(
        parse_err("1,2").1.message(),
        "Malformed Expression, comma but no Parenthesis"
    );
    assert_eq!(
        parse_err("1+2)").1.message(),
        "Malformed Expression, found a ) without ("
    );
    assert_eq!(
        parse_err("(1+2").1.message(),
        "Malformed Expression, found a ( without )"
    );
    assert_eq!(
        parse_err("foo(2)").1.message(),
        "You either misspelled a function, or it is not yet implemented. \
         The unknown string was: foo"
    );
}

#[test]
fn comma_without_parenthesis() {
    let (_, err) = parse_err("1,2");
    assert!(matches!(err, ConvError::UnmatchedComma));
}

#[test]
fn unknown_function_name() {
    let (_, err) = parse_err("foo(2)");
    match err {
        ConvError::UnknownToken(text) => assert_eq!(text, "foo"),
        other => panic!("expected an unknown-token error, got {:?}", other),
    }
}

#[test]
fn mod_operator() {
    let (_, toks) = parse_ok("7%3");
    assert_eq!(toks, vec![lit("7"), lit("3"), op(Operator::Mod)]);
}

#[test]
fn div_left_assoc() {
    let (_, toks) = parse_ok("8/2/2");
    assert_eq!(
        toks,
        vec![lit("8"), lit("2"), op(Operator::Div), lit("2"), op(Operator::Div)]
    );
}

#[test]
fn decimal_literal_and_variable() {
    let (_, toks) = parse_ok("2.5*x");
    assert_eq!(toks, vec![lit("2.5"), var("x"), op(Operator::Mul)]);
}

#[test]
fn empty_input() {
    let (variable, toks) = parse_ok("");
    assert_eq!(variable, "");
    assert_eq!(toks, Vec::<Token>::new());
}

#[test]
fn strip_white_space_removes_all_whitespace() {
    assert_eq!(strip_white_space(&" 1 +\t 2 \n".to_string()), "1+2");
}

#[test]
fn strip_white_space_keeps_other_characters() {
    assert_eq!(strip_white_space(&"sin( x , y )".to_string()), "sin(x,y)");
}

#[test]
fn matcher_rejects_malformed_pattern() {
    assert!(Matcher::compile("(".to_string()).is_none());
}

#[test]
fn classification_literal_versus_variable() {
    let (_, toks) = parse_ok("2");
    assert_eq!(toks, vec![lit("2")]);
    let (_, toks) = parse_ok("x");
    assert_eq!(toks, vec![var("x")]);
}
