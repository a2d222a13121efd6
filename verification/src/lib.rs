//! Infix-to-postfix expression parsing.
//!
//! The library tokenizes a raw input line (with an optional leading
//! `name=` assignment target) into a sequence of tokens, and converts
//! that infix token sequence into postfix (reverse Polish) order with
//! the shunting-yard algorithm. `parse_input` is the whole pipeline;
//! `strip_white_space` prepares a raw line for it.

pub mod laws;
pub mod lexer;
pub mod matcher;
pub mod postfix;
pub mod token;

use vstd::prelude::*;

use crate::lexer::chars_to_string;
use crate::lexer::spec_lex;
use crate::lexer::string_to_expr;
use crate::matcher::Matcher;
use crate::postfix::ConvError;
use crate::postfix::ConvErrorModel;
use crate::postfix::convert_to_postfix;
use crate::postfix::spec_convert;
use crate::token::Expression;
use crate::token::TokenModel;

verus! {

/// The characters `strip_white_space` removes: the whitespace
/// characters of Unicode.
pub open spec fn is_ws_char(c: char) -> bool {
    ||| c == ' '
    ||| c == '\t'
    ||| c == '\n'
    ||| c == '\r'
    ||| c == '\u{000B}'
    ||| c == '\u{000C}'
    ||| c == '\u{0085}'
    ||| c == '\u{00A0}'
    ||| c == '\u{1680}'
    ||| c == '\u{2000}'
    ||| c == '\u{2001}'
    ||| c == '\u{2002}'
    ||| c == '\u{2003}'
    ||| c == '\u{2004}'
    ||| c == '\u{2005}'
    ||| c == '\u{2006}'
    ||| c == '\u{2007}'
    ||| c == '\u{2008}'
    ||| c == '\u{2009}'
    ||| c == '\u{200A}'
    ||| c == '\u{2028}'
    ||| c == '\u{2029}'
    ||| c == '\u{202F}'
    ||| c == '\u{205F}'
    ||| c == '\u{3000}'
}

/// The first `i` characters of `cs` with all whitespace removed,
/// order kept.
pub open spec fn strip_ws_upto(cs: Seq<char>, i: int) -> Seq<char>
    decreases i,
{
    if i <= 0 {
        Seq::<char>::empty()
    } else if is_ws_char(cs[i - 1]) {
        strip_ws_upto(cs, i - 1)
    } else {
        strip_ws_upto(cs, i - 1).push(cs[i - 1])
    }
}

/// `cs` with all whitespace removed, order kept.
pub open spec fn strip_ws(cs: Seq<char>) -> Seq<char> {
    strip_ws_upto(cs, cs.len() as int)
}

/// Whether `c` is a whitespace character; mirrors `is_ws_char`.
fn is_white(c: char) -> (r: bool)
    ensures
        r == is_ws_char(c),
{
    c == ' ' || c == '\t' || c == '\n' || c == '\r' || c == '\u{000B}' || c == '\u{000C}' || c
        == '\u{0085}' || c == '\u{00A0}' || c == '\u{1680}' || c == '\u{2000}' || c == '\u{2001}'
        || c == '\u{2002}' || c == '\u{2003}' || c == '\u{2004}' || c == '\u{2005}' || c
        == '\u{2006}' || c == '\u{2007}' || c == '\u{2008}' || c == '\u{2009}' || c == '\u{200A}'
        || c == '\u{2028}' || c == '\u{2029}' || c == '\u{202F}' || c == '\u{205F}' || c
        == '\u{3000}'
}

/// Removes every whitespace character from `input`, keeping all other
/// characters in order.
pub fn strip_white_space(input: &String) -> (r: String)
    ensures
        r@ == strip_ws(input@),
{
    let s = input.as_str();
    let n = s.unicode_len();
    let mut kept: Vec<char> = Vec::new();
    let mut i: usize = 0;
    while i < n
        invariant
            n == input@.len(),
            i <= n,
            s@ == input@,
            kept@ == strip_ws_upto(input@, i as int),
        decreases n - i,
    {
        let c = s.get_char(i);
        if !is_white(c) {
            kept.push(c);
        }
        i = i + 1;
    }
    chars_to_string(&kept)
}

/// The whole pipeline: classifies `input` into an assignment target
/// and an infix token sequence, then converts the sequence to postfix
/// order. The target (empty when none was requested) is passed
/// through unchanged; the result is the postfix expression, or the
/// error on which conversion stopped with all partial output
/// discarded.
pub fn parse_input(input: &String, numeric_matcher: &Matcher, function_matcher: &Matcher) -> (r: (
    String,
    Result<Expression, ConvError>,
))
    ensures
        r.0@ == spec_lex(input@, numeric_matcher.pattern_view(), function_matcher.pattern_view()).0,
        match r.1 {
            Ok(e) => spec_convert(
                spec_lex(input@, numeric_matcher.pattern_view(), function_matcher.pattern_view()).1,
            ) == Result::<Seq<TokenModel>, ConvErrorModel>::Ok(e@),
            Err(er) => spec_convert(
                spec_lex(input@, numeric_matcher.pattern_view(), function_matcher.pattern_view()).1,
            ) == Result::<Seq<TokenModel>, ConvErrorModel>::Err(er@),
        },
{
    let (variable, expr) = string_to_expr(input, numeric_matcher, function_matcher);
    convert_to_postfix(variable, expr)
}

} // verus!
