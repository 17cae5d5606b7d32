//! Tokens and the lexer.
//!
//! The lexer finds the lexemes of the input with a regular expression:
//! a run of decimal digits, or one of `+ - * / ( )`. Characters that belong
//! to no lexeme (whitespace among them) are skipped. Each lexeme then becomes
//! one token; a digit run that is not an ASCII decimal literal fitting in
//! `i64` is rejected with `LexError::InvalidNumber`.
use vstd::prelude::*;

verus! {

/// One lexical unit of an arithmetic expression.
#[derive(Debug, Clone, Copy, PartialEq, Eq, Structural)]
pub enum Token {
    Plus,
    Minus,
    Multiply,
    Divide,
    Number(i64),
    LParen,
    RParen,
}

/// Why the input text could not be split into tokens.
#[derive(Debug, Clone, Copy, PartialEq, Eq, Structural)]
pub enum LexError {
    /// A digit run that is not made of ASCII digits, or whose value
    /// exceeds `i64::MAX`.
    InvalidNumber,
}

/// The lexemes that the lexer's regular expression finds in `s`, in order.
pub uninterp spec fn lexemes_of(s: Seq<char>) -> Seq<Seq<char>>;

pub open spec fn is_ascii_digit(c: char) -> bool {
    '0' <= c && c <= '9'
}

pub open spec fn digit_value(c: char) -> int {
    c as int - '0' as int
}

/// `s` is a nonempty run of ASCII decimal digits.
pub open spec fn is_decimal(s: Seq<char>) -> bool {
    s.len() > 0 && forall|i: int| 0 <= i < s.len() ==> is_ascii_digit(#[trigger] s[i])
}

/// The value of the decimal numeral `s`, most significant digit first.
pub open spec fn decimal_value(s: Seq<char>) -> int
    decreases s.len(),
{
    if s.len() == 0 {
        0
    } else {
        decimal_value(s.drop_last()) * 10 + digit_value(s.last())
    }
}

/// The token that one lexeme stands for.
pub open spec fn token_of_lexeme(l: Seq<char>) -> Result<Token, LexError> {
    if l == seq!['+'] {
        Ok(Token::Plus)
    } else if l == seq!['-'] {
        Ok(Token::Minus)
    } else if l == seq!['*'] {
        Ok(Token::Multiply)
    } else if l == seq!['/'] {
        Ok(Token::Divide)
    } else if l == seq!['('] {
        Ok(Token::LParen)
    } else if l == seq![')'] {
        Ok(Token::RParen)
    } else if is_decimal(l) && decimal_value(l) <= i64::MAX {
        Ok(Token::Number(decimal_value(l) as i64))
    } else {
        Err(LexError::InvalidNumber)
    }
}

/// Every lexeme of `ls` stands for a token.
pub open spec fn all_lexemes_valid(ls: Seq<Seq<char>>) -> bool {
    forall|i: int| 0 <= i < ls.len() ==> (#[trigger] token_of_lexeme(ls[i])) is Ok
}

/// The tokens of `ls`, one for each lexeme; meaningful where
/// `all_lexemes_valid(ls)`.
pub open spec fn tokens_of_lexemes(ls: Seq<Seq<char>>) -> Seq<Token> {
    ls.map_values(|l: Seq<char>| token_of_lexeme(l)->Ok_0)
}

proof fn lemma_decimal_value_nonneg(s: Seq<char>)
    requires
        forall|i: int| 0 <= i < s.len() ==> is_ascii_digit(#[trigger] s[i]),
    ensures
        decimal_value(s) >= 0,
    decreases s.len(),
{
    if s.len() > 0 {
        lemma_decimal_value_nonneg(s.drop_last());
    }
}

/// A longer prefix of a digit run has a value at least as large.
proof fn lemma_decimal_prefix_grows(s: Seq<char>, i: int, j: int)
    requires
        0 <= i <= j <= s.len(),
        forall|k: int| 0 <= k < s.len() ==> is_ascii_digit(#[trigger] s[k]),
    ensures
        decimal_value(s.take(i)) <= decimal_value(s.take(j)),
    decreases j - i,
{
    if i < j {
        lemma_decimal_prefix_grows(s, i, j - 1);
        assert(s.take(j).drop_last() =~= s.take(j - 1));
        lemma_decimal_value_nonneg(s.take(j - 1));
    }
}

/// Reads an ASCII decimal literal that fits in `i64`.
pub fn parse_decimal(s: &Vec<char>) -> (r: Option<i64>)
    ensures
        r == (if is_decimal(s@) && decimal_value(s@) <= i64::MAX {
            Some(decimal_value(s@) as i64)
        } else {
            None::<i64>
        }),
{
    if s.len() == 0 {
        return None;
    }
    let mut v: i64 = 0;
    let mut i: usize = 0;
    while i < s.len()
        invariant
            0 <= i <= s@.len(),
            forall|k: int| 0 <= k < i ==> is_ascii_digit(#[trigger] s@[k]),
            v as int == decimal_value(s@.take(i as int)),
            0 <= v,
        decreases s.len() - i,
    {
        let c = s[i];
        if !('0' <= c && c <= '9') {
            assert(!is_decimal(s@));
            return None;
        }
        let d: i64 = (c as u32 - '0' as u32) as i64;
        assert(s@.take(i + 1).drop_last() =~= s@.take(i as int));
        if v > 922337203685477580 || (v == 922337203685477580 && d > 7) {
            proof {
                assert(decimal_value(s@.take(i + 1)) > i64::MAX) by (nonlinear_arith)
                    requires
                        decimal_value(s@.take(i + 1)) == v * 10 + d,
                        v > 922337203685477580 || (v == 922337203685477580 && d > 7),
                        d >= 0,
                ;
                if is_decimal(s@) {
                    lemma_decimal_prefix_grows(s@, i + 1, s@.len() as int);
                    assert(s@.take(s@.len() as int) =~= s@);
                }
            }
            return None;
        }
        assert(v * 10 + d <= i64::MAX) by (nonlinear_arith)
            requires
                v < 922337203685477580 || (v == 922337203685477580 && d <= 7),
                0 <= d <= 9,
        ;
        v = v * 10 + d;
        i = i + 1;
    }
    assert(s@.take(s@.len() as int) =~= s@);
    Some(v)
}

/// Turns one lexeme into its token.
pub fn token_from_lexeme(l: &Vec<char>) -> (r: Result<Token, LexError>)
    ensures
        r == token_of_lexeme(l@),
{
    if l.len() == 1 {
        let c = l[0];
        let t = if c == '+' {
            Some(Token::Plus)
        } else if c == '-' {
            Some(Token::Minus)
        } else if c == '*' {
            Some(Token::Multiply)
        } else if c == '/' {
            Some(Token::Divide)
        } else if c == '(' {
            Some(Token::LParen)
        } else if c == ')' {
            Some(Token::RParen)
        } else {
            None
        };
        if let Some(t) = t {
            proof {
                assert(l@ =~= seq![c]);
            }
            return Ok(t);
        }
        assert(l@ != seq!['+'] && l@ != seq!['-'] && l@ != seq!['*']) by {
            if l@ == seq!['+'] || l@ == seq!['-'] || l@ == seq!['*'] {
                assert(l@[0] == c);
            }
        }
        assert(l@ != seq!['/'] && l@ != seq!['('] && l@ != seq![')']) by {
            if l@ == seq!['/'] || l@ == seq!['('] || l@ == seq![')'] {
                assert(l@[0] == c);
            }
        }
    }
    match parse_decimal(l) {
        Some(v) => Ok(Token::Number(v)),
        None => Err(LexError::InvalidNumber),
    }
}

/// Turns a sequence of lexemes into tokens, one for each; fails where any
/// lexeme stands for no token.
pub fn tokens_from_lexemes(ls: &Vec<Vec<char>>) -> (r: Result<Vec<Token>, LexError>)
    ensures
        match r {
            Ok(v) => all_lexemes_valid(ls@.map_values(|l: Vec<char>| l@)) && v@
                == tokens_of_lexemes(ls@.map_values(|l: Vec<char>| l@)),
            Err(e) => !all_lexemes_valid(ls@.map_values(|l: Vec<char>| l@)) && e
                == LexError::InvalidNumber,
        },
{
    let ghost views = ls@.map_values(|l: Vec<char>| l@);
    let mut out: Vec<Token> = Vec::new();
    let mut i: usize = 0;
    while i < ls.len()
        invariant
            0 <= i <= ls@.len(),
            views == ls@.map_values(|l: Vec<char>| l@),
            forall|k: int| 0 <= k < i ==> (#[trigger] token_of_lexeme(views[k])) is Ok,
            out@ == tokens_of_lexemes(views.take(i as int)),
        decreases ls.len() - i,
    {
        match token_from_lexeme(&ls[i]) {
            Ok(t) => {
                out.push(t);
                assert(tokens_of_lexemes(views.take(i + 1)) =~= tokens_of_lexemes(
                    views.take(i as int),
                ).push(t));
            },
            Err(e) => {
                assert(token_of_lexeme(views[i as int]) is Err);
                return Err(e);
            },
        }
        i = i + 1;
    }
    assert(views.take(ls@.len() as int) =~= views);
    Ok(out)
}

/// Relies on regex::Regex::new, which accepts this fixed pattern, and on
/// regex::Regex::find_iter: the successive non-overlapping matches of the
/// pattern in `input`, each handed out as its characters. They depend on
/// `input` alone.
#[verifier::external_body]
fn find_lexemes(input: &str) -> (r: Vec<Vec<char>>)
    ensures
        r@.map_values(|l: Vec<char>| l@) == lexemes_of(input@),
{
    let re = regex::Regex::new(r"(\d+|\+|\-|\*|/|\(|\))").unwrap();
    re.find_iter(input).map(|m| m.as_str().chars().collect()).collect()
}

/// Splits `input` into tokens.
pub fn tokenize(input: &str) -> (r: Result<Vec<Token>, LexError>)
    ensures
        match r {
            Ok(v) => all_lexemes_valid(lexemes_of(input@)) && v@ == tokens_of_lexemes(
                lexemes_of(input@),
            ),
            Err(e) => !all_lexemes_valid(lexemes_of(input@)) && e == LexError::InvalidNumber,
        },
{
    let ls = find_lexemes(input);
    tokens_from_lexemes(&ls)
}

} // verus!
