//! Recursive-descent parsing of tokens into a syntax tree.
//!
//! The grammar, from the loosest binding level to the tightest:
//!
//! ```text
//! expression = term { ("+" | "-") term }
//! term       = factor { ("*" | "/") factor }
//! factor     = Number | "(" expression ")" | ("+" | "-") factor
//! ```
//!
//! Both repetitions fold to the left, so `a - b - c` is `(a - b) - c`. The
//! whole token sequence must form one expression: a token left over after
//! it is reported as unexpected.
use vstd::prelude::*;

use crate::ast::{printed, value_of, well_formed, ASTNode};
use crate::token::Token;

verus! {

/// Why a token sequence is not an expression.
#[derive(Debug, Clone, Copy, PartialEq, Eq, Structural)]
pub enum ParseError {
    /// A token where the grammar allows no token of its kind.
    UnexpectedToken(Token),
    /// An opening parenthesis whose expression is not followed by `)`.
    UnmatchedParenthesis,
    /// The tokens ran out where an operand was expected.
    UnexpectedEndOfInput,
}

pub open spec fn is_additive(t: Token) -> bool {
    t == Token::Plus || t == Token::Minus
}

pub open spec fn is_multiplicative(t: Token) -> bool {
    t == Token::Multiply || t == Token::Divide
}

/// A tree read from `t`, and the position just past what was read.
pub type Reading = Result<(ASTNode, int), ParseError>;

/// Reads an expression from `t` at position `p`.
pub open spec fn expression_at(t: Seq<Token>, p: int) -> Reading
    decreases t.len() - p, 3int,
{
    match term_at(t, p) {
        Ok((l, q)) => if p < q <= t.len() {
            expression_rest(t, l, q)
        } else {
            Ok((l, q))
        },
        Err(e) => Err(e),
    }
}

/// Continues an expression whose left part `l` ends before position `p`:
/// each `+` or `-` there, and the term after it, extend `l` to the left.
pub open spec fn expression_rest(t: Seq<Token>, l: ASTNode, p: int) -> Reading
    decreases t.len() - p, 3int,
{
    if 0 <= p < t.len() && is_additive(t[p]) {
        match term_at(t, p + 1) {
            Ok((r, q)) => {
                let n = ASTNode::BinOp { left: Box::new(l), op: t[p], right: Box::new(r) };
                if p < q <= t.len() {
                    expression_rest(t, n, q)
                } else {
                    Ok((n, q))
                }
            },
            Err(e) => Err(e),
        }
    } else {
        Ok((l, p))
    }
}

/// Reads a term from `t` at position `p`.
pub open spec fn term_at(t: Seq<Token>, p: int) -> Reading
    decreases t.len() - p, 2int,
{
    match factor_at(t, p) {
        Ok((l, q)) => if p < q <= t.len() {
            term_rest(t, l, q)
        } else {
            Ok((l, q))
        },
        Err(e) => Err(e),
    }
}

/// Continues a term whose left part `l` ends before position `p`: each `*`
/// or `/` there, and the factor after it, extend `l` to the left.
pub open spec fn term_rest(t: Seq<Token>, l: ASTNode, p: int) -> Reading
    decreases t.len() - p, 2int,
{
    if 0 <= p < t.len() && is_multiplicative(t[p]) {
        match factor_at(t, p + 1) {
            Ok((r, q)) => {
                let n = ASTNode::BinOp { left: Box::new(l), op: t[p], right: Box::new(r) };
                if p < q <= t.len() {
                    term_rest(t, n, q)
                } else {
                    Ok((n, q))
                }
            },
            Err(e) => Err(e),
        }
    } else {
        Ok((l, p))
    }
}

/// Reads a factor from `t` at position `p`.
pub open spec fn factor_at(t: Seq<Token>, p: int) -> Reading
    decreases t.len() - p, 1int,
{
    if p < 0 || p >= t.len() {
        Err(ParseError::UnexpectedEndOfInput)
    } else {
        match t[p] {
            Token::Number(v) => Ok((ASTNode::Number(v), p + 1)),
            Token::LParen => match expression_at(t, p + 1) {
                Ok((n, q)) => if 0 <= q < t.len() && t[q] == Token::RParen {
                    Ok((n, q + 1))
                } else {
                    Err(ParseError::UnmatchedParenthesis)
                },
                Err(e) => Err(e),
            },
            Token::Plus | Token::Minus => match factor_at(t, p + 1) {
                Ok((n, q)) => Ok((ASTNode::UnaryOp { op: t[p], node: Box::new(n) }, q)),
                Err(e) => Err(e),
            },
            tok => Err(ParseError::UnexpectedToken(tok)),
        }
    }
}

/// The tree of the whole of `t`, read from position `p`: an expression that
/// ends exactly at the end of `t`.
pub open spec fn parse_from(t: Seq<Token>, p: int) -> Result<ASTNode, ParseError> {
    match expression_at(t, p) {
        Ok((n, q)) => if 0 <= q < t.len() {
            Err(ParseError::UnexpectedToken(t[q]))
        } else {
            Ok(n)
        },
        Err(e) => Err(e),
    }
}

/// The tree of the token sequence `t`.
pub open spec fn parse_tokens(t: Seq<Token>) -> Result<ASTNode, ParseError> {
    parse_from(t, 0)
}

/// A cursor over a token sequence.
#[derive(Debug)]
pub struct Parser {
    pub tokens: Vec<Token>,
    pub pos: usize,
}

impl Parser {
    /// A parser at the start of `tokens`.
    pub fn new(tokens: Vec<Token>) -> (r: Parser)
        ensures
            r.tokens@ == tokens@,
            r.pos == 0,
    {
        Parser { tokens, pos: 0 }
    }

    /// Parses the tokens from the cursor on as one expression; tokens left
    /// over after the expression are an error.
    pub fn parse(&mut self) -> (r: Result<ASTNode, ParseError>)
        ensures
            final(self).tokens@ == old(self).tokens@,
            r == parse_from(old(self).tokens@, old(self).pos as int),
            r matches Ok(n) ==> well_formed(n),
    {
        let node = self.parse_expression()?;
        if self.pos < self.tokens.len() {
            Err(ParseError::UnexpectedToken(self.tokens[self.pos]))
        } else {
            Ok(node)
        }
    }

    /// Parses an expression at the cursor and moves the cursor past it.
    pub fn parse_expression(&mut self) -> (r: Result<ASTNode, ParseError>)
        ensures
            final(self).tokens@ == old(self).tokens@,
            match expression_at(old(self).tokens@, old(self).pos as int) {
                Ok((n, q)) => r == Ok::<ASTNode, ParseError>(n) && final(self).pos == q,
                Err(e) => r == Err::<ASTNode, ParseError>(e),
            },
            r is Ok ==> old(self).pos < final(self).pos <= final(self).tokens@.len(),
            r matches Ok(n) ==> well_formed(n),
        decreases old(self).tokens@.len() - old(self).pos, 3int,
    {
        let ghost t = self.tokens@;
        let ghost p0 = self.pos as int;
        let mut node = self.parse_term()?;
        while self.pos < self.tokens.len()
            invariant
                self.tokens@ == t,
                t == old(self).tokens@,
                p0 == old(self).pos,
                p0 < self.pos <= t.len(),
                well_formed(node),
                expression_at(t, p0) == expression_rest(t, node, self.pos as int),
            ensures
                self.tokens@ == t,
                p0 < self.pos <= t.len(),
                well_formed(node),
                expression_at(t, p0) == Ok::<(ASTNode, int), ParseError>((node, self.pos as int)),
            decreases t.len() - self.pos,
        {
            let op = self.tokens[self.pos];
            if !(op == Token::Plus || op == Token::Minus) {
                break;
            }
            self.pos = self.pos + 1;
            let right = self.parse_term()?;
            node = ASTNode::BinOp { left: Box::new(node), op, right: Box::new(right) };
        }
        Ok(node)
    }

    /// Parses a term at the cursor and moves the cursor past it.
    pub fn parse_term(&mut self) -> (r: Result<ASTNode, ParseError>)
        ensures
            final(self).tokens@ == old(self).tokens@,
            match term_at(old(self).tokens@, old(self).pos as int) {
                Ok((n, q)) => r == Ok::<ASTNode, ParseError>(n) && final(self).pos == q,
                Err(e) => r == Err::<ASTNode, ParseError>(e),
            },
            r is Ok ==> old(self).pos < final(self).pos <= final(self).tokens@.len(),
            r matches Ok(n) ==> well_formed(n),
        decreases old(self).tokens@.len() - old(self).pos, 2int,
    {
        let ghost t = self.tokens@;
        let ghost p0 = self.pos as int;
        let mut node = self.parse_factor()?;
        while self.pos < self.tokens.len()
            invariant
                self.tokens@ == t,
                t == old(self).tokens@,
                p0 == old(self).pos,
                p0 < self.pos <= t.len(),
                well_formed(node),
                term_at(t, p0) == term_rest(t, node, self.pos as int),
            ensures
                self.tokens@ == t,
                p0 < self.pos <= t.len(),
                well_formed(node),
                term_at(t, p0) == Ok::<(ASTNode, int), ParseError>((node, self.pos as int)),
            decreases t.len() - self.pos,
        {
            let op = self.tokens[self.pos];
            if !(op == Token::Multiply || op == Token::Divide) {
                break;
            }
            self.pos = self.pos + 1;
            let right = self.parse_factor()?;
            node = ASTNode::BinOp { left: Box::new(node), op, right: Box::new(right) };
        }
        Ok(node)
    }

    /// Parses a factor at the cursor and moves the cursor past it.
    pub fn parse_factor(&mut self) -> (r: Result<ASTNode, ParseError>)
        ensures
            final(self).tokens@ == old(self).tokens@,
            match factor_at(old(self).tokens@, old(self).pos as int) {
                Ok((n, q)) => r == Ok::<ASTNode, ParseError>(n) && final(self).pos == q,
                Err(e) => r == Err::<ASTNode, ParseError>(e),
            },
            r is Ok ==> old(self).pos < final(self).pos <= final(self).tokens@.len(),
            r matches Ok(n) ==> well_formed(n),
        decreases old(self).tokens@.len() - old(self).pos, 1int,
    {
        if self.pos >= self.tokens.len() {
            return Err(ParseError::UnexpectedEndOfInput);
        }
        let tok = self.tokens[self.pos];
        match tok {
            Token::Number(value) => {
                self.pos = self.pos + 1;
                Ok(ASTNode::Number(value))
            },
            Token::LParen => {
                self.pos = self.pos + 1;
                let node = self.parse_expression()?;
                if self.pos < self.tokens.len() && self.tokens[self.pos] == Token::RParen {
                    self.pos = self.pos + 1;
                    Ok(node)
                } else {
                    Err(ParseError::UnmatchedParenthesis)
                }
            },
            Token::Plus | Token::Minus => {
                self.pos = self.pos + 1;
                let node = self.parse_factor()?;
                Ok(ASTNode::UnaryOp { op: tok, node: Box::new(node) })
            },
            _ => Err(ParseError::UnexpectedToken(tok)),
        }
    }
}

proof fn lemma_factor_sound(t: Seq<Token>, p: int)
    ensures
        factor_at(t, p) matches Ok((n, q)) ==> well_formed(n) && (0 <= p ==> p < q <= t.len()),
    decreases t.len() - p, 1int,
{
    if 0 <= p < t.len() {
        match t[p] {
            Token::LParen => lemma_expression_sound(t, p + 1),
            Token::Plus | Token::Minus => lemma_factor_sound(t, p + 1),
            _ => {},
        }
    }
}

proof fn lemma_term_rest_sound(t: Seq<Token>, l: ASTNode, p: int)
    requires
        well_formed(l),
    ensures
        term_rest(t, l, p) matches Ok((n, q)) ==> well_formed(n) && (0 <= p <= t.len() ==> p
            <= q <= t.len()),
    decreases t.len() - p, 2int,
{
    if 0 <= p < t.len() && is_multiplicative(t[p]) {
        lemma_factor_sound(t, p + 1);
        if let Ok((r, q)) = factor_at(t, p + 1) {
            let n = ASTNode::BinOp { left: Box::new(l), op: t[p], right: Box::new(r) };
            if p < q <= t.len() {
                lemma_term_rest_sound(t, n, q);
            }
        }
    }
}

proof fn lemma_term_sound(t: Seq<Token>, p: int)
    ensures
        term_at(t, p) matches Ok((n, q)) ==> well_formed(n) && (0 <= p ==> p < q <= t.len()),
    decreases t.len() - p, 2int,
{
    lemma_factor_sound(t, p);
    if let Ok((l, q)) = factor_at(t, p) {
        if p < q <= t.len() {
            lemma_term_rest_sound(t, l, q);
        }
    }
}

proof fn lemma_expression_rest_sound(t: Seq<Token>, l: ASTNode, p: int)
    requires
        well_formed(l),
    ensures
        expression_rest(t, l, p) matches Ok((n, q)) ==> well_formed(n) && (0 <= p <= t.len()
            ==> p <= q <= t.len()),
    decreases t.len() - p, 3int,
{
    if 0 <= p < t.len() && is_additive(t[p]) {
        lemma_term_sound(t, p + 1);
        if let Ok((r, q)) = term_at(t, p + 1) {
            let n = ASTNode::BinOp { left: Box::new(l), op: t[p], right: Box::new(r) };
            if p < q <= t.len() {
                lemma_expression_rest_sound(t, n, q);
            }
        }
    }
}

proof fn lemma_expression_sound(t: Seq<Token>, p: int)
    ensures
        expression_at(t, p) matches Ok((n, q)) ==> well_formed(n) && (0 <= p ==> p < q
            <= t.len()),
    decreases t.len() - p, 3int,
{
    lemma_term_sound(t, p);
    if let Ok((l, q)) = term_at(t, p) {
        if p < q <= t.len() {
            lemma_expression_rest_sound(t, l, q);
        }
    }
}

/// Every tree that the parser reads from tokens is well formed.
pub proof fn lemma_parse_well_formed(t: Seq<Token>)
    ensures
        parse_tokens(t) matches Ok(n) ==> well_formed(n),
{
    lemma_expression_sound(t, 0);
}

/// A successful reading ends after the position where it started and
/// within the tokens, so the readings never take their fallback branches
/// (those where the end is not past the start).
pub proof fn lemma_readings_advance(t: Seq<Token>, p: int)
    requires
        0 <= p,
    ensures
        factor_at(t, p) matches Ok((_, q)) ==> p < q <= t.len(),
        term_at(t, p) matches Ok((_, q)) ==> p < q <= t.len(),
        expression_at(t, p) matches Ok((_, q)) ==> p < q <= t.len(),
{
    lemma_factor_sound(t, p);
    lemma_term_sound(t, p);
    lemma_expression_sound(t, p);
}

/// Where the printed form of a well-formed tree stands in `t` from position
/// `p` on, a factor read there is that tree and ends right after it.
proof fn lemma_factor_reads_printed(t: Seq<Token>, p: int, n: ASTNode)
    requires
        well_formed(n),
        0 <= p,
        p + printed(n).len() <= t.len(),
        t.subrange(p, p + printed(n).len()) == printed(n),
    ensures
        factor_at(t, p) == Ok::<(ASTNode, int), ParseError>((n, p + printed(n).len())),
    decreases n,
{
    let s = printed(n);
    assert(forall|k: int| 0 <= k < s.len() ==> t[p + k] == #[trigger] s[k]) by {
        assert forall|k: int| 0 <= k < s.len() implies t[p + k] == #[trigger] s[k] by {
            assert(t.subrange(p, p + s.len())[k] == t[p + k]);
        }
    }
    match n {
        ASTNode::Number(v) => {
            assert(t[p] == s[0]);
        },
        ASTNode::UnaryOp { op, node } => {
            let ps = printed(*node);
            assert(t[p] == s[0]);
            assert(t.subrange(p + 1, p + 1 + ps.len()) =~= ps) by {
                assert forall|k: int| 0 <= k < ps.len() implies t.subrange(
                    p + 1,
                    p + 1 + ps.len(),
                )[k] == ps[k] by {
                    assert(s[1 + k] == ps[k]);
                }
            }
            lemma_factor_reads_printed(t, p + 1, *node);
        },
        ASTNode::BinOp { left, op, right } => {
            let pl = printed(*left);
            let pr = printed(*right);
            let a = p + 1 + pl.len();
            let b = a + 1 + pr.len();
            assert(s.len() == pl.len() + pr.len() + 3);
            assert(t[p] == s[0]);
            assert(t[a] == s[a - p]);
            assert(t[b] == s[b - p]);
            assert(t.subrange(p + 1, a) =~= pl) by {
                assert forall|k: int| 0 <= k < pl.len() implies t.subrange(p + 1, a)[k]
                    == pl[k] by {
                    assert(s[1 + k] == pl[k]);
                }
            }
            assert(t.subrange(a + 1, b) =~= pr) by {
                assert forall|k: int| 0 <= k < pr.len() implies t.subrange(a + 1, b)[k]
                    == pr[k] by {
                    assert(s[a + 1 - p + k] == pr[k]);
                }
            }
            lemma_factor_reads_printed(t, p + 1, *left);
            lemma_factor_reads_printed(t, a + 1, *right);
            assert(t[a] == op);
            assert(t[b] == Token::RParen);
            if is_multiplicative(op) {
                assert(term_rest(t, n, b) == Ok::<(ASTNode, int), ParseError>((n, b)));
                assert(term_rest(t, *left, a) == Ok::<(ASTNode, int), ParseError>((n, b)));
                assert(term_at(t, p + 1) == Ok::<(ASTNode, int), ParseError>((n, b)));
                assert(expression_rest(t, n, b) == Ok::<(ASTNode, int), ParseError>((n, b)));
            } else {
                assert(term_rest(t, *left, a) == Ok::<(ASTNode, int), ParseError>((*left, a)));
                assert(term_at(t, p + 1) == Ok::<(ASTNode, int), ParseError>((*left, a)));
                assert(term_rest(t, *right, b) == Ok::<(ASTNode, int), ParseError>((*right, b)));
                assert(term_at(t, a + 1) == Ok::<(ASTNode, int), ParseError>((*right, b)));
                assert(expression_rest(t, n, b) == Ok::<(ASTNode, int), ParseError>((n, b)));
                assert(expression_rest(t, *left, a) == Ok::<(ASTNode, int), ParseError>((n, b)));
            }
            assert(expression_at(t, p + 1) == Ok::<(ASTNode, int), ParseError>((n, b)));
        },
    }
}

/// Printing a well-formed tree as tokens and parsing them gives back the
/// same tree.
pub proof fn lemma_print_then_parse(n: ASTNode)
    requires
        well_formed(n),
    ensures
        parse_tokens(printed(n)) == Ok::<ASTNode, ParseError>(n),
{
    let t = printed(n);
    assert(t.subrange(0, t.len() as int) =~= t);
    lemma_factor_reads_printed(t, 0, n);
    assert(term_at(t, 0) == Ok::<(ASTNode, int), ParseError>((n, t.len() as int)));
    assert(expression_at(t, 0) == Ok::<(ASTNode, int), ParseError>((n, t.len() as int)));
}

/// Parsing tokens into a tree, printing the tree as tokens and parsing
/// those again gives the same tree, and so the same value, as parsing the
/// original tokens.
pub proof fn lemma_reprint_same_value(t: Seq<Token>)
    requires
        parse_tokens(t) is Ok,
    ensures
        parse_tokens(printed(parse_tokens(t)->Ok_0)) == parse_tokens(t),
        value_of(parse_tokens(printed(parse_tokens(t)->Ok_0))->Ok_0) == value_of(
            parse_tokens(t)->Ok_0,
        ),
{
    lemma_parse_well_formed(t);
    lemma_print_then_parse(parse_tokens(t)->Ok_0);
}

} // verus!
