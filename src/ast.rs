//! The syntax tree and its evaluation.
//!
//! Evaluation is exact integer arithmetic on `i64`: addition, subtraction
//! and multiplication as usual, and division truncated toward zero
//! (`7 / -2 == -3`). A result outside the range of `i64` is reported as
//! `EvalError::Overflow`, division by zero as `EvalError::DivisionByZero`.
use vstd::prelude::*;

use crate::token::Token;

verus! {

/// An arithmetic expression as a tree.
#[derive(Debug, PartialEq, Eq)]
pub enum ASTNode {
    Number(i64),
    UnaryOp { op: Token, node: Box<ASTNode> },
    BinOp { left: Box<ASTNode>, op: Token, right: Box<ASTNode> },
}

/// Why a tree could not be evaluated.
#[derive(Debug, Clone, Copy, PartialEq, Eq, Structural)]
pub enum EvalError {
    /// The right operand of a division is zero.
    DivisionByZero,
    /// A node holds an operator that it cannot apply (a parenthesis or a
    /// number as operator, or `*` or `/` as a unary operator).
    InvalidOperator,
    /// An intermediate or final value lies outside the range of `i64`.
    Overflow,
}

pub open spec fn abs(a: int) -> int {
    if a < 0 {
        -a
    } else {
        a
    }
}

/// Integer division truncated toward zero.
pub open spec fn trunc_div(a: int, b: int) -> int {
    let q = abs(a) / abs(b);
    if (a < 0) == (b < 0) {
        q
    } else {
        -q
    }
}

/// `v` as an `i64` where it fits, else `Overflow`.
pub open spec fn fit(v: int) -> Result<i64, EvalError> {
    if i64::MIN <= v <= i64::MAX {
        Ok(v as i64)
    } else {
        Err(EvalError::Overflow)
    }
}

/// Applies a unary operator to the value of its operand.
pub open spec fn apply_unary(op: Token, v: i64) -> Result<i64, EvalError> {
    match op {
        Token::Plus => Ok(v),
        Token::Minus => fit(-v),
        _ => Err(EvalError::InvalidOperator),
    }
}

/// Applies a binary operator to the values of its operands.
pub open spec fn apply_binary(op: Token, a: i64, b: i64) -> Result<i64, EvalError> {
    match op {
        Token::Plus => fit(a + b),
        Token::Minus => fit(a - b),
        Token::Multiply => fit(a * b),
        Token::Divide => if b == 0 {
            Err(EvalError::DivisionByZero)
        } else {
            fit(trunc_div(a as int, b as int))
        },
        _ => Err(EvalError::InvalidOperator),
    }
}

/// The value of a tree: operands are evaluated left before right, and the
/// first error met is the result.
pub open spec fn value_of(n: ASTNode) -> Result<i64, EvalError>
    decreases n,
{
    match n {
        ASTNode::Number(v) => Ok(v),
        ASTNode::UnaryOp { op, node } => match value_of(*node) {
            Ok(v) => apply_unary(op, v),
            Err(e) => Err(e),
        },
        ASTNode::BinOp { left, op, right } => match value_of(*left) {
            Ok(a) => match value_of(*right) {
                Ok(b) => apply_binary(op, a, b),
                Err(e) => Err(e),
            },
            Err(e) => Err(e),
        },
    }
}

pub open spec fn is_unary_operator(t: Token) -> bool {
    t == Token::Plus || t == Token::Minus
}

pub open spec fn is_binary_operator(t: Token) -> bool {
    t == Token::Plus || t == Token::Minus || t == Token::Multiply || t == Token::Divide
}

/// Every node's operator is one that the node can apply.
pub open spec fn well_formed(n: ASTNode) -> bool
    decreases n,
{
    match n {
        ASTNode::Number(_) => true,
        ASTNode::UnaryOp { op, node } => is_unary_operator(op) && well_formed(*node),
        ASTNode::BinOp { left, op, right } => is_binary_operator(op) && well_formed(*left)
            && well_formed(*right),
    }
}

/// The tree written as tokens, with each binary operation in parentheses
/// and each unary operator directly before its operand.
pub open spec fn printed(n: ASTNode) -> Seq<Token>
    decreases n,
{
    match n {
        ASTNode::Number(v) => seq![Token::Number(v)],
        ASTNode::UnaryOp { op, node } => seq![op] + printed(*node),
        ASTNode::BinOp { left, op, right } => seq![Token::LParen] + printed(*left) + seq![op]
            + printed(*right) + seq![Token::RParen],
    }
}

fn fit_exec(v: i128) -> (r: Result<i64, EvalError>)
    ensures
        r == fit(v as int),
{
    if i64::MIN as i128 <= v && v <= i64::MAX as i128 {
        Ok(v as i64)
    } else {
        Err(EvalError::Overflow)
    }
}

fn divide(a: i64, b: i64) -> (r: Result<i64, EvalError>)
    requires
        b != 0,
    ensures
        r == fit(trunc_div(a as int, b as int)),
{
    let wa: i128 = a as i128;
    let wb: i128 = b as i128;
    let ma: u128 = if wa < 0 {
        (-wa) as u128
    } else {
        wa as u128
    };
    let mb: u128 = if wb < 0 {
        (-wb) as u128
    } else {
        wb as u128
    };
    let q: u128 = ma / mb;
    assert(q <= ma) by (nonlinear_arith)
        requires
            q == ma / mb,
            mb >= 1,
    ;
    let sq: i128 = if (a < 0) == (b < 0) {
        q as i128
    } else {
        -(q as i128)
    };
    fit_exec(sq)
}

impl ASTNode {
    /// Evaluates the tree.
    pub fn evaluate(&self) -> (r: Result<i64, EvalError>)
        ensures
            r == value_of(*self),
        decreases self,
    {
        match self {
            ASTNode::Number(value) => Ok(*value),
            ASTNode::UnaryOp { op, node } => {
                let value = node.evaluate()?;
                match op {
                    Token::Plus => Ok(value),
                    Token::Minus => fit_exec(-(value as i128)),
                    _ => Err(EvalError::InvalidOperator),
                }
            },
            ASTNode::BinOp { left, op, right } => {
                let a = left.evaluate()?;
                let b = right.evaluate()?;
                match op {
                    Token::Plus => fit_exec(a as i128 + b as i128),
                    Token::Minus => fit_exec(a as i128 - b as i128),
                    Token::Multiply => {
                        let wa: i128 = a as i128;
                        let wb: i128 = b as i128;
                        assert(-0x4000_0000_0000_0000_0000_0000_0000_0000 <= wa * wb
                            <= 0x4000_0000_0000_0000_0000_0000_0000_0000) by (nonlinear_arith)
                            requires
                                -0x8000_0000_0000_0000 <= wa <= 0x8000_0000_0000_0000,
                                -0x8000_0000_0000_0000 <= wb <= 0x8000_0000_0000_0000,
                        ;
                        fit_exec(wa * wb)
                    },
                    Token::Divide => if b == 0 {
                        Err(EvalError::DivisionByZero)
                    } else {
                        divide(a, b)
                    },
                    _ => Err(EvalError::InvalidOperator),
                }
            },
        }
    }

    /// Writes the tree as tokens that the parser reads back as this tree.
    pub fn to_tokens(&self) -> (r: Vec<Token>)
        ensures
            r@ == printed(*self),
        decreases self,
    {
        match self {
            ASTNode::Number(value) => vec![Token::Number(*value)],
            ASTNode::UnaryOp { op, node } => {
                let mut out = vec![*op];
                let mut inner = node.to_tokens();
                out.append(&mut inner);
                out
            },
            ASTNode::BinOp { left, op, right } => {
                let mut out = vec![Token::LParen];
                let mut l = left.to_tokens();
                out.append(&mut l);
                out.push(*op);
                let mut r = right.to_tokens();
                out.append(&mut r);
                out.push(Token::RParen);
                out
            },
        }
    }
}

} // verus!
