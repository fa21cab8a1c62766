use crate::err::ErrKind;
use crate::token::Token;
use vstd::prelude::*;

verus! {

/// Operators of expressions, from the tightest binding to the loosest.
#[derive(Debug, PartialEq, Eq, Clone, Copy, Structural)]
pub enum Op {
    Paren,
    UnaryMinus,
    Not,
    Multiply,
    Divide,
    Modulo,
    Add,
    Minus,
    GreaterEq,
    GreaterThan,
    LessEq,
    LessThan,
    Eq,
    NotEq,
    And,
    Or,
}

/// Number of operands an operator takes.
pub open spec fn op_arity(op: Op) -> nat {
    match op {
        Op::Paren | Op::UnaryMinus | Op::Not => 1,
        _ => 2,
    }
}

/// Binding level of an operator: 0 binds tightest.
pub open spec fn op_level(op: Op) -> nat {
    match op {
        Op::Paren => 0,
        Op::UnaryMinus | Op::Not => 1,
        Op::Multiply | Op::Divide | Op::Modulo => 2,
        Op::Add | Op::Minus => 3,
        Op::GreaterEq | Op::GreaterThan | Op::LessEq | Op::LessThan => 4,
        Op::Eq | Op::NotEq => 5,
        Op::And => 6,
        Op::Or => 7,
    }
}

/// The loosest binding level.
pub const MAX_LEVEL: u8 = 7;

/// Binding level of an operator.
pub fn get_level(op: Op) -> (r: u8)
    ensures
        r == op_level(op),
        r <= MAX_LEVEL,
{
    match op {
        Op::Paren => 0,
        Op::UnaryMinus | Op::Not => 1,
        Op::Multiply | Op::Divide | Op::Modulo => 2,
        Op::Add | Op::Minus => 3,
        Op::GreaterEq | Op::GreaterThan | Op::LessEq | Op::LessThan => 4,
        Op::Eq | Op::NotEq => 5,
        Op::And => 6,
        Op::Or => 7,
    }
}

/// Number of operands an operator takes.
pub fn get_op_param_num(op: Op) -> (r: usize)
    ensures
        r == op_arity(op),
{
    match op {
        Op::Paren | Op::UnaryMinus | Op::Not => 1,
        _ => 2,
    }
}

pub open spec fn bool_int(b: bool) -> i32 {
    if b { 1 } else { 0 }
}

/// The result of a one-operand operator; negation wraps around at `i32::MIN`.
pub open spec fn eval_op_1(op: Op, a: i32) -> i32 {
    match op {
        Op::UnaryMinus => (0i32).wrapping_sub(a),
        Op::Not => bool_int(a == 0),
        _ => a,
    }
}

/// Truncating division; the one quotient that does not fit, `i32::MIN / -1`,
/// wraps around to `i32::MIN`.
pub open spec fn div_wrap(a: i32, b: i32) -> i32 {
    match a.checked_div(b) {
        Some(q) => q,
        None => i32::MIN,
    }
}

/// Remainder of truncating division; `i32::MIN % -1` is 0.
pub open spec fn rem_wrap(a: i32, b: i32) -> i32 {
    match a.checked_rem(b) {
        Some(q) => q,
        None => 0,
    }
}

/// The result of a two-operand operator: `DivideZero` for division or
/// remainder by zero; arithmetic wraps around; comparisons and logical
/// operators give 1 or 0.
pub open spec fn eval_op_2(op: Op, a: i32, b: i32) -> Result<i32, ErrKind> {
    match op {
        Op::Multiply => Ok(a.wrapping_mul(b)),
        Op::Divide => if b == 0 { Err(ErrKind::DivideZero) } else { Ok(div_wrap(a, b)) },
        Op::Modulo => if b == 0 { Err(ErrKind::DivideZero) } else { Ok(rem_wrap(a, b)) },
        Op::Add => Ok(a.wrapping_add(b)),
        Op::Minus => Ok(a.wrapping_sub(b)),
        Op::GreaterEq => Ok(bool_int(a >= b)),
        Op::GreaterThan => Ok(bool_int(a > b)),
        Op::LessEq => Ok(bool_int(a <= b)),
        Op::LessThan => Ok(bool_int(a < b)),
        Op::Eq => Ok(bool_int(a == b)),
        Op::NotEq => Ok(bool_int(a != b)),
        Op::And => Ok(bool_int(a != 0 && b != 0)),
        Op::Or => Ok(bool_int(a != 0 || b != 0)),
        _ => Ok(a),
    }
}

/// Applies a one-operand operator.
pub fn calc_op_1(op: Op, a: i32) -> (r: Result<i32, ErrKind>)
    requires
        op_arity(op) == 1,
    ensures
        r == Ok::<i32, ErrKind>(eval_op_1(op, a)),
{
    match op {
        Op::UnaryMinus => Ok(0i32.wrapping_sub(a)),
        Op::Not => {
            if a != 0 {
                Ok(0)
            } else {
                Ok(1)
            }
        },
        _ => Ok(a),
    }
}

/// Applies a two-operand operator.
pub fn calc_op_2(op: Op, a: i32, b: i32) -> (r: Result<i32, ErrKind>)
    requires
        op_arity(op) == 2,
    ensures
        r == eval_op_2(op, a, b),
{
    match op {
        Op::Multiply => Ok(a.wrapping_mul(b)),
        Op::Divide => {
            if b == 0 {
                Err(ErrKind::DivideZero)
            } else {
                match a.checked_div(b) {
                    Some(q) => Ok(q),
                    None => Ok(i32::MIN),
                }
            }
        },
        Op::Modulo => {
            if b == 0 {
                Err(ErrKind::DivideZero)
            } else {
                match a.checked_rem(b) {
                    Some(q) => Ok(q),
                    None => Ok(0),
                }
            }
        },
        Op::Add => Ok(a.wrapping_add(b)),
        Op::Minus => Ok(a.wrapping_sub(b)),
        Op::GreaterEq => Ok(if a >= b { 1 } else { 0 }),
        Op::GreaterThan => Ok(if a > b { 1 } else { 0 }),
        Op::LessEq => Ok(if a <= b { 1 } else { 0 }),
        Op::LessThan => Ok(if a < b { 1 } else { 0 }),
        Op::Eq => Ok(if a == b { 1 } else { 0 }),
        Op::NotEq => Ok(if a != b { 1 } else { 0 }),
        Op::And => Ok(if a != 0 && b != 0 { 1 } else { 0 }),
        Op::Or => Ok(if a != 0 || b != 0 { 1 } else { 0 }),
        _ => Ok(a),
    }
}

/// The tokens that spell a binary operator.
pub open spec fn op_tokens(op: Op) -> Seq<Token> {
    match op {
        Op::Multiply => seq![Token::Multiply],
        Op::Divide => seq![Token::Divide],
        Op::Modulo => seq![Token::Modulo],
        Op::Add => seq![Token::Add],
        Op::Minus => seq![Token::Minus],
        Op::GreaterEq => seq![Token::Greater, Token::Eq],
        Op::GreaterThan => seq![Token::Greater],
        Op::LessEq => seq![Token::Less, Token::Eq],
        Op::LessThan => seq![Token::Less],
        Op::Eq => seq![Token::Eq, Token::Eq],
        Op::NotEq => seq![Token::Not, Token::Eq],
        Op::And => seq![Token::And, Token::And],
        Op::Or => seq![Token::Or, Token::Or],
        _ => seq![],
    }
}

/// The tokens that spell a binary operator; empty for the others.
pub fn bin_op_tokens(op: Op) -> (r: Vec<Token>)
    ensures
        r@ == op_tokens(op),
{
    let r = match op {
        Op::Multiply => vec![Token::Multiply],
        Op::Divide => vec![Token::Divide],
        Op::Modulo => vec![Token::Modulo],
        Op::Add => vec![Token::Add],
        Op::Minus => vec![Token::Minus],
        Op::GreaterEq => vec![Token::Greater, Token::Eq],
        Op::GreaterThan => vec![Token::Greater],
        Op::LessEq => vec![Token::Less, Token::Eq],
        Op::LessThan => vec![Token::Less],
        Op::Eq => vec![Token::Eq, Token::Eq],
        Op::NotEq => vec![Token::Not, Token::Eq],
        Op::And => vec![Token::And, Token::And],
        Op::Or => vec![Token::Or, Token::Or],
        _ => Vec::new(),
    };
    assert(r@ =~= op_tokens(op));
    r
}

/// The binary operators of one binding level, in the order the parser tries them.
pub fn level_ops(level: u8) -> (r: Vec<Op>)
    ensures
        forall|i: int| 0 <= i < r@.len() ==> op_level(#[trigger] r@[i]) == level && op_arity(r@[i]) == 2,
{
    let r = if level == 2 {
        vec![Op::Multiply, Op::Divide, Op::Modulo]
    } else if level == 3 {
        vec![Op::Add, Op::Minus]
    } else if level == 4 {
        vec![Op::GreaterEq, Op::GreaterThan, Op::LessEq, Op::LessThan]
    } else if level == 5 {
        vec![Op::Eq, Op::NotEq]
    } else if level == 6 {
        vec![Op::And]
    } else if level == 7 {
        vec![Op::Or]
    } else {
        Vec::new()
    };
    r
}

} // verus!
