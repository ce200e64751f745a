//! Operations on values: integer arithmetic that wraps, and what the binary
//! and unary operators yield.

use vstd::prelude::*;
use vstd::arithmetic::div_mod::lemma_mod_multiples_vanish;
use crate::ast::{ASTNode, Kind, Node, AST};
use crate::error::{ErrorInfo, Span};
use crate::host::FloatUnit;
use crate::token::{Tok, TokenType};

verus! {

/// The 32-bit two's complement integer that agrees with `x` modulo 2^32.
pub open spec fn wrap32(x: int) -> int {
    (x + 0x8000_0000) % 0x1_0000_0000 - 0x8000_0000
}

/// The quotient of `x` by `d`, rounded towards zero.
pub open spec fn trunc_div(x: int, d: int) -> int
    recommends
        d != 0,
{
    if x >= 0 && d > 0 {
        x / d
    } else if x < 0 && d < 0 {
        (-x) / (-d)
    } else if x < 0 {
        -((-x) / d)
    } else {
        -(x / (-d))
    }
}

/// The remainder that goes with `trunc_div`; it has the sign of `x`.
pub open spec fn trunc_rem(x: int, d: int) -> int
    recommends
        d != 0,
{
    if x >= 0 && d > 0 {
        x % d
    } else if x < 0 && d < 0 {
        -((-x) % (-d))
    } else if x < 0 {
        -((-x) % d)
    } else {
        x % (-d)
    }
}

/// What an operator yields.
pub enum Applied {
    /// A value.
    Value(Node),
    /// A division or a remainder by zero; the span is that of the divisor.
    DivideByZero(Span),
    /// The operands are numbers and at least one of them is floating-point:
    /// the result is whatever the embedder's arithmetic makes of them.
    Host,
}

/// The integer `v` with the given span.
pub open spec fn int_node(v: int, span: Span) -> Node {
    Node { kind: Kind::INT { int_value: v }, span }
}

/// The truth value `v` with the given span.
pub open spec fn bool_node(v: bool, span: Span) -> Node {
    Node { kind: Kind::BOOL { bool_value: v }, span }
}

/// Whether an operator computes a number from two numbers.
pub open spec fn is_arithmetic(op: Tok) -> bool {
    op is PLS || op is MIN || op is MUL || op is DIV || op is MOD
}

/// Whether an operator compares two values.
pub open spec fn is_comparison(op: Tok) -> bool {
    op is DEQL || op is NEQ || op is LT || op is LTE || op is GT || op is GTE
}

/// What an operator yields on two integers. Sums, differences and products
/// wrap; quotients round towards zero.
pub open spec fn int_binop(op: Tok, a: int, b: int, span: Span, divisor: Span) -> Applied {
    match op {
        Tok::PLS => Applied::Value(int_node(wrap32(a + b), span)),
        Tok::MIN => Applied::Value(int_node(wrap32(a - b), span)),
        Tok::MUL => Applied::Value(int_node(wrap32(a * b), span)),
        Tok::DIV => if b == 0 {
            Applied::DivideByZero(divisor)
        } else {
            Applied::Value(int_node(wrap32(trunc_div(a, b)), span))
        },
        Tok::MOD => if b == 0 {
            Applied::DivideByZero(divisor)
        } else {
            Applied::Value(int_node(trunc_rem(a, b), span))
        },
        Tok::DEQL => Applied::Value(bool_node(a == b, span)),
        Tok::NEQ => Applied::Value(bool_node(a != b, span)),
        Tok::LT => Applied::Value(bool_node(a < b, span)),
        Tok::LTE => Applied::Value(bool_node(a <= b, span)),
        Tok::GT => Applied::Value(bool_node(a > b, span)),
        Tok::GTE => Applied::Value(bool_node(a >= b, span)),
        _ => Applied::Value(Node::noop()),
    }
}

/// What an operator yields on two values of which at least one is no number.
pub open spec fn plain_binop(op: Tok, left: Kind, right: Kind, span: Span) -> Node {
    match (op, left, right) {
        (Tok::DEQL, Kind::BOOL { bool_value: x }, Kind::BOOL { bool_value: y }) => bool_node(
            x == y,
            span,
        ),
        (Tok::DEQL, Kind::STRING { str_value: x }, Kind::STRING { str_value: y }) => bool_node(
            x == y,
            span,
        ),
        (Tok::DEQL, Kind::TYPE { type_value: x }, Kind::TYPE { type_value: y }) => bool_node(
            x == y,
            span,
        ),
        (Tok::NEQ, Kind::BOOL { bool_value: x }, Kind::BOOL { bool_value: y }) => bool_node(
            x != y,
            span,
        ),
        (Tok::NEQ, Kind::STRING { str_value: x }, Kind::STRING { str_value: y }) => bool_node(
            x != y,
            span,
        ),
        (Tok::NEQ, Kind::TYPE { type_value: x }, Kind::TYPE { type_value: y }) => bool_node(
            x != y,
            span,
        ),
        (Tok::AND, Kind::BOOL { bool_value: x }, Kind::BOOL { bool_value: y }) => bool_node(
            x && y,
            span,
        ),
        (Tok::OR, Kind::BOOL { bool_value: x }, Kind::BOOL { bool_value: y }) => bool_node(
            x || y,
            span,
        ),
        _ => Node::noop(),
    }
}

/// Whether a kind is that of a number.
pub open spec fn is_number(k: Kind) -> bool {
    k is INT || k is FLOAT
}

/// What a binary operator yields on two values. `span` is the span of the
/// operation, which the result takes.
pub open spec fn binop(op: Tok, left: Node, right: Node, span: Span) -> Applied {
    match (left.kind, right.kind) {
        (Kind::INT { int_value: a }, Kind::INT { int_value: b }) => int_binop(
            op,
            a,
            b,
            span,
            right.span,
        ),
        _ => if is_number(left.kind) && is_number(right.kind) {
            if is_arithmetic(op) || is_comparison(op) {
                Applied::Host
            } else {
                Applied::Value(Node::noop())
            }
        } else {
            Applied::Value(plain_binop(op, left.kind, right.kind, span))
        },
    }
}

/// What a unary operator yields on a value; `None` where the embedder's
/// arithmetic decides (the negation of a floating-point number).
pub open spec fn unop(op: Tok, body: Node, span: Span) -> Option<Node> {
    match (op, body.kind) {
        (Tok::MIN, Kind::INT { int_value }) => Some(int_node(wrap32(-int_value), span)),
        (Tok::MIN, Kind::FLOAT { .. }) => None,
        (Tok::NOT, Kind::BOOL { bool_value }) => Some(bool_node(!bool_value, span)),
        _ => Some(Node::noop()),
    }
}

/// What the result of an operator looks like when the embedder's arithmetic
/// decided it: a floating-point number or a truth value with the span of the
/// operation, or a division by zero at the divisor.
pub open spec fn host_shaped(op: Tok, r: Result<Node, Span>, span: Span, divisor: Span) -> bool {
    match r {
        Ok(n) => n.span == span && if is_arithmetic(op) {
            n.kind is FLOAT
        } else {
            n.kind is BOOL
        },
        Err(s) => (op is DIV || op is MOD) && s == divisor,
    }
}

fn wrap(w: i64) -> (r: i32)
    requires
        -0x4000_0000_0000_0000 <= w <= 0x4000_0000_0000_0000,
    ensures
        r == wrap32(w as int),
{
    let shifted: u64 = (w as i128 + 0x4000_0000_8000_0000) as u64;
    let low: u64 = shifted % 0x1_0000_0000;
    proof {
        lemma_mod_multiples_vanish(0x4000_0000, w + 0x8000_0000, 0x1_0000_0000);
        assert(0x1_0000_0000 * 0x4000_0000 + (w + 0x8000_0000) == shifted);
    }
    (low as i64 - 0x8000_0000) as i32
}

/// A length as a 32-bit integer, wrapped like the other integers.
pub fn wrap_len(len: usize) -> (r: i32)
    ensures
        r == wrap32(len as int),
{
    let low: u64 = (len as u64) % 0x1_0000_0000;
    proof {
        let q = (len as int) / 0x1_0000_0000;
        assert(len as int == 0x1_0000_0000 * q + (len as int) % 0x1_0000_0000) by {
            vstd::arithmetic::div_mod::lemma_fundamental_div_mod(len as int, 0x1_0000_0000);
        }
        lemma_mod_multiples_vanish(q, low as int + 0x8000_0000, 0x1_0000_0000);
    }
    wrap(low as i64)
}

fn int_result(v: i32, einfo: &ErrorInfo) -> (r: ASTNode)
    ensures
        r@ == int_node(v as int, einfo@),
{
    ASTNode::new(AST::INT { int_value: v }, einfo.clone())
}

fn bool_result(v: bool, einfo: &ErrorInfo) -> (r: ASTNode)
    ensures
        r@ == bool_node(v, einfo@),
{
    ASTNode::new(AST::BOOL { bool_value: v }, einfo.clone())
}

fn float_result(bits: u32, einfo: &ErrorInfo) -> (r: ASTNode)
    ensures
        r@ == (Node { kind: Kind::FLOAT { float_value: bits }, span: einfo@ }),
{
    ASTNode::new(AST::FLOAT { float_value: bits }, einfo.clone())
}

fn apply_int_binop(op: &TokenType, a: i32, b: i32, einfo: &ErrorInfo, divisor: &ErrorInfo) -> (r:
    Result<ASTNode, ErrorInfo>)
    ensures
        match int_binop(op@, a as int, b as int, einfo@, divisor@) {
            Applied::Value(v) => r matches Ok(n) && n@ == v,
            Applied::DivideByZero(s) => r matches Err(e) && e@ == s,
            Applied::Host => false,
        },
{
    match op {
        TokenType::PLS => Ok(int_result(wrap(a as i64 + b as i64), einfo)),
        TokenType::MIN => Ok(int_result(wrap(a as i64 - b as i64), einfo)),
        TokenType::MUL => {
            assert(-0x4000_0000_0000_0000 <= (a as i64) * (b as i64) <= 0x4000_0000_0000_0000)
                by (nonlinear_arith)
                requires
                    -0x8000_0000 <= a <= 0x7fff_ffff,
                    -0x8000_0000 <= b <= 0x7fff_ffff,
            ;
            Ok(int_result(wrap(a as i64 * b as i64), einfo))
        },
        TokenType::DIV => {
            if b == 0 {
                Err(divisor.clone())
            } else {
                match (a as i64).checked_div(b as i64) {
                    Some(q) => {
                        assert(q == trunc_div(a as int, b as int));
                        Ok(int_result(wrap(q), einfo))
                    },
                    None => {
                        assert(false);
                        Ok(ASTNode::new_noop())
                    },
                }
            }
        },
        TokenType::MOD => {
            if b == 0 {
                Err(divisor.clone())
            } else {
                match (a as i64).checked_rem(b as i64) {
                    Some(m) => {
                        assert(m == trunc_rem(a as int, b as int));
                        Ok(int_result(m as i32, einfo))
                    },
                    None => {
                        assert(false);
                        Ok(ASTNode::new_noop())
                    },
                }
            }
        },
        TokenType::DEQL => Ok(bool_result(a == b, einfo)),
        TokenType::NEQ => Ok(bool_result(a != b, einfo)),
        TokenType::LT => Ok(bool_result(a < b, einfo)),
        TokenType::LTE => Ok(bool_result(a <= b, einfo)),
        TokenType::GT => Ok(bool_result(a > b, einfo)),
        TokenType::GTE => Ok(bool_result(a >= b, einfo)),
        _ => Ok(ASTNode::new_noop()),
    }
}

fn apply_float_binop<H: FloatUnit>(
    host: &H,
    op: &TokenType,
    a: u32,
    b: u32,
    einfo: &ErrorInfo,
    divisor: &ErrorInfo,
) -> (r: Result<ASTNode, ErrorInfo>)
    ensures
        if is_arithmetic(op@) || is_comparison(op@) {
            match r {
                Ok(n) => host_shaped(op@, Ok(n@), einfo@, divisor@),
                Err(e) => host_shaped(op@, Err(e@), einfo@, divisor@),
            }
        } else {
            r matches Ok(n) && n@ == Node::noop()
        },
{
    match op {
        TokenType::PLS => Ok(float_result(host.add(a, b), einfo)),
        TokenType::MIN => Ok(float_result(host.sub(a, b), einfo)),
        TokenType::MUL => Ok(float_result(host.mul(a, b), einfo)),
        TokenType::DIV => {
            if host.equal(b, host.from_int(0)) {
                Err(divisor.clone())
            } else {
                Ok(float_result(host.div(a, b), einfo))
            }
        },
        TokenType::MOD => {
            if host.equal(b, host.from_int(0)) {
                Err(divisor.clone())
            } else {
                Ok(float_result(host.rem(a, b), einfo))
            }
        },
        TokenType::DEQL => Ok(bool_result(host.equal(a, b), einfo)),
        TokenType::NEQ => Ok(bool_result(!host.equal(a, b), einfo)),
        TokenType::LT => Ok(bool_result(host.less(a, b), einfo)),
        TokenType::LTE => Ok(bool_result(host.less_equal(a, b), einfo)),
        TokenType::GT => Ok(bool_result(host.less(b, a), einfo)),
        TokenType::GTE => Ok(bool_result(host.less_equal(b, a), einfo)),
        _ => Ok(ASTNode::new_noop()),
    }
}

fn apply_plain_binop(op: &TokenType, left: &ASTNode, right: &ASTNode, einfo: &ErrorInfo) -> (r:
    ASTNode)
    ensures
        r@ == plain_binop(op@, left@.kind, right@.kind, einfo@),
{
    match (op, &left.kind, &right.kind) {
        (TokenType::DEQL, AST::BOOL { bool_value: x }, AST::BOOL { bool_value: y }) => bool_result(
            *x == *y,
            einfo,
        ),
        (TokenType::DEQL, AST::STRING { str_value: x }, AST::STRING { str_value: y }) => bool_result(
            *x == *y,
            einfo,
        ),
        (TokenType::DEQL, AST::TYPE { type_value: x }, AST::TYPE { type_value: y }) => bool_result(
            *x == *y,
            einfo,
        ),
        (TokenType::NEQ, AST::BOOL { bool_value: x }, AST::BOOL { bool_value: y }) => bool_result(
            *x != *y,
            einfo,
        ),
        (TokenType::NEQ, AST::STRING { str_value: x }, AST::STRING { str_value: y }) => bool_result(
            !(*x == *y),
            einfo,
        ),
        (TokenType::NEQ, AST::TYPE { type_value: x }, AST::TYPE { type_value: y }) => bool_result(
            !(*x == *y),
            einfo,
        ),
        (TokenType::AND, AST::BOOL { bool_value: x }, AST::BOOL { bool_value: y }) => bool_result(
            *x && *y,
            einfo,
        ),
        (TokenType::OR, AST::BOOL { bool_value: x }, AST::BOOL { bool_value: y }) => bool_result(
            *x || *y,
            einfo,
        ),
        _ => ASTNode::new_noop(),
    }
}

/// Applies a binary operator to two values. The result takes the span
/// `einfo`; a division by zero comes back as the span of the divisor.
pub fn apply_binop<H: FloatUnit>(
    host: &H,
    op: &TokenType,
    left: &ASTNode,
    right: &ASTNode,
    einfo: &ErrorInfo,
) -> (r: Result<ASTNode, ErrorInfo>)
    ensures
        match binop(op@, left@, right@, einfo@) {
            Applied::Value(v) => r matches Ok(n) && n@ == v,
            Applied::DivideByZero(s) => r matches Err(e) && e@ == s,
            Applied::Host => match r {
                Ok(n) => host_shaped(op@, Ok(n@), einfo@, right@.span),
                Err(e) => host_shaped(op@, Err(e@), einfo@, right@.span),
            },
        },
        r matches Ok(n) ==> n@.kind.is_value(),
{
    match (&left.kind, &right.kind) {
        (AST::INT { int_value: a }, AST::INT { int_value: b }) => apply_int_binop(
            op,
            *a,
            *b,
            einfo,
            &right.einfo,
        ),
        (AST::INT { int_value: a }, AST::FLOAT { float_value: b }) => apply_float_binop(
            host,
            op,
            host.from_int(*a),
            *b,
            einfo,
            &right.einfo,
        ),
        (AST::FLOAT { float_value: a }, AST::INT { int_value: b }) => apply_float_binop(
            host,
            op,
            *a,
            host.from_int(*b),
            einfo,
            &right.einfo,
        ),
        (AST::FLOAT { float_value: a }, AST::FLOAT { float_value: b }) => apply_float_binop(
            host,
            op,
            *a,
            *b,
            einfo,
            &right.einfo,
        ),
        _ => Ok(apply_plain_binop(op, left, right, einfo)),
    }
}

/// Applies a unary operator to a value. The result takes the span `einfo`.
pub fn apply_unop<H: FloatUnit>(host: &H, op: &TokenType, body: &ASTNode, einfo: &ErrorInfo) -> (r:
    ASTNode)
    ensures
        match unop(op@, body@, einfo@) {
            Some(v) => r@ == v,
            None => r@.kind is FLOAT && r@.span == einfo@,
        },
        r@.kind.is_value(),
{
    match (op, &body.kind) {
        (TokenType::MIN, AST::INT { int_value }) => int_result(wrap(-(*int_value as i64)), einfo),
        (TokenType::MIN, AST::FLOAT { float_value }) => float_result(host.neg(*float_value), einfo),
        (TokenType::NOT, AST::BOOL { bool_value }) => bool_result(!*bool_value, einfo),
        _ => ASTNode::new_noop(),
    }
}

} // verus!
