//! What parsing means: functions from a sequence of tokens and a position
//! in it to the next position and a tree.

use vstd::prelude::*;
use crate::ast::{Kind, Node};
use crate::error::{ETypes, ErrorRecord, Span};
use crate::scope::{entry_name, find};
use crate::token::{Tok, TokenView};

verus! {

/// The state of the parser.
pub struct Parse {
    /// The position of the current token.
    pub pos: nat,
    pub errors: Seq<ErrorRecord>,
    /// Whether a fatal error has ended parsing.
    pub halted: bool,
}

impl Parse {
    /// The state with one more error.
    pub open spec fn report(self, etype: ETypes, message: Seq<char>, span: Span) -> Parse {
        Parse { errors: self.errors.push(ErrorRecord { etype, message, span }), ..self }
    }

    /// The state with one more error, and halted.
    pub open spec fn fail(self, etype: ETypes, message: Seq<char>, span: Span) -> Parse {
        Parse { halted: true, ..self.report(etype, message, span) }
    }
}

/// The number of tokens from the current one on.
pub open spec fn remaining(ts: Seq<TokenView>, s: Parse) -> nat {
    if s.pos <= ts.len() {
        (ts.len() - s.pos) as nat
    } else {
        0
    }
}

/// The current token, if the position has one.
pub open spec fn cur(ts: Seq<TokenView>, s: Parse) -> Option<TokenView> {
    if s.pos < ts.len() {
        Some(ts[s.pos as int])
    } else {
        None
    }
}

/// The token before the current one.
pub open spec fn prev(ts: Seq<TokenView>, s: Parse) -> Option<TokenView> {
    if 0 < s.pos <= ts.len() {
        Some(ts[s.pos - 1])
    } else {
        None
    }
}

/// Whether the current token is of the given kind.
pub open spec fn at(ts: Seq<TokenView>, s: Parse, kind: Tok) -> bool {
    s.pos < ts.len() && ts[s.pos as int].kind == kind
}

/// Moves to the next token; at the end there is none to move to.
pub open spec fn step(ts: Seq<TokenView>, s: Parse) -> Parse {
    if s.pos < ts.len() {
        Parse { pos: s.pos + 1, ..s }
    } else {
        s
    }
}

/// The span of the current token; past the end, that of the last token.
pub open spec fn here(ts: Seq<TokenView>, s: Parse) -> Span {
    if s.pos < ts.len() {
        ts[s.pos as int].span
    } else if ts.len() > 0 {
        ts[ts.len() - 1].span
    } else {
        Span::none()
    }
}

/// The tree that stands in for one that could not be parsed.
pub open spec fn noop_here(ts: Seq<TokenView>, s: Parse) -> Node {
    Node { kind: Kind::NOOP, span: here(ts, s) }
}

/// A tree, or its stand-in where there is none.
pub open spec fn or_noop(ts: Seq<TokenView>, s: Parse, r: Option<Node>) -> Node {
    match r {
        Some(n) => n,
        None => noop_here(ts, s),
    }
}

/// The message for a token that is not the one required.
#[verifier::opaque]
pub open spec fn expected_text(wanted: Tok, found: Option<Tok>) -> Seq<char> {
    match found {
        Some(k) => "Expected token "@ + wanted.label() + " but received "@ + k.label(),
        None => "Expected token "@ + wanted.label() + " but reached the end of the input"@,
    }
}

/// Requires the current token to be of the given kind; anything else is
/// fatal.
pub open spec fn expect(ts: Seq<TokenView>, s: Parse, kind: Tok) -> Parse {
    if s.halted || at(ts, s, kind) {
        s
    } else if s.pos < ts.len() {
        s.fail(ETypes::TokenError, expected_text(kind, Some(ts[s.pos as int].kind)), here(ts, s))
    } else {
        s.fail(ETypes::EndOfInputError, expected_text(kind, None), here(ts, s))
    }
}

/// Requires the current token to be of the given kind, and moves past it.
pub open spec fn pass(ts: Seq<TokenView>, s: Parse, kind: Tok) -> Parse {
    let s1 = expect(ts, s, kind);
    if s1.halted {
        s1
    } else {
        step(ts, s1)
    }
}

/// The result of a parser that was started at `from`: as it is where the
/// parser went forward, and a halt where it went back.
pub open spec fn onward<T>(from: Parse, r: (Parse, Option<T>)) -> (Parse, Option<T>) {
    if r.0.pos < from.pos {
        (Parse { halted: true, ..from }, None)
    } else {
        r
    }
}

/// The name that an identifier token carries, and the empty name for any
/// other token.
pub open spec fn name_at(ts: Seq<TokenView>, s: Parse) -> Seq<char> {
    match cur(ts, s) {
        Some(TokenView { kind: Tok::ID(name), .. }) => name,
        _ => Seq::empty(),
    }
}

/// Whether an operator belongs to a level of the grammar: the logical
/// operators to level 0, the comparisons to level 1, sum and difference to
/// level 2, and product, quotient and remainder to level 3.
pub open spec fn is_operator(level: nat, kind: Tok) -> bool {
    if level == 0 {
        kind is AND || kind is OR
    } else if level == 1 {
        kind is DEQL || kind is LT || kind is LTE || kind is GT || kind is GTE || kind is NEQ
    } else if level == 2 {
        kind is PLS || kind is MIN
    } else if level == 3 {
        kind is MUL || kind is DIV || kind is MOD
    } else {
        false
    }
}

/// An operand of a level of the grammar: an expression of the next level,
/// and at the last level a single term.
pub open spec fn parse_operand(ts: Seq<TokenView>, s: Parse, level: nat) -> (Parse, Option<Node>)
    decreases remaining(ts, s), 29 - 2 * level,
{
    if level > 3 {
        (s, None)
    } else if level == 3 {
        parse_mono(ts, s)
    } else {
        parse_binary(ts, s, level + 1)
    }
}

/// An expression of a level of the grammar: operands joined by operators
/// of that level, grouped from the left.
pub open spec fn parse_binary(ts: Seq<TokenView>, s: Parse, level: nat) -> (Parse, Option<Node>)
    decreases remaining(ts, s), 30 - 2 * level,
{
    if s.halted || level > 3 {
        (s, None)
    } else {
        let (s1, l) = onward(s, parse_operand(ts, s, level));
        if s1.halted {
            (s1, None)
        } else {
            match l {
                None => (s1, None),
                Some(left) => binary_rest(ts, s1, level, left),
            }
        }
    }
}

/// The rest of an expression of a level after its first operands.
pub open spec fn binary_rest(ts: Seq<TokenView>, s: Parse, level: nat, left: Node) -> (
    Parse,
    Option<Node>,
)
    decreases remaining(ts, s), 0nat,
{
    if s.halted || level > 3 {
        (s, None)
    } else if s.pos < ts.len() && is_operator(level, ts[s.pos as int].kind) {
        let op = ts[s.pos as int];
        let s1 = step(ts, s);
        let (s2, r) = onward(s1, parse_operand(ts, s1, level));
        if s2.halted {
            (s2, None)
        } else {
            binary_rest(
                ts,
                s2,
                level,
                Node {
                    kind: Kind::BINOP {
                        left: Box::new(left),
                        op: op.kind,
                        right: Box::new(or_noop(ts, s2, r)),
                    },
                    span: op.span,
                },
            )
        }
    } else {
        (s, Some(left))
    }
}

/// `compound := expr (';' expr)*`
pub open spec fn parse_compound(ts: Seq<TokenView>, s: Parse) -> (Parse, Option<Node>)
    decreases remaining(ts, s), 31nat,
{
    if s.halted {
        (s, None)
    } else {
        let (s1, first) = onward(s, parse_binary(ts, s, 0));
        if s1.halted {
            (s1, None)
        } else {
            compound_rest(ts, s1, seq![or_noop(ts, s1, first)], here(ts, s))
        }
    }
}

/// The statements of a compound after the first ones.
pub open spec fn compound_rest(ts: Seq<TokenView>, s: Parse, acc: Seq<Node>, span: Span) -> (
    Parse,
    Option<Node>,
)
    decreases remaining(ts, s), 0nat,
{
    if s.halted {
        (s, None)
    } else if at(ts, s, Tok::SEMI) {
        let s1 = step(ts, s);
        let (s2, r) = onward(s1, parse_binary(ts, s1, 0));
        if s2.halted {
            (s2, None)
        } else {
            compound_rest(ts, s2, acc.push(or_noop(ts, s2, r)), span)
        }
    } else {
        (s, Some(Node { kind: Kind::COMPOUND { compound_value: acc }, span }))
    }
}

/// `mono := number | string | identform | '(' expr ')' | '[' list ']' |
/// '-' mono | '!' mono | end`
pub open spec fn parse_mono(ts: Seq<TokenView>, s: Parse) -> (Parse, Option<Node>)
    decreases remaining(ts, s), 15nat,
{
    if s.halted || s.pos >= ts.len() {
        (s, None)
    } else {
        let t = ts[s.pos as int];
        match t.kind {
            Tok::INT(_) | Tok::FLOAT(_) => parse_num(ts, s),
            Tok::STRING(_) => parse_string(ts, s),
            Tok::ID(_) => parse_identifier(ts, s),
            Tok::EOF => (s, Some(Node { kind: Kind::EOF, span: t.span })),
            Tok::LPR => {
                let s1 = step(ts, s);
                let (s2, r) = onward(s1, parse_binary(ts, s1, 0));
                if s2.halted {
                    (s2, None)
                } else if at(ts, s2, Tok::RPR) {
                    (step(ts, s2), r)
                } else {
                    (s2.fail(ETypes::SyntaxError, "Expected ')'"@, here(ts, s2)), None)
                }
            },
            Tok::LSQB => parse_list(ts, s),
            Tok::MIN | Tok::NOT => {
                let s1 = step(ts, s);
                let (s2, r) = onward(s1, parse_mono(ts, s1));
                if s2.halted {
                    (s2, None)
                } else {
                    (
                        s2,
                        Some(
                            Node {
                                kind: Kind::UNOP { op: t.kind, body: Box::new(or_noop(ts, s2, r)) },
                                span: t.span,
                            },
                        ),
                    )
                }
            },
            _ => (s, None),
        }
    }
}

/// A number literal.
pub open spec fn parse_num(ts: Seq<TokenView>, s: Parse) -> (Parse, Option<Node>) {
    if s.halted || s.pos >= ts.len() {
        (s, None)
    } else {
        let t = ts[s.pos as int];
        match t.kind {
            Tok::INT(v) => (step(ts, s), Some(Node { kind: Kind::INT { int_value: v }, span: t.span })),
            Tok::FLOAT(b) => (
                step(ts, s),
                Some(Node { kind: Kind::FLOAT { float_value: b }, span: t.span }),
            ),
            _ => (
                step(ts, s).report(
                    ETypes::TokenError,
                    "Expected token 'INT' or 'FLOAT'"@,
                    t.span,
                ),
                None,
            ),
        }
    }
}

/// A string literal.
pub open spec fn parse_string(ts: Seq<TokenView>, s: Parse) -> (Parse, Option<Node>) {
    if s.halted || s.pos >= ts.len() {
        (s, None)
    } else {
        let t = ts[s.pos as int];
        match t.kind {
            Tok::STRING(v) => (
                step(ts, s),
                Some(Node { kind: Kind::STRING { str_value: v }, span: t.span }),
            ),
            _ => (step(ts, s).report(ETypes::TokenError, "Expected token 'STRING'"@, t.span), None),
        }
    }
}

/// What starts with an identifier: a statement that a keyword introduces,
/// a truth value, or a variable with what follows it.
pub open spec fn parse_identifier(ts: Seq<TokenView>, s: Parse) -> (Parse, Option<Node>)
    decreases remaining(ts, s), 14nat,
{
    if s.halted || s.pos >= ts.len() {
        (s, None)
    } else {
        let t = ts[s.pos as int];
        match t.kind {
            Tok::ID(name) => if name == "assign"@ {
                parse_variable_definition(ts, s)
            } else if name == "funct"@ {
                parse_function_definition(ts, s)
            } else if name == "return"@ {
                parse_return(ts, s)
            } else if name == "blueprint"@ {
                parse_blueprint(ts, s)
            } else if name == "new"@ {
                parse_new(ts, s)
            } else if name == "if"@ {
                parse_if(ts, s)
            } else if name == "while"@ {
                parse_while(ts, s)
            } else if name == "break"@ {
                parse_break(ts, s)
            } else if name == "true"@ {
                (step(ts, s), Some(Node { kind: Kind::BOOL { bool_value: true }, span: t.span }))
            } else if name == "false"@ {
                (step(ts, s), Some(Node { kind: Kind::BOOL { bool_value: false }, span: t.span }))
            } else {
                parse_variable(ts, s)
            },
            _ => (s, None),
        }
    }
}

/// `break`
pub open spec fn parse_break(ts: Seq<TokenView>, s: Parse) -> (Parse, Option<Node>) {
    if s.halted || s.pos >= ts.len() {
        (s, None)
    } else {
        (step(ts, s), Some(Node { kind: Kind::BREAK, span: ts[s.pos as int].span }))
    }
}

/// `return expr`
pub open spec fn parse_return(ts: Seq<TokenView>, s: Parse) -> (Parse, Option<Node>)
    decreases remaining(ts, s), 10nat,
{
    if s.halted || s.pos >= ts.len() {
        (s, None)
    } else {
        let s1 = step(ts, s);
        let (s2, r) = onward(s1, parse_binary(ts, s1, 0));
        if s2.halted {
            (s2, None)
        } else {
            (
                s2,
                Some(
                    Node {
                        kind: Kind::RETURN { value: Box::new(or_noop(ts, s2, r)) },
                        span: here(ts, s2),
                    },
                ),
            )
        }
    }
}

/// `assign NAME = expr`
pub open spec fn parse_variable_definition(ts: Seq<TokenView>, s: Parse) -> (Parse, Option<Node>)
    decreases remaining(ts, s), 10nat,
{
    if s.halted || s.pos >= ts.len() {
        (s, None)
    } else {
        let s1 = step(ts, s);
        match cur(ts, s1) {
            Some(TokenView { kind: Tok::ID(name), span }) => {
                let s2 = pass(ts, step(ts, s1), Tok::EQL);
                if s2.halted {
                    (s2, None)
                } else {
                    let (s3, r) = onward(s2, parse_binary(ts, s2, 0));
                    if s3.halted {
                        (s3, None)
                    } else {
                        match r {
                            Some(value) => (
                                s3,
                                Some(
                                    Node {
                                        kind: Kind::VAR_DEF { name, value: Box::new(value) },
                                        span,
                                    },
                                ),
                            ),
                            None => (s3, None),
                        }
                    }
                }
            },
            _ => (s1, None),
        }
    }
}

/// Expressions separated by commas, up to what is no comma; `acc` holds the
/// ones before.
pub open spec fn parse_items(ts: Seq<TokenView>, s: Parse, acc: Seq<Node>) -> (
    Parse,
    Option<Seq<Node>>,
)
    decreases remaining(ts, s), 0nat,
{
    if s.halted {
        (s, None)
    } else if at(ts, s, Tok::CMA) {
        let s1 = step(ts, s);
        let (s2, r) = onward(s1, parse_binary(ts, s1, 0));
        if s2.halted {
            (s2, None)
        } else {
            parse_items(ts, s2, acc.push(or_noop(ts, s2, r)))
        }
    } else {
        (s, Some(acc))
    }
}

/// The arguments of a call, after the bracket that opens them and up to and
/// with the bracket that closes them.
pub open spec fn parse_args(ts: Seq<TokenView>, s: Parse) -> (Parse, Option<Seq<Node>>)
    decreases remaining(ts, s), 32nat,
{
    if s.halted {
        (s, None)
    } else if at(ts, s, Tok::RPR) {
        (step(ts, s), Some(Seq::empty()))
    } else if s.pos >= ts.len() {
        (expect(ts, s, Tok::RPR), None)
    } else {
        let (s1, first) = onward(s, parse_binary(ts, s, 0));
        if s1.halted {
            (s1, None)
        } else {
            let (s2, items) = onward(s1, parse_items(ts, s1, seq![or_noop(ts, s1, first)]));
            if s2.halted {
                (s2, None)
            } else {
                let s3 = pass(ts, s2, Tok::RPR);
                if s3.halted {
                    (s3, None)
                } else {
                    (s3, items)
                }
            }
        }
    }
}

/// `NAME ( args )`, from the bracket on; the name is the token before.
pub open spec fn parse_function_call(ts: Seq<TokenView>, s: Parse) -> (Parse, Option<Node>)
    decreases remaining(ts, s), 9nat,
{
    if s.halted || s.pos >= ts.len() {
        (s, None)
    } else {
        match prev(ts, s) {
            Some(TokenView { kind: Tok::ID(name), span }) => {
                let (s1, r) = onward(step(ts, s), parse_args(ts, step(ts, s)));
                if s1.halted {
                    (s1, None)
                } else {
                    match r {
                        Some(args) => (s1, Some(Node { kind: Kind::FUNC_CALL { name, args }, span })),
                        None => (s1, None),
                    }
                }
            },
            _ => (s, None),
        }
    }
}

/// `new NAME ( args )`
pub open spec fn parse_new(ts: Seq<TokenView>, s: Parse) -> (Parse, Option<Node>)
    decreases remaining(ts, s), 10nat,
{
    if s.halted || s.pos >= ts.len() {
        (s, None)
    } else {
        let s1 = step(ts, s);
        if s1.pos >= ts.len() {
            (s1, None)
        } else {
            let name = name_at(ts, s1);
            let span = here(ts, s1);
            let s2 = pass(ts, step(ts, s1), Tok::LPR);
            if s2.halted {
                (s2, None)
            } else {
                let (s3, r) = onward(s2, parse_args(ts, s2));
                if s3.halted {
                    (s3, None)
                } else {
                    match r {
                        Some(args) => (s3, Some(Node { kind: Kind::NEW { name, args }, span })),
                        None => (s3, None),
                    }
                }
            }
        }
    }
}

/// The indices that follow a target: `[ expr ]`, as often as it comes.
pub open spec fn parse_indices(ts: Seq<TokenView>, s: Parse, acc: Seq<Node>) -> (
    Parse,
    Option<Seq<Node>>,
)
    decreases remaining(ts, s), 0nat,
{
    if s.halted {
        (s, None)
    } else if at(ts, s, Tok::LSQB) {
        let s1 = step(ts, s);
        let (s2, r) = onward(s1, parse_binary(ts, s1, 2));
        if s2.halted {
            (s2, None)
        } else {
            let s3 = pass(ts, s2, Tok::RSQB);
            if s3.halted {
                (s3, None)
            } else {
                parse_indices(ts, s3, acc.push(or_noop(ts, s2, r)))
            }
        }
    } else {
        (s, Some(acc))
    }
}

/// `TARGET [ i1 ] [ i2 ] ...`, from the first bracket on.
pub open spec fn parse_index(ts: Seq<TokenView>, s: Parse, target: Node) -> (Parse, Option<Node>)
    decreases remaining(ts, s), 1nat,
{
    let (s1, r) = onward(s, parse_indices(ts, s, Seq::empty()));
    match r {
        Some(indices) => (
            s1,
            Some(
                Node { kind: Kind::INDEX { target: Box::new(target), indices }, span: target.span },
            ),
        ),
        None => (s1, None),
    }
}

/// `= expr` after an index or a property: the tree of the assignment.
pub open spec fn parse_assigned(ts: Seq<TokenView>, s: Parse) -> (Parse, Option<Node>)
    decreases remaining(ts, s), 1nat,
{
    if s.halted || s.pos >= ts.len() {
        (s, None)
    } else {
        let s1 = step(ts, s);
        let (s2, r) = onward(s1, parse_binary(ts, s1, 0));
        if s2.halted {
            (s2, None)
        } else {
            (s2, Some(or_noop(ts, s2, r)))
        }
    }
}

/// `TARGET [ ... ] = expr`, from the `=` on.
pub open spec fn parse_list_reassign(ts: Seq<TokenView>, s: Parse, target: Node) -> (
    Parse,
    Option<Node>,
)
    decreases remaining(ts, s), 2nat,
{
    let (s1, r) = parse_assigned(ts, s);
    match r {
        Some(value) => (
            s1,
            Some(
                Node {
                    kind: Kind::LIST_REASSIGN { target: Box::new(target), value: Box::new(value) },
                    span: value.span,
                },
            ),
        ),
        None => (s1, None),
    }
}

/// `TARGET . NAME = expr`, from the `=` on.
pub open spec fn parse_obj_reassign(ts: Seq<TokenView>, s: Parse, object_index: Node) -> (
    Parse,
    Option<Node>,
)
    decreases remaining(ts, s), 2nat,
{
    let (s1, r) = parse_assigned(ts, s);
    match r {
        Some(value) => (
            s1,
            Some(
                Node {
                    kind: Kind::OBJECT_REASSIGN {
                        object_index: Box::new(object_index),
                        value: Box::new(value),
                    },
                    span: value.span,
                },
            ),
        ),
        None => (s1, None),
    }
}

/// `NAME = expr`, from the `=` on; the name is the token before.
pub open spec fn parse_variable_reassign(ts: Seq<TokenView>, s: Parse) -> (Parse, Option<Node>)
    decreases remaining(ts, s), 2nat,
{
    if s.halted || s.pos >= ts.len() {
        (s, None)
    } else {
        let name = match prev(ts, s) {
            Some(TokenView { kind: Tok::ID(name), .. }) => name,
            _ => Seq::empty(),
        };
        let s1 = step(ts, s);
        let (s2, r) = onward(s1, parse_binary(ts, s1, 0));
        if s2.halted {
            (s2, None)
        } else {
            match (r, prev(ts, s2)) {
                (Some(value), Some(last)) => (
                    s2,
                    Some(
                        Node {
                            kind: Kind::VAR_REASSIGN { name, value: Box::new(value) },
                            span: last.span,
                        },
                    ),
                ),
                _ => (s2, None),
            }
        }
    }
}

/// What may follow a dot: a name, a call or an indexed name.
pub open spec fn parse_property(ts: Seq<TokenView>, s: Parse) -> (Parse, Option<Node>)
    decreases remaining(ts, s), 10nat,
{
    if s.halted {
        (s, None)
    } else {
        match cur(ts, s) {
            Some(TokenView { kind: Tok::ID(name), span }) => {
                let s1 = step(ts, s);
                let var = Node { kind: Kind::VAR { name }, span };
                if at(ts, s1, Tok::LPR) {
                    parse_function_call(ts, s1)
                } else if at(ts, s1, Tok::LSQB) {
                    parse_index(ts, s1, var)
                } else {
                    (s1, Some(var))
                }
            },
            _ => (s, None),
        }
    }
}

/// `TARGET . NAME . NAME ...`, from the first dot on.
pub open spec fn parse_obj_index(ts: Seq<TokenView>, s: Parse, object: Node, span: Span) -> (
    Parse,
    Option<Node>,
)
    decreases remaining(ts, s), 0nat,
{
    if s.halted {
        (s, None)
    } else if at(ts, s, Tok::DOT) {
        let s1 = step(ts, s);
        let (s2, r) = onward(s1, parse_property(ts, s1));
        if s2.halted {
            (s2, None)
        } else {
            match r {
                Some(property) => parse_obj_index(
                    ts,
                    s2,
                    Node {
                        kind: Kind::OBJECT_INDEX {
                            object: Box::new(object),
                            property: Box::new(property),
                        },
                        span,
                    },
                    span,
                ),
                None => (s2, None),
            }
        }
    } else {
        (s, Some(object))
    }
}

/// A variable with what follows it: a call, an assignment, indices or
/// properties, and an assignment to those.
pub open spec fn parse_variable(ts: Seq<TokenView>, s: Parse) -> (Parse, Option<Node>)
    decreases remaining(ts, s), 11nat,
{
    if s.halted || s.pos >= ts.len() {
        (s, None)
    } else {
        let t = ts[s.pos as int];
        let s1 = step(ts, s);
        let var = Node { kind: Kind::VAR { name: name_at(ts, s) }, span: t.span };
        if s1.pos >= ts.len() {
            (s1, None)
        } else if at(ts, s1, Tok::LPR) {
            let (s2, r) = onward(s1, parse_function_call(ts, s1));
            if s2.halted {
                (s2, None)
            } else {
                match r {
                    Some(call) => if s2.pos >= ts.len() {
                        (s2, None)
                    } else if at(ts, s2, Tok::LSQB) {
                        parse_index(ts, s2, call)
                    } else {
                        (s2, Some(call))
                    },
                    None => (s2, None),
                }
            }
        } else if at(ts, s1, Tok::EQL) {
            parse_variable_reassign(ts, s1)
        } else if at(ts, s1, Tok::LSQB) {
            let (s2, r) = onward(s1, parse_index(ts, s1, var));
            if s2.halted {
                (s2, None)
            } else {
                match r {
                    Some(indexed) => if s2.pos >= ts.len() {
                        (s2, None)
                    } else if at(ts, s2, Tok::EQL) {
                        parse_list_reassign(ts, s2, indexed)
                    } else {
                        (s2, Some(indexed))
                    },
                    None => (s2, None),
                }
            }
        } else if at(ts, s1, Tok::DOT) {
            let (s2, r) = onward(s1, parse_obj_index(ts, s1, var, t.span));
            if s2.halted {
                (s2, None)
            } else {
                match r {
                    Some(indexed) => if s2.pos >= ts.len() {
                        (s2, None)
                    } else if at(ts, s2, Tok::EQL) {
                        parse_obj_reassign(ts, s2, indexed)
                    } else {
                        (s2, Some(indexed))
                    },
                    None => (s2, None),
                }
            }
        } else {
            (s1, Some(var))
        }
    }
}

/// `[ e1, e2, ... ]`
pub open spec fn parse_list(ts: Seq<TokenView>, s: Parse) -> (Parse, Option<Node>)
    decreases remaining(ts, s), 10nat,
{
    if s.halted || s.pos >= ts.len() {
        (s, None)
    } else {
        let span = ts[s.pos as int].span;
        let s1 = step(ts, s);
        if s1.pos >= ts.len() {
            (s1, None)
        } else if at(ts, s1, Tok::RSQB) {
            (step(ts, s1), Some(Node { kind: Kind::LIST { contents: Seq::empty() }, span }))
        } else {
            let (s2, first) = onward(s1, parse_binary(ts, s1, 0));
            if s2.halted {
                (s2, None)
            } else {
                let (s3, items) = onward(s2, parse_items(ts, s2, seq![or_noop(ts, s2, first)]));
                if s3.halted {
                    (s3, None)
                } else {
                    let s4 = pass(ts, s3, Tok::RSQB);
                    match items {
                        Some(contents) => if s4.halted {
                            (s4, None)
                        } else {
                            (s4, Some(Node { kind: Kind::LIST { contents }, span }))
                        },
                        None => (s4, None),
                    }
                }
            }
        }
    }
}

/// `param NAME`
pub open spec fn parse_function_param(ts: Seq<TokenView>, s: Parse) -> (Parse, Option<Node>) {
    let s1 = pass(ts, s, Tok::ID("param"@));
    if s1.halted {
        (s1, None)
    } else {
        let name = name_at(ts, s1);
        let s2 = step(ts, s1);
        if s2.pos >= ts.len() {
            (s2, None)
        } else {
            (
                s2,
                Some(
                    Node {
                        kind: Kind::VAR_DEF { name, value: Box::new(noop_here(ts, s2)) },
                        span: here(ts, s2),
                    },
                ),
            )
        }
    }
}

/// Parameters separated by commas, up to what is no comma.
pub open spec fn parse_params(ts: Seq<TokenView>, s: Parse, acc: Seq<Node>) -> (
    Parse,
    Option<Seq<Node>>,
)
    decreases remaining(ts, s), 0nat,
{
    if s.halted {
        (s, None)
    } else if at(ts, s, Tok::CMA) {
        let s1 = step(ts, s);
        let (s2, r) = onward(s1, parse_function_param(ts, s1));
        if s2.halted {
            (s2, None)
        } else {
            parse_params(ts, s2, acc.push(or_noop(ts, s2, r)))
        }
    } else {
        (s, Some(acc))
    }
}

/// `{ compound }`
pub open spec fn parse_block(ts: Seq<TokenView>, s: Parse) -> (Parse, Option<Node>)
    decreases remaining(ts, s), 33nat,
{
    let s1 = pass(ts, s, Tok::LBR);
    if s1.halted || s1.pos < s.pos {
        (s1, None)
    } else {
        let (s2, r) = onward(s1, parse_compound(ts, s1));
        if s2.halted {
            (s2, None)
        } else {
            let s3 = pass(ts, s2, Tok::RBR);
            if s3.halted {
                (s3, None)
            } else {
                (s3, Some(or_noop(ts, s2, r)))
            }
        }
    }
}

/// `funct NAME ( param A, param B, ... ) { body }`
pub open spec fn parse_function_definition(ts: Seq<TokenView>, s: Parse) -> (Parse, Option<Node>)
    decreases remaining(ts, s), 10nat,
{
    if s.halted || s.pos >= ts.len() {
        (s, None)
    } else {
        let s1 = step(ts, s);
        if s1.pos >= ts.len() {
            (s1, None)
        } else {
            let name = name_at(ts, s1);
            let span = here(ts, s1);
            let s2 = pass(ts, step(ts, s1), Tok::LPR);
            if s2.halted || s2.pos >= ts.len() {
                (s2, None)
            } else {
                let (s3, first) = if at(ts, s2, Tok::RPR) {
                    (s2, Seq::<Node>::empty())
                } else {
                    let (s3, r) = onward(s2, parse_function_param(ts, s2));
                    (s3, seq![or_noop(ts, s3, r)])
                };
                if s3.halted {
                    (s3, None)
                } else {
                    let (s4, params) = onward(s3, parse_params(ts, s3, first));
                    if s4.halted {
                        (s4, None)
                    } else {
                        let s5 = pass(ts, s4, Tok::RPR);
                        if s5.halted || s5.pos <= s.pos {
                            (s5, None)
                        } else {
                            let (s6, body) = onward(s5, parse_block(ts, s5));
                            if s6.halted {
                                (s6, None)
                            } else {
                                match (params, body) {
                                    (Some(args), Some(b)) => (
                                        s6,
                                        Some(
                                            Node {
                                                kind: Kind::FUNC_DEF {
                                                    body: Box::new(b),
                                                    name,
                                                    args,
                                                },
                                                span,
                                            },
                                        ),
                                    ),
                                    _ => (s6, None),
                                }
                            }
                        }
                    }
                }
            }
        }
    }
}

/// `( cond ) { body }`: a condition and the body it guards.
pub open spec fn parse_guarded(ts: Seq<TokenView>, s: Parse) -> (Parse, Option<(Node, Node)>)
    decreases remaining(ts, s), 34nat,
{
    let s1 = pass(ts, s, Tok::LPR);
    if s1.halted || s1.pos < s.pos {
        (s1, None)
    } else {
        let (s2, c) = onward(s1, parse_binary(ts, s1, 0));
        if s2.halted {
            (s2, None)
        } else {
            let s3 = pass(ts, s2, Tok::RPR);
            if s3.halted || s3.pos <= s.pos {
                (s3, None)
            } else {
                let (s4, b) = onward(s3, parse_block(ts, s3));
                if s4.halted {
                    (s4, None)
                } else {
                    (s4, Some((or_noop(ts, s2, c), or_noop(ts, s4, b))))
                }
            }
        }
    }
}

/// `while ( cond ) { body }`
pub open spec fn parse_while(ts: Seq<TokenView>, s: Parse) -> (Parse, Option<Node>)
    decreases remaining(ts, s), 10nat,
{
    if s.halted || s.pos >= ts.len() {
        (s, None)
    } else {
        let span = ts[s.pos as int].span;
        let (s1, r) = onward(step(ts, s), parse_guarded(ts, step(ts, s)));
        match r {
            Some((condition, body)) => (
                s1,
                Some(
                    Node {
                        kind: Kind::WHILE {
                            condition: Box::new(condition),
                            body: Box::new(body),
                        },
                        span,
                    },
                ),
            ),
            None => (s1, None),
        }
    }
}

/// The branches of an `if` after the first: `else if (...) {...}` as often
/// as it comes, and at most one `else {...}`.
pub open spec fn parse_branches(
    ts: Seq<TokenView>,
    s: Parse,
    conditions: Seq<Node>,
    bodies: Seq<Node>,
    span: Span,
) -> (Parse, Option<Node>)
    decreases remaining(ts, s), 0nat,
{
    if s.halted {
        (s, None)
    } else if at(ts, s, Tok::ID("else"@)) {
        let s1 = step(ts, s);
        if at(ts, s1, Tok::ID("if"@)) {
            let s2 = step(ts, s1);
            let (s3, r) = onward(s2, parse_guarded(ts, s2));
            if s3.halted {
                (s3, None)
            } else {
                match r {
                    Some((c, b)) => parse_branches(ts, s3, conditions.push(c), bodies.push(b), span),
                    None => (s3, None),
                }
            }
        } else {
            let (s2, r) = onward(s1, parse_block(ts, s1));
            if s2.halted {
                (s2, None)
            } else {
                (
                    s2,
                    Some(
                        Node {
                            kind: Kind::IF {
                                conditions,
                                bodies,
                                else_body: match r {
                                    Some(b) => Some(Box::new(b)),
                                    None => None,
                                },
                            },
                            span,
                        },
                    ),
                )
            }
        }
    } else {
        (s, Some(Node { kind: Kind::IF { conditions, bodies, else_body: None }, span }))
    }
}

/// `if ( cond ) { body } (else if (...) {...})* (else { ... })?`
pub open spec fn parse_if(ts: Seq<TokenView>, s: Parse) -> (Parse, Option<Node>)
    decreases remaining(ts, s), 10nat,
{
    if s.halted || s.pos >= ts.len() {
        (s, None)
    } else {
        let span = ts[s.pos as int].span;
        let (s1, r) = onward(step(ts, s), parse_guarded(ts, step(ts, s)));
        if s1.halted {
            (s1, None)
        } else {
            match r {
                Some((c, b)) => parse_branches(ts, s1, seq![c], seq![b], span),
                None => (s1, None),
            }
        }
    }
}

/// A table of definitions with the given one put in: in the place of the
/// one that binds the same name, or at the end.
#[verifier::opaque]
pub open spec fn put(entries: Seq<Node>, def: Node) -> Seq<Node> {
    match entry_name(def) {
        Some(name) => match find(entries, name) {
            Some(i) => entries.update(i as int, def),
            None => entries.push(def),
        },
        None => entries.push(def),
    }
}

/// `prop P;`, from `prop` on: the table of properties with `P` put in.
pub open spec fn parse_member_property(ts: Seq<TokenView>, s: Parse, properties: Seq<Node>) -> (
    Parse,
    Option<Seq<Node>>,
) {
    let s1 = step(ts, s);
    match cur(ts, s1) {
        Some(TokenView { kind: Tok::ID(property), span: at_name }) => {
            let def = Node {
                kind: Kind::VAR_DEF {
                    name: property,
                    value: Box::new(Node { kind: Kind::NOOP, span: at_name }),
                },
                span: at_name,
            };
            let s2 = pass(ts, step(ts, s1), Tok::SEMI);
            if s2.halted {
                (s2, None)
            } else {
                (s2, Some(put(properties, def)))
            }
        },
        _ => (s1.fail(ETypes::SyntaxError, "Expected name of property"@, here(ts, s1)), None),
    }
}

/// `method funct M(..){..};`, from `method` on: the table of methods with
/// `M` put in. The semicolon may be left out before the bracket that closes
/// the blueprint.
pub open spec fn parse_member_method(ts: Seq<TokenView>, s: Parse, methods: Seq<Node>) -> (
    Parse,
    Option<Seq<Node>>,
)
    decreases remaining(ts, s), 12nat,
{
    let s1 = expect(ts, step(ts, s), Tok::ID("funct"@));
    if s1.halted || s1.pos <= s.pos {
        (s1, None)
    } else {
        let (s2, r) = onward(s1, parse_function_definition(ts, s1));
        if s2.halted {
            (s2, None)
        } else {
            match r {
                Some(method) => {
                    let s3 = if at(ts, s2, Tok::RBR) {
                        s2
                    } else {
                        pass(ts, s2, Tok::SEMI)
                    };
                    if s3.halted {
                        (s3, None)
                    } else {
                        (s3, Some(put(methods, method)))
                    }
                },
                None => (s2, None),
            }
        }
    }
}

/// One member of a blueprint, put into the tables of properties and of
/// methods.
pub open spec fn parse_member(
    ts: Seq<TokenView>,
    s: Parse,
    properties: Seq<Node>,
    methods: Seq<Node>,
) -> (Parse, Option<(Seq<Node>, Seq<Node>)>)
    decreases remaining(ts, s), 35nat,
{
    if s.halted || s.pos >= ts.len() {
        (s, None)
    } else if at(ts, s, Tok::ID("prop"@)) {
        let (s1, r) = parse_member_property(ts, s, properties);
        match r {
            Some(p) => (s1, Some((p, methods))),
            None => (s1, None),
        }
    } else if at(ts, s, Tok::ID("method"@)) {
        let (s1, r) = parse_member_method(ts, s, methods);
        match r {
            Some(m) => (s1, Some((properties, m))),
            None => (s1, None),
        }
    } else {
        (
            s.fail(
                ETypes::SyntaxError,
                "Expected 'prop' or 'method' to define blueprint fields"@,
                here(ts, s),
            ),
            None,
        )
    }
}

/// The members of a blueprint, up to and with the bracket that closes it.
pub open spec fn parse_members(
    ts: Seq<TokenView>,
    s: Parse,
    name: Seq<char>,
    properties: Seq<Node>,
    methods: Seq<Node>,
    span: Span,
) -> (Parse, Option<Node>)
    decreases remaining(ts, s), 36nat,
{
    if s.halted || s.pos >= ts.len() {
        (s, None)
    } else if at(ts, s, Tok::RBR) {
        (step(ts, s), Some(Node { kind: Kind::CLASS { name, properties, methods }, span }))
    } else {
        let (s1, r) = onward(s, parse_member(ts, s, properties, methods));
        match r {
            Some((p, m)) => if s1.halted || s1.pos <= s.pos {
                (s1, None)
            } else {
                parse_members(ts, s1, name, p, m, span)
            },
            None => (s1, None),
        }
    }
}

/// `blueprint NAME { prop P; method funct M(..){..}; ... }`
pub open spec fn parse_blueprint(ts: Seq<TokenView>, s: Parse) -> (Parse, Option<Node>)
    decreases remaining(ts, s), 10nat,
{
    if s.halted || s.pos >= ts.len() {
        (s, None)
    } else {
        let s1 = step(ts, s);
        match cur(ts, s1) {
            Some(TokenView { kind: Tok::ID(name), span }) => {
                let s2 = pass(ts, step(ts, s1), Tok::LBR);
                if s2.halted {
                    (s2, None)
                } else {
                    parse_members(ts, s2, name, Seq::empty(), Seq::empty(), span)
                }
            },
            _ => (s1.fail(ETypes::SyntaxError, "Expected name of blueprint"@, here(ts, s1)), None),
        }
    }
}

} // verus!
