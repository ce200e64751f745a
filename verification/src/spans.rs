//! Where the nodes of a parsed tree come from: each carries the span of one
//! of the tokens.

use vstd::prelude::*;
use crate::ast::{Kind, Node};
use crate::error::{ETypes, Span};
use crate::lexer::{
    all_without_bits, dots, ident_end, is_ident_part, is_ident_start, is_number_part, is_space,
    lex_all, lex_step, number_end, pair_tokens, quote_at, single_token, skip_comment,
    skip_space, split_lines, Scan, Source,
};
use crate::text::{is_digit, parse_int};
use crate::grammar::{
    at, binary_rest, compound_rest, cur, expect, here, is_operator, name_at, noop_here, onward,
    or_noop, parse_args, parse_assigned, parse_binary, parse_block, parse_blueprint,
    parse_branches, parse_break, parse_compound, parse_function_call, parse_function_definition,
    parse_function_param, parse_guarded, parse_identifier, parse_if, parse_index, parse_indices,
    parse_items, parse_list, parse_list_reassign, parse_member, parse_member_method,
    parse_member_property, parse_members, parse_mono, parse_new, parse_num, parse_obj_index,
    parse_obj_reassign, parse_operand, parse_params, parse_property, parse_return, parse_string,
    parse_variable, parse_variable_definition, parse_variable_reassign, parse_while, pass, prev,
    put, remaining, step, Parse,
};
use crate::scope::{entry_name, find};
use crate::token::{Tok, TokenView};

verus! {

/// Whether a span is that of one of the tokens.
pub open spec fn spanned(span: Span, ts: Seq<TokenView>) -> bool {
    exists|i: int| 0 <= i < ts.len() && (#[trigger] ts[i]).span == span
}

/// Whether a node and every node below it carry the span of one of the
/// tokens.
pub open spec fn covered(n: Node, ts: Seq<TokenView>) -> bool
    decreases n,
{
    &&& spanned(n.span, ts)
    &&& match n.kind {
        Kind::LIST { contents } => forall|i: int|
            0 <= i < contents.len() ==> covered(#[trigger] contents[i], ts),
        Kind::INDEX { target, indices } => covered(*target, ts) && forall|i: int|
            0 <= i < indices.len() ==> covered(#[trigger] indices[i], ts),
        Kind::LIST_REASSIGN { target, value } => covered(*target, ts) && covered(*value, ts),
        Kind::OBJECT_REASSIGN { object_index, value } => covered(*object_index, ts) && covered(
            *value,
            ts,
        ),
        Kind::BINOP { left, right, .. } => covered(*left, ts) && covered(*right, ts),
        Kind::UNOP { body, .. } => covered(*body, ts),
        Kind::VAR_DEF { value, .. } => covered(*value, ts),
        Kind::VAR_REASSIGN { value, .. } => covered(*value, ts),
        Kind::FUNC_DEF { body, args, .. } => covered(*body, ts) && forall|i: int|
            0 <= i < args.len() ==> covered(#[trigger] args[i], ts),
        Kind::FUNC_CALL { args, .. } => forall|i: int|
            0 <= i < args.len() ==> covered(#[trigger] args[i], ts),
        Kind::RETURN { value } => covered(*value, ts),
        Kind::CLASS { properties, methods, .. } => (forall|i: int|
            0 <= i < properties.len() ==> covered(#[trigger] properties[i], ts)) && (forall|
            i: int,
        | 0 <= i < methods.len() ==> covered(#[trigger] methods[i], ts)),
        Kind::NEW { args, .. } => forall|i: int|
            0 <= i < args.len() ==> covered(#[trigger] args[i], ts),
        Kind::OBJECT_INDEX { object, property } => covered(*object, ts) && covered(*property, ts),
        Kind::IF { conditions, bodies, else_body } => (forall|i: int|
            0 <= i < conditions.len() ==> covered(#[trigger] conditions[i], ts)) && (forall|
            i: int,
        | 0 <= i < bodies.len() ==> covered(#[trigger] bodies[i], ts)) && (match else_body {
            Some(b) => covered(*b, ts),
            None => true,
        }),
        Kind::WHILE { condition, body } => covered(*condition, ts) && covered(*body, ts),
        Kind::COMPOUND { compound_value } => forall|i: int|
            0 <= i < compound_value.len() ==> covered(#[trigger] compound_value[i], ts),
        _ => true,
    }
}

/// Whether every node of a sequence is covered.
pub open spec fn all_covered(ns: Seq<Node>, ts: Seq<TokenView>) -> bool {
    forall|i: int| 0 <= i < ns.len() ==> covered(#[trigger] ns[i], ts)
}

/// The span of the current token, or of the last one, is the span of a token.
proof fn lemma_here(ts: Seq<TokenView>, s: Parse)
    requires
        ts.len() > 0,
    ensures
        spanned(here(ts, s), ts),
        covered(noop_here(ts, s), ts),
{
    if s.pos < ts.len() {
        assert(ts[s.pos as int].span == here(ts, s));
    } else {
        assert(ts[ts.len() - 1].span == here(ts, s));
    }
}

proof fn lemma_or_noop(ts: Seq<TokenView>, s: Parse, r: Option<Node>)
    requires
        ts.len() > 0,
        r matches Some(n) ==> covered(n, ts),
    ensures
        covered(or_noop(ts, s, r), ts),
{
    lemma_here(ts, s);
}

proof fn lemma_token_span(ts: Seq<TokenView>, i: int)
    requires
        0 <= i < ts.len(),
    ensures
        spanned(ts[i].span, ts),
{
}

proof fn lemma_push_covered(ns: Seq<Node>, n: Node, ts: Seq<TokenView>)
    requires
        all_covered(ns, ts),
        covered(n, ts),
    ensures
        all_covered(ns.push(n), ts),
{
    assert forall|i: int| 0 <= i < ns.push(n).len() implies covered(
        #[trigger] ns.push(n)[i],
        ts,
    ) by {
        if i < ns.len() {
            assert(ns.push(n)[i] == ns[i]);
        }
    }
}

proof fn lemma_put_covered(ns: Seq<Node>, n: Node, ts: Seq<TokenView>)
    requires
        all_covered(ns, ts),
        covered(n, ts),
    ensures
        all_covered(put(ns, n), ts),
{
    reveal(put);
    lemma_push_covered(ns, n, ts);
    match entry_name(n) {
        Some(name) => {
            match find(ns, name) {
                Some(i) => {
                    crate::laws::lemma_find_in_range(ns, name, 0);
                    assert forall|j: int| 0 <= j < ns.update(i as int, n).len() implies covered(
                        #[trigger] ns.update(i as int, n)[j],
                        ts,
                    ) by {
                        if j != i {
                            assert(ns.update(i as int, n)[j] == ns[j]);
                        }
                    }
                },
                None => {},
            }
        },
        None => {},
    }
}

proof fn lemma_operand(ts: Seq<TokenView>, s: Parse, level: nat)
    requires
        ts.len() > 0,
    ensures
        parse_operand(ts, s, level).1 matches Some(n) ==> covered(n, ts),
    decreases remaining(ts, s), 29 - 2 * level,
{
    if level == 3 {
        lemma_mono(ts, s);
    } else if level < 3 {
        lemma_binary(ts, s, level + 1);
    }
}

proof fn lemma_binary(ts: Seq<TokenView>, s: Parse, level: nat)
    requires
        ts.len() > 0,
    ensures
        parse_binary(ts, s, level).1 matches Some(n) ==> covered(n, ts),
    decreases remaining(ts, s), 30 - 2 * level,
{
    if !s.halted && level <= 3 {
        lemma_operand(ts, s, level);
        let (s1, l) = onward(s, parse_operand(ts, s, level));
        if !s1.halted {
            match l {
                Some(left) => {
                    lemma_binary_rest(ts, s1, level, left);
                },
                None => {},
            }
        }
    }
}

proof fn lemma_binary_rest(ts: Seq<TokenView>, s: Parse, level: nat, left: Node)
    requires
        ts.len() > 0,
        covered(left, ts),
    ensures
        binary_rest(ts, s, level, left).1 matches Some(n) ==> covered(n, ts),
    decreases remaining(ts, s), 0nat,
{
    if !s.halted && level <= 3 && s.pos < ts.len() && is_operator(level, ts[s.pos as int].kind) {
        let op = ts[s.pos as int];
        let s1 = step(ts, s);
        lemma_operand(ts, s1, level);
        let (s2, r) = onward(s1, parse_operand(ts, s1, level));
        if !s2.halted {
            lemma_or_noop(ts, s2, r);
            lemma_token_span(ts, s.pos as int);
            let node = Node {
                kind: Kind::BINOP {
                    left: Box::new(left),
                    op: op.kind,
                    right: Box::new(or_noop(ts, s2, r)),
                },
                span: op.span,
            };
            assert(covered(node, ts));
            lemma_binary_rest(ts, s2, level, node);
        }
    }
}

proof fn lemma_compound(ts: Seq<TokenView>, s: Parse)
    requires
        ts.len() > 0,
    ensures
        parse_compound(ts, s).1 matches Some(n) ==> covered(n, ts),
    decreases remaining(ts, s), 31nat,
{
    if !s.halted {
        lemma_binary(ts, s, 0);
        let (s1, first) = onward(s, parse_binary(ts, s, 0));
        if !s1.halted {
            lemma_or_noop(ts, s1, first);
            lemma_here(ts, s);
            let acc = seq![or_noop(ts, s1, first)];
            assert(all_covered(acc, ts));
            lemma_compound_rest(ts, s1, acc, here(ts, s));
        }
    }
}

proof fn lemma_compound_rest(ts: Seq<TokenView>, s: Parse, acc: Seq<Node>, span: Span)
    requires
        ts.len() > 0,
        all_covered(acc, ts),
        spanned(span, ts),
    ensures
        compound_rest(ts, s, acc, span).1 matches Some(n) ==> covered(n, ts),
    decreases remaining(ts, s), 0nat,
{
    if !s.halted {
        if at(ts, s, Tok::SEMI) {
            let s1 = step(ts, s);
            lemma_binary(ts, s1, 0);
            let (s2, r) = onward(s1, parse_binary(ts, s1, 0));
            if !s2.halted {
                lemma_or_noop(ts, s2, r);
                lemma_push_covered(acc, or_noop(ts, s2, r), ts);
                lemma_compound_rest(ts, s2, acc.push(or_noop(ts, s2, r)), span);
            }
        } else {
            assert(covered(Node { kind: Kind::COMPOUND { compound_value: acc }, span }, ts));
        }
    }
}

proof fn lemma_mono(ts: Seq<TokenView>, s: Parse)
    requires
        ts.len() > 0,
    ensures
        parse_mono(ts, s).1 matches Some(n) ==> covered(n, ts),
    decreases remaining(ts, s), 15nat,
{
    if !s.halted && s.pos < ts.len() {
        let t = ts[s.pos as int];
        lemma_token_span(ts, s.pos as int);
        match t.kind {
            Tok::INT(_) | Tok::FLOAT(_) => {
                lemma_num(ts, s);
            },
            Tok::STRING(_) => {
                lemma_string(ts, s);
            },
            Tok::ID(_) => {
                lemma_identifier(ts, s);
            },
            Tok::EOF => {},
            Tok::LPR => {
                let s1 = step(ts, s);
                lemma_binary(ts, s1, 0);
            },
            Tok::LSQB => {
                lemma_list(ts, s);
            },
            Tok::MIN | Tok::NOT => {
                let s1 = step(ts, s);
                lemma_mono(ts, s1);
                let (s2, r) = onward(s1, parse_mono(ts, s1));
                if !s2.halted {
                    lemma_or_noop(ts, s2, r);
                    assert(covered(
                        Node {
                            kind: Kind::UNOP { op: t.kind, body: Box::new(or_noop(ts, s2, r)) },
                            span: t.span,
                        },
                        ts,
                    ));
                }
            },
            _ => {},
        }
    }
}

proof fn lemma_num(ts: Seq<TokenView>, s: Parse)
    requires
        ts.len() > 0,
    ensures
        parse_num(ts, s).1 matches Some(n) ==> covered(n, ts),
{
    if !s.halted && s.pos < ts.len() {
        lemma_token_span(ts, s.pos as int);
    }
}

proof fn lemma_string(ts: Seq<TokenView>, s: Parse)
    requires
        ts.len() > 0,
    ensures
        parse_string(ts, s).1 matches Some(n) ==> covered(n, ts),
{
    if !s.halted && s.pos < ts.len() {
        lemma_token_span(ts, s.pos as int);
    }
}

proof fn lemma_identifier(ts: Seq<TokenView>, s: Parse)
    requires
        ts.len() > 0,
    ensures
        parse_identifier(ts, s).1 matches Some(n) ==> covered(n, ts),
    decreases remaining(ts, s), 14nat,
{
    if !s.halted && s.pos < ts.len() {
        lemma_token_span(ts, s.pos as int);
        let t = ts[s.pos as int];
        match t.kind {
            Tok::ID(name) => {
                if name == "assign"@ {
                    lemma_variable_definition(ts, s);
                } else if name == "funct"@ {
                    lemma_function_definition(ts, s);
                } else if name == "return"@ {
                    lemma_return(ts, s);
                } else if name == "blueprint"@ {
                    lemma_blueprint(ts, s);
                } else if name == "new"@ {
                    lemma_new(ts, s);
                } else if name == "if"@ {
                    lemma_if(ts, s);
                } else if name == "while"@ {
                    lemma_while(ts, s);
                } else if name == "break"@ {
                    lemma_break(ts, s);
                } else if name == "true"@ {
                } else if name == "false"@ {
                } else {
                    lemma_variable(ts, s);
                }
            },
            _ => {},
        }
    }
}

proof fn lemma_break(ts: Seq<TokenView>, s: Parse)
    requires
        ts.len() > 0,
    ensures
        parse_break(ts, s).1 matches Some(n) ==> covered(n, ts),
{
    if !s.halted && s.pos < ts.len() {
        lemma_token_span(ts, s.pos as int);
    }
}

proof fn lemma_return(ts: Seq<TokenView>, s: Parse)
    requires
        ts.len() > 0,
    ensures
        parse_return(ts, s).1 matches Some(n) ==> covered(n, ts),
    decreases remaining(ts, s), 10nat,
{
    if !s.halted && s.pos < ts.len() {
        let s1 = step(ts, s);
        lemma_binary(ts, s1, 0);
        let (s2, r) = onward(s1, parse_binary(ts, s1, 0));
        if !s2.halted {
            lemma_or_noop(ts, s2, r);
            lemma_here(ts, s2);
            assert(covered(
                Node {
                    kind: Kind::RETURN { value: Box::new(or_noop(ts, s2, r)) },
                    span: here(ts, s2),
                },
                ts,
            ));
        }
    }
}

proof fn lemma_variable_definition(ts: Seq<TokenView>, s: Parse)
    requires
        ts.len() > 0,
    ensures
        parse_variable_definition(ts, s).1 matches Some(n) ==> covered(n, ts),
    decreases remaining(ts, s), 10nat,
{
    if !s.halted && s.pos < ts.len() {
        let s1 = step(ts, s);
        match cur(ts, s1) {
            Some(TokenView { kind: Tok::ID(name), span }) => {
                lemma_token_span(ts, s1.pos as int);
                let s2 = pass(ts, step(ts, s1), Tok::EQL);
                if !s2.halted {
                    lemma_binary(ts, s2, 0);
                    let (s3, r) = onward(s2, parse_binary(ts, s2, 0));
                    if !s3.halted {
                        match r {
                            Some(value) => {
                                assert(covered(
                                    Node {
                                        kind: Kind::VAR_DEF { name, value: Box::new(value) },
                                        span,
                                    },
                                    ts,
                                ));
                            },
                            None => {},
                        }
                    }
                }
            },
            _ => {},
        }
    }
}

proof fn lemma_items(ts: Seq<TokenView>, s: Parse, acc: Seq<Node>)
    requires
        ts.len() > 0,
        all_covered(acc, ts),
    ensures
        parse_items(ts, s, acc).1 matches Some(ns) ==> all_covered(ns, ts),
    decreases remaining(ts, s), 0nat,
{
    if !s.halted && at(ts, s, Tok::CMA) {
        let s1 = step(ts, s);
        lemma_binary(ts, s1, 0);
        let (s2, r) = onward(s1, parse_binary(ts, s1, 0));
        if !s2.halted {
            lemma_or_noop(ts, s2, r);
            lemma_push_covered(acc, or_noop(ts, s2, r), ts);
            lemma_items(ts, s2, acc.push(or_noop(ts, s2, r)));
        }
    }
}

proof fn lemma_args(ts: Seq<TokenView>, s: Parse)
    requires
        ts.len() > 0,
    ensures
        parse_args(ts, s).1 matches Some(ns) ==> all_covered(ns, ts),
    decreases remaining(ts, s), 32nat,
{
    if !s.halted && !at(ts, s, Tok::RPR) && s.pos < ts.len() {
        lemma_binary(ts, s, 0);
        let (s1, first) = onward(s, parse_binary(ts, s, 0));
        if !s1.halted {
            lemma_or_noop(ts, s1, first);
            let acc = seq![or_noop(ts, s1, first)];
            assert(all_covered(acc, ts));
            lemma_items(ts, s1, acc);
        }
    }
}

proof fn lemma_function_call(ts: Seq<TokenView>, s: Parse)
    requires
        ts.len() > 0,
    ensures
        parse_function_call(ts, s).1 matches Some(n) ==> covered(n, ts),
    decreases remaining(ts, s), 9nat,
{
    if !s.halted && s.pos < ts.len() {
        match prev(ts, s) {
            Some(TokenView { kind: Tok::ID(name), span }) => {
                lemma_token_span(ts, s.pos - 1);
                lemma_args(ts, step(ts, s));
                let (s1, r) = onward(step(ts, s), parse_args(ts, step(ts, s)));
                if !s1.halted {
                    match r {
                        Some(args) => {
                            assert(covered(Node { kind: Kind::FUNC_CALL { name, args }, span }, ts));
                        },
                        None => {},
                    }
                }
            },
            _ => {},
        }
    }
}

proof fn lemma_new(ts: Seq<TokenView>, s: Parse)
    requires
        ts.len() > 0,
    ensures
        parse_new(ts, s).1 matches Some(n) ==> covered(n, ts),
    decreases remaining(ts, s), 10nat,
{
    if !s.halted && s.pos < ts.len() {
        let s1 = step(ts, s);
        if s1.pos < ts.len() {
            lemma_here(ts, s1);
            let s2 = pass(ts, step(ts, s1), Tok::LPR);
            if !s2.halted {
                lemma_args(ts, s2);
                let (s3, r) = onward(s2, parse_args(ts, s2));
                if !s3.halted {
                    match r {
                        Some(args) => {
                            assert(covered(
                                Node {
                                    kind: Kind::NEW { name: name_at(ts, s1), args },
                                    span: here(ts, s1),
                                },
                                ts,
                            ));
                        },
                        None => {},
                    }
                }
            }
        }
    }
}

proof fn lemma_indices(ts: Seq<TokenView>, s: Parse, acc: Seq<Node>)
    requires
        ts.len() > 0,
        all_covered(acc, ts),
    ensures
        parse_indices(ts, s, acc).1 matches Some(ns) ==> all_covered(ns, ts),
    decreases remaining(ts, s), 0nat,
{
    if !s.halted && at(ts, s, Tok::LSQB) {
        let s1 = step(ts, s);
        lemma_binary(ts, s1, 2);
        let (s2, r) = onward(s1, parse_binary(ts, s1, 2));
        if !s2.halted {
            let s3 = pass(ts, s2, Tok::RSQB);
            if !s3.halted {
                lemma_or_noop(ts, s2, r);
                lemma_push_covered(acc, or_noop(ts, s2, r), ts);
                lemma_indices(ts, s3, acc.push(or_noop(ts, s2, r)));
            }
        }
    }
}

proof fn lemma_index(ts: Seq<TokenView>, s: Parse, target: Node)
    requires
        ts.len() > 0,
        covered(target, ts),
    ensures
        parse_index(ts, s, target).1 matches Some(n) ==> covered(n, ts),
    decreases remaining(ts, s), 1nat,
{
    assert(all_covered(Seq::<Node>::empty(), ts));
    lemma_indices(ts, s, Seq::empty());
    let (s1, r) = onward(s, parse_indices(ts, s, Seq::empty()));
    match r {
        Some(indices) => {
            assert(covered(
                Node { kind: Kind::INDEX { target: Box::new(target), indices }, span: target.span },
                ts,
            ));
        },
        None => {},
    }
}

proof fn lemma_assigned(ts: Seq<TokenView>, s: Parse)
    requires
        ts.len() > 0,
    ensures
        parse_assigned(ts, s).1 matches Some(n) ==> covered(n, ts),
    decreases remaining(ts, s), 1nat,
{
    if !s.halted && s.pos < ts.len() {
        let s1 = step(ts, s);
        lemma_binary(ts, s1, 0);
        let (s2, r) = onward(s1, parse_binary(ts, s1, 0));
        if !s2.halted {
            lemma_or_noop(ts, s2, r);
        }
    }
}

proof fn lemma_list_reassign(ts: Seq<TokenView>, s: Parse, target: Node)
    requires
        ts.len() > 0,
        covered(target, ts),
    ensures
        parse_list_reassign(ts, s, target).1 matches Some(n) ==> covered(n, ts),
    decreases remaining(ts, s), 2nat,
{
    lemma_assigned(ts, s);
    let (s1, r) = parse_assigned(ts, s);
    match r {
        Some(value) => {
            assert(covered(
                Node {
                    kind: Kind::LIST_REASSIGN { target: Box::new(target), value: Box::new(value) },
                    span: value.span,
                },
                ts,
            ));
        },
        None => {},
    }
}

proof fn lemma_obj_reassign(ts: Seq<TokenView>, s: Parse, object_index: Node)
    requires
        ts.len() > 0,
        covered(object_index, ts),
    ensures
        parse_obj_reassign(ts, s, object_index).1 matches Some(n) ==> covered(n, ts),
    decreases remaining(ts, s), 2nat,
{
    lemma_assigned(ts, s);
    let (s1, r) = parse_assigned(ts, s);
    match r {
        Some(value) => {
            assert(covered(
                Node {
                    kind: Kind::OBJECT_REASSIGN {
                        object_index: Box::new(object_index),
                        value: Box::new(value),
                    },
                    span: value.span,
                },
                ts,
            ));
        },
        None => {},
    }
}

proof fn lemma_variable_reassign(ts: Seq<TokenView>, s: Parse)
    requires
        ts.len() > 0,
    ensures
        parse_variable_reassign(ts, s).1 matches Some(n) ==> covered(n, ts),
    decreases remaining(ts, s), 2nat,
{
    if !s.halted && s.pos < ts.len() {
        let s1 = step(ts, s);
        lemma_binary(ts, s1, 0);
        let (s2, r) = onward(s1, parse_binary(ts, s1, 0));
        if !s2.halted {
            match (r, prev(ts, s2)) {
                (Some(value), Some(last)) => {
                    lemma_token_span(ts, s2.pos - 1);
                    let name = match prev(ts, s) {
                        Some(TokenView { kind: Tok::ID(name), .. }) => name,
                        _ => Seq::empty(),
                    };
                    assert(covered(
                        Node {
                            kind: Kind::VAR_REASSIGN { name, value: Box::new(value) },
                            span: last.span,
                        },
                        ts,
                    ));
                },
                _ => {},
            }
        }
    }
}

proof fn lemma_property(ts: Seq<TokenView>, s: Parse)
    requires
        ts.len() > 0,
    ensures
        parse_property(ts, s).1 matches Some(n) ==> covered(n, ts),
    decreases remaining(ts, s), 10nat,
{
    if !s.halted {
        match cur(ts, s) {
            Some(TokenView { kind: Tok::ID(name), span }) => {
                lemma_token_span(ts, s.pos as int);
                let s1 = step(ts, s);
                let var = Node { kind: Kind::VAR { name }, span };
                assert(covered(var, ts));
                if at(ts, s1, Tok::LPR) {
                    lemma_function_call(ts, s1);
                } else if at(ts, s1, Tok::LSQB) {
                    lemma_index(ts, s1, var);
                }
            },
            _ => {},
        }
    }
}

proof fn lemma_obj_index(ts: Seq<TokenView>, s: Parse, object: Node, span: Span)
    requires
        ts.len() > 0,
        covered(object, ts),
        spanned(span, ts),
    ensures
        parse_obj_index(ts, s, object, span).1 matches Some(n) ==> covered(n, ts),
    decreases remaining(ts, s), 0nat,
{
    if !s.halted && at(ts, s, Tok::DOT) {
        let s1 = step(ts, s);
        lemma_property(ts, s1);
        let (s2, r) = onward(s1, parse_property(ts, s1));
        if !s2.halted {
            match r {
                Some(property) => {
                    let node = Node {
                        kind: Kind::OBJECT_INDEX {
                            object: Box::new(object),
                            property: Box::new(property),
                        },
                        span,
                    };
                    assert(covered(node, ts));
                    lemma_obj_index(ts, s2, node, span);
                },
                None => {},
            }
        }
    }
}

proof fn lemma_variable(ts: Seq<TokenView>, s: Parse)
    requires
        ts.len() > 0,
    ensures
        parse_variable(ts, s).1 matches Some(n) ==> covered(n, ts),
    decreases remaining(ts, s), 11nat,
{
    if !s.halted && s.pos < ts.len() {
        let t = ts[s.pos as int];
        lemma_token_span(ts, s.pos as int);
        let s1 = step(ts, s);
        let var = Node { kind: Kind::VAR { name: name_at(ts, s) }, span: t.span };
        assert(covered(var, ts));
        if s1.pos < ts.len() {
            if at(ts, s1, Tok::LPR) {
                lemma_function_call(ts, s1);
                let (s2, r) = onward(s1, parse_function_call(ts, s1));
                if !s2.halted {
                    match r {
                        Some(call) => {
                            if s2.pos < ts.len() && at(ts, s2, Tok::LSQB) {
                                lemma_index(ts, s2, call);
                            }
                        },
                        None => {},
                    }
                }
            } else if at(ts, s1, Tok::EQL) {
                lemma_variable_reassign(ts, s1);
            } else if at(ts, s1, Tok::LSQB) {
                lemma_index(ts, s1, var);
                let (s2, r) = onward(s1, parse_index(ts, s1, var));
                if !s2.halted {
                    match r {
                        Some(indexed) => {
                            if s2.pos < ts.len() && at(ts, s2, Tok::EQL) {
                                lemma_list_reassign(ts, s2, indexed);
                            }
                        },
                        None => {},
                    }
                }
            } else if at(ts, s1, Tok::DOT) {
                lemma_obj_index(ts, s1, var, t.span);
                let (s2, r) = onward(s1, parse_obj_index(ts, s1, var, t.span));
                if !s2.halted {
                    match r {
                        Some(indexed) => {
                            if s2.pos < ts.len() && at(ts, s2, Tok::EQL) {
                                lemma_obj_reassign(ts, s2, indexed);
                            }
                        },
                        None => {},
                    }
                }
            }
        }
    }
}

proof fn lemma_list(ts: Seq<TokenView>, s: Parse)
    requires
        ts.len() > 0,
    ensures
        parse_list(ts, s).1 matches Some(n) ==> covered(n, ts),
    decreases remaining(ts, s), 10nat,
{
    if !s.halted && s.pos < ts.len() {
        let span = ts[s.pos as int].span;
        lemma_token_span(ts, s.pos as int);
        let s1 = step(ts, s);
        if s1.pos < ts.len() {
            if at(ts, s1, Tok::RSQB) {
                assert(covered(Node { kind: Kind::LIST { contents: Seq::empty() }, span }, ts));
            } else {
                lemma_binary(ts, s1, 0);
                let (s2, first) = onward(s1, parse_binary(ts, s1, 0));
                if !s2.halted {
                    lemma_or_noop(ts, s2, first);
                    let acc = seq![or_noop(ts, s2, first)];
                    assert(all_covered(acc, ts));
                    lemma_items(ts, s2, acc);
                    let (s3, items) = onward(s2, parse_items(ts, s2, acc));
                    if !s3.halted {
                        match items {
                            Some(contents) => {
                                assert(covered(Node { kind: Kind::LIST { contents }, span }, ts));
                            },
                            None => {},
                        }
                    }
                }
            }
        }
    }
}

proof fn lemma_function_param(ts: Seq<TokenView>, s: Parse)
    requires
        ts.len() > 0,
    ensures
        parse_function_param(ts, s).1 matches Some(n) ==> covered(n, ts),
{
    let s1 = pass(ts, s, Tok::ID("param"@));
    if !s1.halted {
        let s2 = step(ts, s1);
        if s2.pos < ts.len() {
            lemma_here(ts, s2);
            assert(covered(
                Node {
                    kind: Kind::VAR_DEF {
                        name: name_at(ts, s1),
                        value: Box::new(noop_here(ts, s2)),
                    },
                    span: here(ts, s2),
                },
                ts,
            ));
        }
    }
}

proof fn lemma_params(ts: Seq<TokenView>, s: Parse, acc: Seq<Node>)
    requires
        ts.len() > 0,
        all_covered(acc, ts),
    ensures
        parse_params(ts, s, acc).1 matches Some(ns) ==> all_covered(ns, ts),
    decreases remaining(ts, s), 0nat,
{
    if !s.halted && at(ts, s, Tok::CMA) {
        let s1 = step(ts, s);
        lemma_function_param(ts, s1);
        let (s2, r) = onward(s1, parse_function_param(ts, s1));
        if !s2.halted {
            lemma_or_noop(ts, s2, r);
            lemma_push_covered(acc, or_noop(ts, s2, r), ts);
            lemma_params(ts, s2, acc.push(or_noop(ts, s2, r)));
        }
    }
}

proof fn lemma_block(ts: Seq<TokenView>, s: Parse)
    requires
        ts.len() > 0,
    ensures
        parse_block(ts, s).1 matches Some(n) ==> covered(n, ts),
    decreases remaining(ts, s), 33nat,
{
    let s1 = pass(ts, s, Tok::LBR);
    if !(s1.halted || s1.pos < s.pos) {
        lemma_compound(ts, s1);
        let (s2, r) = onward(s1, parse_compound(ts, s1));
        if !s2.halted {
            lemma_or_noop(ts, s2, r);
        }
    }
}

proof fn lemma_function_definition(ts: Seq<TokenView>, s: Parse)
    requires
        ts.len() > 0,
    ensures
        parse_function_definition(ts, s).1 matches Some(n) ==> covered(n, ts),
    decreases remaining(ts, s), 10nat,
{
    if !s.halted && s.pos < ts.len() {
        let s1 = step(ts, s);
        if s1.pos < ts.len() {
            let name = name_at(ts, s1);
            let span = here(ts, s1);
            lemma_here(ts, s1);
            let s2 = pass(ts, step(ts, s1), Tok::LPR);
            if !(s2.halted || s2.pos >= ts.len()) {
                let (s3, first) = if at(ts, s2, Tok::RPR) {
                    (s2, Seq::<Node>::empty())
                } else {
                    let (s3, r) = onward(s2, parse_function_param(ts, s2));
                    (s3, seq![or_noop(ts, s3, r)])
                };
                if !at(ts, s2, Tok::RPR) {
                    lemma_function_param(ts, s2);
                    let (s3a, r) = onward(s2, parse_function_param(ts, s2));
                    lemma_or_noop(ts, s3a, r);
                }
                assert(all_covered(first, ts));
                if !s3.halted {
                    lemma_params(ts, s3, first);
                    let (s4, params) = onward(s3, parse_params(ts, s3, first));
                    if !s4.halted {
                        let s5 = pass(ts, s4, Tok::RPR);
                        if !(s5.halted || s5.pos <= s.pos) {
                            lemma_block(ts, s5);
                            let (s6, body) = onward(s5, parse_block(ts, s5));
                            if !s6.halted {
                                match (params, body) {
                                    (Some(args), Some(b)) => {
                                        assert(covered(
                                            Node {
                                                kind: Kind::FUNC_DEF {
                                                    body: Box::new(b),
                                                    name,
                                                    args,
                                                },
                                                span,
                                            },
                                            ts,
                                        ));
                                    },
                                    _ => {},
                                }
                            }
                        }
                    }
                }
            }
        }
    }
}

proof fn lemma_guarded(ts: Seq<TokenView>, s: Parse)
    requires
        ts.len() > 0,
    ensures
        parse_guarded(ts, s).1 matches Some((c, b)) ==> covered(c, ts) && covered(b, ts),
    decreases remaining(ts, s), 34nat,
{
    let s1 = pass(ts, s, Tok::LPR);
    if !(s1.halted || s1.pos < s.pos) {
        lemma_binary(ts, s1, 0);
        let (s2, c) = onward(s1, parse_binary(ts, s1, 0));
        if !s2.halted {
            lemma_or_noop(ts, s2, c);
            let s3 = pass(ts, s2, Tok::RPR);
            if !(s3.halted || s3.pos <= s.pos) {
                lemma_block(ts, s3);
                let (s4, b) = onward(s3, parse_block(ts, s3));
                if !s4.halted {
                    lemma_or_noop(ts, s4, b);
                }
            }
        }
    }
}

proof fn lemma_while(ts: Seq<TokenView>, s: Parse)
    requires
        ts.len() > 0,
    ensures
        parse_while(ts, s).1 matches Some(n) ==> covered(n, ts),
    decreases remaining(ts, s), 10nat,
{
    if !s.halted && s.pos < ts.len() {
        let span = ts[s.pos as int].span;
        lemma_token_span(ts, s.pos as int);
        lemma_guarded(ts, step(ts, s));
        let (s1, r) = onward(step(ts, s), parse_guarded(ts, step(ts, s)));
        match r {
            Some((condition, body)) => {
                assert(covered(
                    Node {
                        kind: Kind::WHILE {
                            condition: Box::new(condition),
                            body: Box::new(body),
                        },
                        span,
                    },
                    ts,
                ));
            },
            None => {},
        }
    }
}

proof fn lemma_branches(
    ts: Seq<TokenView>,
    s: Parse,
    conditions: Seq<Node>,
    bodies: Seq<Node>,
    span: Span,
)
    requires
        ts.len() > 0,
        all_covered(conditions, ts),
        all_covered(bodies, ts),
        spanned(span, ts),
    ensures
        parse_branches(ts, s, conditions, bodies, span).1 matches Some(n) ==> covered(n, ts),
    decreases remaining(ts, s), 0nat,
{
    if !s.halted {
        if at(ts, s, Tok::ID("else"@)) {
            let s1 = step(ts, s);
            if at(ts, s1, Tok::ID("if"@)) {
                let s2 = step(ts, s1);
                lemma_guarded(ts, s2);
                let (s3, r) = onward(s2, parse_guarded(ts, s2));
                if !s3.halted {
                    match r {
                        Some((c, b)) => {
                            lemma_push_covered(conditions, c, ts);
                            lemma_push_covered(bodies, b, ts);
                            lemma_branches(ts, s3, conditions.push(c), bodies.push(b), span);
                        },
                        None => {},
                    }
                }
            } else {
                lemma_block(ts, s1);
                let (s2, r) = onward(s1, parse_block(ts, s1));
                if !s2.halted {
                    assert(covered(
                        Node {
                            kind: Kind::IF {
                                conditions,
                                bodies,
                                else_body: match r {
                                    Some(b) => Some(Box::new(b)),
                                    None => None,
                                },
                            },
                            span,
                        },
                        ts,
                    ));
                }
            }
        } else {
            assert(covered(
                Node { kind: Kind::IF { conditions, bodies, else_body: None }, span },
                ts,
            ));
        }
    }
}

proof fn lemma_if(ts: Seq<TokenView>, s: Parse)
    requires
        ts.len() > 0,
    ensures
        parse_if(ts, s).1 matches Some(n) ==> covered(n, ts),
    decreases remaining(ts, s), 10nat,
{
    if !s.halted && s.pos < ts.len() {
        let span = ts[s.pos as int].span;
        lemma_token_span(ts, s.pos as int);
        lemma_guarded(ts, step(ts, s));
        let (s1, r) = onward(step(ts, s), parse_guarded(ts, step(ts, s)));
        if !s1.halted {
            match r {
                Some((c, b)) => {
                    assert(all_covered(seq![c], ts));
                    assert(all_covered(seq![b], ts));
                    lemma_branches(ts, s1, seq![c], seq![b], span);
                },
                None => {},
            }
        }
    }
}

proof fn lemma_member_property(ts: Seq<TokenView>, s: Parse, properties: Seq<Node>)
    requires
        ts.len() > 0,
        all_covered(properties, ts),
    ensures
        parse_member_property(ts, s, properties).1 matches Some(ns) ==> all_covered(ns, ts),
{
    let s1 = step(ts, s);
    match cur(ts, s1) {
        Some(TokenView { kind: Tok::ID(property), span: at_name }) => {
            lemma_token_span(ts, s1.pos as int);
            let def = Node {
                kind: Kind::VAR_DEF {
                    name: property,
                    value: Box::new(Node { kind: Kind::NOOP, span: at_name }),
                },
                span: at_name,
            };
            assert(covered(Node { kind: Kind::NOOP, span: at_name }, ts));
            assert(covered(def, ts));
            lemma_put_covered(properties, def, ts);
        },
        _ => {},
    }
}

proof fn lemma_member_method_covered(ts: Seq<TokenView>, s: Parse, methods: Seq<Node>)
    requires
        ts.len() > 0,
        all_covered(methods, ts),
    ensures
        parse_member_method(ts, s, methods).1 matches Some(ns) ==> all_covered(ns, ts),
    decreases remaining(ts, s), 12nat,
{
    let s1 = expect(ts, step(ts, s), Tok::ID("funct"@));
    if !(s1.halted || s1.pos <= s.pos) {
        lemma_function_definition(ts, s1);
        let (s2, r) = onward(s1, parse_function_definition(ts, s1));
        if !s2.halted {
            match r {
                Some(method) => {
                    lemma_put_covered(methods, method, ts);
                },
                None => {},
            }
        }
    }
}

proof fn lemma_member(ts: Seq<TokenView>, s: Parse, properties: Seq<Node>, methods: Seq<Node>)
    requires
        ts.len() > 0,
        all_covered(properties, ts),
        all_covered(methods, ts),
    ensures
        parse_member(ts, s, properties, methods).1 matches Some((p, m)) ==> all_covered(p, ts)
            && all_covered(m, ts),
    decreases remaining(ts, s), 35nat,
{
    if !s.halted && s.pos < ts.len() {
        if at(ts, s, Tok::ID("prop"@)) {
            lemma_member_property(ts, s, properties);
        } else if at(ts, s, Tok::ID("method"@)) {
            lemma_member_method_covered(ts, s, methods);
        }
    }
}

proof fn lemma_members_covered(
    ts: Seq<TokenView>,
    s: Parse,
    name: Seq<char>,
    properties: Seq<Node>,
    methods: Seq<Node>,
    span: Span,
)
    requires
        ts.len() > 0,
        all_covered(properties, ts),
        all_covered(methods, ts),
        spanned(span, ts),
    ensures
        parse_members(ts, s, name, properties, methods, span).1 matches Some(n) ==> covered(n, ts),
    decreases remaining(ts, s), 36nat,
{
    if !s.halted && s.pos < ts.len() {
        if at(ts, s, Tok::RBR) {
            assert(covered(Node { kind: Kind::CLASS { name, properties, methods }, span }, ts));
        } else {
            lemma_member(ts, s, properties, methods);
            let (s1, r) = onward(s, parse_member(ts, s, properties, methods));
            match r {
                Some((p, m)) => {
                    if !(s1.halted || s1.pos <= s.pos) {
                        lemma_members_covered(ts, s1, name, p, m, span);
                    }
                },
                None => {},
            }
        }
    }
}

proof fn lemma_blueprint(ts: Seq<TokenView>, s: Parse)
    requires
        ts.len() > 0,
    ensures
        parse_blueprint(ts, s).1 matches Some(n) ==> covered(n, ts),
    decreases remaining(ts, s), 10nat,
{
    if !s.halted && s.pos < ts.len() {
        let s1 = step(ts, s);
        match cur(ts, s1) {
            Some(TokenView { kind: Tok::ID(name), span }) => {
                lemma_token_span(ts, s1.pos as int);
                let s2 = pass(ts, step(ts, s1), Tok::LBR);
                if !s2.halted {
                    assert(all_covered(Seq::<Node>::empty(), ts));
                    lemma_members_covered(ts, s2, name, Seq::empty(), Seq::empty(), span);
                }
            },
            _ => {},
        }
    }
}

/// Every node of a tree that the parser builds from a sequence of tokens
/// carries the span of one of those tokens.
pub proof fn law_trees_carry_token_spans(ts: Seq<TokenView>, s: Parse)
    requires
        ts.len() > 0,
    ensures
        parse_compound(ts, s).1 matches Some(n) ==> covered(n, ts),
{
    lemma_compound(ts, s);
}

/// The number of line feeds that the text has before position `upto`.
pub open spec fn line_feeds(text: Seq<char>, upto: nat) -> nat
    decreases upto,
{
    if upto == 0 || upto > text.len() {
        0
    } else if text[upto - 1] == '\n' {
        line_feeds(text, (upto - 1) as nat) + 1
    } else {
        line_feeds(text, (upto - 1) as nat)
    }
}

/// Whether the lines of a source are the lines of its text.
pub open spec fn whole(src: Source) -> bool {
    src.lines == split_lines(src.text, 0, Seq::empty(), Seq::empty())
}

/// Whether a token carries a span that is not empty, on a line of the
/// source, with the name of the file and the text of that line.
pub open spec fn well_spanned(t: TokenView, src: Source) -> bool {
    &&& t.span.col < t.span.col_end
    &&& 1 <= t.span.line <= src.lines.len()
    &&& t.span.file == src.file
    &&& t.span.linecontents == src.lines[t.span.line - 1]
}

/// Whether the cursor stands inside the text, on a line that the line feeds
/// before it account for, and every token read so far is well spanned.
pub open spec fn well_scanned(s: Scan, src: Source) -> bool {
    &&& s.pos <= src.text.len()
    &&& 1 <= s.line <= line_feeds(src.text, s.pos) + 1
    &&& forall|i: int| 0 <= i < s.tokens.len() ==> well_spanned(#[trigger] s.tokens[i], src)
}

proof fn lemma_line_feeds_grow(text: Seq<char>, a: nat, b: nat)
    requires
        a <= b <= text.len(),
    ensures
        line_feeds(text, a) <= line_feeds(text, b),
    decreases b - a,
{
    if a < b {
        lemma_line_feeds_grow(text, a, (b - 1) as nat);
    }
}

proof fn lemma_lines_count(text: Seq<char>, i: nat, lines: Seq<Seq<char>>, cur: Seq<char>)
    requires
        i <= text.len(),
    ensures
        split_lines(text, i, lines, cur).len() == lines.len() + 1 + line_feeds(
            text,
            text.len(),
        ) - line_feeds(text, i),
    decreases text.len() - i,
{
    if i < text.len() {
        assert(line_feeds(text, i + 1) == line_feeds(text, i) + if text[i as int] == '\n' {
            1nat
        } else {
            0nat
        });
        if text[i as int] == '\n' {
            lemma_lines_count(text, i + 1, lines.push(cur), Seq::empty());
        } else {
            lemma_lines_count(text, i + 1, lines, cur.push(text[i as int]));
        }
    }
}

/// A source has one line more than its text has line feeds.
pub proof fn lemma_lines_of_a_source(src: Source)
    requires
        whole(src),
    ensures
        src.lines.len() == line_feeds(src.text, src.text.len()) + 1,
{
    lemma_lines_count(src.text, 0, Seq::empty(), Seq::empty());
}

proof fn lemma_moved_well(s: Scan, src: Source, n: nat)
    requires
        well_scanned(s, src),
        s.pos + n <= src.text.len(),
    ensures
        well_scanned(s.advance(n), src),
{
    lemma_line_feeds_grow(src.text, s.pos, s.pos + n);
}

proof fn lemma_emit_well(s: Scan, src: Source, kind: Tok, col: nat, col_end: nat)
    requires
        whole(src),
        well_scanned(s, src),
        col < col_end,
    ensures
        well_scanned(s.emit(kind, src.span(s.line, col, col_end)), src),
{
    lemma_lines_of_a_source(src);
    lemma_line_feeds_grow(src.text, s.pos, src.text.len());
    let after = s.emit(kind, src.span(s.line, col, col_end));
    assert forall|i: int| 0 <= i < after.tokens.len() implies well_spanned(
        #[trigger] after.tokens[i],
        src,
    ) by {
        if i < s.tokens.len() {
            assert(after.tokens[i] == s.tokens[i]);
        }
    }
}

proof fn lemma_report_well(s: Scan, src: Source, etype: ETypes, message: Seq<char>, span: Span)
    requires
        well_scanned(s, src),
    ensures
        well_scanned(s.report(etype, message, span), src),
{
}

proof fn lemma_line_feed_well(s: Scan, src: Source)
    requires
        well_scanned(s, src),
        s.pos < src.text.len(),
        src.text[s.pos as int] == '\n',
    ensures
        well_scanned(Scan { pos: s.pos + 1, line: s.line + 1, col: 1, ..s }, src),
{
    assert(line_feeds(src.text, s.pos + 1) == line_feeds(src.text, s.pos) + 1);
}

proof fn lemma_skip_space_well(src: Source, s: Scan)
    requires
        well_scanned(s, src),
    ensures
        well_scanned(skip_space(src.text, s), src),
    decreases src.text.len() - s.pos,
{
    if s.pos < src.text.len() && is_space(src.text[s.pos as int]) {
        if src.text[s.pos as int] == '\n' {
            lemma_line_feed_well(s, src);
            lemma_skip_space_well(src, Scan { pos: s.pos + 1, line: s.line + 1, col: 1, ..s });
        } else {
            lemma_moved_well(s, src, 1);
            lemma_skip_space_well(src, s.advance(1));
        }
    }
}

proof fn lemma_skip_comment_well(src: Source, s: Scan)
    requires
        well_scanned(s, src),
    ensures
        well_scanned(skip_comment(src.text, s), src),
    decreases src.text.len() - s.pos,
{
    if s.pos < src.text.len() {
        if src.text[s.pos as int] == '\\' {
            lemma_moved_well(s, src, 1);
        } else if src.text[s.pos as int] == '\n' {
            lemma_line_feed_well(s, src);
            lemma_skip_comment_well(src, Scan { pos: s.pos + 1, line: s.line + 1, col: 1, ..s });
        } else {
            lemma_moved_well(s, src, 1);
            lemma_skip_comment_well(src, s.advance(1));
        }
    }
}

proof fn lemma_number_end(text: Seq<char>, i: nat)
    requires
        i <= text.len(),
    ensures
        i <= number_end(text, i) <= text.len(),
    decreases text.len() - i,
{
    if i < text.len() && is_number_part(text[i as int]) {
        lemma_number_end(text, i + 1);
    }
}

proof fn lemma_ident_end(text: Seq<char>, i: nat)
    requires
        i <= text.len(),
    ensures
        i <= ident_end(text, i) <= text.len(),
    decreases text.len() - i,
{
    if i < text.len() && is_ident_part(text[i as int]) {
        lemma_ident_end(text, i + 1);
    }
}

proof fn lemma_quote_at(text: Seq<char>, i: nat)
    requires
        i <= text.len(),
    ensures
        i <= quote_at(text, i) <= text.len(),
    decreases text.len() - i,
{
    if i < text.len() && text[i as int] != '"' {
        lemma_quote_at(text, i + 1);
    }
}

proof fn lemma_step_well(src: Source, s: Scan)
    requires
        whole(src),
        well_scanned(s, src),
        s.pos < src.text.len(),
    ensures
        well_scanned(lex_step(src, s), src),
{
    let c = src.text[s.pos as int];
    if is_space(c) {
        lemma_skip_space_well(src, s);
    } else if c == '\\' {
        lemma_moved_well(s, src, 1);
        lemma_skip_comment_well(src, s.advance(1));
    } else if c == '"' {
        let close = quote_at(src.text, s.pos + 1);
        lemma_quote_at(src.text, s.pos + 1);
        if close < src.text.len() {
            let n = (close + 1 - s.pos) as nat;
            lemma_moved_well(s, src, n);
            lemma_emit_well(
                s.advance(n),
                src,
                Tok::STRING(src.text.subrange(s.pos as int + 1, close as int)),
                s.col,
                s.col + n + 1,
            );
        } else {
            lemma_moved_well(s, src, (close - s.pos) as nat);
        }
    } else if is_digit(c) {
        let end = number_end(src.text, s.pos);
        let n = (end - s.pos) as nat;
        assert(end == number_end(src.text, s.pos + 1));
        lemma_number_end(src.text, s.pos + 1);
        lemma_moved_well(s, src, n);
        let text = src.text.subrange(s.pos as int, end as int);
        let span = src.span(s.line, s.col, s.col + n);
        if dots(src.text, s.pos, end) == 1 {
            lemma_emit_well(s.advance(n), src, Tok::FLOAT(0), s.col, s.col + n);
        } else if dots(src.text, s.pos, end) > 1 {
            lemma_emit_well(
                s.advance(n).report(
                    ETypes::SyntaxError,
                    "Invalid syntax for creating a float"@,
                    span,
                ),
                src,
                Tok::FLOAT(0),
                s.col,
                s.col + n,
            );
        } else {
            match parse_int(text) {
                Some(v) => {
                    lemma_emit_well(s.advance(n), src, Tok::INT(v), s.col, s.col + n);
                },
                None => {
                    lemma_emit_well(
                        s.advance(n).report(
                            ETypes::SyntaxError,
                            "Invalid syntax for creating an int"@,
                            span,
                        ),
                        src,
                        Tok::INT(0),
                        s.col,
                        s.col + n,
                    );
                },
            }
        }
    } else if is_ident_start(c) {
        let end = ident_end(src.text, s.pos);
        let n = (end - s.pos) as nat;
        assert(end == ident_end(src.text, s.pos + 1));
        lemma_ident_end(src.text, s.pos + 1);
        lemma_moved_well(s, src, n);
        lemma_emit_well(
            s.advance(n),
            src,
            Tok::ID(src.text.subrange(s.pos as int, end as int)),
            s.col,
            s.col + n,
        );
    } else {
        match pair_tokens(c) {
            Some((alone, followed)) => {
                if s.pos + 1 < src.text.len() && src.text[s.pos as int + 1] == '=' {
                    lemma_moved_well(s, src, 2);
                    lemma_emit_well(s.advance(2), src, followed, s.col, s.col + 1);
                } else {
                    lemma_moved_well(s, src, 1);
                    lemma_emit_well(s.advance(1), src, alone, s.col, s.col + 1);
                }
            },
            None => {
                lemma_moved_well(s, src, 1);
                match single_token(c) {
                    Some(t) => {
                        lemma_emit_well(s.advance(1), src, t, s.col, s.col + 1);
                    },
                    None => {},
                }
            },
        }
    }
}

/// Every token that the lexer produces, from any source, carries a span
/// that is not empty, on a line of the source, with the name of the file
/// and the text of that line.
pub proof fn law_tokens_are_well_spanned(src: Source, s: Scan)
    requires
        whole(src),
        well_scanned(s, src),
    ensures
        well_scanned(lex_all(src, s), src),
    decreases src.text.len() - s.pos,
{
    if s.pos >= src.text.len() {
        lemma_emit_well(s, src, Tok::EOF, s.col, s.col + 1);
    } else {
        lemma_step_well(src, s);
        let next = lex_step(src, s);
        if !(next.pos <= s.pos || next.pos > src.text.len()) {
            law_tokens_are_well_spanned(src, next);
        }
    }
}

/// Whether no token but the last marks the end, and the last does.
pub open spec fn ends_once(tokens: Seq<TokenView>) -> bool {
    &&& tokens.len() > 0
    &&& tokens[tokens.len() - 1].kind is EOF
    &&& forall|i: int| 0 <= i < tokens.len() - 1 ==> !((#[trigger] tokens[i]).kind is EOF)
}

/// Whether none of the tokens marks the end.
pub open spec fn never_ends(tokens: Seq<TokenView>) -> bool {
    forall|i: int| 0 <= i < tokens.len() ==> !((#[trigger] tokens[i]).kind is EOF)
}

proof fn lemma_skip_keeps_tokens(src: Source, s: Scan)
    ensures
        skip_space(src.text, s).tokens == s.tokens,
        skip_comment(src.text, s).tokens == s.tokens,
        skip_space(src.text, s).errors == s.errors,
        skip_comment(src.text, s).errors == s.errors,
    decreases src.text.len() - s.pos,
{
    if s.pos < src.text.len() {
        lemma_skip_keeps_tokens(src, Scan { pos: s.pos + 1, line: s.line + 1, col: 1, ..s });
        lemma_skip_keeps_tokens(src, s.advance(1));
    }
}

proof fn lemma_step_never_ends(src: Source, s: Scan)
    requires
        never_ends(s.tokens),
        s.pos < src.text.len(),
    ensures
        never_ends(lex_step(src, s).tokens),
{
    lemma_skip_keeps_tokens(src, s);
    lemma_skip_keeps_tokens(src, s.advance(1));
    let next = lex_step(src, s);
    assert forall|i: int| 0 <= i < next.tokens.len() implies !((#[trigger] next.tokens[i]).kind
        is EOF) by {
        if i < s.tokens.len() {
            assert(next.tokens[i] == s.tokens[i]);
        }
    }
}

/// The tokens of any source end with the token that marks the end, and
/// hold no other such token.
pub proof fn law_one_end_token(src: Source, s: Scan)
    requires
        never_ends(s.tokens),
    ensures
        ends_once(lex_all(src, s).tokens),
    decreases src.text.len() - s.pos,
{
    if s.pos >= src.text.len() {
        let after = s.emit(Tok::EOF, src.span(s.line, s.col, s.col + 1));
        assert forall|i: int| 0 <= i < after.tokens.len() - 1 implies !((
            #[trigger] after.tokens[i]).kind is EOF) by {
            assert(after.tokens[i] == s.tokens[i]);
        }
    } else {
        lemma_step_never_ends(src, s);
        let next = lex_step(src, s);
        if !(next.pos <= s.pos || next.pos > src.text.len()) {
            law_one_end_token(src, next);
        } else {
            lemma_step_moves(src, s);
        }
    }
}

/// One step of the lexer moves the cursor forward and keeps it inside the
/// text.
pub proof fn lemma_step_moves(src: Source, s: Scan)
    requires
        s.pos < src.text.len(),
    ensures
        s.pos < lex_step(src, s).pos <= src.text.len(),
{
    let c = src.text[s.pos as int];
    lemma_skip_moves(src.text, s);
    lemma_skip_moves(src.text, s.advance(1));
    lemma_quote_at(src.text, s.pos + 1);
    lemma_number_end(src.text, s.pos + 1);
    lemma_ident_end(src.text, s.pos + 1);
    if is_digit(c) {
        assert(number_end(src.text, s.pos) == number_end(src.text, s.pos + 1));
    }
    if is_ident_start(c) {
        assert(ident_end(src.text, s.pos) == ident_end(src.text, s.pos + 1));
    }
}

proof fn lemma_skip_moves(text: Seq<char>, s: Scan)
    requires
        s.pos <= text.len(),
    ensures
        s.pos <= skip_space(text, s).pos <= text.len(),
        s.pos <= skip_comment(text, s).pos <= text.len(),
        s.pos < text.len() && is_space(text[s.pos as int]) ==> s.pos < skip_space(text, s).pos,
    decreases text.len() - s.pos,
{
    if s.pos < text.len() {
        lemma_skip_moves(text, Scan { pos: s.pos + 1, line: s.line + 1, col: 1, ..s });
        lemma_skip_moves(text, s.advance(1));
    }
}

/// Leaving out the bits of the floating-point numbers keeps every token
/// in its place with its span.
pub proof fn law_bits_do_not_move_spans(tokens: Seq<TokenView>)
    ensures
        all_without_bits(tokens).len() == tokens.len(),
        forall|i: int|
            0 <= i < tokens.len() ==> (#[trigger] all_without_bits(tokens)[i]).span
                == tokens[i].span,
        forall|i: int|
            0 <= i < tokens.len() ==> (all_without_bits(tokens)[i].kind is EOF
                <==> (#[trigger] tokens[i]).kind is EOF),
{
}

/// A string that no later double quote closes is reported: the lexer
/// records a syntax error for it and makes no token of it.
pub proof fn law_open_strings_are_reported(src: Source, s: Scan)
    requires
        s.pos < src.text.len(),
        src.text[s.pos as int] == '"',
        quote_at(src.text, s.pos + 1) >= src.text.len(),
    ensures
        lex_step(src, s).tokens == s.tokens,
        lex_step(src, s).errors.len() == s.errors.len() + 1,
        lex_step(src, s).errors.last().etype == ETypes::SyntaxError,
        lex_step(src, s).errors.last().message == "Unterminated string literal"@,
        lex_step(src, s).pos == src.text.len(),
{
    lemma_quote_at(src.text, s.pos + 1);
}

/// A character that starts no token is reported and passed over: the
/// lexer records one token error for it, makes no token, and goes on with
/// the next character.
pub proof fn law_unreadable_characters_are_passed_over(src: Source, s: Scan)
    requires
        s.pos < src.text.len(),
        ({
            let c = src.text[s.pos as int];
            !is_space(c) && c != '\\' && c != '"' && !is_digit(c) && !is_ident_start(c)
                && pair_tokens(c) is None && single_token(c) is None
        }),
    ensures
        lex_step(src, s).tokens == s.tokens,
        lex_step(src, s).errors == s.errors.push(
            crate::error::ErrorRecord {
                etype: ETypes::TokenError,
                message: "Unrecognized token"@,
                span: src.span(s.line, s.col, s.col + 1),
            },
        ),
        lex_step(src, s).pos == s.pos + 1,
{
}

/// Parsing a compound yields a tree unless it halts.
pub proof fn law_parsing_yields_a_tree(ts: Seq<TokenView>, s: Parse)
    requires
        !parse_compound(ts, s).0.halted,
    ensures
        parse_compound(ts, s).1 is Some,
{
    if !s.halted {
        let (s1, first) = onward(s, parse_binary(ts, s, 0));
        if !s1.halted {
            lemma_rest_yields_a_tree(ts, s1, seq![or_noop(ts, s1, first)], here(ts, s));
        }
    }
}

proof fn lemma_rest_yields_a_tree(ts: Seq<TokenView>, s: Parse, acc: Seq<Node>, span: Span)
    requires
        !compound_rest(ts, s, acc, span).0.halted,
    ensures
        compound_rest(ts, s, acc, span).1 is Some,
    decreases remaining(ts, s), 0nat,
{
    if !s.halted && at(ts, s, Tok::SEMI) {
        let s1 = step(ts, s);
        let (s2, r) = onward(s1, parse_binary(ts, s1, 0));
        if !s2.halted {
            lemma_rest_yields_a_tree(ts, s2, acc.push(or_noop(ts, s2, r)), span);
        }
    }
}

/// Whether a span is not empty, on a line of the source, with the name of
/// the file and the text of that line.
pub open spec fn in_source(span: Span, src: Source) -> bool {
    &&& span.col < span.col_end
    &&& 1 <= span.line <= src.lines.len()
    &&& span.file == src.file
    &&& span.linecontents == src.lines[span.line - 1]
}

/// Whether a node and every node below it carry a span that is not empty,
/// on a line of the source, with the name of the file and the text of that
/// line.
pub open spec fn rooted(n: Node, src: Source) -> bool
    decreases n,
{
    &&& in_source(n.span, src)
    &&& match n.kind {
        Kind::LIST { contents } => forall|i: int|
            0 <= i < contents.len() ==> rooted(#[trigger] contents[i], src),
        Kind::INDEX { target, indices } => rooted(*target, src) && forall|i: int|
            0 <= i < indices.len() ==> rooted(#[trigger] indices[i], src),
        Kind::LIST_REASSIGN { target, value } => rooted(*target, src) && rooted(*value, src),
        Kind::OBJECT_REASSIGN { object_index, value } => rooted(*object_index, src) && rooted(
            *value,
            src,
        ),
        Kind::BINOP { left, right, .. } => rooted(*left, src) && rooted(*right, src),
        Kind::UNOP { body, .. } => rooted(*body, src),
        Kind::VAR_DEF { value, .. } => rooted(*value, src),
        Kind::VAR_REASSIGN { value, .. } => rooted(*value, src),
        Kind::FUNC_DEF { body, args, .. } => rooted(*body, src) && forall|i: int|
            0 <= i < args.len() ==> rooted(#[trigger] args[i], src),
        Kind::FUNC_CALL { args, .. } => forall|i: int|
            0 <= i < args.len() ==> rooted(#[trigger] args[i], src),
        Kind::RETURN { value } => rooted(*value, src),
        Kind::CLASS { properties, methods, .. } => (forall|i: int|
            0 <= i < properties.len() ==> rooted(#[trigger] properties[i], src)) && (forall|
            i: int,
        | 0 <= i < methods.len() ==> rooted(#[trigger] methods[i], src)),
        Kind::NEW { args, .. } => forall|i: int|
            0 <= i < args.len() ==> rooted(#[trigger] args[i], src),
        Kind::OBJECT_INDEX { object, property } => rooted(*object, src) && rooted(*property, src),
        Kind::IF { conditions, bodies, else_body } => (forall|i: int|
            0 <= i < conditions.len() ==> rooted(#[trigger] conditions[i], src)) && (forall|
            i: int,
        | 0 <= i < bodies.len() ==> rooted(#[trigger] bodies[i], src)) && (match else_body {
            Some(b) => rooted(*b, src),
            None => true,
        }),
        Kind::WHILE { condition, body } => rooted(*condition, src) && rooted(*body, src),
        Kind::COMPOUND { compound_value } => forall|i: int|
            0 <= i < compound_value.len() ==> rooted(#[trigger] compound_value[i], src),
        _ => true,
    }
}

proof fn lemma_covered_is_rooted(n: Node, ts: Seq<TokenView>, src: Source)
    requires
        covered(n, ts),
        forall|i: int| 0 <= i < ts.len() ==> in_source((#[trigger] ts[i]).span, src),
    ensures
        rooted(n, src),
    decreases n,
{
    match n.kind {
        Kind::LIST { contents, .. } => {
            assert forall|i: int| 0 <= i < contents.len() implies rooted(#[trigger] contents[i], src) by {
                lemma_covered_is_rooted(contents[i], ts, src);
            }
        },
        Kind::INDEX { target, indices, .. } => {
            lemma_covered_is_rooted(*target, ts, src);
            assert forall|i: int| 0 <= i < indices.len() implies rooted(#[trigger] indices[i], src) by {
                lemma_covered_is_rooted(indices[i], ts, src);
            }
        },
        Kind::LIST_REASSIGN { target, value, .. } => {
            lemma_covered_is_rooted(*target, ts, src);
            lemma_covered_is_rooted(*value, ts, src);
        },
        Kind::OBJECT_REASSIGN { object_index, value, .. } => {
            lemma_covered_is_rooted(*object_index, ts, src);
            lemma_covered_is_rooted(*value, ts, src);
        },
        Kind::BINOP { left, right, .. } => {
            lemma_covered_is_rooted(*left, ts, src);
            lemma_covered_is_rooted(*right, ts, src);
        },
        Kind::UNOP { body, .. } => {
            lemma_covered_is_rooted(*body, ts, src);
        },
        Kind::VAR_DEF { value, .. } => {
            lemma_covered_is_rooted(*value, ts, src);
        },
        Kind::VAR_REASSIGN { value, .. } => {
            lemma_covered_is_rooted(*value, ts, src);
        },
        Kind::FUNC_DEF { body, args, .. } => {
            lemma_covered_is_rooted(*body, ts, src);
            assert forall|i: int| 0 <= i < args.len() implies rooted(#[trigger] args[i], src) by {
                lemma_covered_is_rooted(args[i], ts, src);
            }
        },
        Kind::FUNC_CALL { args, .. } => {
            assert forall|i: int| 0 <= i < args.len() implies rooted(#[trigger] args[i], src) by {
                lemma_covered_is_rooted(args[i], ts, src);
            }
        },
        Kind::RETURN { value, .. } => {
            lemma_covered_is_rooted(*value, ts, src);
        },
        Kind::CLASS { properties, methods, .. } => {
            assert forall|i: int| 0 <= i < properties.len() implies rooted(#[trigger] properties[i], src) by {
                lemma_covered_is_rooted(properties[i], ts, src);
            }
            assert forall|i: int| 0 <= i < methods.len() implies rooted(#[trigger] methods[i], src) by {
                lemma_covered_is_rooted(methods[i], ts, src);
            }
        },
        Kind::NEW { args, .. } => {
            assert forall|i: int| 0 <= i < args.len() implies rooted(#[trigger] args[i], src) by {
                lemma_covered_is_rooted(args[i], ts, src);
            }
        },
        Kind::OBJECT_INDEX { object, property, .. } => {
            lemma_covered_is_rooted(*object, ts, src);
            lemma_covered_is_rooted(*property, ts, src);
        },
        Kind::IF { conditions, bodies, else_body, .. } => {
            assert forall|i: int| 0 <= i < conditions.len() implies rooted(#[trigger] conditions[i], src) by {
                lemma_covered_is_rooted(conditions[i], ts, src);
            }
            assert forall|i: int| 0 <= i < bodies.len() implies rooted(#[trigger] bodies[i], src) by {
                lemma_covered_is_rooted(bodies[i], ts, src);
            }
            match else_body {
                Some(b) => {
                    lemma_covered_is_rooted(*b, ts, src);
                },
                None => {},
            }
        },
        Kind::WHILE { condition, body, .. } => {
            lemma_covered_is_rooted(*condition, ts, src);
            lemma_covered_is_rooted(*body, ts, src);
        },
        Kind::COMPOUND { compound_value, .. } => {
            assert forall|i: int| 0 <= i < compound_value.len() implies rooted(#[trigger] compound_value[i], src) by {
                lemma_covered_is_rooted(compound_value[i], ts, src);
            }
        },
        _ => {},
    }
}

/// For any source: where the tokens are the ones that the lexer makes of
/// the source, whatever bits the embedder gives its floating-point
/// literals, and parsing them as a compound does not halt, there is a tree,
/// and every node of it, the stand-ins for what could not be parsed
/// included, carries a span that is not empty, on a line of the source,
/// with the name of the file and the text of that line.
pub proof fn law_parsed_spans_point_into_the_source(
    src: Source,
    errors: Seq<crate::error::ErrorRecord>,
    tokens: Seq<TokenView>,
    s: Parse,
)
    requires
        whole(src),
        all_without_bits(tokens) == crate::lexer::lex_text(src, errors).tokens,
        !parse_compound(tokens, s).0.halted,
    ensures
        parse_compound(tokens, s).1 matches Some(n) && rooted(n, src),
{
    let start = crate::lexer::scan_start(errors);
    lemma_lines_of_a_source(src);
    assert(well_scanned(start, src));
    law_tokens_are_well_spanned(src, start);
    law_one_end_token(src, start);
    law_bits_do_not_move_spans(tokens);
    let lexed = crate::lexer::lex_text(src, errors).tokens;
    assert forall|i: int| 0 <= i < tokens.len() implies in_source(
        (#[trigger] tokens[i]).span,
        src,
    ) by {
        assert(well_spanned(lexed[i], src));
        assert(all_without_bits(tokens)[i].span == tokens[i].span);
    }
    law_parsing_yields_a_tree(tokens, s);
    law_trees_carry_token_spans(tokens, s);
    lemma_covered_is_rooted(parse_compound(tokens, s).1->0, tokens, src);
}

} // verus!
