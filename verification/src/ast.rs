//! The tree that the parser builds and the evaluator walks. One type serves
//! for parse trees and for runtime values.

use vstd::prelude::*;
use crate::error::{ErrorInfo, Span};
use crate::token::{Tok, TokenType};

verus! {

/// The kind of a node, with its parts.
#[allow(non_camel_case_types)]
#[derive(Debug)]
pub enum AST {
    /// A string.
    STRING { str_value: String },
    /// A 32-bit integer.
    INT { int_value: i32 },
    /// A single-precision number, as the bits of its encoding.
    FLOAT { float_value: u32 },
    /// A truth value.
    BOOL { bool_value: bool },
    /// A list. In a parse tree the elements are expressions; in a value each element is a `CELL`.
    LIST { contents: Vec<ASTNode> },
    /// A handle to a shared cell of the evaluator's store.
    CELL { id: usize },
    /// `target[i1][i2]...`
    INDEX { target: Box<ASTNode>, indices: Vec<ASTNode> },
    /// `target[i1]... = value`
    LIST_REASSIGN { target: Box<ASTNode>, value: Box<ASTNode> },
    /// `object.property = value`
    OBJECT_REASSIGN { object_index: Box<ASTNode>, value: Box<ASTNode> },
    /// A binary operation.
    BINOP { left: Box<ASTNode>, op: TokenType, right: Box<ASTNode> },
    /// A unary operation.
    UNOP { op: TokenType, body: Box<ASTNode> },
    /// A variable definition, also the form in which a scope stores a variable.
    VAR_DEF { name: String, value: Box<ASTNode> },
    /// A reference to a variable.
    VAR { name: String },
    /// `name = value`
    VAR_REASSIGN { name: String, value: Box<ASTNode> },
    /// A function definition; each argument is a `VAR_DEF`.
    FUNC_DEF { body: Box<ASTNode>, name: String, args: Vec<ASTNode> },
    /// A call.
    FUNC_CALL { name: String, args: Vec<ASTNode> },
    /// `return value`, also the sentinel that unwinds a function body.
    RETURN { value: Box<ASTNode> },
    /// A blueprint: its properties (`VAR_DEF`) and methods (`FUNC_DEF`), each name once.
    CLASS { name: String, properties: Vec<ASTNode>, methods: Vec<ASTNode> },
    /// `new name(args)`
    NEW { name: String, args: Vec<ASTNode> },
    /// An instance of a blueprint; `scope` is the handle of its own scope.
    OBJECT { class_name: String, scope: usize },
    /// `object.property`
    OBJECT_INDEX { object: Box<ASTNode>, property: Box<ASTNode> },
    /// Conditions with their bodies, tried in order, and an optional last body.
    IF { conditions: Vec<ASTNode>, bodies: Vec<ASTNode>, else_body: Option<Box<ASTNode>> },
    /// A loop.
    WHILE { condition: Box<ASTNode>, body: Box<ASTNode> },
    /// The name of a runtime type.
    TYPE { type_value: String },
    /// `break`, also the sentinel that leaves a loop.
    BREAK,
    /// Statements in order.
    COMPOUND { compound_value: Vec<ASTNode> },
    /// Reserved.
    IMPORT { filename: String, object_name: String },
    /// No value.
    NOOP,
    /// The end of the input.
    EOF,
}

/// A node: its kind and the span of source text that produced it.
#[derive(Debug)]
pub struct ASTNode {
    pub kind: AST,
    pub einfo: ErrorInfo,
}

/// The mathematical value of a node kind.
#[allow(non_camel_case_types)]
pub enum Kind {
    STRING { str_value: Seq<char> },
    INT { int_value: int },
    FLOAT { float_value: u32 },
    BOOL { bool_value: bool },
    LIST { contents: Seq<Node> },
    CELL { id: nat },
    INDEX { target: Box<Node>, indices: Seq<Node> },
    LIST_REASSIGN { target: Box<Node>, value: Box<Node> },
    OBJECT_REASSIGN { object_index: Box<Node>, value: Box<Node> },
    BINOP { left: Box<Node>, op: Tok, right: Box<Node> },
    UNOP { op: Tok, body: Box<Node> },
    VAR_DEF { name: Seq<char>, value: Box<Node> },
    VAR { name: Seq<char> },
    VAR_REASSIGN { name: Seq<char>, value: Box<Node> },
    FUNC_DEF { body: Box<Node>, name: Seq<char>, args: Seq<Node> },
    FUNC_CALL { name: Seq<char>, args: Seq<Node> },
    RETURN { value: Box<Node> },
    CLASS { name: Seq<char>, properties: Seq<Node>, methods: Seq<Node> },
    NEW { name: Seq<char>, args: Seq<Node> },
    OBJECT { class_name: Seq<char>, scope: nat },
    OBJECT_INDEX { object: Box<Node>, property: Box<Node> },
    IF { conditions: Seq<Node>, bodies: Seq<Node>, else_body: Option<Box<Node>> },
    WHILE { condition: Box<Node>, body: Box<Node> },
    TYPE { type_value: Seq<char> },
    BREAK,
    COMPOUND { compound_value: Seq<Node> },
    IMPORT { filename: Seq<char>, object_name: Seq<char> },
    NOOP,
    EOF,
}

/// The mathematical value of a node.
pub struct Node {
    pub kind: Kind,
    pub span: Span,
}

impl Node {
    /// The node that stands for "no value" and points at no source text.
    pub open spec fn noop() -> Node {
        Node { kind: Kind::NOOP, span: Span::none() }
    }
}

impl Kind {
    /// Whether a kind is one that evaluation may yield: a value, or one of the
    /// two sentinels that unwind control flow.
    pub open spec fn is_value(self) -> bool {
        self is STRING || self is INT || self is FLOAT || self is BOOL || self is LIST
            || self is OBJECT || self is TYPE || self is NOOP || self is RETURN || self is BREAK
    }

    /// The name of a kind.
    pub open spec fn name(self) -> Seq<char> {
        match self {
            Kind::STRING { .. } => "STRING"@,
            Kind::INT { .. } => "INT"@,
            Kind::FLOAT { .. } => "FLOAT"@,
            Kind::BOOL { .. } => "BOOL"@,
            Kind::LIST { .. } => "LIST"@,
            Kind::CELL { .. } => "CELL"@,
            Kind::INDEX { .. } => "INDEX"@,
            Kind::LIST_REASSIGN { .. } => "LIST_REASSIGN"@,
            Kind::OBJECT_REASSIGN { .. } => "OBJECT_REASSIGN"@,
            Kind::BINOP { .. } => "BINOP"@,
            Kind::UNOP { .. } => "UNOP"@,
            Kind::VAR_DEF { .. } => "VAR_DEF"@,
            Kind::VAR { .. } => "VAR"@,
            Kind::VAR_REASSIGN { .. } => "VAR_REASSIGN"@,
            Kind::FUNC_DEF { .. } => "FUNC_DEF"@,
            Kind::FUNC_CALL { .. } => "FUNC_CALL"@,
            Kind::RETURN { .. } => "RETURN"@,
            Kind::CLASS { .. } => "CLASS"@,
            Kind::NEW { .. } => "NEW"@,
            Kind::OBJECT { .. } => "OBJECT"@,
            Kind::OBJECT_INDEX { .. } => "OBJECT_INDEX"@,
            Kind::IF { .. } => "IF"@,
            Kind::WHILE { .. } => "WHILE"@,
            Kind::TYPE { .. } => "TYPE"@,
            Kind::BREAK => "BREAK"@,
            Kind::COMPOUND { .. } => "COMPOUND"@,
            Kind::IMPORT { .. } => "IMPORT"@,
            Kind::NOOP => "NOOP"@,
            Kind::EOF => "EOF"@,
        }
    }
}

impl View for ASTNode {
    type V = Node;

    open spec fn view(&self) -> Node
        decreases self,
    {
        Node { kind: self.kind.view(), span: self.einfo@ }
    }
}

/// The values of a sequence of nodes, in order.
pub open spec fn nodes_view(s: Seq<ASTNode>) -> Seq<Node>
    decreases s,
{
    if s.len() == 0 {
        Seq::empty()
    } else {
        nodes_view(s.drop_last()).push(s.last()@)
    }
}

/// `nodes_view` keeps the length and takes the view of each node in place.
pub proof fn lemma_nodes_view(s: Seq<ASTNode>)
    ensures
        nodes_view(s).len() == s.len(),
        forall|i: int| 0 <= i < s.len() ==> (#[trigger] nodes_view(s)[i]) == s[i]@,
    decreases s.len(),
{
    reveal_with_fuel(nodes_view, 2);
    if s.len() > 0 {
        lemma_nodes_view(s.drop_last());
        assert(nodes_view(s) == nodes_view(s.drop_last()).push(s.last()@));
    } else {
        assert(nodes_view(s) == Seq::<Node>::empty());
    }
}

/// `nodes_view` of a sequence with one more node at its end.
pub proof fn lemma_nodes_view_push(s: Seq<ASTNode>, n: ASTNode)
    ensures
        nodes_view(s.push(n)) == nodes_view(s).push(n@),
{
    reveal_with_fuel(nodes_view, 2);
    assert(s.push(n).drop_last() =~= s);
    assert(nodes_view(s.push(n)) == nodes_view(s.push(n).drop_last()).push(s.push(n).last()@));
}

impl View for AST {
    type V = Kind;

    open spec fn view(&self) -> Kind
        decreases self,
    {
        match self {
            AST::STRING { str_value } => Kind::STRING {
                str_value: str_value@,
            },
            AST::INT { int_value } => Kind::INT {
                int_value: *int_value as int,
            },
            AST::FLOAT { float_value } => Kind::FLOAT {
                float_value: *float_value,
            },
            AST::BOOL { bool_value } => Kind::BOOL {
                bool_value: *bool_value,
            },
            AST::LIST { contents } => Kind::LIST {
                contents: nodes_view(contents@),
            },
            AST::CELL { id } => Kind::CELL {
                id: *id as nat,
            },
            AST::INDEX { target, indices } => Kind::INDEX {
                target: Box::new((**target)@),
                indices: nodes_view(indices@),
            },
            AST::LIST_REASSIGN { target, value } => Kind::LIST_REASSIGN {
                target: Box::new((**target)@),
                value: Box::new((**value)@),
            },
            AST::OBJECT_REASSIGN { object_index, value } => Kind::OBJECT_REASSIGN {
                object_index: Box::new((**object_index)@),
                value: Box::new((**value)@),
            },
            AST::BINOP { left, op, right } => Kind::BINOP {
                left: Box::new((**left)@),
                op: op@,
                right: Box::new((**right)@),
            },
            AST::UNOP { op, body } => Kind::UNOP {
                op: op@,
                body: Box::new((**body)@),
            },
            AST::VAR_DEF { name, value } => Kind::VAR_DEF {
                name: name@,
                value: Box::new((**value)@),
            },
            AST::VAR { name } => Kind::VAR {
                name: name@,
            },
            AST::VAR_REASSIGN { name, value } => Kind::VAR_REASSIGN {
                name: name@,
                value: Box::new((**value)@),
            },
            AST::FUNC_DEF { body, name, args } => Kind::FUNC_DEF {
                body: Box::new((**body)@),
                name: name@,
                args: nodes_view(args@),
            },
            AST::FUNC_CALL { name, args } => Kind::FUNC_CALL {
                name: name@,
                args: nodes_view(args@),
            },
            AST::RETURN { value } => Kind::RETURN {
                value: Box::new((**value)@),
            },
            AST::CLASS { name, properties, methods } => Kind::CLASS {
                name: name@,
                properties: nodes_view(properties@),
                methods: nodes_view(methods@),
            },
            AST::NEW { name, args } => Kind::NEW {
                name: name@,
                args: nodes_view(args@),
            },
            AST::OBJECT { class_name, scope } => Kind::OBJECT {
                class_name: class_name@,
                scope: *scope as nat,
            },
            AST::OBJECT_INDEX { object, property } => Kind::OBJECT_INDEX {
                object: Box::new((**object)@),
                property: Box::new((**property)@),
            },
            AST::IF { conditions, bodies, else_body } => Kind::IF {
                conditions: nodes_view(conditions@),
                bodies: nodes_view(bodies@),
                else_body: match else_body {
                    Some(b) => Some(Box::new((**b)@)),
                    None => None,
                },
            },
            AST::WHILE { condition, body } => Kind::WHILE {
                condition: Box::new((**condition)@),
                body: Box::new((**body)@),
            },
            AST::TYPE { type_value } => Kind::TYPE {
                type_value: type_value@,
            },
            AST::BREAK => Kind::BREAK,
            AST::COMPOUND { compound_value } => Kind::COMPOUND {
                compound_value: nodes_view(compound_value@),
            },
            AST::IMPORT { filename, object_name } => Kind::IMPORT {
                filename: filename@,
                object_name: object_name@,
            },
            AST::NOOP => Kind::NOOP,
            AST::EOF => Kind::EOF,
        }
    }
}

/// The view of a node is the view of its kind with its span.
pub proof fn lemma_view(n: ASTNode)
    ensures
        n@.kind == n.kind@,
        n@.span == n.einfo@,
{
}

/// Copies a sequence of nodes.
pub fn clone_nodes(v: &Vec<ASTNode>) -> (r: Vec<ASTNode>)
    ensures
        nodes_view(r@) == nodes_view(v@),
        r@.len() == v@.len(),
    decreases v,
{
    let mut out: Vec<ASTNode> = Vec::new();
    let mut i: usize = 0;
    while i < v.len()
        invariant
            i <= v.len(),
            out@.len() == i,
            nodes_view(out@) == nodes_view(v@.take(i as int)),
        decreases v.len() - i,
    {
        proof {
            lemma_nodes_view_push(out@, v@[i as int]);
            lemma_nodes_view_push(v@.take(i as int), v@[i as int]);
            assert(v@.take(i as int).push(v@[i as int]) =~= v@.take(i + 1));
        }
        let item = v[i].clone();
        proof {
            lemma_nodes_view_push(out@, item);
        }
        out.push(item);
        i += 1;
    }
    assert(v@.take(v.len() as int) =~= v@);
    out
}

impl Clone for ASTNode {
    fn clone(&self) -> (r: ASTNode)
        ensures
            r@ == self@,
        decreases self,
    {
        let kind = match &self.kind {
            AST::STRING { str_value } => AST::STRING {
                str_value: str_value.clone(),
            },
            AST::INT { int_value } => AST::INT {
                int_value: *int_value,
            },
            AST::FLOAT { float_value } => AST::FLOAT {
                float_value: *float_value,
            },
            AST::BOOL { bool_value } => AST::BOOL {
                bool_value: *bool_value,
            },
            AST::LIST { contents } => AST::LIST {
                contents: clone_nodes(contents),
            },
            AST::CELL { id } => AST::CELL {
                id: *id,
            },
            AST::INDEX { target, indices } => AST::INDEX {
                target: Box::new((**target).clone()),
                indices: clone_nodes(indices),
            },
            AST::LIST_REASSIGN { target, value } => AST::LIST_REASSIGN {
                target: Box::new((**target).clone()),
                value: Box::new((**value).clone()),
            },
            AST::OBJECT_REASSIGN { object_index, value } => AST::OBJECT_REASSIGN {
                object_index: Box::new((**object_index).clone()),
                value: Box::new((**value).clone()),
            },
            AST::BINOP { left, op, right } => AST::BINOP {
                left: Box::new((**left).clone()),
                op: op.clone(),
                right: Box::new((**right).clone()),
            },
            AST::UNOP { op, body } => AST::UNOP {
                op: op.clone(),
                body: Box::new((**body).clone()),
            },
            AST::VAR_DEF { name, value } => AST::VAR_DEF {
                name: name.clone(),
                value: Box::new((**value).clone()),
            },
            AST::VAR { name } => AST::VAR {
                name: name.clone(),
            },
            AST::VAR_REASSIGN { name, value } => AST::VAR_REASSIGN {
                name: name.clone(),
                value: Box::new((**value).clone()),
            },
            AST::FUNC_DEF { body, name, args } => AST::FUNC_DEF {
                body: Box::new((**body).clone()),
                name: name.clone(),
                args: clone_nodes(args),
            },
            AST::FUNC_CALL { name, args } => AST::FUNC_CALL {
                name: name.clone(),
                args: clone_nodes(args),
            },
            AST::RETURN { value } => AST::RETURN {
                value: Box::new((**value).clone()),
            },
            AST::CLASS { name, properties, methods } => AST::CLASS {
                name: name.clone(),
                properties: clone_nodes(properties),
                methods: clone_nodes(methods),
            },
            AST::NEW { name, args } => AST::NEW {
                name: name.clone(),
                args: clone_nodes(args),
            },
            AST::OBJECT { class_name, scope } => AST::OBJECT {
                class_name: class_name.clone(),
                scope: *scope,
            },
            AST::OBJECT_INDEX { object, property } => AST::OBJECT_INDEX {
                object: Box::new((**object).clone()),
                property: Box::new((**property).clone()),
            },
            AST::IF { conditions, bodies, else_body } => AST::IF {
                conditions: clone_nodes(conditions),
                bodies: clone_nodes(bodies),
                else_body: match else_body {
                    Some(b) => Some(Box::new((**b).clone())),
                    None => None,
                },
            },
            AST::WHILE { condition, body } => AST::WHILE {
                condition: Box::new((**condition).clone()),
                body: Box::new((**body).clone()),
            },
            AST::TYPE { type_value } => AST::TYPE {
                type_value: type_value.clone(),
            },
            AST::BREAK => AST::BREAK,
            AST::COMPOUND { compound_value } => AST::COMPOUND {
                compound_value: clone_nodes(compound_value),
            },
            AST::IMPORT { filename, object_name } => AST::IMPORT {
                filename: filename.clone(),
                object_name: object_name.clone(),
            },
            AST::NOOP => AST::NOOP,
            AST::EOF => AST::EOF,
        };
        ASTNode { kind, einfo: self.einfo.clone() }
    }
}

impl AST {
    /// Whether this kind is one that evaluation may yield.
    pub fn is_value(&self) -> (r: bool)
        ensures
            r == self@.is_value(),
    {
        match self {
            AST::STRING { .. }
            | AST::INT { .. }
            | AST::FLOAT { .. }
            | AST::BOOL { .. }
            | AST::LIST { .. }
            | AST::OBJECT { .. }
            | AST::TYPE { .. }
            | AST::NOOP
            | AST::RETURN { .. }
            | AST::BREAK => true,
            _ => false,
        }
    }

    /// The name of this kind.
    pub fn name(&self) -> (s: String)
        ensures
            s@ == self@.name(),
    {
        match self {
            AST::STRING { .. } => String::from_str("STRING"),
            AST::INT { .. } => String::from_str("INT"),
            AST::FLOAT { .. } => String::from_str("FLOAT"),
            AST::BOOL { .. } => String::from_str("BOOL"),
            AST::LIST { .. } => String::from_str("LIST"),
            AST::CELL { .. } => String::from_str("CELL"),
            AST::INDEX { .. } => String::from_str("INDEX"),
            AST::LIST_REASSIGN { .. } => String::from_str("LIST_REASSIGN"),
            AST::OBJECT_REASSIGN { .. } => String::from_str("OBJECT_REASSIGN"),
            AST::BINOP { .. } => String::from_str("BINOP"),
            AST::UNOP { .. } => String::from_str("UNOP"),
            AST::VAR_DEF { .. } => String::from_str("VAR_DEF"),
            AST::VAR { .. } => String::from_str("VAR"),
            AST::VAR_REASSIGN { .. } => String::from_str("VAR_REASSIGN"),
            AST::FUNC_DEF { .. } => String::from_str("FUNC_DEF"),
            AST::FUNC_CALL { .. } => String::from_str("FUNC_CALL"),
            AST::RETURN { .. } => String::from_str("RETURN"),
            AST::CLASS { .. } => String::from_str("CLASS"),
            AST::NEW { .. } => String::from_str("NEW"),
            AST::OBJECT { .. } => String::from_str("OBJECT"),
            AST::OBJECT_INDEX { .. } => String::from_str("OBJECT_INDEX"),
            AST::IF { .. } => String::from_str("IF"),
            AST::WHILE { .. } => String::from_str("WHILE"),
            AST::TYPE { .. } => String::from_str("TYPE"),
            AST::BREAK => String::from_str("BREAK"),
            AST::COMPOUND { .. } => String::from_str("COMPOUND"),
            AST::IMPORT { .. } => String::from_str("IMPORT"),
            AST::NOOP => String::from_str("NOOP"),
            AST::EOF => String::from_str("EOF"),
        }
    }
}

impl ASTNode {
    /// A node of the given kind with the given span.
    pub fn new(kind: AST, einfo: ErrorInfo) -> (r: ASTNode)
        ensures
            r.kind == kind,
            r.einfo == einfo,
    {
        ASTNode { kind, einfo }
    }

    /// The node that stands for "no value" and points at no source text.
    pub fn new_noop() -> (r: ASTNode)
        ensures
            r@ == Node::noop(),
    {
        ASTNode { kind: AST::NOOP, einfo: ErrorInfo::empty() }
    }
}

} // verus!
