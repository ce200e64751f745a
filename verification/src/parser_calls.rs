//! The parser: calls, indices, properties and assignments.

use vstd::prelude::*;
use crate::ast::{
    lemma_nodes_view, lemma_nodes_view_push, lemma_view, nodes_view, ASTNode, Kind, Node, AST,
};
use crate::error::{ETypes, ErrorInfo, ErrorStack};
use crate::grammar::{
    at, binary_rest, compound_rest, cur, expect, expected_text, here, is_operator, name_at,
    noop_here, onward, or_noop, parse_args, parse_assigned, parse_binary, parse_block,
    parse_blueprint, parse_branches, parse_break, parse_compound, parse_function_call,
    parse_function_definition, parse_function_param, parse_guarded, parse_identifier, parse_if,
    parse_index, parse_indices, parse_items, parse_list, parse_list_reassign, parse_members,
    parse_mono, parse_new, parse_num, parse_obj_index, parse_obj_reassign, parse_operand,
    parse_params, parse_property, parse_return, parse_string, parse_variable,
    parse_variable_definition, parse_variable_reassign, parse_while, pass, prev, put, remaining,
    step, Parse,
};
use crate::parser::{option_nodes_view, option_view, put_entry, Parser};
use crate::token::{tokens_view, Tok, Token, TokenType, TokenView};

verus! {

impl<'a> Parser<'a> {
    /// Expressions separated by commas, after the ones in `acc`.
    #[verifier::loop_isolation(false)]
    pub fn parse_items(&mut self, acc: Vec<ASTNode>) -> (r: Option<Vec<ASTNode>>)
        ensures
            Self::yields_all(
                *old(self),
                *final(self),
                r,
                parse_items(old(self).ts(), old(self).state(), nodes_view(acc@)),
            ),
        decreases remaining(old(self).ts(), old(self).state()), 0nat,
    {
        let mut acc = acc;
        let ghost whole = parse_items(old(self).ts(), old(self).state(), nodes_view(acc@));
        loop
            invariant
                self.tokens == old(self).tokens,
                self.token_i >= old(self).token_i,
                whole == parse_items(self.ts(), self.state(), nodes_view(acc@)),
            decreases remaining(self.ts(), self.state()),
        {
            if self.halted {
                return None;
            }
            if !self.is_at(&TokenType::CMA) {
                return Some(acc);
            }
            self.advance();
            let r = self.parse_binary(0);
            if self.halted {
                return None;
            }
            let item = self.unwrap_or_noop(r);
            proof {
                lemma_nodes_view_push(acc@, item);
            }
            acc.push(item);
        }
    }

    /// The arguments of a call, after the bracket that opens them and up to
    /// and with the bracket that closes them.
    pub fn parse_args(&mut self) -> (r: Option<Vec<ASTNode>>)
        ensures
            Self::yields_all(
                *old(self),
                *final(self),
                r,
                parse_args(old(self).ts(), old(self).state()),
            ),
        decreases remaining(old(self).ts(), old(self).state()), 32nat,
    {
        if self.halted {
            return None;
        }
        if self.is_at(&TokenType::RPR) {
            self.advance();
            let empty: Vec<ASTNode> = Vec::new();
            proof {
                lemma_nodes_view(empty@);
                assert(nodes_view(empty@) =~= Seq::<Node>::empty());
            }
            return Some(empty);
        }
        if self.token_i >= self.tokens.len() {
            self.verify(TokenType::RPR);
            return None;
        }
        let first = self.parse_binary(0);
        if self.halted {
            return None;
        }
        let mut acc: Vec<ASTNode> = Vec::new();
        let item = self.unwrap_or_noop(first);
        proof {
            lemma_nodes_view_push(acc@, item);
            lemma_nodes_view(acc@);
            assert(nodes_view(acc@.push(item)) =~= seq![item@]);
        }
        acc.push(item);
        let items = self.parse_items(acc);
        if self.halted {
            return None;
        }
        self.pass(TokenType::RPR);
        if self.halted {
            return None;
        }
        items
    }

    /// `NAME ( args )`, from the bracket on; the name is the token before.
    pub fn parse_function_call(&mut self) -> (r: Option<ASTNode>)
        ensures
            Self::yields(
                *old(self),
                *final(self),
                r,
                parse_function_call(old(self).ts(), old(self).state()),
            ),
        decreases remaining(old(self).ts(), old(self).state()), 9nat,
    {
        if self.halted || self.token_i >= self.tokens.len() || self.token_i == 0 {
            return None;
        }
        let tokens = self.tokens;
        let t = &tokens[self.token_i - 1];
        match &t.kind {
            TokenType::ID(name) => {
                self.advance();
                let r = self.parse_args();
                if self.halted {
                    return None;
                }
                match r {
                    Some(args) => {
                        let node = ASTNode::new(
                            AST::FUNC_CALL { name: name.clone(), args },
                            t.einfo.clone(),
                        );
                        proof {
                            lemma_view(node);
                        }
                        Some(node)
                    },
                    None => None,
                }
            },
            _ => None,
        }
    }

    /// `new NAME ( args )`
    pub fn parse_new(&mut self) -> (r: Option<ASTNode>)
        ensures
            Self::yields(
                *old(self),
                *final(self),
                r,
                parse_new(old(self).ts(), old(self).state()),
            ),
        decreases remaining(old(self).ts(), old(self).state()), 10nat,
    {
        if self.halted || self.token_i >= self.tokens.len() {
            return None;
        }
        self.advance();
        if self.token_i >= self.tokens.len() {
            return None;
        }
        let name = self.name_here();
        let einfo = self.span_here();
        self.advance();
        self.pass(TokenType::LPR);
        if self.halted {
            return None;
        }
        let r = self.parse_args();
        if self.halted {
            return None;
        }
        match r {
            Some(args) => {
                let node = ASTNode::new(AST::NEW { name, args }, einfo);
                proof {
                    lemma_view(node);
                }
                Some(node)
            },
            None => None,
        }
    }

    /// The indices that follow a target, after the ones in `acc`.
    #[verifier::loop_isolation(false)]
    pub fn parse_indices(&mut self, acc: Vec<ASTNode>) -> (r: Option<Vec<ASTNode>>)
        ensures
            Self::yields_all(
                *old(self),
                *final(self),
                r,
                parse_indices(old(self).ts(), old(self).state(), nodes_view(acc@)),
            ),
        decreases remaining(old(self).ts(), old(self).state()), 0nat,
    {
        let mut acc = acc;
        let ghost whole = parse_indices(old(self).ts(), old(self).state(), nodes_view(acc@));
        loop
            invariant
                self.tokens == old(self).tokens,
                self.token_i >= old(self).token_i,
                whole == parse_indices(self.ts(), self.state(), nodes_view(acc@)),
            decreases remaining(self.ts(), self.state()),
        {
            if self.halted {
                return None;
            }
            if !self.is_at(&TokenType::LSQB) {
                return Some(acc);
            }
            self.advance();
            let r = self.parse_binary(2);
            if self.halted {
                return None;
            }
            let item = self.unwrap_or_noop(r);
            self.pass(TokenType::RSQB);
            if self.halted {
                return None;
            }
            proof {
                lemma_nodes_view_push(acc@, item);
            }
            acc.push(item);
        }
    }

    /// `TARGET [ i1 ] [ i2 ] ...`, from the first bracket on.
    pub fn parse_index(&mut self, target: ASTNode) -> (r: Option<ASTNode>)
        ensures
            Self::yields(
                *old(self),
                *final(self),
                r,
                parse_index(old(self).ts(), old(self).state(), target@),
            ),
        decreases remaining(old(self).ts(), old(self).state()), 1nat,
    {
        let empty: Vec<ASTNode> = Vec::new();
        proof {
            lemma_nodes_view(empty@);
            assert(nodes_view(empty@) =~= Seq::<Node>::empty());
            lemma_view(target);
        }
        match self.parse_indices(empty) {
            Some(indices) => {
                let einfo = target.einfo.clone();
                let node = ASTNode::new(AST::INDEX { target: Box::new(target), indices }, einfo);
                proof {
                    lemma_view(node);
                }
                Some(node)
            },
            None => None,
        }
    }

    /// `= expr` after an index or a property: the tree of the value.
    pub fn parse_assigned(&mut self) -> (r: Option<ASTNode>)
        ensures
            Self::yields(
                *old(self),
                *final(self),
                r,
                parse_assigned(old(self).ts(), old(self).state()),
            ),
        decreases remaining(old(self).ts(), old(self).state()), 1nat,
    {
        if self.halted || self.token_i >= self.tokens.len() {
            return None;
        }
        self.advance();
        let r = self.parse_binary(0);
        if self.halted {
            return None;
        }
        Some(self.unwrap_or_noop(r))
    }

    /// `TARGET [ ... ] = expr`, from the `=` on.
    pub fn parse_list_reassign(&mut self, target: ASTNode) -> (r: Option<ASTNode>)
        ensures
            Self::yields(
                *old(self),
                *final(self),
                r,
                parse_list_reassign(old(self).ts(), old(self).state(), target@),
            ),
        decreases remaining(old(self).ts(), old(self).state()), 2nat,
    {
        match self.parse_assigned() {
            Some(value) => {
                proof {
                    lemma_view(value);
                }
                let einfo = value.einfo.clone();
                let node = ASTNode::new(
                    AST::LIST_REASSIGN { target: Box::new(target), value: Box::new(value) },
                    einfo,
                );
                proof {
                    lemma_view(node);
                }
                Some(node)
            },
            None => None,
        }
    }

    /// `TARGET . NAME = expr`, from the `=` on.
    pub fn parse_obj_reassign(&mut self, object_index: ASTNode) -> (r: Option<ASTNode>)
        ensures
            Self::yields(
                *old(self),
                *final(self),
                r,
                parse_obj_reassign(old(self).ts(), old(self).state(), object_index@),
            ),
        decreases remaining(old(self).ts(), old(self).state()), 2nat,
    {
        match self.parse_assigned() {
            Some(value) => {
                proof {
                    lemma_view(value);
                }
                let einfo = value.einfo.clone();
                let node = ASTNode::new(
                    AST::OBJECT_REASSIGN {
                        object_index: Box::new(object_index),
                        value: Box::new(value),
                    },
                    einfo,
                );
                proof {
                    lemma_view(node);
                }
                Some(node)
            },
            None => None,
        }
    }

    /// `NAME = expr`, from the `=` on; the name is the token before.
    pub fn parse_variable_reassign(&mut self) -> (r: Option<ASTNode>)
        ensures
            Self::yields(
                *old(self),
                *final(self),
                r,
                parse_variable_reassign(old(self).ts(), old(self).state()),
            ),
        decreases remaining(old(self).ts(), old(self).state()), 2nat,
    {
        if self.halted || self.token_i >= self.tokens.len() {
            return None;
        }
        let name = if self.token_i > 0 {
            match &self.tokens[self.token_i - 1].kind {
                TokenType::ID(name) => name.clone(),
                _ => String::new(),
            }
        } else {
            String::new()
        };
        self.advance();
        let r = self.parse_binary(0);
        if self.halted {
            return None;
        }
        match r {
            Some(value) => {
                if 0 < self.token_i && self.token_i <= self.tokens.len() {
                    let einfo = self.tokens[self.token_i - 1].einfo.clone();
                    let node = ASTNode::new(
                        AST::VAR_REASSIGN { name, value: Box::new(value) },
                        einfo,
                    );
                    proof {
                        lemma_view(node);
                    }
                    Some(node)
                } else {
                    None
                }
            },
            None => None,
        }
    }

    /// What may follow a dot: a name, a call or an indexed name.
    #[verifier::rlimit(80)]
    pub fn parse_property(&mut self) -> (r: Option<ASTNode>)
        ensures
            Self::yields(
                *old(self),
                *final(self),
                r,
                parse_property(old(self).ts(), old(self).state()),
            ),
        decreases remaining(old(self).ts(), old(self).state()), 10nat,
    {
        if self.halted || self.token_i >= self.tokens.len() {
            return None;
        }
        let tokens = self.tokens;
        let t = &tokens[self.token_i];
        match &t.kind {
            TokenType::ID(name) => {
                self.advance();
                if self.is_at(&TokenType::LPR) {
                    self.parse_function_call()
                } else {
                    let var = ASTNode::new(AST::VAR { name: name.clone() }, t.einfo.clone());
                    if self.is_at(&TokenType::LSQB) {
                        self.parse_index(var)
                    } else {
                        Some(var)
                    }
                }
            },
            _ => None,
        }
    }

    /// `TARGET . NAME . NAME ...`, from the first dot on.
    #[verifier::loop_isolation(false)]
    pub fn parse_obj_index(&mut self, object: ASTNode) -> (r: Option<ASTNode>)
        ensures
            Self::yields(
                *old(self),
                *final(self),
                r,
                parse_obj_index(old(self).ts(), old(self).state(), object@, object@.span),
            ),
        decreases remaining(old(self).ts(), old(self).state()), 0nat,
    {
        proof {
            lemma_view(object);
        }
        let einfo = object.einfo.clone();
        let mut object = object;
        let ghost whole = parse_obj_index(old(self).ts(), old(self).state(), object@, einfo@);
        loop
            invariant
                self.tokens == old(self).tokens,
                self.token_i >= old(self).token_i,
                whole == parse_obj_index(self.ts(), self.state(), object@, einfo@),
            decreases remaining(self.ts(), self.state()),
        {
            if self.halted {
                return None;
            }
            if !self.is_at(&TokenType::DOT) {
                return Some(object);
            }
            self.advance();
            let r = self.parse_property();
            if self.halted {
                return None;
            }
            match r {
                Some(property) => {
                    object =
                    ASTNode::new(
                        AST::OBJECT_INDEX { object: Box::new(object), property: Box::new(property) },
                        einfo.clone(),
                    );
                    proof {
                        lemma_view(object);
                    }
                },
                None => {
                    return None;
                },
            }
        }
    }

    /// A variable with what follows it: a call, an assignment, indices or
    /// properties, and an assignment to those.
    #[verifier::rlimit(80)]
    pub fn parse_variable(&mut self) -> (r: Option<ASTNode>)
        ensures
            Self::yields(
                *old(self),
                *final(self),
                r,
                parse_variable(old(self).ts(), old(self).state()),
            ),
        decreases remaining(old(self).ts(), old(self).state()), 11nat,
    {
        if self.halted || self.token_i >= self.tokens.len() {
            return None;
        }
        let einfo = self.tokens[self.token_i].einfo.clone();
        let name = self.name_here();
        self.advance();
        if self.token_i >= self.tokens.len() {
            return None;
        }
        if self.is_at(&TokenType::LPR) {
            let r = self.parse_function_call();
            if self.halted {
                return None;
            }
            match r {
                Some(call) => {
                    if self.token_i >= self.tokens.len() {
                        None
                    } else if self.is_at(&TokenType::LSQB) {
                        self.parse_index(call)
                    } else {
                        Some(call)
                    }
                },
                None => None,
            }
        } else if self.is_at(&TokenType::EQL) {
            self.parse_variable_reassign()
        } else if self.is_at(&TokenType::LSQB) {
            let var = ASTNode::new(AST::VAR { name }, einfo);
            let r = self.parse_index(var);
            if self.halted {
                return None;
            }
            match r {
                Some(indexed) => {
                    if self.token_i >= self.tokens.len() {
                        None
                    } else if self.is_at(&TokenType::EQL) {
                        self.parse_list_reassign(indexed)
                    } else {
                        Some(indexed)
                    }
                },
                None => None,
            }
        } else if self.is_at(&TokenType::DOT) {
            let var = ASTNode::new(AST::VAR { name }, einfo);
            let r = self.parse_obj_index(var);
            if self.halted {
                return None;
            }
            match r {
                Some(indexed) => {
                    if self.token_i >= self.tokens.len() {
                        None
                    } else if self.is_at(&TokenType::EQL) {
                        self.parse_obj_reassign(indexed)
                    } else {
                        Some(indexed)
                    }
                },
                None => None,
            }
        } else {
            Some(ASTNode::new(AST::VAR { name }, einfo))
        }
    }

    /// `[ e1, e2, ... ]`
    pub fn parse_list(&mut self) -> (r: Option<ASTNode>)
        ensures
            Self::yields(
                *old(self),
                *final(self),
                r,
                parse_list(old(self).ts(), old(self).state()),
            ),
        decreases remaining(old(self).ts(), old(self).state()), 10nat,
    {
        if self.halted || self.token_i >= self.tokens.len() {
            return None;
        }
        let einfo = self.tokens[self.token_i].einfo.clone();
        self.advance();
        if self.token_i >= self.tokens.len() {
            return None;
        }
        let mut acc: Vec<ASTNode> = Vec::new();
        proof {
            lemma_nodes_view(acc@);
            assert(nodes_view(acc@) =~= Seq::<Node>::empty());
        }
        if self.is_at(&TokenType::RSQB) {
            self.advance();
            let node = ASTNode::new(AST::LIST { contents: acc }, einfo);
            proof {
                lemma_view(node);
            }
            return Some(node);
        }
        let first = self.parse_binary(0);
        if self.halted {
            return None;
        }
        let item = self.unwrap_or_noop(first);
        proof {
            lemma_nodes_view_push(acc@, item);
            assert(nodes_view(acc@.push(item)) =~= seq![item@]);
        }
        acc.push(item);
        let items = self.parse_items(acc);
        if self.halted {
            return None;
        }
        self.pass(TokenType::RSQB);
        match items {
            Some(contents) => {
                if self.halted {
                    None
                } else {
                    let node = ASTNode::new(AST::LIST { contents }, einfo);
                    proof {
                        lemma_view(node);
                    }
                    Some(node)
                }
            },
            None => None,
        }
    }
}

} // verus!
