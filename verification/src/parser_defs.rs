//! The parser: functions, blueprints, conditionals and loops.

use vstd::prelude::*;
use crate::ast::{
    lemma_nodes_view, lemma_nodes_view_push, lemma_view, nodes_view, ASTNode, Kind, Node, AST,
};
use crate::error::{ETypes, ErrorInfo, ErrorStack};
use crate::grammar::{
    at, binary_rest, compound_rest, cur, expect, expected_text, here, is_operator, name_at,
    noop_here, onward, or_noop, parse_args, parse_assigned, parse_binary, parse_block,
    parse_blueprint, parse_branches, parse_break, parse_compound, parse_function_call,
    parse_function_definition, parse_function_param, parse_guarded, parse_identifier, parse_if,
    parse_index, parse_indices, parse_items, parse_list, parse_list_reassign, parse_members,
    parse_member, parse_member_method, parse_member_property, parse_mono, parse_new, parse_num, parse_obj_index, parse_obj_reassign, parse_operand,
    parse_params, parse_property, parse_return, parse_string, parse_variable,
    parse_variable_definition, parse_variable_reassign, parse_while, pass, prev, put, remaining,
    step, Parse,
};
use crate::parser::{option_nodes_view, option_view, put_entry, Parser};
use crate::token::{tokens_view, Tok, Token, TokenType, TokenView};

verus! {

impl<'a> Parser<'a> {
    /// `param NAME`
    pub fn parse_function_param(&mut self) -> (r: Option<ASTNode>)
        ensures
            Self::yields(
                *old(self),
                *final(self),
                r,
                parse_function_param(old(self).ts(), old(self).state()),
            ),
    {
        self.pass(TokenType::ID(String::from_str("param")));
        if self.halted {
            return None;
        }
        let name = self.name_here();
        self.advance();
        if self.token_i >= self.tokens.len() {
            return None;
        }
        let value = self.make_noop();
        let node = ASTNode::new(AST::VAR_DEF { name, value: Box::new(value) }, self.span_here());
        proof {
            lemma_view(node);
        }
        Some(node)
    }

    /// Parameters separated by commas, after the ones in `acc`.
    #[verifier::loop_isolation(false)]
    pub fn parse_params(&mut self, acc: Vec<ASTNode>) -> (r: Option<Vec<ASTNode>>)
        ensures
            Self::yields_all(
                *old(self),
                *final(self),
                r,
                parse_params(old(self).ts(), old(self).state(), nodes_view(acc@)),
            ),
    {
        let mut acc = acc;
        let ghost whole = parse_params(old(self).ts(), old(self).state(), nodes_view(acc@));
        loop
            invariant
                self.tokens == old(self).tokens,
                self.token_i >= old(self).token_i,
                whole == parse_params(self.ts(), self.state(), nodes_view(acc@)),
            decreases remaining(self.ts(), self.state()),
        {
            if self.halted {
                return None;
            }
            if !self.is_at(&TokenType::CMA) {
                return Some(acc);
            }
            self.advance();
            let r = self.parse_function_param();
            if self.halted {
                return None;
            }
            let item = self.unwrap_or_noop(r);
            proof {
                lemma_nodes_view_push(acc@, item);
            }
            acc.push(item);
        }
    }

    /// `{ compound }`
    pub fn parse_block(&mut self) -> (r: Option<ASTNode>)
        ensures
            Self::yields(
                *old(self),
                *final(self),
                r,
                parse_block(old(self).ts(), old(self).state()),
            ),
        decreases remaining(old(self).ts(), old(self).state()), 33nat,
    {
        if self.halted {
            return None;
        }
        self.pass(TokenType::LBR);
        if self.halted {
            return None;
        }
        let r = self.parse_compound();
        if self.halted {
            return None;
        }
        let body = self.unwrap_or_noop(r);
        self.pass(TokenType::RBR);
        if self.halted {
            return None;
        }
        Some(body)
    }

    /// `funct NAME ( param A, param B, ... ) { body }`
    pub fn parse_function_definition(&mut self) -> (r: Option<ASTNode>)
        ensures
            Self::yields(
                *old(self),
                *final(self),
                r,
                parse_function_definition(old(self).ts(), old(self).state()),
            ),
        decreases remaining(old(self).ts(), old(self).state()), 10nat,
    {
        if self.halted || self.token_i >= self.tokens.len() {
            return None;
        }
        self.advance();
        if self.token_i >= self.tokens.len() {
            return None;
        }
        let name = self.name_here();
        let einfo = self.span_here();
        self.advance();
        self.pass(TokenType::LPR);
        if self.halted || self.token_i >= self.tokens.len() {
            return None;
        }
        let mut first: Vec<ASTNode> = Vec::new();
        proof {
            lemma_nodes_view(first@);
            assert(nodes_view(first@) =~= Seq::<Node>::empty());
        }
        if !self.is_at(&TokenType::RPR) {
            let r = self.parse_function_param();
            let item = self.unwrap_or_noop(r);
            proof {
                lemma_nodes_view_push(first@, item);
                assert(nodes_view(first@.push(item)) =~= seq![item@]);
            }
            first.push(item);
        }
        if self.halted {
            return None;
        }
        let params = self.parse_params(first);
        if self.halted {
            return None;
        }
        self.pass(TokenType::RPR);
        if self.halted {
            return None;
        }
        let body = self.parse_block();
        if self.halted {
            return None;
        }
        match (params, body) {
            (Some(args), Some(b)) => {
                let node = ASTNode::new(AST::FUNC_DEF { body: Box::new(b), name, args }, einfo);
                proof {
                    lemma_view(node);
                }
                Some(node)
            },
            _ => None,
        }
    }

    /// `( cond ) { body }`: a condition and the body it guards.
    pub fn parse_guarded(&mut self) -> (r: Option<(ASTNode, ASTNode)>)
        ensures
            final(self).tokens == old(self).tokens,
            final(self).token_i >= old(self).token_i,
            final(self).state() == parse_guarded(old(self).ts(), old(self).state()).0,
            match parse_guarded(old(self).ts(), old(self).state()).1 {
                Some((c, b)) => r matches Some((x, y)) && x@ == c && y@ == b,
                None => r is None,
            },
        decreases remaining(old(self).ts(), old(self).state()), 34nat,
    {
        if self.halted {
            return None;
        }
        self.pass(TokenType::LPR);
        if self.halted {
            return None;
        }
        let c = self.parse_binary(0);
        if self.halted {
            return None;
        }
        let condition = self.unwrap_or_noop(c);
        self.pass(TokenType::RPR);
        if self.halted {
            return None;
        }
        let b = self.parse_block();
        if self.halted {
            return None;
        }
        let body = self.unwrap_or_noop(b);
        Some((condition, body))
    }

    /// `while ( cond ) { body }`
    pub fn parse_while(&mut self) -> (r: Option<ASTNode>)
        ensures
            Self::yields(
                *old(self),
                *final(self),
                r,
                parse_while(old(self).ts(), old(self).state()),
            ),
        decreases remaining(old(self).ts(), old(self).state()), 10nat,
    {
        if self.halted || self.token_i >= self.tokens.len() {
            return None;
        }
        let einfo = self.tokens[self.token_i].einfo.clone();
        self.advance();
        match self.parse_guarded() {
            Some((condition, body)) => {
                let node = ASTNode::new(
                    AST::WHILE { condition: Box::new(condition), body: Box::new(body) },
                    einfo,
                );
                proof {
                    lemma_view(node);
                }
                Some(node)
            },
            None => None,
        }
    }

    /// `if ( cond ) { body } (else if (...) {...})* (else { ... })?`
    #[verifier::loop_isolation(false)]
    #[verifier::rlimit(80)]
    pub fn parse_if(&mut self) -> (r: Option<ASTNode>)
        ensures
            Self::yields(
                *old(self),
                *final(self),
                r,
                parse_if(old(self).ts(), old(self).state()),
            ),
        decreases remaining(old(self).ts(), old(self).state()), 10nat,
    {
        if self.halted || self.token_i >= self.tokens.len() {
            return None;
        }
        let einfo = self.tokens[self.token_i].einfo.clone();
        self.advance();
        let first = self.parse_guarded();
        if self.halted {
            return None;
        }
        let mut conditions: Vec<ASTNode> = Vec::new();
        let mut bodies: Vec<ASTNode> = Vec::new();
        match first {
            Some((c, b)) => {
                proof {
                    lemma_nodes_view(conditions@);
                    lemma_nodes_view_push(conditions@, c);
                    lemma_nodes_view_push(bodies@, b);
                    assert(nodes_view(conditions@.push(c)) =~= seq![c@]);
                    assert(nodes_view(bodies@.push(b)) =~= seq![b@]);
                }
                conditions.push(c);
                bodies.push(b);
            },
            None => {
                return None;
            },
        }
        let ghost whole = parse_if(old(self).ts(), old(self).state());
        loop
            invariant
                self.tokens == old(self).tokens,
                self.token_i >= old(self).token_i,
                whole == parse_branches(
                    self.ts(),
                    self.state(),
                    nodes_view(conditions@),
                    nodes_view(bodies@),
                    einfo@,
                ),
            decreases remaining(self.ts(), self.state()),
        {
            if self.halted {
                return None;
            }
            if !self.is_at_word("else") {
                let node = ASTNode::new(AST::IF { conditions, bodies, else_body: None }, einfo);
                proof {
                    lemma_view(node);
                }
                return Some(node);
            }
            self.advance();
            if self.is_at_word("if") {
                self.advance();
                let r = self.parse_guarded();
                if self.halted {
                    return None;
                }
                match r {
                    Some((c, b)) => {
                        proof {
                            lemma_nodes_view_push(conditions@, c);
                            lemma_nodes_view_push(bodies@, b);
                        }
                        conditions.push(c);
                        bodies.push(b);
                    },
                    None => {
                        return None;
                    },
                }
            } else {
                let r = self.parse_block();
                if self.halted {
                    return None;
                }
                let else_body = match r {
                    Some(b) => Some(Box::new(b)),
                    None => None,
                };
                let node = ASTNode::new(AST::IF { conditions, bodies, else_body }, einfo);
                proof {
                    lemma_view(node);
                }
                return Some(node);
            }
        }
    }

    /// `blueprint NAME { prop P; method funct M(..){..}; ... }`
    pub fn parse_blueprint(&mut self) -> (r: Option<ASTNode>)
        ensures
            Self::yields(
                *old(self),
                *final(self),
                r,
                parse_blueprint(old(self).ts(), old(self).state()),
            ),
        decreases remaining(old(self).ts(), old(self).state()), 10nat,
    {
        if self.halted || self.token_i >= self.tokens.len() {
            return None;
        }
        self.advance();
        let tokens = self.tokens;
        let name = if self.token_i < tokens.len() {
            match &tokens[self.token_i].kind {
                TokenType::ID(name) => Some(name.clone()),
                _ => None,
            }
        } else {
            None
        };
        let name = match name {
            Some(name) => name,
            None => {
                let einfo = self.span_here();
                self.fail(ETypes::SyntaxError, "Expected name of blueprint", &einfo);
                return None;
            },
        };
        let einfo = self.span_here();
        self.advance();
        self.pass(TokenType::LBR);
        if self.halted {
            return None;
        }
        self.parse_members(name, einfo)
    }

    /// The members of a blueprint, up to and with the bracket that closes it.
    #[verifier::loop_isolation(false)]
    pub fn parse_members(&mut self, name: String, einfo: ErrorInfo) -> (r: Option<ASTNode>)
        ensures
            Self::yields(
                *old(self),
                *final(self),
                r,
                parse_members(
                    old(self).ts(),
                    old(self).state(),
                    name@,
                    Seq::empty(),
                    Seq::empty(),
                    einfo@,
                ),
            ),
        decreases remaining(old(self).ts(), old(self).state()), 36nat,
    {
        let mut properties: Vec<ASTNode> = Vec::new();
        let mut methods: Vec<ASTNode> = Vec::new();
        proof {
            lemma_nodes_view(properties@);
            lemma_nodes_view(methods@);
            assert(nodes_view(properties@) =~= Seq::<Node>::empty());
            assert(nodes_view(methods@) =~= Seq::<Node>::empty());
        }
        let ghost whole = parse_members(
            old(self).ts(),
            old(self).state(),
            name@,
            Seq::empty(),
            Seq::empty(),
            einfo@,
        );
        loop
            invariant
                self.tokens == old(self).tokens,
                self.token_i >= old(self).token_i,
                whole == parse_members(
                    self.ts(),
                    self.state(),
                    name@,
                    nodes_view(properties@),
                    nodes_view(methods@),
                    einfo@,
                ),
            decreases remaining(self.ts(), self.state()),
        {
            proof {
                lemma_members(
                    self.ts(),
                    self.state(),
                    name@,
                    nodes_view(properties@),
                    nodes_view(methods@),
                    einfo@,
                );
            }
            if self.halted || self.token_i >= self.tokens.len() {
                return None;
            }
            if self.is_at(&TokenType::RBR) {
                self.advance();
                let node = ASTNode::new(AST::CLASS { name, properties, methods }, einfo);
                proof {
                    lemma_view(node);
                }
                return Some(node);
            }
            if !self.parse_member(&mut properties, &mut methods) {
                return None;
            }
        }
    }

    /// `prop P;`, from `prop` on.
    pub fn parse_member_property(&mut self, properties: &mut Vec<ASTNode>) -> (ok: bool)
        requires
            old(self).token_i < old(self).tokens.len(),
            !old(self).halted,
        ensures
            final(self).tokens == old(self).tokens,
            final(self).token_i >= old(self).token_i,
            final(self).state() == parse_member_property(
                old(self).ts(),
                old(self).state(),
                nodes_view(old(properties)@),
            ).0,
            match parse_member_property(
                old(self).ts(),
                old(self).state(),
                nodes_view(old(properties)@),
            ).1 {
                Some(p) => ok && nodes_view(final(properties)@) == p,
                None => !ok,
            },
            ok ==> !final(self).halted && final(self).token_i > old(self).token_i,
    {
        let tokens = self.tokens;
        self.advance();
        let property = if self.token_i < tokens.len() {
            match &tokens[self.token_i].kind {
                TokenType::ID(property) => Some(property.clone()),
                _ => None,
            }
        } else {
            None
        };
        match property {
            Some(property) => {
                let at_name = self.span_here();
                let value = ASTNode::new(AST::NOOP, at_name.clone());
                proof {
                    lemma_view(value);
                }
                let def = ASTNode::new(
                    AST::VAR_DEF { name: property, value: Box::new(value) },
                    at_name,
                );
                proof {
                    lemma_view(def);
                }
                self.advance();
                self.pass(TokenType::SEMI);
                if self.halted {
                    return false;
                }
                put_entry(properties, def);
                true
            },
            None => {
                let einfo = self.span_here();
                self.fail(ETypes::SyntaxError, "Expected name of property", &einfo);
                false
            },
        }
    }

    /// `method funct M(..){..};`, from `method` on.
    pub fn parse_member_method(&mut self, methods: &mut Vec<ASTNode>) -> (ok: bool)
        requires
            old(self).token_i < old(self).tokens.len(),
            !old(self).halted,
        ensures
            final(self).tokens == old(self).tokens,
            final(self).token_i >= old(self).token_i,
            final(self).state() == parse_member_method(
                old(self).ts(),
                old(self).state(),
                nodes_view(old(methods)@),
            ).0,
            match parse_member_method(
                old(self).ts(),
                old(self).state(),
                nodes_view(old(methods)@),
            ).1 {
                Some(m) => ok && nodes_view(final(methods)@) == m,
                None => !ok,
            },
            ok ==> !final(self).halted && final(self).token_i > old(self).token_i,
        decreases remaining(old(self).ts(), old(self).state()), 12nat,
    {
        let ghost ts = self.ts();
        let ghost s = self.state();
        let ghost before = nodes_view(methods@);
        proof {
            lemma_member_method(ts, s, before);
        }
        self.advance();
        let word = TokenType::ID(String::from_str("funct"));
        self.verify(word);
        let ghost s1 = self.state();
        assert(s1 == expect(ts, step(ts, s), Tok::ID("funct"@)));
        if self.halted {
            return false;
        }
        assert(s1.pos == s.pos + 1);
        let r = self.parse_function_definition();
        let ghost s2 = self.state();
        assert((s2, option_view(r)) == onward(s1, parse_function_definition(ts, s1)));
        if self.halted {
            return false;
        }
        match r {
            Some(method) => {
                if !self.is_at(&TokenType::RBR) {
                    self.pass(TokenType::SEMI);
                }
                let ghost s3 = self.state();
                assert(s3 == (if at(ts, s2, Tok::RBR) {
                    s2
                } else {
                    pass(ts, s2, Tok::SEMI)
                }));
                if self.halted {
                    return false;
                }
                put_entry(methods, method);
                true
            },
            None => false,
        }
    }

    /// One member of a blueprint, put into the tables of properties and of
    /// methods; `false` where there is none.
    pub fn parse_member(&mut self, properties: &mut Vec<ASTNode>, methods: &mut Vec<ASTNode>) -> (ok:
        bool)
        ensures
            final(self).tokens == old(self).tokens,
            final(self).token_i >= old(self).token_i,
            final(self).state() == parse_member(
                old(self).ts(),
                old(self).state(),
                nodes_view(old(properties)@),
                nodes_view(old(methods)@),
            ).0,
            match parse_member(
                old(self).ts(),
                old(self).state(),
                nodes_view(old(properties)@),
                nodes_view(old(methods)@),
            ).1 {
                Some((p, m)) => ok && nodes_view(final(properties)@) == p && nodes_view(
                    final(methods)@,
                ) == m,
                None => !ok,
            },
            ok ==> !final(self).halted && final(self).token_i > old(self).token_i,
        decreases remaining(old(self).ts(), old(self).state()), 35nat,
    {
        if self.halted || self.token_i >= self.tokens.len() {
            return false;
        }
        if self.is_at_word("prop") {
            self.parse_member_property(properties)
        } else if self.is_at_word("method") {
            self.parse_member_method(methods)
        } else {
            let einfo = self.span_here();
            self.fail(
                ETypes::SyntaxError,
                "Expected 'prop' or 'method' to define blueprint fields",
                &einfo,
            );
            false
        }
    }
}

/// What `parse_member_method` yields, step by step.
pub proof fn lemma_member_method(ts: Seq<TokenView>, s: Parse, methods: Seq<Node>)
    ensures
        parse_member_method(ts, s, methods) == ({
            let s1 = expect(ts, step(ts, s), Tok::ID("funct"@));
            if s1.halted || s1.pos <= s.pos {
                (s1, None::<Seq<Node>>)
            } else {
                let (s2, r) = onward(s1, parse_function_definition(ts, s1));
                if s2.halted {
                    (s2, None::<Seq<Node>>)
                } else {
                    match r {
                        Some(method) => {
                            let s3 = if at(ts, s2, Tok::RBR) {
                                s2
                            } else {
                                pass(ts, s2, Tok::SEMI)
                            };
                            if s3.halted {
                                (s3, None::<Seq<Node>>)
                            } else {
                                (s3, Some(put(methods, method)))
                            }
                        },
                        None => (s2, None::<Seq<Node>>),
                    }
                }
            }
        }),
{
}

/// What `parse_members` yields, step by step.
pub proof fn lemma_members(
    ts: Seq<TokenView>,
    s: Parse,
    name: Seq<char>,
    properties: Seq<Node>,
    methods: Seq<Node>,
    span: crate::error::Span,
)
    ensures
        parse_members(ts, s, name, properties, methods, span) == (if s.halted || s.pos
            >= ts.len() {
            (s, None::<Node>)
        } else if at(ts, s, Tok::RBR) {
            (step(ts, s), Some(Node { kind: Kind::CLASS { name, properties, methods }, span }))
        } else {
            let (s1, r) = onward(s, parse_member(ts, s, properties, methods));
            match r {
                Some((p, m)) => if s1.halted || s1.pos <= s.pos {
                    (s1, None::<Node>)
                } else {
                    parse_members(ts, s1, name, p, m, span)
                },
                None => (s1, None::<Node>),
            }
        }),
{
}

} // verus!
