//! The parser: tokens to a tree, by recursive descent.

use vstd::prelude::*;
use crate::ast::{
    lemma_nodes_view, lemma_nodes_view_push, lemma_view, nodes_view, ASTNode, Kind, Node, AST,
};
use crate::error::{ETypes, ErrorInfo, ErrorStack};
use crate::grammar::{
    at, binary_rest, compound_rest, cur, expect, expected_text, here, is_operator, name_at,
    noop_here, onward, or_noop, parse_args, parse_assigned, parse_binary, parse_block,
    parse_blueprint, parse_branches, parse_break, parse_compound, parse_function_call,
    parse_function_definition, parse_function_param, parse_guarded, parse_identifier, parse_if,
    parse_index, parse_indices, parse_items, parse_list, parse_list_reassign, parse_members,
    parse_mono, parse_new, parse_num, parse_obj_index, parse_obj_reassign, parse_operand,
    parse_params, parse_property, parse_return, parse_string, parse_variable,
    parse_variable_definition, parse_variable_reassign, parse_while, pass, prev, put, remaining,
    step, Parse,
};
use crate::scope::{entry_name, find, find_in};
use crate::token::{tokens_view, Tok, Token, TokenType, TokenView};

verus! {

/// The parser: the tokens, the position of the current one, and the errors
/// reported so far.
pub struct Parser<'a> {
    pub token_i: usize,
    pub tokens: &'a Vec<Token>,
    pub errorstack: ErrorStack,
    /// Whether a fatal error has ended parsing.
    pub halted: bool,
}

/// The value of an optional node.
pub open spec fn option_view(r: Option<ASTNode>) -> Option<Node> {
    match r {
        Some(n) => Some(n@),
        None => None,
    }
}

/// The value of an optional sequence of nodes.
pub open spec fn option_nodes_view(r: Option<Vec<ASTNode>>) -> Option<Seq<Node>> {
    match r {
        Some(v) => Some(nodes_view(v@)),
        None => None,
    }
}

/// Puts a definition into a table: in the place of the one that binds the
/// same name, or at the end.
pub fn put_entry(entries: &mut Vec<ASTNode>, def: ASTNode)
    ensures
        nodes_view(final(entries)@) == put(nodes_view(old(entries)@), def@),
{
    proof {
        reveal(put);
        lemma_view(def);
        lemma_nodes_view(entries@);
        lemma_nodes_view_push(entries@, def);
    }
    let found = match &def.kind {
        AST::VAR_DEF { name, .. } => find_in(entries, name),
        AST::FUNC_DEF { name, .. } => find_in(entries, name),
        AST::CLASS { name, .. } => find_in(entries, name),
        _ => None,
    };
    match found {
        Some(i) => {
            entries[i] = def;
            proof {
                lemma_nodes_view(entries@);
                assert(nodes_view(entries@) =~= nodes_view(old(entries)@).update(i as int, def@));
            }
        },
        None => {
            entries.push(def);
        },
    }
}

impl<'a> Parser<'a> {
    /// The values of the tokens.
    pub open spec fn ts(&self) -> Seq<TokenView> {
        tokens_view(self.tokens@)
    }

    /// The state of this parser.
    pub open spec fn state(&self) -> Parse {
        Parse { pos: self.token_i as nat, errors: self.errorstack@, halted: self.halted }
    }

    /// What every parsing function promises: the tokens stay, the state and
    /// the tree are what the grammar says, and the position did not go back.
    pub open spec fn yields(
        before: Parser<'a>,
        after: Parser<'a>,
        r: Option<ASTNode>,
        expected: (Parse, Option<Node>),
    ) -> bool {
        &&& after.tokens == before.tokens
        &&& after.state() == expected.0
        &&& option_view(r) == expected.1
        &&& after.token_i >= before.token_i
    }

    /// The same for a function that parses a sequence of trees.
    pub open spec fn yields_all(
        before: Parser<'a>,
        after: Parser<'a>,
        r: Option<Vec<ASTNode>>,
        expected: (Parse, Option<Seq<Node>>),
    ) -> bool {
        &&& after.tokens == before.tokens
        &&& after.state() == expected.0
        &&& option_nodes_view(r) == expected.1
        &&& after.token_i >= before.token_i
    }

    /// Whether the position lies inside the tokens or just past their end.
    pub open spec fn in_range(&self) -> bool {
        self.token_i <= self.tokens.len()
    }

    /// A parser at the first of the given tokens.
    pub fn new(tokens: &'a Vec<Token>, errorstack: ErrorStack) -> (r: Parser<'a>)
        ensures
            r.tokens == tokens,
            r.state() == (Parse { pos: 0, errors: errorstack@, halted: false }),
    {
        Parser { token_i: 0, tokens, errorstack, halted: false }
    }

    /// Moves to the next token; at the end there is none to move to.
    pub fn advance(&mut self)
        ensures
            final(self).state() == step(old(self).ts(), old(self).state()),
            final(self).tokens == old(self).tokens,
            final(self).token_i >= old(self).token_i,
    {
        if self.token_i < self.tokens.len() {
            self.token_i += 1;
        }
    }

    /// Whether the current token is of the given kind.
    pub fn is_at(&self, kind: &TokenType) -> (r: bool)
        ensures
            r == at(self.ts(), self.state(), kind@),
    {
        self.token_i < self.tokens.len() && self.tokens[self.token_i].kind.same(kind)
    }

    /// Whether the current token is the identifier that spells the given word.
    pub fn is_at_word(&self, word: &str) -> (r: bool)
        ensures
            r == at(self.ts(), self.state(), Tok::ID(word@)),
    {
        self.token_i < self.tokens.len() && self.tokens[self.token_i].kind.is_id(word)
    }

    /// The span of the current token; past the end, that of the last token.
    pub fn span_here(&self) -> (r: ErrorInfo)
        ensures
            r@ == here(self.ts(), self.state()),
    {
        if self.token_i < self.tokens.len() {
            self.tokens[self.token_i].einfo.clone()
        } else if self.tokens.len() > 0 {
            self.tokens[self.tokens.len() - 1].einfo.clone()
        } else {
            ErrorInfo::empty()
        }
    }

    /// The tree that stands in for one that could not be parsed.
    pub fn make_noop(&self) -> (r: ASTNode)
        ensures
            r@ == noop_here(self.ts(), self.state()),
    {
        ASTNode::new(AST::NOOP, self.span_here())
    }

    /// A tree, or its stand-in where there is none.
    pub fn unwrap_or_noop(&self, r: Option<ASTNode>) -> (n: ASTNode)
        ensures
            n@ == or_noop(self.ts(), self.state(), option_view(r)),
    {
        match r {
            Some(n) => n,
            None => self.make_noop(),
        }
    }

    /// The name that the current token carries, if it is an identifier.
    pub fn name_here(&self) -> (r: String)
        ensures
            r@ == name_at(self.ts(), self.state()),
    {
        if self.token_i < self.tokens.len() {
            match &self.tokens[self.token_i].kind {
                TokenType::ID(name) => name.clone(),
                _ => String::new(),
            }
        } else {
            String::new()
        }
    }

    /// Records a fatal error and ends parsing.
    pub fn fail(&mut self, etype: ETypes, message: &str, einfo: &ErrorInfo)
        ensures
            final(self).state() == old(self).state().fail(etype, message@, einfo@),
            final(self).tokens == old(self).tokens,
            final(self).token_i == old(self).token_i,
    {
        self.errorstack.report(etype, message, einfo);
        self.halted = true;
    }

    /// Requires the current token to be of the given kind; anything else
    /// is reported and ends parsing.
    pub fn verify(&mut self, comparison: TokenType)
        ensures
            final(self).state() == expect(old(self).ts(), old(self).state(), comparison@),
            final(self).tokens == old(self).tokens,
            final(self).token_i == old(self).token_i,
    {
        proof {
            reveal(expected_text);
        }
        if self.halted || self.is_at(&comparison) {
            return;
        }
        let einfo = self.span_here();
        let mut message = String::from_str("Expected token ");
        message.append(comparison.label().as_str());
        if self.token_i < self.tokens.len() {
            message.append(" but received ");
            message.append(self.tokens[self.token_i].kind.label().as_str());
            self.fail(ETypes::TokenError, message.as_str(), &einfo);
        } else {
            message.append(" but reached the end of the input");
            self.fail(ETypes::EndOfInputError, message.as_str(), &einfo);
        }
    }

    /// Requires the current token to be of the given kind, and moves past it.
    pub fn pass(&mut self, kind: TokenType)
        ensures
            final(self).state() == pass(old(self).ts(), old(self).state(), kind@),
            final(self).tokens == old(self).tokens,
            final(self).token_i >= old(self).token_i,
            !final(self).halted && !old(self).halted ==> final(self).token_i == old(self).token_i
                + 1,
    {
        self.verify(kind);
        if !self.halted {
            self.advance();
        }
    }

    /// `compound := expr (';' expr)*`
    #[verifier::loop_isolation(false)]
    pub fn parse_compound(&mut self) -> (r: Option<ASTNode>)
        ensures
            Self::yields(
                *old(self),
                *final(self),
                r,
                parse_compound(old(self).ts(), old(self).state()),
            ),
        decreases remaining(old(self).ts(), old(self).state()), 31nat,
    {
        if self.halted {
            return None;
        }
        let span = self.span_here();
        let first = self.parse_binary(0);
        if self.halted {
            return None;
        }
        let mut acc: Vec<ASTNode> = Vec::new();
        let item = self.unwrap_or_noop(first);
        proof {
            lemma_nodes_view_push(acc@, item);
            lemma_nodes_view(acc@);
            assert(nodes_view(acc@.push(item)) =~= seq![item@]);
        }
        acc.push(item);
        let ghost whole = parse_compound(old(self).ts(), old(self).state());
        loop
            invariant
                self.tokens == old(self).tokens,
                self.token_i >= old(self).token_i,
                whole == compound_rest(self.ts(), self.state(), nodes_view(acc@), span@),
            decreases remaining(self.ts(), self.state()),
        {
            if self.halted {
                return None;
            }
            if !self.is_at(&TokenType::SEMI) {
                return Some(ASTNode::new(AST::COMPOUND { compound_value: acc }, span));
            }
            self.advance();
            let r = self.parse_binary(0);
            if self.halted {
                return None;
            }
            let item = self.unwrap_or_noop(r);
            proof {
                lemma_nodes_view_push(acc@, item);
            }
            acc.push(item);
        }
    }

    /// `expr := term (('&'|'|') term)*`
    pub fn parse_comp_expr(&mut self) -> (r: Option<ASTNode>)
        ensures
            Self::yields(
                *old(self),
                *final(self),
                r,
                parse_binary(old(self).ts(), old(self).state(), 0),
            ),
    {
        self.parse_binary(0)
    }

    /// `term := arith (('=='|'!='|'<'|'<='|'>'|'>=') arith)*`
    pub fn parse_comp_term(&mut self) -> (r: Option<ASTNode>)
        ensures
            Self::yields(
                *old(self),
                *final(self),
                r,
                parse_binary(old(self).ts(), old(self).state(), 1),
            ),
    {
        self.parse_binary(1)
    }

    /// `arith := factor (('+'|'-') factor)*`
    pub fn parse_expr(&mut self) -> (r: Option<ASTNode>)
        ensures
            Self::yields(
                *old(self),
                *final(self),
                r,
                parse_binary(old(self).ts(), old(self).state(), 2),
            ),
    {
        self.parse_binary(2)
    }

    /// `factor := mono (('*'|'/'|'%') mono)*`
    pub fn parse_term(&mut self) -> (r: Option<ASTNode>)
        ensures
            Self::yields(
                *old(self),
                *final(self),
                r,
                parse_binary(old(self).ts(), old(self).state(), 3),
            ),
    {
        self.parse_binary(3)
    }

    /// Parses nothing: the grammar has no rule of this name.
    pub fn parse_factor(&mut self) -> (r: Option<ASTNode>)
        ensures
            r is None,
            *final(self) == *old(self),
    {
        None
    }

    /// An operand of a level of the grammar.
    pub fn parse_operand(&mut self, level: u8) -> (r: Option<ASTNode>)
        ensures
            Self::yields(
                *old(self),
                *final(self),
                r,
                parse_operand(old(self).ts(), old(self).state(), level as nat),
            ),
        decreases remaining(old(self).ts(), old(self).state()), 29 - 2 * level,
    {
        if level > 3 {
            None
        } else if level == 3 {
            self.parse_mono()
        } else {
            self.parse_binary(level + 1)
        }
    }

    /// Whether the current token is an operator of a level of the grammar.
    pub fn is_at_operator(&self, level: u8) -> (r: bool)
        ensures
            r == (self.token_i < self.tokens.len() && is_operator(
                level as nat,
                self.ts()[self.token_i as int].kind,
            )),
    {
        if self.token_i >= self.tokens.len() {
            return false;
        }
        match (level, &self.tokens[self.token_i].kind) {
            (0, TokenType::AND) | (0, TokenType::OR) => true,
            (1, TokenType::DEQL)
            | (1, TokenType::LT)
            | (1, TokenType::LTE)
            | (1, TokenType::GT)
            | (1, TokenType::GTE)
            | (1, TokenType::NEQ) => true,
            (2, TokenType::PLS) | (2, TokenType::MIN) => true,
            (3, TokenType::MUL) | (3, TokenType::DIV) | (3, TokenType::MOD) => true,
            _ => false,
        }
    }

    /// An expression of a level of the grammar: operands joined by
    /// operators of that level, grouped from the left.
    #[verifier::loop_isolation(false)]
    pub fn parse_binary(&mut self, level: u8) -> (r: Option<ASTNode>)
        ensures
            Self::yields(
                *old(self),
                *final(self),
                r,
                parse_binary(old(self).ts(), old(self).state(), level as nat),
            ),
        decreases remaining(old(self).ts(), old(self).state()), 30 - 2 * level,
    {
        if self.halted || level > 3 {
            return None;
        }
        let first = self.parse_operand(level);
        if self.halted {
            return None;
        }
        let mut left = match first {
            Some(left) => left,
            None => {
                return None;
            },
        };
        let ghost whole = parse_binary(old(self).ts(), old(self).state(), level as nat);
        let tokens = self.tokens;
        loop
            invariant
                self.tokens == old(self).tokens,
                tokens == self.tokens,
                self.token_i >= old(self).token_i,
                level <= 3,
                whole == binary_rest(self.ts(), self.state(), level as nat, left@),
            decreases remaining(self.ts(), self.state()),
        {
            if self.halted {
                return None;
            }
            if !self.is_at_operator(level) {
                return Some(left);
            }
            let op = &tokens[self.token_i];
            self.advance();
            let r = self.parse_operand(level);
            if self.halted {
                return None;
            }
            let right = self.unwrap_or_noop(r);
            left =
            ASTNode::new(
                AST::BINOP { left: Box::new(left), op: op.kind.clone(), right: Box::new(right) },
                op.einfo.clone(),
            );
            proof {
                lemma_view(left);
            }
        }
    }

    /// `mono := number | string | identform | '(' expr ')' | '[' list ']' |
    /// '-' mono | '!' mono | end`
    pub fn parse_mono(&mut self) -> (r: Option<ASTNode>)
        ensures
            Self::yields(
                *old(self),
                *final(self),
                r,
                parse_mono(old(self).ts(), old(self).state()),
            ),
        decreases remaining(old(self).ts(), old(self).state()), 15nat,
    {
        if self.halted || self.token_i >= self.tokens.len() {
            return None;
        }
        let tokens = self.tokens;
        let t = &tokens[self.token_i];
        match &t.kind {
            TokenType::INT(_) | TokenType::FLOAT(_) => self.parse_num(),
            TokenType::STRING(_) => self.parse_string(),
            TokenType::ID(_) => self.parse_identifier(),
            TokenType::EOF => Some(ASTNode::new(AST::EOF, t.einfo.clone())),
            TokenType::LPR => {
                self.advance();
                let r = self.parse_binary(0);
                if self.halted {
                    return None;
                }
                if self.is_at(&TokenType::RPR) {
                    self.advance();
                    r
                } else {
                    let einfo = self.span_here();
                    self.fail(ETypes::SyntaxError, "Expected ')'", &einfo);
                    None
                }
            },
            TokenType::LSQB => self.parse_list(),
            TokenType::MIN | TokenType::NOT => {
                self.advance();
                let r = self.parse_mono();
                if self.halted {
                    return None;
                }
                let body = self.unwrap_or_noop(r);
                let node = ASTNode::new(
                    AST::UNOP { op: t.kind.clone(), body: Box::new(body) },
                    t.einfo.clone(),
                );
                proof {
                    lemma_view(node);
                }
                Some(node)
            },
            _ => None,
        }
    }

    /// A number literal.
    pub fn parse_num(&mut self) -> (r: Option<ASTNode>)
        ensures
            Self::yields(
                *old(self),
                *final(self),
                r,
                parse_num(old(self).ts(), old(self).state()),
            ),
    {
        if self.halted || self.token_i >= self.tokens.len() {
            return None;
        }
        let tokens = self.tokens;
        let t = &tokens[self.token_i];
        self.advance();
        match &t.kind {
            TokenType::INT(v) => Some(ASTNode::new(AST::INT { int_value: *v }, t.einfo.clone())),
            TokenType::FLOAT(b) => Some(
                ASTNode::new(AST::FLOAT { float_value: *b }, t.einfo.clone()),
            ),
            _ => {
                self.errorstack.report(
                    ETypes::TokenError,
                    "Expected token 'INT' or 'FLOAT'",
                    &t.einfo,
                );
                None
            },
        }
    }

    /// A string literal.
    pub fn parse_string(&mut self) -> (r: Option<ASTNode>)
        ensures
            Self::yields(
                *old(self),
                *final(self),
                r,
                parse_string(old(self).ts(), old(self).state()),
            ),
    {
        if self.halted || self.token_i >= self.tokens.len() {
            return None;
        }
        let tokens = self.tokens;
        let t = &tokens[self.token_i];
        self.advance();
        match &t.kind {
            TokenType::STRING(v) => Some(
                ASTNode::new(AST::STRING { str_value: v.clone() }, t.einfo.clone()),
            ),
            _ => {
                self.errorstack.report(ETypes::TokenError, "Expected token 'STRING'", &t.einfo);
                None
            },
        }
    }

    /// What starts with an identifier: a statement that a keyword
    /// introduces, a truth value, or a variable with what follows it.
    pub fn parse_identifier(&mut self) -> (r: Option<ASTNode>)
        ensures
            Self::yields(
                *old(self),
                *final(self),
                r,
                parse_identifier(old(self).ts(), old(self).state()),
            ),
        decreases remaining(old(self).ts(), old(self).state()), 14nat,
    {
        if self.halted || self.token_i >= self.tokens.len() {
            return None;
        }
        let tokens = self.tokens;
        let t = &tokens[self.token_i];
        match &t.kind {
            TokenType::ID(_) => {
                if t.kind.is_id("assign") {
                    self.parse_variable_definition()
                } else if t.kind.is_id("funct") {
                    self.parse_function_definition()
                } else if t.kind.is_id("return") {
                    self.parse_return()
                } else if t.kind.is_id("blueprint") {
                    self.parse_blueprint()
                } else if t.kind.is_id("new") {
                    self.parse_new()
                } else if t.kind.is_id("if") {
                    self.parse_if()
                } else if t.kind.is_id("while") {
                    self.parse_while()
                } else if t.kind.is_id("break") {
                    self.parse_break()
                } else if t.kind.is_id("true") {
                    self.advance();
                    Some(ASTNode::new(AST::BOOL { bool_value: true }, t.einfo.clone()))
                } else if t.kind.is_id("false") {
                    self.advance();
                    Some(ASTNode::new(AST::BOOL { bool_value: false }, t.einfo.clone()))
                } else {
                    self.parse_variable()
                }
            },
            _ => None,
        }
    }

    /// `break`
    pub fn parse_break(&mut self) -> (r: Option<ASTNode>)
        ensures
            Self::yields(
                *old(self),
                *final(self),
                r,
                parse_break(old(self).ts(), old(self).state()),
            ),
    {
        if self.halted || self.token_i >= self.tokens.len() {
            return None;
        }
        let einfo = self.tokens[self.token_i].einfo.clone();
        self.advance();
        Some(ASTNode::new(AST::BREAK, einfo))
    }

    /// `return expr`
    pub fn parse_return(&mut self) -> (r: Option<ASTNode>)
        ensures
            Self::yields(
                *old(self),
                *final(self),
                r,
                parse_return(old(self).ts(), old(self).state()),
            ),
        decreases remaining(old(self).ts(), old(self).state()), 10nat,
    {
        if self.halted || self.token_i >= self.tokens.len() {
            return None;
        }
        self.advance();
        let r = self.parse_binary(0);
        if self.halted {
            return None;
        }
        let value = self.unwrap_or_noop(r);
        let node = ASTNode::new(AST::RETURN { value: Box::new(value) }, self.span_here());
        proof {
            lemma_view(node);
        }
        Some(node)
    }

    /// `assign NAME = expr`
    pub fn parse_variable_definition(&mut self) -> (r: Option<ASTNode>)
        ensures
            Self::yields(
                *old(self),
                *final(self),
                r,
                parse_variable_definition(old(self).ts(), old(self).state()),
            ),
        decreases remaining(old(self).ts(), old(self).state()), 10nat,
    {
        if self.halted || self.token_i >= self.tokens.len() {
            return None;
        }
        self.advance();
        if self.token_i >= self.tokens.len() {
            return None;
        }
        let tokens = self.tokens;
        let t = &tokens[self.token_i];
        match &t.kind {
            TokenType::ID(name) => {
                self.advance();
                self.pass(TokenType::EQL);
                if self.halted {
                    return None;
                }
                let r = self.parse_binary(0);
                if self.halted {
                    return None;
                }
                match r {
                    Some(value) => {
                        let node = ASTNode::new(
                            AST::VAR_DEF { name: name.clone(), value: Box::new(value) },
                            t.einfo.clone(),
                        );
                        proof {
                            lemma_view(node);
                        }
                        Some(node)
                    },
                    None => None,
                }
            },
            _ => None,
        }
    }

}

} // verus!
