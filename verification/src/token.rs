//! Tokens: what the lexer produces and the parser consumes.

use vstd::prelude::*;
use crate::error::{ErrorInfo, Span};
use crate::text::{i32_to_string, push_char};

verus! {

/// The kind of a token, with its payload where it has one. A floating-point
/// literal carries the bits of its encoding.
#[allow(non_camel_case_types)]
#[derive(Debug, PartialEq)]
pub enum TokenType {
    INT(i32),
    FLOAT(u32),
    STRING(String),
    ID(String),
    DEQL,
    EQL,
    LTE,
    LT,
    GTE,
    GT,
    NEQ,
    NOT,
    AND,
    MOD,
    OR,
    SEMI,
    CLN,
    LPR,
    RPR,
    CMA,
    LBR,
    RBR,
    LSQB,
    RSQB,
    PLS,
    MIN,
    MUL,
    DIV,
    DOT,
    EOF,
}

/// The mathematical value of a token kind.
#[allow(non_camel_case_types)]
pub enum Tok {
    INT(int),
    FLOAT(u32),
    STRING(Seq<char>),
    ID(Seq<char>),
    DEQL,
    EQL,
    LTE,
    LT,
    GTE,
    GT,
    NEQ,
    NOT,
    AND,
    MOD,
    OR,
    SEMI,
    CLN,
    LPR,
    RPR,
    CMA,
    LBR,
    RBR,
    LSQB,
    RSQB,
    PLS,
    MIN,
    MUL,
    DIV,
    DOT,
    EOF,
}

impl Tok {
    /// The name of a token kind that carries no payload.
    pub open spec fn bare_name(self) -> Seq<char> {
        match self {
            Tok::INT(_) => "INT"@,
            Tok::FLOAT(_) => "FLOAT"@,
            Tok::STRING(_) => "STRING"@,
            Tok::ID(_) => "ID"@,
            Tok::DEQL => "DEQL"@,
            Tok::EQL => "EQL"@,
            Tok::LTE => "LTE"@,
            Tok::LT => "LT"@,
            Tok::GTE => "GTE"@,
            Tok::GT => "GT"@,
            Tok::NEQ => "NEQ"@,
            Tok::NOT => "NOT"@,
            Tok::AND => "AND"@,
            Tok::MOD => "MOD"@,
            Tok::OR => "OR"@,
            Tok::SEMI => "SEMI"@,
            Tok::CLN => "CLN"@,
            Tok::LPR => "LPR"@,
            Tok::RPR => "RPR"@,
            Tok::CMA => "CMA"@,
            Tok::LBR => "LBR"@,
            Tok::RBR => "RBR"@,
            Tok::LSQB => "LSQB"@,
            Tok::RSQB => "RSQB"@,
            Tok::PLS => "PLS"@,
            Tok::MIN => "MIN"@,
            Tok::MUL => "MUL"@,
            Tok::DIV => "DIV"@,
            Tok::DOT => "DOT"@,
            Tok::EOF => "EOF"@,
        }
    }

    /// How a token kind is shown in a message: its name, followed by its
    /// payload in brackets where it is an integer, a string or a name.
    pub open spec fn label(self) -> Seq<char> {
        match self {
            Tok::INT(v) => "INT("@ + crate::text::int_text(v) + ")"@,
            Tok::STRING(s) => "STRING(\""@ + s + "\")"@,
            Tok::ID(s) => "ID(\""@ + s + "\")"@,
            _ => self.bare_name(),
        }
    }
}

impl View for TokenType {
    type V = Tok;

    open spec fn view(&self) -> Tok {
        match self {
            TokenType::INT(v) => Tok::INT(*v as int),
            TokenType::FLOAT(b) => Tok::FLOAT(*b),
            TokenType::STRING(s) => Tok::STRING(s@),
            TokenType::ID(s) => Tok::ID(s@),
            TokenType::DEQL => Tok::DEQL,
            TokenType::EQL => Tok::EQL,
            TokenType::LTE => Tok::LTE,
            TokenType::LT => Tok::LT,
            TokenType::GTE => Tok::GTE,
            TokenType::GT => Tok::GT,
            TokenType::NEQ => Tok::NEQ,
            TokenType::NOT => Tok::NOT,
            TokenType::AND => Tok::AND,
            TokenType::MOD => Tok::MOD,
            TokenType::OR => Tok::OR,
            TokenType::SEMI => Tok::SEMI,
            TokenType::CLN => Tok::CLN,
            TokenType::LPR => Tok::LPR,
            TokenType::RPR => Tok::RPR,
            TokenType::CMA => Tok::CMA,
            TokenType::LBR => Tok::LBR,
            TokenType::RBR => Tok::RBR,
            TokenType::LSQB => Tok::LSQB,
            TokenType::RSQB => Tok::RSQB,
            TokenType::PLS => Tok::PLS,
            TokenType::MIN => Tok::MIN,
            TokenType::MUL => Tok::MUL,
            TokenType::DIV => Tok::DIV,
            TokenType::DOT => Tok::DOT,
            TokenType::EOF => Tok::EOF,
        }
    }
}

impl Clone for TokenType {
    fn clone(&self) -> (r: TokenType)
        ensures
            r@ == self@,
    {
        match self {
            TokenType::INT(v) => TokenType::INT(*v),
            TokenType::FLOAT(b) => TokenType::FLOAT(*b),
            TokenType::STRING(s) => TokenType::STRING(s.clone()),
            TokenType::ID(s) => TokenType::ID(s.clone()),
            TokenType::DEQL => TokenType::DEQL,
            TokenType::EQL => TokenType::EQL,
            TokenType::LTE => TokenType::LTE,
            TokenType::LT => TokenType::LT,
            TokenType::GTE => TokenType::GTE,
            TokenType::GT => TokenType::GT,
            TokenType::NEQ => TokenType::NEQ,
            TokenType::NOT => TokenType::NOT,
            TokenType::AND => TokenType::AND,
            TokenType::MOD => TokenType::MOD,
            TokenType::OR => TokenType::OR,
            TokenType::SEMI => TokenType::SEMI,
            TokenType::CLN => TokenType::CLN,
            TokenType::LPR => TokenType::LPR,
            TokenType::RPR => TokenType::RPR,
            TokenType::CMA => TokenType::CMA,
            TokenType::LBR => TokenType::LBR,
            TokenType::RBR => TokenType::RBR,
            TokenType::LSQB => TokenType::LSQB,
            TokenType::RSQB => TokenType::RSQB,
            TokenType::PLS => TokenType::PLS,
            TokenType::MIN => TokenType::MIN,
            TokenType::MUL => TokenType::MUL,
            TokenType::DIV => TokenType::DIV,
            TokenType::DOT => TokenType::DOT,
            TokenType::EOF => TokenType::EOF,
        }
    }
}

impl TokenType {
    /// The name of this kind of token, without its payload.
    pub fn bare_name(&self) -> (s: String)
        ensures
            s@ == self@.bare_name(),
    {
        match self {
            TokenType::INT(_) => String::from_str("INT"),
            TokenType::FLOAT(_) => String::from_str("FLOAT"),
            TokenType::STRING(_) => String::from_str("STRING"),
            TokenType::ID(_) => String::from_str("ID"),
            TokenType::DEQL => String::from_str("DEQL"),
            TokenType::EQL => String::from_str("EQL"),
            TokenType::LTE => String::from_str("LTE"),
            TokenType::LT => String::from_str("LT"),
            TokenType::GTE => String::from_str("GTE"),
            TokenType::GT => String::from_str("GT"),
            TokenType::NEQ => String::from_str("NEQ"),
            TokenType::NOT => String::from_str("NOT"),
            TokenType::AND => String::from_str("AND"),
            TokenType::MOD => String::from_str("MOD"),
            TokenType::OR => String::from_str("OR"),
            TokenType::SEMI => String::from_str("SEMI"),
            TokenType::CLN => String::from_str("CLN"),
            TokenType::LPR => String::from_str("LPR"),
            TokenType::RPR => String::from_str("RPR"),
            TokenType::CMA => String::from_str("CMA"),
            TokenType::LBR => String::from_str("LBR"),
            TokenType::RBR => String::from_str("RBR"),
            TokenType::LSQB => String::from_str("LSQB"),
            TokenType::RSQB => String::from_str("RSQB"),
            TokenType::PLS => String::from_str("PLS"),
            TokenType::MIN => String::from_str("MIN"),
            TokenType::MUL => String::from_str("MUL"),
            TokenType::DIV => String::from_str("DIV"),
            TokenType::DOT => String::from_str("DOT"),
            TokenType::EOF => String::from_str("EOF"),
        }
    }

    /// How this kind of token is shown in a message.
    pub fn label(&self) -> (s: String)
        ensures
            s@ == self@.label(),
    {
        match self {
            TokenType::INT(v) => {
                let mut s = String::from_str("INT(");
                let digits = i32_to_string(*v);
                s.append(digits.as_str());
                s.append(")");
                s
            },
            TokenType::STRING(t) => {
                let mut s = String::from_str("STRING(\"");
                s.append(t.as_str());
                s.append("\")");
                s
            },
            TokenType::ID(t) => {
                let mut s = String::from_str("ID(\"");
                s.append(t.as_str());
                s.append("\")");
                s
            },
            _ => self.bare_name(),
        }
    }

    /// Whether two token kinds are the same kind with the same payload.
    pub fn same(&self, other: &TokenType) -> (r: bool)
        ensures
            r == (self@ == other@),
    {
        match (self, other) {
            (TokenType::INT(a), TokenType::INT(b)) => *a == *b,
            (TokenType::FLOAT(a), TokenType::FLOAT(b)) => *a == *b,
            (TokenType::STRING(a), TokenType::STRING(b)) => *a == *b,
            (TokenType::ID(a), TokenType::ID(b)) => *a == *b,
            (TokenType::DEQL, TokenType::DEQL) => true,
            (TokenType::EQL, TokenType::EQL) => true,
            (TokenType::LTE, TokenType::LTE) => true,
            (TokenType::LT, TokenType::LT) => true,
            (TokenType::GTE, TokenType::GTE) => true,
            (TokenType::GT, TokenType::GT) => true,
            (TokenType::NEQ, TokenType::NEQ) => true,
            (TokenType::NOT, TokenType::NOT) => true,
            (TokenType::AND, TokenType::AND) => true,
            (TokenType::MOD, TokenType::MOD) => true,
            (TokenType::OR, TokenType::OR) => true,
            (TokenType::SEMI, TokenType::SEMI) => true,
            (TokenType::CLN, TokenType::CLN) => true,
            (TokenType::LPR, TokenType::LPR) => true,
            (TokenType::RPR, TokenType::RPR) => true,
            (TokenType::CMA, TokenType::CMA) => true,
            (TokenType::LBR, TokenType::LBR) => true,
            (TokenType::RBR, TokenType::RBR) => true,
            (TokenType::LSQB, TokenType::LSQB) => true,
            (TokenType::RSQB, TokenType::RSQB) => true,
            (TokenType::PLS, TokenType::PLS) => true,
            (TokenType::MIN, TokenType::MIN) => true,
            (TokenType::MUL, TokenType::MUL) => true,
            (TokenType::DIV, TokenType::DIV) => true,
            (TokenType::DOT, TokenType::DOT) => true,
            (TokenType::EOF, TokenType::EOF) => true,
            _ => false,
        }
    }

    /// Whether this token is the identifier that spells the given word.
    pub fn is_id(&self, word: &str) -> (r: bool)
        ensures
            r == (self@ == Tok::ID(word@)),
    {
        match self {
            TokenType::ID(name) => crate::text::is_word(name, word),
            _ => false,
        }
    }
}

/// A token: its kind and the span of source text that produced it.
#[derive(Debug)]
pub struct Token {
    pub kind: TokenType,
    pub einfo: ErrorInfo,
}

/// The mathematical value of a token.
pub struct TokenView {
    pub kind: Tok,
    pub span: Span,
}

impl View for Token {
    type V = TokenView;

    open spec fn view(&self) -> TokenView {
        TokenView { kind: self.kind@, span: self.einfo@ }
    }
}

impl Token {
    /// A token of the given kind with the given span.
    pub fn new(kind: TokenType, einfo: ErrorInfo) -> (r: Token)
        ensures
            r.kind == kind,
            r.einfo == einfo,
    {
        Token { kind, einfo }
    }
}

/// The values of a sequence of tokens.
pub open spec fn tokens_view(tokens: Seq<Token>) -> Seq<TokenView> {
    tokens.map_values(|t: Token| t@)
}

} // verus!
