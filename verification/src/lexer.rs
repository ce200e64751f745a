//! The lexer: source text to tokens with source spans.

use vstd::prelude::*;
use crate::error::{ETypes, ErrorInfo, ErrorRecord, ErrorStack, Span};
use crate::host::FloatUnit;
use crate::text::{from_chars, is_digit, parse_i32, parse_int, to_chars};
use crate::token::{tokens_view, Tok, Token, TokenType, TokenView};

verus! {

/// The lexer: the source, the cursor in it, and what came out so far.
#[derive(Debug)]
pub struct Lexer {
    pub filename: String,
    pub tokens: Vec<Token>,
    pub source: Vec<char>,
    pub sourcelines: Vec<String>,
    pub curri: usize,
    pub currline: usize,
    pub currchar: usize,
    pub errorstack: ErrorStack,
}

/// What the lexer reads: the text, its lines and the name of its file.
pub struct Source {
    pub text: Seq<char>,
    pub lines: Seq<Seq<char>>,
    pub file: Seq<char>,
}

/// Where the lexer stands and what it has produced.
pub struct Scan {
    pub pos: nat,
    pub line: nat,
    pub col: nat,
    /// The tokens read so far. A floating-point literal stands here without
    /// its bits, which are the embedder's: they are written as zero.
    pub tokens: Seq<TokenView>,
    pub errors: Seq<ErrorRecord>,
}

/// A token without the bits of a floating-point number.
pub open spec fn without_bits(t: TokenView) -> TokenView {
    match t.kind {
        Tok::FLOAT(_) => TokenView { kind: Tok::FLOAT(0), span: t.span },
        _ => t,
    }
}

/// Tokens without the bits of their floating-point numbers.
pub open spec fn all_without_bits(tokens: Seq<TokenView>) -> Seq<TokenView> {
    tokens.map_values(|t: TokenView| without_bits(t))
}

/// Whether a character is white space.
pub open spec fn is_space(c: char) -> bool {
    c == ' ' || c == '\t' || c == '\n' || c == '\r' || c == '\u{b}' || c == '\u{c}'
}

/// Whether a character is an ASCII letter.
pub open spec fn is_alpha(c: char) -> bool {
    ('a' <= c && c <= 'z') || ('A' <= c && c <= 'Z')
}

/// Whether an identifier may start with a character.
pub open spec fn is_ident_start(c: char) -> bool {
    is_alpha(c) || c == '_'
}

/// Whether an identifier may go on with a character.
pub open spec fn is_ident_part(c: char) -> bool {
    is_ident_start(c) || is_digit(c)
}

/// Whether a number may go on with a character.
pub open spec fn is_number_part(c: char) -> bool {
    is_digit(c) || c == '.'
}

/// The lines of a text: the pieces between line feeds.
pub open spec fn split_lines(text: Seq<char>, i: nat, lines: Seq<Seq<char>>, cur: Seq<char>) -> Seq<
    Seq<char>,
>
    decreases text.len() - i,
{
    if i >= text.len() {
        lines.push(cur)
    } else if text[i as int] == '\n' {
        split_lines(text, i + 1, lines.push(cur), Seq::empty())
    } else {
        split_lines(text, i + 1, lines, cur.push(text[i as int]))
    }
}

impl Source {
    /// The span of columns `col` to `col_end` of line `line`.
    pub open spec fn span(self, line: nat, col: nat, col_end: nat) -> Span {
        Span {
            file: self.file,
            linecontents: if 0 < line <= self.lines.len() {
                self.lines[line - 1]
            } else {
                Seq::empty()
            },
            line,
            col,
            col_end,
        }
    }
}

impl Scan {
    /// Moves over `n` characters of the current line.
    pub open spec fn advance(self, n: nat) -> Scan {
        Scan { pos: self.pos + n, col: self.col + n, ..self }
    }

    /// The state with one more token.
    pub open spec fn emit(self, kind: Tok, span: Span) -> Scan {
        Scan { tokens: self.tokens.push(TokenView { kind, span }), ..self }
    }

    /// The state with one more error.
    pub open spec fn report(self, etype: ETypes, message: Seq<char>, span: Span) -> Scan {
        Scan { errors: self.errors.push(ErrorRecord { etype, message, span }), ..self }
    }
}

/// The first position at or after `i` where the text has no digit and no dot.
pub open spec fn number_end(text: Seq<char>, i: nat) -> nat
    decreases text.len() - i,
{
    if i < text.len() && is_number_part(text[i as int]) {
        number_end(text, i + 1)
    } else {
        i
    }
}

/// The first position at or after `i` where an identifier cannot go on.
pub open spec fn ident_end(text: Seq<char>, i: nat) -> nat
    decreases text.len() - i,
{
    if i < text.len() && is_ident_part(text[i as int]) {
        ident_end(text, i + 1)
    } else {
        i
    }
}

/// The first position at or after `i` that holds a double quote, or the end.
pub open spec fn quote_at(text: Seq<char>, i: nat) -> nat
    decreases text.len() - i,
{
    if i < text.len() && text[i as int] != '"' {
        quote_at(text, i + 1)
    } else {
        i
    }
}

/// The number of dots that the text has from `from` up to `to`.
pub open spec fn dots(text: Seq<char>, from: nat, to: nat) -> nat
    decreases to,
{
    if to <= from || to > text.len() {
        0
    } else if text[to - 1] == '.' {
        dots(text, from, (to - 1) as nat) + 1
    } else {
        dots(text, from, (to - 1) as nat)
    }
}

/// Skips white space; a line feed starts a new line.
pub open spec fn skip_space(text: Seq<char>, s: Scan) -> Scan
    decreases text.len() - s.pos,
{
    if s.pos >= text.len() || !is_space(text[s.pos as int]) {
        s
    } else if text[s.pos as int] == '\n' {
        skip_space(text, Scan { pos: s.pos + 1, line: s.line + 1, col: 1, ..s })
    } else {
        skip_space(text, s.advance(1))
    }
}

/// Skips the rest of a comment, up to and with the backslash that ends it.
pub open spec fn skip_comment(text: Seq<char>, s: Scan) -> Scan
    decreases text.len() - s.pos,
{
    if s.pos >= text.len() {
        s
    } else if text[s.pos as int] == '\\' {
        s.advance(1)
    } else if text[s.pos as int] == '\n' {
        skip_comment(text, Scan { pos: s.pos + 1, line: s.line + 1, col: 1, ..s })
    } else {
        skip_comment(text, s.advance(1))
    }
}

/// The token for a character that is a token by itself.
pub open spec fn single_token(c: char) -> Option<Tok> {
    if c == '&' {
        Some(Tok::AND)
    } else if c == '%' {
        Some(Tok::MOD)
    } else if c == '|' {
        Some(Tok::OR)
    } else if c == ';' {
        Some(Tok::SEMI)
    } else if c == ':' {
        Some(Tok::CLN)
    } else if c == '(' {
        Some(Tok::LPR)
    } else if c == ')' {
        Some(Tok::RPR)
    } else if c == ',' {
        Some(Tok::CMA)
    } else if c == '{' {
        Some(Tok::LBR)
    } else if c == '}' {
        Some(Tok::RBR)
    } else if c == '[' {
        Some(Tok::LSQB)
    } else if c == ']' {
        Some(Tok::RSQB)
    } else if c == '+' {
        Some(Tok::PLS)
    } else if c == '-' {
        Some(Tok::MIN)
    } else if c == '*' {
        Some(Tok::MUL)
    } else if c == '/' {
        Some(Tok::DIV)
    } else if c == '.' {
        Some(Tok::DOT)
    } else {
        None
    }
}

/// The tokens for a character that may be followed by `=`: alone, and
/// followed.
pub open spec fn pair_tokens(c: char) -> Option<(Tok, Tok)> {
    if c == '=' {
        Some((Tok::EQL, Tok::DEQL))
    } else if c == '<' {
        Some((Tok::LT, Tok::LTE))
    } else if c == '>' {
        Some((Tok::GT, Tok::GTE))
    } else if c == '!' {
        Some((Tok::NOT, Tok::NEQ))
    } else {
        None
    }
}

/// Reads a string literal that starts at the cursor.
pub open spec fn lex_string(src: Source, s: Scan) -> Scan {
    let close = quote_at(src.text, s.pos + 1);
    let body = src.text.subrange(s.pos as int + 1, close as int);
    if close < src.text.len() {
        let n = (close + 1 - s.pos) as nat;
        s.advance(n).emit(Tok::STRING(body), src.span(s.line, s.col, s.col + n + 1))
    } else {
        let n = (close - s.pos) as nat;
        s.advance(n).report(
            ETypes::SyntaxError,
            "Unterminated string literal"@,
            src.span(s.line, s.col, s.col + n),
        )
    }
}

/// Reads a number that starts at the cursor: digits and dots as far as
/// they go. Without a dot it is an integer, which must fit in 32 bits; with
/// one dot it is a floating-point number; with more it is an error, and a
/// floating-point token is made all the same.
pub open spec fn lex_number(src: Source, s: Scan) -> Scan {
    let end = number_end(src.text, s.pos);
    let n = (end - s.pos) as nat;
    let text = src.text.subrange(s.pos as int, end as int);
    let span = src.span(s.line, s.col, s.col + n);
    if dots(src.text, s.pos, end) == 1 {
        s.advance(n).emit(Tok::FLOAT(0), span)
    } else if dots(src.text, s.pos, end) > 1 {
        s.advance(n).report(
            ETypes::SyntaxError,
            "Invalid syntax for creating a float"@,
            span,
        ).emit(Tok::FLOAT(0), span)
    } else {
        match parse_int(text) {
            Some(v) => s.advance(n).emit(Tok::INT(v), span),
            None => s.advance(n).report(
                ETypes::SyntaxError,
                "Invalid syntax for creating an int"@,
                span,
            ).emit(Tok::INT(0), span),
        }
    }
}

/// Reads an identifier that starts at the cursor.
pub open spec fn lex_ident(src: Source, s: Scan) -> Scan {
    let end = ident_end(src.text, s.pos);
    let n = (end - s.pos) as nat;
    s.advance(n).emit(
        Tok::ID(src.text.subrange(s.pos as int, end as int)),
        src.span(s.line, s.col, s.col + n),
    )
}

/// Reads one token, or skips what is no token, at the cursor.
pub open spec fn lex_step(src: Source, s: Scan) -> Scan
    recommends
        s.pos < src.text.len(),
{
    let c = src.text[s.pos as int];
    if is_space(c) {
        skip_space(src.text, s)
    } else if c == '\\' {
        skip_comment(src.text, s.advance(1))
    } else if c == '"' {
        lex_string(src, s)
    } else if is_digit(c) {
        lex_number(src, s)
    } else if is_ident_start(c) {
        lex_ident(src, s)
    } else {
        match pair_tokens(c) {
            Some((alone, followed)) => if s.pos + 1 < src.text.len() && src.text[s.pos as int + 1]
                == '=' {
                s.advance(2).emit(followed, src.span(s.line, s.col, s.col + 1))
            } else {
                s.advance(1).emit(alone, src.span(s.line, s.col, s.col + 1))
            },
            None => match single_token(c) {
                Some(t) => s.advance(1).emit(t, src.span(s.line, s.col, s.col + 1)),
                None => s.advance(1).report(
                    ETypes::TokenError,
                    "Unrecognized token"@,
                    src.span(s.line, s.col, s.col + 1),
                ),
            },
        }
    }
}

/// Reads tokens from the cursor to the end of the text, and then the token
/// that marks the end.
pub open spec fn lex_all(src: Source, s: Scan) -> Scan
    decreases src.text.len() - s.pos,
{
    if s.pos >= src.text.len() {
        s.emit(Tok::EOF, src.span(s.line, s.col, s.col + 1))
    } else {
        let next = lex_step(src, s);
        if next.pos <= s.pos || next.pos > src.text.len() {
            next
        } else {
            lex_all(src, next)
        }
    }
}

/// The state in which lexing starts.
pub open spec fn scan_start(errors: Seq<ErrorRecord>) -> Scan {
    Scan { pos: 0, line: 1, col: 1, tokens: Seq::empty(), errors }
}

/// The tokens and the errors that lexing a text yields.
pub open spec fn lex_text(src: Source, errors: Seq<ErrorRecord>) -> Scan {
    lex_all(src, scan_start(errors))
}

fn is_space_char(c: char) -> (r: bool)
    ensures
        r == is_space(c),
{
    c == ' ' || c == '\t' || c == '\n' || c == '\r' || c == '\u{b}' || c == '\u{c}'
}

fn is_digit_char(c: char) -> (r: bool)
    ensures
        r == is_digit(c),
{
    c >= '0' && c <= '9'
}

fn is_ident_start_char(c: char) -> (r: bool)
    ensures
        r == is_ident_start(c),
{
    (c >= 'a' && c <= 'z') || (c >= 'A' && c <= 'Z') || c == '_'
}

fn single_of(c: char) -> (r: Option<TokenType>)
    ensures
        match r {
            Some(t) => single_token(c) == Some(t@),
            None => single_token(c) is None,
        },
{
    if c == '&' {
        Some(TokenType::AND)
    } else if c == '%' {
        Some(TokenType::MOD)
    } else if c == '|' {
        Some(TokenType::OR)
    } else if c == ';' {
        Some(TokenType::SEMI)
    } else if c == ':' {
        Some(TokenType::CLN)
    } else if c == '(' {
        Some(TokenType::LPR)
    } else if c == ')' {
        Some(TokenType::RPR)
    } else if c == ',' {
        Some(TokenType::CMA)
    } else if c == '{' {
        Some(TokenType::LBR)
    } else if c == '}' {
        Some(TokenType::RBR)
    } else if c == '[' {
        Some(TokenType::LSQB)
    } else if c == ']' {
        Some(TokenType::RSQB)
    } else if c == '+' {
        Some(TokenType::PLS)
    } else if c == '-' {
        Some(TokenType::MIN)
    } else if c == '*' {
        Some(TokenType::MUL)
    } else if c == '/' {
        Some(TokenType::DIV)
    } else if c == '.' {
        Some(TokenType::DOT)
    } else {
        None
    }
}

/// Copies the characters from `from` up to `to`.
fn slice_chars(text: &Vec<char>, from: usize, to: usize) -> (r: Vec<char>)
    requires
        from <= to <= text.len(),
    ensures
        r@ == text@.subrange(from as int, to as int),
{
    let mut out: Vec<char> = Vec::new();
    let mut i = from;
    while i < to
        invariant
            from <= i <= to <= text.len(),
            out@ =~= text@.subrange(from as int, i as int),
        decreases to - i,
    {
        out.push(text[i]);
        i += 1;
    }
    out
}

/// Splits a text into its lines.
pub fn lines_of(text: &Vec<char>) -> (r: Vec<String>)
    ensures
        r@.map_values(|l: String| l@) == split_lines(text@, 0, Seq::empty(), Seq::empty()),
{
    let mut lines: Vec<String> = Vec::new();
    let mut cur: Vec<char> = Vec::new();
    let mut i: usize = 0;
    assert(lines@.map_values(|l: String| l@) =~= Seq::<Seq<char>>::empty());
    while i < text.len()
        invariant
            i <= text.len(),
            split_lines(text@, 0, Seq::empty(), Seq::empty()) == split_lines(
                text@,
                i as nat,
                lines@.map_values(|l: String| l@),
                cur@,
            ),
        decreases text.len() - i,
    {
        if text[i] == '\n' {
            let line = from_chars(&cur);
            let ghost before = lines@;
            lines.push(line);
            assert(lines@.map_values(|l: String| l@) =~= before.map_values(|l: String| l@).push(
                cur@,
            ));
            cur = Vec::new();
        } else {
            cur.push(text[i]);
        }
        i += 1;
    }
    let line = from_chars(&cur);
    let ghost before = lines@;
    lines.push(line);
    assert(lines@.map_values(|l: String| l@) =~= before.map_values(|l: String| l@).push(cur@));
    lines
}

impl Lexer {
    /// What this lexer reads.
    pub open spec fn src(&self) -> Source {
        Source {
            text: self.source@,
            lines: self.sourcelines@.map_values(|l: String| l@),
            file: self.filename@,
        }
    }

    /// Where this lexer stands and what it has produced.
    pub open spec fn scan(&self) -> Scan {
        Scan {
            pos: self.curri as nat,
            line: self.currline as nat,
            col: self.currchar as nat,
            tokens: all_without_bits(tokens_view(self.tokens@)),
            errors: self.errorstack@,
        }
    }

    /// Whether the counters of this lexer leave room to count on.
    pub open spec fn in_bounds(&self) -> bool {
        &&& self.curri <= self.source.len()
        &&& self.source.len() + 2 <= usize::MAX
        &&& self.currline <= self.curri + 1
        &&& self.currchar <= self.curri + 1
    }

    /// A lexer at the start of the given source text.
    pub fn new(filename: &str, source: &str, errorstack: ErrorStack) -> (r: Lexer)
        ensures
            r.src() == (Source {
                text: source@,
                lines: split_lines(source@, 0, Seq::empty(), Seq::empty()),
                file: filename@,
            }),
            r.scan() == scan_start(errorstack@),
    {
        let chars = to_chars(source);
        let lines = lines_of(&chars);
        let r = Lexer {
            filename: String::from_str(filename),
            tokens: Vec::new(),
            source: chars,
            sourcelines: lines,
            curri: 0,
            currline: 1,
            currchar: 1,
            errorstack,
        };
        assert(tokens_view(r.tokens@) =~= Seq::<TokenView>::empty());
        assert(r.scan().tokens =~= Seq::<TokenView>::empty());
        r
    }

    fn span(&self, col: usize, col_end: usize) -> (r: ErrorInfo)
        ensures
            r@ == self.src().span(self.currline as nat, col as nat, col_end as nat),
    {
        let linecontents = if 0 < self.currline && self.currline <= self.sourcelines.len() {
            self.sourcelines[self.currline - 1].clone()
        } else {
            String::new()
        };
        ErrorInfo::new(self.filename.clone(), linecontents, self.currline, col, col_end)
    }

    fn emit(&mut self, kind: TokenType, einfo: ErrorInfo)
        ensures
            final(self).scan() == old(self).scan().emit(
                without_bits(TokenView { kind: kind@, span: einfo@ }).kind,
                einfo@,
            ),
            final(self).src() == old(self).src(),
            final(self).source == old(self).source,
            final(self).curri == old(self).curri,
            final(self).currline == old(self).currline,
            final(self).currchar == old(self).currchar,
    {
        self.tokens.push(Token::new(kind, einfo));
        assert(tokens_view(self.tokens@) =~= tokens_view(old(self).tokens@).push(
            TokenView { kind: kind@, span: einfo@ },
        ));
        assert(all_without_bits(tokens_view(self.tokens@)) =~= all_without_bits(
            tokens_view(old(self).tokens@),
        ).push(without_bits(TokenView { kind: kind@, span: einfo@ })));
    }

    fn skip_space(&mut self)
        requires
            old(self).in_bounds(),
        ensures
            final(self).scan() == skip_space(old(self).source@, old(self).scan()),
            final(self).src() == old(self).src(),
            final(self).source == old(self).source,
            final(self).in_bounds(),
            final(self).curri >= old(self).curri,
            old(self).curri < old(self).source.len() && is_space(
                old(self).source@[old(self).curri as int],
            ) ==> final(self).curri > old(self).curri,
    {
        while self.curri < self.source.len()
            invariant
                self.in_bounds(),
                self.src() == old(self).src(),
                self.source == old(self).source,
                self.tokens == old(self).tokens,
                self.errorstack == old(self).errorstack,
                self.curri >= old(self).curri,
                old(self).curri < old(self).source.len() && is_space(
                    old(self).source@[old(self).curri as int],
                ) ==> self.curri > old(self).curri || self.curri == old(self).curri,
                skip_space(old(self).source@, old(self).scan()) == skip_space(
                    self.source@,
                    self.scan(),
                ),
                self.curri == old(self).curri ==> self.scan() == old(self).scan(),
            decreases self.source.len() - self.curri,
        {
            let c = self.source[self.curri];
            if !is_space_char(c) {
                return;
            }
            if c == '\n' {
                self.currline += 1;
                self.currchar = 0;
            }
            self.curri += 1;
            self.currchar += 1;
        }
    }

    fn skip_comments(&mut self)
        requires
            old(self).in_bounds(),
            old(self).curri < old(self).source.len(),
        ensures
            final(self).scan() == skip_comment(old(self).source@, old(self).scan().advance(1)),
            final(self).src() == old(self).src(),
            final(self).source == old(self).source,
            final(self).in_bounds(),
            final(self).curri > old(self).curri,
    {
        self.curri += 1;
        self.currchar += 1;
        while self.curri < self.source.len()
            invariant
                self.in_bounds(),
                self.src() == old(self).src(),
                self.source == old(self).source,
                self.tokens == old(self).tokens,
                self.errorstack == old(self).errorstack,
                self.curri > old(self).curri,
                skip_comment(old(self).source@, old(self).scan().advance(1)) == skip_comment(
                    self.source@,
                    self.scan(),
                ),
            decreases self.source.len() - self.curri,
        {
            let c = self.source[self.curri];
            if c == '\\' {
                self.curri += 1;
                self.currchar += 1;
                return;
            }
            if c == '\n' {
                self.currline += 1;
                self.currchar = 0;
            }
            self.curri += 1;
            self.currchar += 1;
        }
    }

    fn collect_str(&mut self)
        requires
            old(self).in_bounds(),
            old(self).curri < old(self).source.len(),
        ensures
            final(self).scan() == lex_string(old(self).src(), old(self).scan()),
            final(self).src() == old(self).src(),
            final(self).source == old(self).source,
            final(self).in_bounds(),
            final(self).curri > old(self).curri,
    {
        let start = self.curri;
        let starting_c = self.currchar;
        let mut end = self.curri + 1;
        while end < self.source.len() && self.source[end] != '"'
            invariant
                start + 1 <= end <= self.source.len(),
                start == self.curri,
                self.source == old(self).source,
                quote_at(self.source@, (start + 1) as nat) == quote_at(self.source@, end as nat),
            decreases self.source.len() - end,
        {
            end += 1;
        }
        let body = slice_chars(&self.source, start + 1, end);
        if end < self.source.len() {
            let n = end + 1 - start;
            self.curri = end + 1;
            self.currchar = starting_c + n;
            let einfo = self.span(starting_c, self.currchar + 1);
            self.emit(TokenType::STRING(from_chars(&body)), einfo);
        } else {
            let n = end - start;
            self.curri = end;
            self.currchar = starting_c + n;
            let einfo = self.span(starting_c, self.currchar);
            self.errorstack.report(ETypes::SyntaxError, "Unterminated string literal", &einfo);
        }
    }

    fn collect_num<H: FloatUnit>(&mut self, host: &H)
        requires
            old(self).in_bounds(),
            old(self).curri < old(self).source.len(),
            is_digit(old(self).source@[old(self).curri as int]),
        ensures
            final(self).scan() == lex_number(old(self).src(), old(self).scan()),
            final(self).src() == old(self).src(),
            final(self).source == old(self).source,
            final(self).in_bounds(),
            final(self).curri > old(self).curri,
    {
        let start = self.curri;
        let starting_c = self.currchar;
        let mut end = self.curri;
        let mut count: usize = 0;
        while end < self.source.len() && (is_digit_char(self.source[end]) || self.source[end]
            == '.')
            invariant
                start <= end <= self.source.len(),
                start == self.curri,
                self.source == old(self).source,
                number_end(self.source@, start as nat) == number_end(self.source@, end as nat),
                count == dots(self.source@, start as nat, end as nat),
                count <= end - start,
            decreases self.source.len() - end,
        {
            if self.source[end] == '.' {
                count += 1;
            }
            end += 1;
        }
        let digits = slice_chars(&self.source, start, end);
        let n = end - start;
        self.curri = end;
        self.currchar = starting_c + n;
        let einfo = self.span(starting_c, self.currchar);
        if count == 1 {
            let text = from_chars(&digits);
            let bits = match host.parse(&text) {
                Some(bits) => bits,
                None => host.from_int(0),
            };
            self.emit(TokenType::FLOAT(bits), einfo);
        } else if count > 1 {
            self.errorstack.report(
                ETypes::SyntaxError,
                "Invalid syntax for creating a float",
                &einfo,
            );
            self.emit(TokenType::FLOAT(host.from_int(0)), einfo);
        } else {
            let value = match parse_i32(&digits) {
                Some(v) => v,
                None => {
                    self.errorstack.report(
                        ETypes::SyntaxError,
                        "Invalid syntax for creating an int",
                        &einfo,
                    );
                    0
                },
            };
            self.emit(TokenType::INT(value), einfo);
        }
    }

    fn collect_id(&mut self)
        requires
            old(self).in_bounds(),
            old(self).curri < old(self).source.len(),
            is_ident_start(old(self).source@[old(self).curri as int]),
        ensures
            final(self).scan() == lex_ident(old(self).src(), old(self).scan()),
            final(self).src() == old(self).src(),
            final(self).source == old(self).source,
            final(self).in_bounds(),
            final(self).curri > old(self).curri,
    {
        let start = self.curri;
        let starting_c = self.currchar;
        let mut end = self.curri;
        while end < self.source.len() && (is_ident_start_char(self.source[end]) || is_digit_char(
            self.source[end],
        ))
            invariant
                start <= end <= self.source.len(),
                start == self.curri,
                self.source == old(self).source,
                ident_end(self.source@, start as nat) == ident_end(self.source@, end as nat),
            decreases self.source.len() - end,
        {
            end += 1;
        }
        let name = slice_chars(&self.source, start, end);
        let n = end - start;
        self.curri = end;
        self.currchar = starting_c + n;
        let einfo = self.span(starting_c, self.currchar);
        self.emit(TokenType::ID(from_chars(&name)), einfo);
    }

    /// Reads a character that may be followed by `=`.
    fn collect_pair(&mut self, alone: TokenType, followed: TokenType)
        requires
            old(self).in_bounds(),
            old(self).curri < old(self).source.len(),
        ensures
            final(self).scan() == (if old(self).curri + 1 < old(self).source.len()
                && old(self).source@[old(self).curri + 1] == '=' {
                old(self).scan().advance(2).emit(
                    without_bits(TokenView { kind: followed@, span: crate::error::Span::none() }).kind,
                    old(self).src().span(
                        old(self).currline as nat,
                        old(self).currchar as nat,
                        (old(self).currchar + 1) as nat,
                    ),
                )
            } else {
                old(self).scan().advance(1).emit(
                    without_bits(TokenView { kind: alone@, span: crate::error::Span::none() }).kind,
                    old(self).src().span(
                        old(self).currline as nat,
                        old(self).currchar as nat,
                        (old(self).currchar + 1) as nat,
                    ),
                )
            }),
            final(self).src() == old(self).src(),
            final(self).source == old(self).source,
            final(self).in_bounds(),
            final(self).curri > old(self).curri,
    {
        self.curri += 1;
        self.currchar += 1;
        let einfo = self.span(self.currchar - 1, self.currchar);
        if self.curri < self.source.len() && self.source[self.curri] == '=' {
            self.curri += 1;
            self.currchar += 1;
            self.emit(followed, einfo);
        } else {
            self.emit(alone, einfo);
        }
    }

    fn collect_eq(&mut self)
        requires
            old(self).in_bounds(),
            old(self).curri < old(self).source.len(),
            old(self).source@[old(self).curri as int] == '=',
        ensures
            final(self).scan() == lex_step(old(self).src(), old(self).scan()),
            final(self).src() == old(self).src(),
            final(self).source == old(self).source,
            final(self).in_bounds(),
            final(self).curri > old(self).curri,
    {
        self.collect_pair(TokenType::EQL, TokenType::DEQL)
    }

    fn collect_lt(&mut self)
        requires
            old(self).in_bounds(),
            old(self).curri < old(self).source.len(),
            old(self).source@[old(self).curri as int] == '<',
        ensures
            final(self).scan() == lex_step(old(self).src(), old(self).scan()),
            final(self).src() == old(self).src(),
            final(self).source == old(self).source,
            final(self).in_bounds(),
            final(self).curri > old(self).curri,
    {
        self.collect_pair(TokenType::LT, TokenType::LTE)
    }

    fn collect_gt(&mut self)
        requires
            old(self).in_bounds(),
            old(self).curri < old(self).source.len(),
            old(self).source@[old(self).curri as int] == '>',
        ensures
            final(self).scan() == lex_step(old(self).src(), old(self).scan()),
            final(self).src() == old(self).src(),
            final(self).source == old(self).source,
            final(self).in_bounds(),
            final(self).curri > old(self).curri,
    {
        self.collect_pair(TokenType::GT, TokenType::GTE)
    }

    fn collect_ne(&mut self)
        requires
            old(self).in_bounds(),
            old(self).curri < old(self).source.len(),
            old(self).source@[old(self).curri as int] == '!',
        ensures
            final(self).scan() == lex_step(old(self).src(), old(self).scan()),
            final(self).src() == old(self).src(),
            final(self).source == old(self).source,
            final(self).in_bounds(),
            final(self).curri > old(self).curri,
    {
        self.collect_pair(TokenType::NOT, TokenType::NEQ)
    }

    /// Reads the whole source from its start: the tokens go to `tokens`, in
    /// order and with the token that marks the end as the last; the errors
    /// go to `errorstack`. Everything is as the model says but the bits of
    /// each floating-point literal, which are what the embedder reads from
    /// its text.
    pub fn lex<H: FloatUnit>(&mut self, host: &H)
        requires
            old(self).source.len() + 2 <= usize::MAX,
        ensures
            final(self).src() == old(self).src(),
            ({
                let expected = lex_all(
                    old(self).src(),
                    Scan { pos: 0, line: 1, col: 1, ..old(self).scan() },
                );
                final(self).scan() == expected
            }),
    {
        self.curri = 0;
        self.currline = 1;
        self.currchar = 1;
        let ghost whole = lex_all(self.src(), self.scan());
        while self.curri < self.source.len()
            invariant
                self.in_bounds(),
                self.src() == old(self).src(),
                self.source == old(self).source,
                whole == lex_all(self.src(), self.scan()),
            decreases self.source.len() - self.curri,
        {
            let ghost before = self.scan();
            let c = self.source[self.curri];
            if is_space_char(c) {
                self.skip_space();
            } else if c == '\\' {
                self.skip_comments();
            } else if c == '"' {
                self.collect_str();
            } else if is_digit_char(c) {
                self.collect_num(host);
            } else if is_ident_start_char(c) {
                self.collect_id();
            } else if c == '=' {
                self.collect_eq();
            } else if c == '<' {
                self.collect_lt();
            } else if c == '>' {
                self.collect_gt();
            } else if c == '!' {
                self.collect_ne();
            } else {
                let einfo = self.span(self.currchar, self.currchar + 1);
                match single_of(c) {
                    Some(kind) => {
                        self.emit(kind, einfo);
                    },
                    None => {
                        self.errorstack.report(ETypes::TokenError, "Unrecognized token", &einfo);
                    },
                }
                self.curri += 1;
                self.currchar += 1;
            }
            proof {
                let next = lex_step(self.src(), before);
                assert(lex_all(self.src(), before) == if next.pos <= before.pos || next.pos
                    > self.src().text.len() {
                    next
                } else {
                    lex_all(self.src(), next)
                });
            }
        }
        let einfo = self.span(self.currchar, self.currchar + 1);
        self.emit(TokenType::EOF, einfo);
    }
}

} // verus!
