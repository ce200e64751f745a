//! Source spans, error records and the sink that collects them.

use vstd::prelude::*;
use crate::text::push_char;

verus! {

/// The kinds of error the language reports.
#[derive(Clone, Copy, Debug, PartialEq, Eq, Structural)]
pub enum ETypes {
    SyntaxError,
    DivideByZeroError,
    FileError,
    TokenError,
    EndOfInputError,
    VariableDefinitionError,
    FunctionDefinitionError,
    FunctionError,
    ConditionalError,
    TypeError,
    ListError,
    BlueprintError,
    IdentifierError,
}

impl ETypes {
    /// The name under which a kind of error is shown.
    pub open spec fn name_text(self) -> Seq<char> {
        match self {
            ETypes::SyntaxError => "SyntaxError"@,
            ETypes::DivideByZeroError => "DivideByZeroError"@,
            ETypes::FileError => "FileError"@,
            ETypes::TokenError => "TokenError"@,
            ETypes::EndOfInputError => "EndOfInputError"@,
            ETypes::VariableDefinitionError => "VariableDefinitionError"@,
            ETypes::FunctionDefinitionError => "FunctionDefinitionError"@,
            ETypes::FunctionError => "FunctionError"@,
            ETypes::ConditionalError => "ConditionalError"@,
            ETypes::TypeError => "TypeError"@,
            ETypes::ListError => "ListError"@,
            ETypes::BlueprintError => "BlueprintError"@,
            ETypes::IdentifierError => "IdentifierError"@,
        }
    }

    /// The name of this kind of error.
    pub fn to_string(&self) -> (s: String)
        ensures
            s@ == self.name_text(),
    {
        match self {
            ETypes::SyntaxError => String::from_str("SyntaxError"),
            ETypes::DivideByZeroError => String::from_str("DivideByZeroError"),
            ETypes::FileError => String::from_str("FileError"),
            ETypes::TokenError => String::from_str("TokenError"),
            ETypes::EndOfInputError => String::from_str("EndOfInputError"),
            ETypes::VariableDefinitionError => String::from_str("VariableDefinitionError"),
            ETypes::FunctionDefinitionError => String::from_str("FunctionDefinitionError"),
            ETypes::FunctionError => String::from_str("FunctionError"),
            ETypes::ConditionalError => String::from_str("ConditionalError"),
            ETypes::TypeError => String::from_str("TypeError"),
            ETypes::ListError => String::from_str("ListError"),
            ETypes::BlueprintError => String::from_str("BlueprintError"),
            ETypes::IdentifierError => String::from_str("IdentifierError"),
        }
    }
}

/// Where a token or a node came from: the file, the text of the source line,
/// the line number counted from one, and the columns where it starts and ends.
#[derive(Debug)]
pub struct ErrorInfo {
    pub file: String,
    pub linecontents: String,
    pub line: usize,
    pub col: usize,
    pub col_end: usize,
}

/// The mathematical value of a source span.
pub struct Span {
    pub file: Seq<char>,
    pub linecontents: Seq<char>,
    pub line: nat,
    pub col: nat,
    pub col_end: nat,
}

impl Span {
    /// The span of a node that no source text produced.
    pub open spec fn none() -> Span {
        Span { file: Seq::empty(), linecontents: Seq::empty(), line: 0, col: 0, col_end: 0 }
    }
}

impl View for ErrorInfo {
    type V = Span;

    open spec fn view(&self) -> Span {
        Span {
            file: self.file@,
            linecontents: self.linecontents@,
            line: self.line as nat,
            col: self.col as nat,
            col_end: self.col_end as nat,
        }
    }
}

impl Clone for ErrorInfo {
    fn clone(&self) -> (r: ErrorInfo)
        ensures
            r@ == self@,
    {
        ErrorInfo {
            file: self.file.clone(),
            linecontents: self.linecontents.clone(),
            line: self.line,
            col: self.col,
            col_end: self.col_end,
        }
    }
}

impl ErrorInfo {
    /// A span with the given parts.
    pub fn new(file: String, linecontents: String, line: usize, col: usize, col_end: usize) -> (r:
        ErrorInfo)
        ensures
            r.file == file,
            r.linecontents == linecontents,
            r.line == line,
            r.col == col,
            r.col_end == col_end,
    {
        ErrorInfo { file, linecontents, line, col, col_end }
    }

    /// The span of a node that no source text produced.
    pub fn empty() -> (r: ErrorInfo)
        ensures
            r@ == Span::none(),
    {
        ErrorInfo { file: String::new(), linecontents: String::new(), line: 0, col: 0, col_end: 0 }
    }

    /// Moves the span to the single column just past the end of its line.
    pub fn set_endln(&mut self)
        ensures
            final(self).col == old(self).linecontents@.len(),
            final(self).col_end == if old(self).linecontents@.len() < usize::MAX {
                old(self).linecontents@.len() + 1
            } else {
                usize::MAX as nat
            },
            final(self).file == old(self).file,
            final(self).linecontents == old(self).linecontents,
            final(self).line == old(self).line,
    {
        self.col = self.linecontents.as_str().unicode_len();
        self.col_end = if self.col < usize::MAX {
            self.col + 1
        } else {
            self.col
        };
    }
}

/// One reported error: its kind, its message and the span it points at.
#[derive(Debug)]
pub struct GError {
    pub etype: ETypes,
    pub message: String,
    pub file: String,
    pub linecontents: String,
    pub line: usize,
    pub col: usize,
    pub col_end: usize,
}

/// The mathematical value of an error record.
pub struct ErrorRecord {
    pub etype: ETypes,
    pub message: Seq<char>,
    pub span: Span,
}

impl View for GError {
    type V = ErrorRecord;

    open spec fn view(&self) -> ErrorRecord {
        ErrorRecord {
            etype: self.etype,
            message: self.message@,
            span: Span {
                file: self.file@,
                linecontents: self.linecontents@,
                line: self.line as nat,
                col: self.col as nat,
                col_end: self.col_end as nat,
            },
        }
    }
}

/// The line that underlines a span: five columns of margin, blanks up to the
/// first column, then one caret for each column of the span.
pub open spec fn marker_text(col: nat, col_end: nat) -> Seq<char> {
    Seq::new(col + 5, |i: int| ' ') + Seq::new(
        if col_end > col {
            (col_end - col) as nat
        } else {
            0
        },
        |i: int| '^',
    )
}

fn repeat_into(s: &mut String, c: char, count: usize)
    ensures
        final(s)@ == old(s)@ + Seq::new(count as nat, |i: int| c),
{
    let mut i: usize = 0;
    while i < count
        invariant
            i <= count,
            s@ =~= old(s)@ + Seq::new(i as nat, |j: int| c),
        decreases count - i,
    {
        push_char(s, c);
        i += 1;
    }
}

/// Builds the line that underlines columns `col` to `col_end`.
pub fn marker_line(col: usize, col_end: usize) -> (s: String)
    ensures
        s@ == marker_text(col as nat, col_end as nat),
{
    let mut s = String::new();
    repeat_into(&mut s, ' ', col);
    repeat_into(&mut s, ' ', 5);
    let carets: usize = if col_end > col {
        col_end - col
    } else {
        0
    };
    repeat_into(&mut s, '^', carets);
    assert(s@ =~= marker_text(col as nat, col_end as nat));
    s
}

impl GError {
    /// An error of the given kind with the given message and span.
    pub fn new(
        etype: ETypes,
        message: &str,
        file: String,
        linecontents: String,
        line: usize,
        col: usize,
        col_end: usize,
    ) -> (r: GError)
        ensures
            r@ == (ErrorRecord {
                etype,
                message: message@,
                span: Span {
                    file: file@,
                    linecontents: linecontents@,
                    line: line as nat,
                    col: col as nat,
                    col_end: col_end as nat,
                },
            }),
    {
        GError { etype, message: String::from_str(message), file, linecontents, line, col, col_end }
    }

    /// An error of the given kind that points at the given span.
    pub fn new_from_tok(etype: ETypes, message: &str, einfo: ErrorInfo) -> (r: GError)
        ensures
            r@ == (ErrorRecord { etype, message: message@, span: einfo@ }),
    {
        GError {
            etype,
            message: String::from_str(message),
            file: einfo.file,
            linecontents: einfo.linecontents,
            line: einfo.line,
            col: einfo.col,
            col_end: einfo.col_end,
        }
    }

    /// The line that underlines the span of this error.
    pub fn underline(&self) -> (s: String)
        ensures
            s@ == marker_text(self@.span.col, self@.span.col_end),
    {
        marker_line(self.col, self.col_end)
    }
}

/// The sink in which every component records its errors, in order.
#[derive(Debug)]
pub struct ErrorStack {
    pub errors: Vec<GError>,
}

impl View for ErrorStack {
    type V = Seq<ErrorRecord>;

    open spec fn view(&self) -> Seq<ErrorRecord> {
        self.errors@.map_values(|e: GError| e@)
    }
}

impl ErrorStack {
    /// A sink with no errors in it.
    pub fn new() -> (r: ErrorStack)
        ensures
            r@ == Seq::<ErrorRecord>::empty(),
    {
        let r = ErrorStack { errors: Vec::new() };
        assert(r@ =~= Seq::<ErrorRecord>::empty());
        r
    }

    /// Records an error of the given kind at the given span.
    pub fn report(&mut self, etype: ETypes, message: &str, einfo: &ErrorInfo)
        ensures
            final(self)@ == old(self)@.push(ErrorRecord { etype, message: message@, span: einfo@ }),
    {
        self.errors.push(GError::new_from_tok(etype, message, einfo.clone()));
        assert(self@ =~= old(self)@.push(
            ErrorRecord { etype, message: message@, span: einfo@ },
        ));
    }

    /// The number of errors recorded so far.
    pub fn len(&self) -> (n: usize)
        ensures
            n == self@.len(),
    {
        self.errors.len()
    }
}

} // verus!
