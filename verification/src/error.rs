//! Compiler diagnostics.
use vstd::prelude::*;
use crate::ast::Span;
use crate::text::{push_str, push_u64};

verus! {

/// Where in a source file a diagnostic points.
#[derive(Debug, Clone)]
pub struct SourceLocation {
    pub file: String,
    pub line: usize,
    pub column: usize,
    pub span: Span,
}

/// A diagnostic of the lexer, the parser or the interpreter.
#[derive(Debug, Clone)]
pub enum CompilerError {
    LexerError { message: String, location: SourceLocation },
    ParserError { message: String, location: SourceLocation, expected: Vec<String>, found: String },
    RuntimeError { message: String },
    IOError(String),
}

/// The texts of `xs` with `sep` between each two neighbours.
pub open spec fn join(xs: Seq<Seq<char>>, sep: Seq<char>) -> Seq<char>
    decreases xs.len(),
{
    if xs.len() == 0 {
        Seq::empty()
    } else if xs.len() == 1 {
        xs[0]
    } else {
        join(xs.drop_last(), sep) + sep + xs.last()
    }
}

/// `line:column`, the position part of a diagnostic.
pub open spec fn position_text(l: SourceLocation) -> Seq<char> {
    crate::text::digits(l.line as nat) + ":"@ + crate::text::digits(l.column as nat)
}

/// The text of a diagnostic.
pub open spec fn error_text(e: CompilerError) -> Seq<char> {
    match e {
        CompilerError::LexerError { message, location } => "Lexer error at "@ + position_text(
            location,
        ) + ": "@ + message@,
        CompilerError::ParserError { message, location, expected, found } => "Parser error at "@
            + position_text(location) + ": "@ + message@ + " (expected "@ + join(
            expected@.map_values(|x: String| x@),
            ", "@,
        ) + ", found "@ + found@ + ")"@,
        CompilerError::RuntimeError { message } => "Runtime error: "@ + message@,
        CompilerError::IOError(m) => "I/O: "@ + m@,
    }
}

/// Appends the texts of `xs` to `out`, separated by `sep`.
pub fn push_joined(out: &mut String, xs: &Vec<String>, sep: &str)
    ensures
        final(out)@ == old(out)@ + join(xs@.map_values(|x: String| x@), sep@),
{
    let ghost texts = xs@.map_values(|x: String| x@);
    let mut i: usize = 0;
    while i < xs.len()
        invariant
            i <= xs.len(),
            texts == xs@.map_values(|x: String| x@),
            out@ == old(out)@ + join(texts.take(i as int), sep@),
        decreases xs.len() - i,
    {
        let ghost before = out@;
        if i > 0 {
            push_str(out, sep);
        }
        push_str(out, xs[i].as_str());
        proof {
            let t = texts.take(i + 1);
            assert(t.drop_last() =~= texts.take(i as int));
            assert(t.last() == xs@[i as int]@);
            if i == 0 {
                assert(join(t, sep@) == t[0]);
                assert(join(texts.take(0), sep@) =~= Seq::<char>::empty());
            }
        }
        i += 1;
        assert(out@ =~= old(out)@ + join(texts.take(i as int), sep@));
    }
    assert(texts.take(xs.len() as int) =~= texts);
}

impl CompilerError {
    /// A lexer diagnostic with the given message and location.
    pub fn lexer_error(m: &str, l: SourceLocation) -> (r: Self)
        ensures
            r matches CompilerError::LexerError { message, location } && message@ == m@
                && location == l,
    {
        CompilerError::LexerError { message: m.to_owned(), location: l }
    }

    /// A parser diagnostic with the given message, location, the expected
    /// tokens and the token found.
    pub fn parser_error(m: &str, l: SourceLocation, e: Vec<String>, f: &str) -> (r: Self)
        ensures
            r matches CompilerError::ParserError { message, location, expected, found }
                && message@ == m@ && location == l && expected == e && found@ == f@,
    {
        CompilerError::ParserError { message: m.to_owned(), location: l, expected: e, found: f.to_owned() }
    }

    /// A runtime diagnostic with the given message.
    pub fn runtime_error(m: &str) -> (r: Self)
        ensures
            r matches CompilerError::RuntimeError { message } && message@ == m@,
    {
        CompilerError::RuntimeError { message: m.to_owned() }
    }

    /// The text of this diagnostic, as it is shown to the user.
    pub fn to_text(&self) -> (r: String)
        ensures
            r@ == error_text(*self),
    {
        let mut out = String::new();
        match self {
            CompilerError::LexerError { message, location } => {
                push_str(&mut out, "Lexer error at ");
                push_u64(&mut out, location.line as u64);
                push_str(&mut out, ":");
                push_u64(&mut out, location.column as u64);
                push_str(&mut out, ": ");
                push_str(&mut out, message.as_str());
            },
            CompilerError::ParserError { message, location, expected, found } => {
                push_str(&mut out, "Parser error at ");
                push_u64(&mut out, location.line as u64);
                push_str(&mut out, ":");
                push_u64(&mut out, location.column as u64);
                push_str(&mut out, ": ");
                push_str(&mut out, message.as_str());
                push_str(&mut out, " (expected ");
                push_joined(&mut out, expected, ", ");
                push_str(&mut out, ", found ");
                push_str(&mut out, found.as_str());
                push_str(&mut out, ")");
            },
            CompilerError::RuntimeError { message } => {
                push_str(&mut out, "Runtime error: ");
                push_str(&mut out, message.as_str());
            },
            CompilerError::IOError(m) => {
                push_str(&mut out, "I/O: ");
                push_str(&mut out, m.as_str());
            },
        }
        assert(out@ =~= error_text(*self));
        out
    }
}

} // verus!
