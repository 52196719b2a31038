//! The lexer: source text to tokens with byte spans.
//!
//! At each position the lexer takes the longest lexeme that any token
//! pattern or skip pattern (white space, `//` and `/* */` comments) matches;
//! a keyword wins over an identifier of the same text. A character that no
//! pattern can start is an error of that one character; a string or
//! character literal without its closing quote is an error that runs to the
//! end of the input.
use vstd::prelude::*;
use vstd::utf8::*;
use crate::ast::Span;
use crate::error::{CompilerError, SourceLocation};
use crate::text::{push_char, push_str, push_u64, str_eq};

verus! {

/// A token.
#[derive(Debug, Clone, PartialEq)]
pub enum Token {
    Module, Import, Class, Struct, Interface, Enum, Template, Where, Using, Namespace,
    Public, Private, Protected, Static, Virtual, Override, Abstract, Const, Extern, Unsafe,
    Var, Let, Auto, Return, If, Else, Switch, Case, Default, While, Do, For, ForEach, In,
    Break, Continue, Goto, Try, Catch, Finally, Throw, New, Delete, SizeOf, TypeOf, As, Is,
    Ref, Operator, True, False, Null,
    /// An integer literal (decimal, `0x` hexadecimal or `0b` binary); a
    /// value above `i64::MAX` is read as 0.
    IntLit(i64),
    /// A floating-point literal, held as its source text.
    FloatLit(String),
    /// A string literal without its quotes.
    StringLit(String),
    /// A character literal: the first character between the quotes, or
    /// `'\0'` when there is none.
    CharLit(char),
    Identifier(String),
    EqEq, NotEq, LtEq, GtEq, AndAnd, OrOr, Shl, Shr,
    PlusEq, MinusEq, StarEq, SlashEq, PercentEq, AndEq, OrEq, XorEq, ShlEq, ShrEq,
    PlusPlus, MinusMinus, Arrow, ThinArrow, ColonColon, Range, VarArgs,
    Plus, Minus, Star, Slash, Percent, Equals, Lt, Gt, Bang, Tilde, Amp, Pipe, Caret, Question,
    Dot, Comma, Colon, Semicolon, LParen, RParen, LBrace, RBrace, LBracket, RBracket,
}

/// The model of [`Token`]: tokens that carry text carry it as a character
/// sequence; every other token stands for itself.
pub enum SToken {
    Plain(Token),
    FloatLit(Seq<char>),
    StringLit(Seq<char>),
    Identifier(Seq<char>),
}

impl View for Token {
    type V = SToken;

    open spec fn view(&self) -> SToken {
        match *self {
            Token::FloatLit(s) => SToken::FloatLit(s@),
            Token::StringLit(s) => SToken::StringLit(s@),
            Token::Identifier(s) => SToken::Identifier(s@),
            t => SToken::Plain(t),
        }
    }
}

/// Tokens with their spans, as a sequence of models.
pub open spec fn tokens_view(v: Seq<(Token, Span)>) -> Seq<(SToken, Span)> {
    v.map_values(|p: (Token, Span)| (p.0@, p.1))
}

impl Token {
    /// A copy of this token.
    pub fn copy(&self) -> (r: Token)
        ensures
            r@ == self@,
    {
        match self {
            Token::FloatLit(s) => Token::FloatLit(s.clone()),
            Token::StringLit(s) => Token::StringLit(s.clone()),
            Token::Identifier(s) => Token::Identifier(s.clone()),
            Token::Module => Token::Module, Token::Import => Token::Import,
            Token::Class => Token::Class, Token::Struct => Token::Struct,
            Token::Interface => Token::Interface, Token::Enum => Token::Enum,
            Token::Template => Token::Template, Token::Where => Token::Where,
            Token::Using => Token::Using, Token::Namespace => Token::Namespace,
            Token::Public => Token::Public, Token::Private => Token::Private,
            Token::Protected => Token::Protected, Token::Static => Token::Static,
            Token::Virtual => Token::Virtual, Token::Override => Token::Override,
            Token::Abstract => Token::Abstract, Token::Const => Token::Const,
            Token::Extern => Token::Extern, Token::Unsafe => Token::Unsafe,
            Token::Var => Token::Var, Token::Let => Token::Let, Token::Auto => Token::Auto,
            Token::Return => Token::Return, Token::If => Token::If, Token::Else => Token::Else,
            Token::Switch => Token::Switch, Token::Case => Token::Case,
            Token::Default => Token::Default, Token::While => Token::While,
            Token::Do => Token::Do, Token::For => Token::For, Token::ForEach => Token::ForEach,
            Token::In => Token::In, Token::Break => Token::Break,
            Token::Continue => Token::Continue, Token::Goto => Token::Goto,
            Token::Try => Token::Try, Token::Catch => Token::Catch,
            Token::Finally => Token::Finally, Token::Throw => Token::Throw,
            Token::New => Token::New, Token::Delete => Token::Delete,
            Token::SizeOf => Token::SizeOf, Token::TypeOf => Token::TypeOf,
            Token::As => Token::As, Token::Is => Token::Is, Token::Ref => Token::Ref,
            Token::Operator => Token::Operator, Token::True => Token::True,
            Token::False => Token::False, Token::Null => Token::Null,
            Token::IntLit(n) => Token::IntLit(*n), Token::CharLit(c) => Token::CharLit(*c),
            Token::EqEq => Token::EqEq, Token::NotEq => Token::NotEq,
            Token::LtEq => Token::LtEq, Token::GtEq => Token::GtEq,
            Token::AndAnd => Token::AndAnd, Token::OrOr => Token::OrOr,
            Token::Shl => Token::Shl, Token::Shr => Token::Shr,
            Token::PlusEq => Token::PlusEq, Token::MinusEq => Token::MinusEq,
            Token::StarEq => Token::StarEq, Token::SlashEq => Token::SlashEq,
            Token::PercentEq => Token::PercentEq, Token::AndEq => Token::AndEq,
            Token::OrEq => Token::OrEq, Token::XorEq => Token::XorEq,
            Token::ShlEq => Token::ShlEq, Token::ShrEq => Token::ShrEq,
            Token::PlusPlus => Token::PlusPlus, Token::MinusMinus => Token::MinusMinus,
            Token::Arrow => Token::Arrow, Token::ThinArrow => Token::ThinArrow,
            Token::ColonColon => Token::ColonColon, Token::Range => Token::Range,
            Token::VarArgs => Token::VarArgs, Token::Plus => Token::Plus,
            Token::Minus => Token::Minus, Token::Star => Token::Star,
            Token::Slash => Token::Slash, Token::Percent => Token::Percent,
            Token::Equals => Token::Equals, Token::Lt => Token::Lt, Token::Gt => Token::Gt,
            Token::Bang => Token::Bang, Token::Tilde => Token::Tilde, Token::Amp => Token::Amp,
            Token::Pipe => Token::Pipe, Token::Caret => Token::Caret,
            Token::Question => Token::Question, Token::Dot => Token::Dot,
            Token::Comma => Token::Comma, Token::Colon => Token::Colon,
            Token::Semicolon => Token::Semicolon, Token::LParen => Token::LParen,
            Token::RParen => Token::RParen, Token::LBrace => Token::LBrace,
            Token::RBrace => Token::RBrace, Token::LBracket => Token::LBracket,
            Token::RBracket => Token::RBracket,
        }
    }
}

// ---------------------------------------------------------------------
// Character classes and runs
// ---------------------------------------------------------------------

/// The character classes that the token patterns repeat.
#[derive(Clone, Copy, PartialEq, Eq, Structural)]
pub enum CharClass {
    /// `[ \t\r\n\f]`
    Space,
    /// `[0-9]`
    Digit,
    /// `[0-9a-fA-F]`
    HexDigit,
    /// `[01]`
    BinDigit,
    /// `[a-zA-Z0-9_]`
    Word,
    /// `[^\n\r]`
    NotNewline,
}

pub open spec fn is_digit(c: char) -> bool {
    '0' <= c <= '9'
}

pub open spec fn is_letter(c: char) -> bool {
    ('a' <= c <= 'z') || ('A' <= c <= 'Z') || c == '_'
}

pub open spec fn in_class(c: char, k: CharClass) -> bool {
    match k {
        CharClass::Space => c == ' ' || c == '\t' || c == '\r' || c == '\n' || c == '\x0c',
        CharClass::Digit => is_digit(c),
        CharClass::HexDigit => is_digit(c) || ('a' <= c <= 'f') || ('A' <= c <= 'F'),
        CharClass::BinDigit => c == '0' || c == '1',
        CharClass::Word => is_letter(c) || is_digit(c),
        CharClass::NotNewline => c != '\n' && c != '\r',
    }
}

/// The number of characters of class `k` that follow one another from `i`.
pub open spec fn run_len(s: Seq<char>, i: int, k: CharClass) -> nat
    decreases s.len() - i,
{
    if 0 <= i < s.len() && in_class(s[i], k) {
        1 + run_len(s, i + 1, k)
    } else {
        0
    }
}

/// The first index at or after `i` that holds `q`.
pub open spec fn find_char(s: Seq<char>, i: int, q: char) -> Option<int>
    decreases s.len() - i,
{
    if i < 0 || i >= s.len() {
        None
    } else if s[i] == q {
        Some(i)
    } else {
        find_char(s, i + 1, q)
    }
}

/// Where a block comment whose body starts at `i` ends (the index after its
/// closing `*/`), following the pattern `([^*]|\*[^/])*\*/`; `star` says that
/// the character before `i` is a `*` that opened a pair. `None` when the
/// comment is not closed.
pub open spec fn comment_end(s: Seq<char>, i: int, star: bool) -> Option<int>
    decreases s.len() - i,
{
    if i < 0 || i >= s.len() {
        None
    } else if star {
        if s[i] == '/' {
            Some(i + 1)
        } else {
            comment_end(s, i + 1, false)
        }
    } else {
        comment_end(s, i + 1, s[i] == '*')
    }
}

// ---------------------------------------------------------------------
// Keywords and punctuation
// ---------------------------------------------------------------------

/// The keyword that the word `w` is, if any.
pub open spec fn keyword(w: Seq<char>) -> Option<Token> {
    if w == "module"@ { Some(Token::Module) }
    else if w == "import"@ { Some(Token::Import) }
    else if w == "class"@ { Some(Token::Class) }
    else if w == "struct"@ { Some(Token::Struct) }
    else if w == "interface"@ { Some(Token::Interface) }
    else if w == "enum"@ { Some(Token::Enum) }
    else if w == "template"@ { Some(Token::Template) }
    else if w == "where"@ { Some(Token::Where) }
    else if w == "using"@ { Some(Token::Using) }
    else if w == "namespace"@ { Some(Token::Namespace) }
    else if w == "public"@ { Some(Token::Public) }
    else if w == "private"@ { Some(Token::Private) }
    else if w == "protected"@ { Some(Token::Protected) }
    else if w == "static"@ { Some(Token::Static) }
    else if w == "virtual"@ { Some(Token::Virtual) }
    else if w == "override"@ { Some(Token::Override) }
    else if w == "abstract"@ { Some(Token::Abstract) }
    else if w == "const"@ { Some(Token::Const) }
    else if w == "extern"@ { Some(Token::Extern) }
    else if w == "unsafe"@ { Some(Token::Unsafe) }
    else if w == "var"@ { Some(Token::Var) }
    else if w == "let"@ { Some(Token::Let) }
    else if w == "auto"@ { Some(Token::Auto) }
    else if w == "return"@ { Some(Token::Return) }
    else if w == "if"@ { Some(Token::If) }
    else if w == "else"@ { Some(Token::Else) }
    else if w == "switch"@ { Some(Token::Switch) }
    else if w == "case"@ { Some(Token::Case) }
    else if w == "default"@ { Some(Token::Default) }
    else if w == "while"@ { Some(Token::While) }
    else if w == "do"@ { Some(Token::Do) }
    else if w == "for"@ { Some(Token::For) }
    else if w == "foreach"@ { Some(Token::ForEach) }
    else if w == "in"@ { Some(Token::In) }
    else if w == "break"@ { Some(Token::Break) }
    else if w == "continue"@ { Some(Token::Continue) }
    else if w == "goto"@ { Some(Token::Goto) }
    else if w == "try"@ { Some(Token::Try) }
    else if w == "catch"@ { Some(Token::Catch) }
    else if w == "finally"@ { Some(Token::Finally) }
    else if w == "throw"@ { Some(Token::Throw) }
    else if w == "new"@ { Some(Token::New) }
    else if w == "delete"@ { Some(Token::Delete) }
    else if w == "sizeof"@ { Some(Token::SizeOf) }
    else if w == "typeof"@ { Some(Token::TypeOf) }
    else if w == "as"@ { Some(Token::As) }
    else if w == "is"@ { Some(Token::Is) }
    else if w == "ref"@ { Some(Token::Ref) }
    else if w == "operator"@ { Some(Token::Operator) }
    else if w == "true"@ { Some(Token::True) }
    else if w == "false"@ { Some(Token::False) }
    else if w == "null"@ { Some(Token::Null) }
    else { None }
}

/// The three-character operators.
pub open spec fn punct3(a: char, b: char, c: char) -> Option<Token> {
    if a == '<' && b == '<' && c == '=' { Some(Token::ShlEq) }
    else if a == '>' && b == '>' && c == '=' { Some(Token::ShrEq) }
    else if a == '.' && b == '.' && c == '.' { Some(Token::VarArgs) }
    else { None }
}

/// The two-character operators.
pub open spec fn punct2(a: char, b: char) -> Option<Token> {
    if a == '=' && b == '=' { Some(Token::EqEq) }
    else if a == '!' && b == '=' { Some(Token::NotEq) }
    else if a == '<' && b == '=' { Some(Token::LtEq) }
    else if a == '>' && b == '=' { Some(Token::GtEq) }
    else if a == '&' && b == '&' { Some(Token::AndAnd) }
    else if a == '|' && b == '|' { Some(Token::OrOr) }
    else if a == '<' && b == '<' { Some(Token::Shl) }
    else if a == '>' && b == '>' { Some(Token::Shr) }
    else if a == '+' && b == '=' { Some(Token::PlusEq) }
    else if a == '-' && b == '=' { Some(Token::MinusEq) }
    else if a == '*' && b == '=' { Some(Token::StarEq) }
    else if a == '/' && b == '=' { Some(Token::SlashEq) }
    else if a == '%' && b == '=' { Some(Token::PercentEq) }
    else if a == '&' && b == '=' { Some(Token::AndEq) }
    else if a == '|' && b == '=' { Some(Token::OrEq) }
    else if a == '^' && b == '=' { Some(Token::XorEq) }
    else if a == '+' && b == '+' { Some(Token::PlusPlus) }
    else if a == '-' && b == '-' { Some(Token::MinusMinus) }
    else if a == '=' && b == '>' { Some(Token::Arrow) }
    else if a == '-' && b == '>' { Some(Token::ThinArrow) }
    else if a == ':' && b == ':' { Some(Token::ColonColon) }
    else if a == '.' && b == '.' { Some(Token::Range) }
    else { None }
}

/// The one-character operators and delimiters.
pub open spec fn punct1(a: char) -> Option<Token> {
    if a == '+' { Some(Token::Plus) }
    else if a == '-' { Some(Token::Minus) }
    else if a == '*' { Some(Token::Star) }
    else if a == '/' { Some(Token::Slash) }
    else if a == '%' { Some(Token::Percent) }
    else if a == '=' { Some(Token::Equals) }
    else if a == '<' { Some(Token::Lt) }
    else if a == '>' { Some(Token::Gt) }
    else if a == '!' { Some(Token::Bang) }
    else if a == '~' { Some(Token::Tilde) }
    else if a == '&' { Some(Token::Amp) }
    else if a == '|' { Some(Token::Pipe) }
    else if a == '^' { Some(Token::Caret) }
    else if a == '?' { Some(Token::Question) }
    else if a == '.' { Some(Token::Dot) }
    else if a == ',' { Some(Token::Comma) }
    else if a == ':' { Some(Token::Colon) }
    else if a == ';' { Some(Token::Semicolon) }
    else if a == '(' { Some(Token::LParen) }
    else if a == ')' { Some(Token::RParen) }
    else if a == '{' { Some(Token::LBrace) }
    else if a == '}' { Some(Token::RBrace) }
    else if a == '[' { Some(Token::LBracket) }
    else if a == ']' { Some(Token::RBracket) }
    else { None }
}

/// The longest operator or delimiter at `i`, with its length.
pub open spec fn punct_at(s: Seq<char>, i: int) -> Option<(nat, Token)> {
    if i + 2 < s.len() && punct3(s[i], s[i + 1], s[i + 2]) is Some {
        Some((3, punct3(s[i], s[i + 1], s[i + 2])->0))
    } else if i + 1 < s.len() && punct2(s[i], s[i + 1]) is Some {
        Some((2, punct2(s[i], s[i + 1])->0))
    } else if 0 <= i < s.len() && punct1(s[i]) is Some {
        Some((1, punct1(s[i])->0))
    } else {
        None
    }
}

// ---------------------------------------------------------------------
// Numbers
// ---------------------------------------------------------------------

pub open spec fn digit_value(c: char) -> nat {
    if '0' <= c <= '9' {
        (c as u32 - '0' as u32) as nat
    } else if 'a' <= c <= 'f' {
        (c as u32 - 'a' as u32 + 10) as nat
    } else if 'A' <= c <= 'F' {
        (c as u32 - 'A' as u32 + 10) as nat
    } else {
        0
    }
}

/// The hexadecimal digits in lower case, in order of value.
pub open spec fn hex_lower() -> Seq<char> {
    seq!['0', '1', '2', '3', '4', '5', '6', '7', '8', '9', 'a', 'b', 'c', 'd', 'e', 'f']
}

/// The hexadecimal digits in upper case, in order of value.
pub open spec fn hex_upper() -> Seq<char> {
    seq!['0', '1', '2', '3', '4', '5', '6', '7', '8', '9', 'A', 'B', 'C', 'D', 'E', 'F']
}

/// Each digit of a number literal stands for its value: `0`-`9` for 0-9,
/// and `a`-`f` as well as `A`-`F` for 10-15, so the two spellings of a
/// hexadecimal literal have the same value.
pub proof fn lemma_digit_values()
    ensures
        forall|i: int| 0 <= i < 16 ==> digit_value(#[trigger] hex_lower()[i]) == i,
        forall|i: int| 0 <= i < 16 ==> digit_value(#[trigger] hex_upper()[i]) == i,
{
    assert(digit_value(hex_lower()[0]) == 0 && digit_value(hex_upper()[0]) == 0);
    assert(digit_value(hex_lower()[1]) == 1 && digit_value(hex_upper()[1]) == 1);
    assert(digit_value(hex_lower()[2]) == 2 && digit_value(hex_upper()[2]) == 2);
    assert(digit_value(hex_lower()[3]) == 3 && digit_value(hex_upper()[3]) == 3);
    assert(digit_value(hex_lower()[4]) == 4 && digit_value(hex_upper()[4]) == 4);
    assert(digit_value(hex_lower()[5]) == 5 && digit_value(hex_upper()[5]) == 5);
    assert(digit_value(hex_lower()[6]) == 6 && digit_value(hex_upper()[6]) == 6);
    assert(digit_value(hex_lower()[7]) == 7 && digit_value(hex_upper()[7]) == 7);
    assert(digit_value(hex_lower()[8]) == 8 && digit_value(hex_upper()[8]) == 8);
    assert(digit_value(hex_lower()[9]) == 9 && digit_value(hex_upper()[9]) == 9);
    assert(digit_value(hex_lower()[10]) == 10 && digit_value(hex_upper()[10]) == 10);
    assert(digit_value(hex_lower()[11]) == 11 && digit_value(hex_upper()[11]) == 11);
    assert(digit_value(hex_lower()[12]) == 12 && digit_value(hex_upper()[12]) == 12);
    assert(digit_value(hex_lower()[13]) == 13 && digit_value(hex_upper()[13]) == 13);
    assert(digit_value(hex_lower()[14]) == 14 && digit_value(hex_upper()[14]) == 14);
    assert(digit_value(hex_lower()[15]) == 15 && digit_value(hex_upper()[15]) == 15);
}

/// The value of the digits `w` in base `base`.
pub open spec fn digits_value(w: Seq<char>, base: nat) -> nat
    decreases w.len(),
{
    if w.len() == 0 {
        0
    } else {
        digits_value(w.drop_last(), base) * base + digit_value(w.last())
    }
}

/// The value that an integer literal holds: the number itself when it fits
/// in `i64`, otherwise 0.
pub open spec fn int_value(v: nat) -> i64 {
    if v <= i64::MAX {
        v as i64
    } else {
        0
    }
}

// ---------------------------------------------------------------------
// Lexemes
// ---------------------------------------------------------------------

/// What the lexer takes at one position: a run that it skips, a token, or
/// an error; each with its length in characters.
pub enum Lexeme {
    Skip(nat),
    Tok(nat, SToken),
    Error(nat),
}

pub open spec fn lexeme_len(l: Lexeme) -> nat {
    match l {
        Lexeme::Skip(n) => n,
        Lexeme::Tok(n, _) => n,
        Lexeme::Error(n) => n,
    }
}

/// The number token at `i` (where a digit stands): a hexadecimal or binary
/// literal when `0x` or `0b` is followed by at least one digit of that base,
/// otherwise a floating-point literal when the digits are followed by a
/// dot, otherwise a decimal literal.
pub open spec fn number_at(s: Seq<char>, i: int) -> Lexeme {
    let d = run_len(s, i, CharClass::Digit);
    if s[i] == '0' && i + 2 < s.len() && s[i + 1] == 'x' && in_class(s[i + 2], CharClass::HexDigit) {
        let n = run_len(s, i + 2, CharClass::HexDigit);
        Lexeme::Tok(n + 2, SToken::Plain(Token::IntLit(int_value(digits_value(s.subrange(i + 2, i + 2 + n), 16)))))
    } else if s[i] == '0' && i + 2 < s.len() && s[i + 1] == 'b' && in_class(s[i + 2], CharClass::BinDigit) {
        let n = run_len(s, i + 2, CharClass::BinDigit);
        Lexeme::Tok(n + 2, SToken::Plain(Token::IntLit(int_value(digits_value(s.subrange(i + 2, i + 2 + n), 2)))))
    } else if i + d < s.len() && s[i + d] == '.' {
        let f = run_len(s, i + d + 1, CharClass::Digit);
        Lexeme::Tok(d + 1 + f, SToken::FloatLit(s.subrange(i, i + d + 1 + f)))
    } else {
        Lexeme::Tok(d, SToken::Plain(Token::IntLit(int_value(digits_value(s.subrange(i, i + d), 10)))))
    }
}

/// The lexeme at position `i` of `s`.
pub open spec fn lexeme_at(s: Seq<char>, i: int) -> Lexeme {
    let c = s[i];
    if in_class(c, CharClass::Space) {
        Lexeme::Skip(run_len(s, i, CharClass::Space))
    } else if c == '/' && i + 1 < s.len() && s[i + 1] == '/' {
        Lexeme::Skip(2 + run_len(s, i + 2, CharClass::NotNewline))
    } else if c == '/' && i + 1 < s.len() && s[i + 1] == '*' && comment_end(s, i + 2, false) is Some {
        Lexeme::Skip((comment_end(s, i + 2, false)->0 - i) as nat)
    } else if is_letter(c) {
        let n = 1 + run_len(s, i + 1, CharClass::Word);
        let w = s.subrange(i, i + n);
        Lexeme::Tok(n, match keyword(w) {
            Some(t) => SToken::Plain(t),
            None => SToken::Identifier(w),
        })
    } else if is_digit(c) {
        number_at(s, i)
    } else if c == '"' {
        match find_char(s, i + 1, '"') {
            Some(k) => Lexeme::Tok((k + 1 - i) as nat, SToken::StringLit(s.subrange(i + 1, k))),
            None => Lexeme::Error((s.len() - i) as nat),
        }
    } else if c == '\'' {
        match find_char(s, i + 1, '\'') {
            Some(k) => Lexeme::Tok(
                (k + 1 - i) as nat,
                SToken::Plain(Token::CharLit(if k > i + 1 { s[i + 1] } else { '\0' })),
            ),
            None => Lexeme::Error((s.len() - i) as nat),
        }
    } else {
        match punct_at(s, i) {
            Some((n, t)) => Lexeme::Tok(n, SToken::Plain(t)),
            None => Lexeme::Error(1),
        }
    }
}

// ---------------------------------------------------------------------
// Byte offsets
// ---------------------------------------------------------------------

/// The length of the UTF-8 encoding of `c`.
pub open spec fn utf8_width(c: char) -> nat {
    if (c as u32) < 0x80 {
        1
    } else if (c as u32) < 0x800 {
        2
    } else if (c as u32) < 0x10000 {
        3
    } else {
        4
    }
}

/// The number of bytes that the UTF-8 encoding of `s` takes.
pub open spec fn byte_len(s: Seq<char>) -> nat
    decreases s.len(),
{
    if s.len() == 0 {
        0
    } else {
        utf8_width(s[0]) + byte_len(s.drop_first())
    }
}

/// The byte offset of character index `i` in `s`.
pub open spec fn byte_pos(s: Seq<char>, i: int) -> nat {
    byte_len(s.take(i))
}

/// `byte_len` is the length of vstd's UTF-8 encoding.
pub proof fn lemma_byte_len_is_encoding(s: Seq<char>)
    ensures
        byte_len(s) == encode_utf8(s).len(),
    decreases s.len(),
{
    if s.len() > 0 {
        lemma_byte_len_is_encoding(s.drop_first());
        let u = s[0] as u32;
        char_is_scalar(s[0]);
        assert(encode_scalar(u).len() == utf8_width(s[0]));
    }
}

proof fn lemma_byte_len_push(s: Seq<char>, c: char)
    ensures
        byte_len(s.push(c)) == byte_len(s) + utf8_width(c),
    decreases s.len(),
{
    assert(s.push(c)[0] == if s.len() == 0 { c } else { s[0] });
    if s.len() == 0 {
        assert(s.push(c).drop_first() =~= Seq::<char>::empty());
        assert(byte_len(Seq::<char>::empty()) == 0);
        assert(byte_len(s) == 0);
    } else {
        assert(s.push(c).drop_first() =~= s.drop_first().push(c));
        lemma_byte_len_push(s.drop_first(), c);
    }
}

proof fn lemma_byte_pos_step(s: Seq<char>, i: int)
    requires
        0 <= i < s.len(),
    ensures
        byte_pos(s, i + 1) == byte_pos(s, i) + utf8_width(s[i]),
{
    assert(s.take(i + 1) =~= s.take(i).push(s[i]));
    lemma_byte_len_push(s.take(i), s[i]);
}

proof fn lemma_byte_pos_mono(s: Seq<char>, i: int, j: int)
    requires
        0 <= i <= j <= s.len(),
    ensures
        byte_pos(s, i) <= byte_pos(s, j),
        i < j ==> byte_pos(s, i) < byte_pos(s, j),
    decreases j - i,
{
    if i < j {
        lemma_byte_pos_step(s, j - 1);
        lemma_byte_pos_mono(s, i, j - 1);
    }
}

// ---------------------------------------------------------------------
// The whole text
// ---------------------------------------------------------------------

proof fn lemma_run_len_bound(s: Seq<char>, i: int, k: CharClass)
    requires
        0 <= i <= s.len(),
    ensures
        i + run_len(s, i, k) <= s.len(),
    decreases s.len() - i,
{
    if i < s.len() && in_class(s[i], k) {
        lemma_run_len_bound(s, i + 1, k);
    }
}

proof fn lemma_find_char_bound(s: Seq<char>, i: int, q: char)
    requires
        0 <= i,
    ensures
        find_char(s, i, q) matches Some(k) ==> i <= k < s.len() && s[k] == q,
    decreases s.len() - i,
{
    if 0 <= i < s.len() && s[i] != q {
        lemma_find_char_bound(s, i + 1, q);
    }
}

proof fn lemma_comment_end_bound(s: Seq<char>, i: int, star: bool)
    requires
        0 <= i,
    ensures
        comment_end(s, i, star) matches Some(k) ==> i < k <= s.len(),
    decreases s.len() - i,
{
    if 0 <= i < s.len() {
        if star && s[i] == '/' {
        } else {
            lemma_comment_end_bound(s, i + 1, if star { false } else { s[i] == '*' });
        }
    }
}

/// Every lexeme is at least one character long and ends within the text.
pub proof fn lemma_lexeme_len(s: Seq<char>, i: int)
    requires
        0 <= i < s.len(),
    ensures
        1 <= lexeme_len(lexeme_at(s, i)),
        i + lexeme_len(lexeme_at(s, i)) <= s.len(),
{
    let c = s[i];
    lemma_run_len_bound(s, i, CharClass::Space);
    lemma_run_len_bound(s, i, CharClass::Digit);
    lemma_run_len_bound(s, i + 1, CharClass::Word);
    if i + 2 <= s.len() {
        lemma_run_len_bound(s, i + 2, CharClass::NotNewline);
        lemma_run_len_bound(s, i + 2, CharClass::HexDigit);
        lemma_run_len_bound(s, i + 2, CharClass::BinDigit);
        lemma_comment_end_bound(s, i + 2, false);
    }
    lemma_find_char_bound(s, i + 1, '"');
    lemma_find_char_bound(s, i + 1, '\'');
    let d = run_len(s, i, CharClass::Digit);
    if is_digit(c) && i + d < s.len() {
        lemma_run_len_bound(s, i + d + 1, CharClass::Digit);
    }
    if is_digit(c) {
        assert(run_len(s, i, CharClass::Digit) >= 1);
    }
    if s[i] == '0' && i + 2 < s.len() && s[i + 1] == 'x' && in_class(s[i + 2], CharClass::HexDigit) {
        assert(run_len(s, i + 2, CharClass::HexDigit) >= 1);
    }
    if s[i] == '0' && i + 2 < s.len() && s[i + 1] == 'b' && in_class(s[i + 2], CharClass::BinDigit) {
        assert(run_len(s, i + 2, CharClass::BinDigit) >= 1);
    }
    if in_class(c, CharClass::Space) {
        assert(run_len(s, i, CharClass::Space) >= 1);
    }
}

/// What the lexer yields from character index `i` on: the tokens with
/// their byte spans, and the byte spans of the errors.
pub open spec fn lex_from(s: Seq<char>, i: int) -> (Seq<(SToken, Span)>, Seq<Span>)
    decreases s.len() - i,
{
    if i < 0 || i >= s.len() {
        (Seq::empty(), Seq::empty())
    } else {
        let l = lexeme_at(s, i);
        let n = lexeme_len(l);
        let sp = Span { start: byte_pos(s, i) as usize, end: byte_pos(s, i + n) as usize };
        if n == 0 || i + n > s.len() {
            (Seq::empty(), Seq::empty())
        } else {
            let rest = lex_from(s, i + n);
            match l {
                Lexeme::Skip(_) => rest,
                Lexeme::Tok(_, t) => (seq![(t, sp)] + rest.0, rest.1),
                Lexeme::Error(_) => (rest.0, seq![sp] + rest.1),
            }
        }
    }
}

/// Whether the spans `sps` lie in order between the byte offsets `lo` and
/// `hi`: each is non-empty, and each ends where or before the next starts.
pub open spec fn spans_in_order(sps: Seq<Span>, lo: int, hi: int) -> bool {
    &&& forall|k: int| 0 <= k < sps.len() ==> lo <= (#[trigger] sps[k]).start < sps[k].end <= hi
    &&& forall|j: int, k: int| 0 <= j < k < sps.len() ==> (#[trigger] sps[j]).end <= (#[trigger] sps[k]).start
}

/// The spans of the tokens.
pub open spec fn token_spans(ts: Seq<(SToken, Span)>) -> Seq<Span> {
    ts.map_values(|p: (SToken, Span)| p.1)
}

proof fn lemma_spans_cons(sp: Span, rest: Seq<Span>, lo: int, mid: int, hi: int)
    requires
        lo <= sp.start < sp.end == mid <= hi,
        spans_in_order(rest, mid, hi),
    ensures
        spans_in_order(seq![sp] + rest, lo, hi),
{
    let all = seq![sp] + rest;
    assert forall|k: int| 0 <= k < all.len() implies lo <= (#[trigger] all[k]).start < all[k].end <= hi by {
        if k > 0 {
            assert(all[k] == rest[k - 1]);
        }
    }
    assert forall|j: int, k: int| 0 <= j < k < all.len() implies (#[trigger] all[j]).end <= (
    #[trigger] all[k]).start by {
        assert(all[k] == rest[k - 1]);
        if j > 0 {
            assert(all[j] == rest[j - 1]);
        }
    }
}

proof fn lemma_lex_spans_from(s: Seq<char>, i: int)
    requires
        0 <= i <= s.len(),
        byte_len(s) <= usize::MAX,
    ensures
        spans_in_order(token_spans(lex_from(s, i).0), byte_pos(s, i) as int, byte_len(s) as int),
        spans_in_order(lex_from(s, i).1, byte_pos(s, i) as int, byte_len(s) as int),
    decreases s.len() - i,
{
    assert(s.take(s.len() as int) =~= s);
    if i < s.len() {
        lemma_lexeme_len(s, i);
        let l = lexeme_at(s, i);
        let n = lexeme_len(l);
        lemma_byte_pos_mono(s, i, i + n);
        lemma_byte_pos_mono(s, i + n, s.len() as int);
        lemma_lex_spans_from(s, i + n);
        let sp = Span { start: byte_pos(s, i) as usize, end: byte_pos(s, i + n) as usize };
        let rest = lex_from(s, i + n);
        assert(sp.start == byte_pos(s, i) && sp.end == byte_pos(s, i + n));
        match l {
            Lexeme::Skip(_) => {},
            Lexeme::Tok(_, t) => {
                assert(token_spans(seq![(t, sp)] + rest.0) =~= seq![sp] + token_spans(rest.0));
                lemma_spans_cons(sp, token_spans(rest.0), byte_pos(s, i) as int, byte_pos(s, i + n) as int, byte_len(s) as int);
            },
            Lexeme::Error(_) => {
                lemma_spans_cons(sp, rest.1, byte_pos(s, i) as int, byte_pos(s, i + n) as int, byte_len(s) as int);
            },
        }
    } else {
        assert(token_spans(lex_from(s, i).0) =~= Seq::<Span>::empty());
    }
}

/// The tokens of a text, and its errors, lie in order within the text:
/// each span is non-empty, ends within the text's bytes, and ends where or
/// before the next one starts.
pub proof fn lemma_lex_spans(s: Seq<char>)
    requires
        byte_len(s) <= usize::MAX,
    ensures
        spans_in_order(token_spans(lex_from(s, 0).0), 0, byte_len(s) as int),
        spans_in_order(lex_from(s, 0).1, 0, byte_len(s) as int),
{
    assert(s.take(0) =~= Seq::<char>::empty());
    lemma_lex_spans_from(s, 0);
}

proof fn lemma_run_len_all(s: Seq<char>, i: int, k: CharClass)
    requires
        0 <= i <= s.len(),
        forall|j: int| i <= j < s.len() ==> in_class(#[trigger] s[j], k),
    ensures
        run_len(s, i, k) == s.len() - i,
    decreases s.len() - i,
{
    if i < s.len() {
        lemma_run_len_all(s, i + 1, k);
    }
}

/// What a program prints for an integer reads back as that integer: the
/// decimal text of a non-negative `n` (up to `i64::MAX`) lexes to the one
/// token `IntLit(n)`, with no error.
pub proof fn lemma_decimal_text_lexes(n: i64)
    requires
        n >= 0,
    ensures
        lex_from(crate::text::digits(n as nat), 0).0.len() == 1,
        lex_from(crate::text::digits(n as nat), 0).0[0].0 == SToken::Plain(Token::IntLit(n)),
        lex_from(crate::text::digits(n as nat), 0).1.len() == 0,
{
    let s = crate::text::digits(n as nat);
    crate::text::lemma_digits_read_back(n as nat);
    assert(s.len() > 0);
    lemma_run_len_all(s, 0, CharClass::Digit);
    assert(s.subrange(0, s.len() as int) =~= s);
    if s.len() > 1 {
        assert('0' <= s[1] <= '9');
    }
    let l = lexeme_at(s, 0);
    assert(l == Lexeme::Tok(s.len(), SToken::Plain(Token::IntLit(n))));
    assert(lex_from(s, s.len() as int) == (Seq::<(SToken, Span)>::empty(), Seq::<Span>::empty()));
}

/// The text of the error for an unknown token at byte `start`.
pub open spec fn unknown_token_message(start: usize) -> Seq<char> {
    "Unknown token at "@ + crate::text::digits(start as nat)
}

/// The diagnostic that the lexer gives for an error span.
pub open spec fn is_lexer_diagnostic(e: CompilerError, sp: Span) -> bool {
    e matches CompilerError::LexerError { message, location } && message@ == unknown_token_message(
        sp.start,
    ) && location.file@ == "input"@ && location.line == 1 && location.column == sp.start
        && location.span == sp
}


// ---------------------------------------------------------------------
// Executable lexer
// ---------------------------------------------------------------------

fn char_in_class(c: char, k: CharClass) -> (r: bool)
    ensures
        r == in_class(c, k),
{
    match k {
        CharClass::Space => c == ' ' || c == '\t' || c == '\r' || c == '\n' || c == '\x0c',
        CharClass::Digit => '0' <= c && c <= '9',
        CharClass::HexDigit => ('0' <= c && c <= '9') || ('a' <= c && c <= 'f') || ('A' <= c
            && c <= 'F'),
        CharClass::BinDigit => c == '0' || c == '1',
        CharClass::Word => ('a' <= c && c <= 'z') || ('A' <= c && c <= 'Z') || c == '_' || ('0'
            <= c && c <= '9'),
        CharClass::NotNewline => c != '\n' && c != '\r',
    }
}

fn scan_run(cs: &Vec<char>, i: usize, k: CharClass) -> (n: usize)
    requires
        i <= cs.len(),
    ensures
        n == run_len(cs@, i as int, k),
        i + n <= cs.len(),
{
    let mut j = i;
    while j < cs.len() && char_in_class(cs[j], k)
        invariant
            i <= j <= cs.len(),
            run_len(cs@, i as int, k) == (j - i) + run_len(cs@, j as int, k),
        decreases cs.len() - j,
    {
        j += 1;
    }
    j - i
}

fn scan_char(cs: &Vec<char>, i: usize, q: char) -> (r: Option<usize>)
    requires
        i <= cs.len(),
    ensures
        match r {
            Some(k) => find_char(cs@, i as int, q) == Some(k as int),
            None => find_char(cs@, i as int, q) is None,
        },
{
    let mut j = i;
    while j < cs.len()
        invariant
            i <= j <= cs.len(),
            find_char(cs@, i as int, q) == find_char(cs@, j as int, q),
        decreases cs.len() - j,
    {
        if cs[j] == q {
            return Some(j);
        }
        j += 1;
    }
    None
}

fn scan_comment(cs: &Vec<char>, i: usize) -> (r: Option<usize>)
    requires
        i <= cs.len(),
    ensures
        match r {
            Some(k) => comment_end(cs@, i as int, false) == Some(k as int),
            None => comment_end(cs@, i as int, false) is None,
        },
{
    let mut j = i;
    let mut star = false;
    while j < cs.len()
        invariant
            i <= j <= cs.len(),
            comment_end(cs@, i as int, false) == comment_end(cs@, j as int, star),
        decreases cs.len() - j,
    {
        if star && cs[j] == '/' {
            return Some(j + 1);
        }
        star = if star { false } else { cs[j] == '*' };
        j += 1;
    }
    None
}

fn keyword_of(w: &String) -> (r: Option<Token>)
    ensures
        r == keyword(w@),
{
    let w = w.as_str();
    if str_eq(w, "module") { Some(Token::Module) }
    else if str_eq(w, "import") { Some(Token::Import) }
    else if str_eq(w, "class") { Some(Token::Class) }
    else if str_eq(w, "struct") { Some(Token::Struct) }
    else if str_eq(w, "interface") { Some(Token::Interface) }
    else if str_eq(w, "enum") { Some(Token::Enum) }
    else if str_eq(w, "template") { Some(Token::Template) }
    else if str_eq(w, "where") { Some(Token::Where) }
    else if str_eq(w, "using") { Some(Token::Using) }
    else if str_eq(w, "namespace") { Some(Token::Namespace) }
    else if str_eq(w, "public") { Some(Token::Public) }
    else if str_eq(w, "private") { Some(Token::Private) }
    else if str_eq(w, "protected") { Some(Token::Protected) }
    else if str_eq(w, "static") { Some(Token::Static) }
    else if str_eq(w, "virtual") { Some(Token::Virtual) }
    else if str_eq(w, "override") { Some(Token::Override) }
    else if str_eq(w, "abstract") { Some(Token::Abstract) }
    else if str_eq(w, "const") { Some(Token::Const) }
    else if str_eq(w, "extern") { Some(Token::Extern) }
    else if str_eq(w, "unsafe") { Some(Token::Unsafe) }
    else if str_eq(w, "var") { Some(Token::Var) }
    else if str_eq(w, "let") { Some(Token::Let) }
    else if str_eq(w, "auto") { Some(Token::Auto) }
    else if str_eq(w, "return") { Some(Token::Return) }
    else if str_eq(w, "if") { Some(Token::If) }
    else if str_eq(w, "else") { Some(Token::Else) }
    else if str_eq(w, "switch") { Some(Token::Switch) }
    else if str_eq(w, "case") { Some(Token::Case) }
    else if str_eq(w, "default") { Some(Token::Default) }
    else if str_eq(w, "while") { Some(Token::While) }
    else if str_eq(w, "do") { Some(Token::Do) }
    else if str_eq(w, "for") { Some(Token::For) }
    else if str_eq(w, "foreach") { Some(Token::ForEach) }
    else if str_eq(w, "in") { Some(Token::In) }
    else if str_eq(w, "break") { Some(Token::Break) }
    else if str_eq(w, "continue") { Some(Token::Continue) }
    else if str_eq(w, "goto") { Some(Token::Goto) }
    else if str_eq(w, "try") { Some(Token::Try) }
    else if str_eq(w, "catch") { Some(Token::Catch) }
    else if str_eq(w, "finally") { Some(Token::Finally) }
    else if str_eq(w, "throw") { Some(Token::Throw) }
    else if str_eq(w, "new") { Some(Token::New) }
    else if str_eq(w, "delete") { Some(Token::Delete) }
    else if str_eq(w, "sizeof") { Some(Token::SizeOf) }
    else if str_eq(w, "typeof") { Some(Token::TypeOf) }
    else if str_eq(w, "as") { Some(Token::As) }
    else if str_eq(w, "is") { Some(Token::Is) }
    else if str_eq(w, "ref") { Some(Token::Ref) }
    else if str_eq(w, "operator") { Some(Token::Operator) }
    else if str_eq(w, "true") { Some(Token::True) }
    else if str_eq(w, "false") { Some(Token::False) }
    else if str_eq(w, "null") { Some(Token::Null) }
    else { None }
}

fn punct3_of(a: char, b: char, c: char) -> (r: Option<Token>)
    ensures
        r == punct3(a, b, c),
{
    if a == '<' && b == '<' && c == '=' { Some(Token::ShlEq) }
    else if a == '>' && b == '>' && c == '=' { Some(Token::ShrEq) }
    else if a == '.' && b == '.' && c == '.' { Some(Token::VarArgs) }
    else { None }
}

fn punct2_of(a: char, b: char) -> (r: Option<Token>)
    ensures
        r == punct2(a, b),
{
    if a == '=' && b == '=' { Some(Token::EqEq) }
    else if a == '!' && b == '=' { Some(Token::NotEq) }
    else if a == '<' && b == '=' { Some(Token::LtEq) }
    else if a == '>' && b == '=' { Some(Token::GtEq) }
    else if a == '&' && b == '&' { Some(Token::AndAnd) }
    else if a == '|' && b == '|' { Some(Token::OrOr) }
    else if a == '<' && b == '<' { Some(Token::Shl) }
    else if a == '>' && b == '>' { Some(Token::Shr) }
    else if a == '+' && b == '=' { Some(Token::PlusEq) }
    else if a == '-' && b == '=' { Some(Token::MinusEq) }
    else if a == '*' && b == '=' { Some(Token::StarEq) }
    else if a == '/' && b == '=' { Some(Token::SlashEq) }
    else if a == '%' && b == '=' { Some(Token::PercentEq) }
    else if a == '&' && b == '=' { Some(Token::AndEq) }
    else if a == '|' && b == '=' { Some(Token::OrEq) }
    else if a == '^' && b == '=' { Some(Token::XorEq) }
    else if a == '+' && b == '+' { Some(Token::PlusPlus) }
    else if a == '-' && b == '-' { Some(Token::MinusMinus) }
    else if a == '=' && b == '>' { Some(Token::Arrow) }
    else if a == '-' && b == '>' { Some(Token::ThinArrow) }
    else if a == ':' && b == ':' { Some(Token::ColonColon) }
    else if a == '.' && b == '.' { Some(Token::Range) }
    else { None }
}

fn punct1_of(a: char) -> (r: Option<Token>)
    ensures
        r == punct1(a),
{
    if a == '+' { Some(Token::Plus) }
    else if a == '-' { Some(Token::Minus) }
    else if a == '*' { Some(Token::Star) }
    else if a == '/' { Some(Token::Slash) }
    else if a == '%' { Some(Token::Percent) }
    else if a == '=' { Some(Token::Equals) }
    else if a == '<' { Some(Token::Lt) }
    else if a == '>' { Some(Token::Gt) }
    else if a == '!' { Some(Token::Bang) }
    else if a == '~' { Some(Token::Tilde) }
    else if a == '&' { Some(Token::Amp) }
    else if a == '|' { Some(Token::Pipe) }
    else if a == '^' { Some(Token::Caret) }
    else if a == '?' { Some(Token::Question) }
    else if a == '.' { Some(Token::Dot) }
    else if a == ',' { Some(Token::Comma) }
    else if a == ':' { Some(Token::Colon) }
    else if a == ';' { Some(Token::Semicolon) }
    else if a == '(' { Some(Token::LParen) }
    else if a == ')' { Some(Token::RParen) }
    else if a == '{' { Some(Token::LBrace) }
    else if a == '}' { Some(Token::RBrace) }
    else if a == '[' { Some(Token::LBracket) }
    else if a == ']' { Some(Token::RBracket) }
    else { None }
}

fn scan_punct(cs: &Vec<char>, i: usize) -> (r: Option<(usize, Token)>)
    requires
        i < cs.len(),
    ensures
        match r {
            Some((n, t)) => punct_at(cs@, i as int) == Some((n as nat, t)),
            None => punct_at(cs@, i as int) is None,
        },
{
    if i + 1 < cs.len() && i + 2 < cs.len() {
        if let Some(t) = punct3_of(cs[i], cs[i + 1], cs[i + 2]) {
            return Some((3, t));
        }
    }
    if i + 1 < cs.len() {
        if let Some(t) = punct2_of(cs[i], cs[i + 1]) {
            return Some((2, t));
        }
    }
    match punct1_of(cs[i]) {
        Some(t) => Some((1, t)),
        None => None,
    }
}

fn digit_val(c: char) -> (r: u32)
    ensures
        r == digit_value(c),
        r < 16,
{
    let u = c as u32;
    if '0' <= c && c <= '9' {
        u - ('0' as u32)
    } else if 'a' <= c && c <= 'f' {
        u - ('a' as u32) + 10
    } else if 'A' <= c && c <= 'F' {
        u - ('A' as u32) + 10
    } else {
        0
    }
}

/// The value of the digits `cs[a..b]` in base `base`, as an integer literal
/// holds it (0 when above `i64::MAX`).
fn digits_to_i64(cs: &Vec<char>, a: usize, b: usize, base: u32) -> (v: i64)
    requires
        a <= b <= cs.len(),
        2 <= base <= 16,
    ensures
        v == int_value(digits_value(cs@.subrange(a as int, b as int), base as nat)),
{
    let mut acc: u64 = 0;
    let mut over = false;
    let mut j = a;
    assert(cs@.subrange(a as int, a as int) =~= Seq::<char>::empty());
    while j < b
        invariant
            a <= j <= b <= cs.len(),
            2 <= base <= 16,
            over ==> digits_value(cs@.subrange(a as int, j as int), base as nat) > i64::MAX,
            !over ==> acc == digits_value(cs@.subrange(a as int, j as int), base as nat) && acc
                <= i64::MAX,
        decreases b - j,
    {
        let d = digit_val(cs[j]);
        let ghost prev = digits_value(cs@.subrange(a as int, j as int), base as nat);
        proof {
            let w = cs@.subrange(a as int, j + 1);
            assert(w.drop_last() =~= cs@.subrange(a as int, j as int));
            assert(w.last() == cs@[j as int]);
            assert(digits_value(w, base as nat) == prev * base + d);
            assert(prev * base >= prev) by (nonlinear_arith)
                requires
                    base >= 1,
            ;
        }
        if !over {
            assert((acc as u128) * (base as u128) <= 9223372036854775807u128 * 16) by (nonlinear_arith)
                requires
                    acc <= 9223372036854775807u64,
                    base <= 16,
            ;
            let wide: u128 = (acc as u128) * (base as u128) + (d as u128);
            assert(wide == prev * base + d);
            if wide > 9223372036854775807u128 {
                over = true;
            } else {
                acc = wide as u64;
            }
        }
        j += 1;
    }
    if over {
        0
    } else {
        acc as i64
    }
}

pub fn text_of(cs: &Vec<char>, a: usize, b: usize) -> (r: String)
    requires
        a <= b <= cs.len(),
    ensures
        r@ == cs@.subrange(a as int, b as int),
{
    let mut out = String::new();
    let mut j = a;
    while j < b
        invariant
            a <= j <= b <= cs.len(),
            out@ == cs@.subrange(a as int, j as int),
        decreases b - j,
    {
        push_char(&mut out, cs[j]);
        j += 1;
        assert(out@ =~= cs@.subrange(a as int, j as int));
    }
    out
}

/// A lexeme as the executable lexer computes it.
enum Lx {
    Skip(usize),
    Tok(usize, Token),
    Bad(usize),
}

spec fn lx_view(l: Lx) -> Lexeme {
    match l {
        Lx::Skip(n) => Lexeme::Skip(n as nat),
        Lx::Tok(n, t) => Lexeme::Tok(n as nat, t@),
        Lx::Bad(n) => Lexeme::Error(n as nat),
    }
}

fn scan_number(cs: &Vec<char>, i: usize) -> (r: Lx)
    requires
        i < cs.len(),
        is_digit(cs@[i as int]),
    ensures
        lx_view(r) == number_at(cs@, i as int),
{
    let d = scan_run(cs, i, CharClass::Digit);
    if cs[i] == '0' && i + 1 < cs.len() && i + 2 < cs.len() && cs[i + 1] == 'x' && char_in_class(cs[i + 2], CharClass::HexDigit) {
        let n = scan_run(cs, i + 2, CharClass::HexDigit);
        let v = digits_to_i64(cs, i + 2, i + 2 + n, 16);
        Lx::Tok(n + 2, Token::IntLit(v))
    } else if cs[i] == '0' && i + 1 < cs.len() && i + 2 < cs.len() && cs[i + 1] == 'b' && char_in_class(cs[i + 2], CharClass::BinDigit) {
        let n = scan_run(cs, i + 2, CharClass::BinDigit);
        let v = digits_to_i64(cs, i + 2, i + 2 + n, 2);
        Lx::Tok(n + 2, Token::IntLit(v))
    } else if i + d < cs.len() && cs[i + d] == '.' {
        let f = scan_run(cs, i + d + 1, CharClass::Digit);
        Lx::Tok(d + 1 + f, Token::FloatLit(text_of(cs, i, i + d + 1 + f)))
    } else {
        let v = digits_to_i64(cs, i, i + d, 10);
        Lx::Tok(d, Token::IntLit(v))
    }
}

fn scan_lexeme(cs: &Vec<char>, i: usize) -> (r: Lx)
    requires
        i < cs.len(),
    ensures
        lx_view(r) == lexeme_at(cs@, i as int),
{
    let c = cs[i];
    if char_in_class(c, CharClass::Space) {
        return Lx::Skip(scan_run(cs, i, CharClass::Space));
    }
    if c == '/' && i + 1 < cs.len() && cs[i + 1] == '/' {
        let n = scan_run(cs, i + 2, CharClass::NotNewline);
        return Lx::Skip(2 + n);
    }
    if c == '/' && i + 1 < cs.len() && cs[i + 1] == '*' {
        if let Some(k) = scan_comment(cs, i + 2) {
            proof {
                lemma_comment_end_bound(cs@, i + 2, false);
            }
            return Lx::Skip(k - i);
        }
    }
    if ('a' <= c && c <= 'z') || ('A' <= c && c <= 'Z') || c == '_' {
        let n = 1 + scan_run(cs, i + 1, CharClass::Word);
        let w = text_of(cs, i, i + n);
        let t = match keyword_of(&w) {
            Some(k) => k,
            None => Token::Identifier(w),
        };
        return Lx::Tok(n, t);
    }
    if '0' <= c && c <= '9' {
        return scan_number(cs, i);
    }
    if c == '"' {
        proof {
            lemma_find_char_bound(cs@, i + 1, '"');
        }
        return match scan_char(cs, i + 1, '"') {
            Some(k) => Lx::Tok(k + 1 - i, Token::StringLit(text_of(cs, i + 1, k))),
            None => Lx::Bad(cs.len() - i),
        };
    }
    if c == '\'' {
        proof {
            lemma_find_char_bound(cs@, i + 1, '\'');
        }
        return match scan_char(cs, i + 1, '\'') {
            Some(k) => Lx::Tok(
                k + 1 - i,
                Token::CharLit(
                    if k > i + 1 {
                        cs[i + 1]
                    } else {
                        '\0'
                    },
                ),
            ),
            None => Lx::Bad(cs.len() - i),
        };
    }
    match scan_punct(cs, i) {
        Some((n, t)) => Lx::Tok(n, t),
        None => Lx::Bad(1),
    }
}

fn utf8_width_of(c: char) -> (w: usize)
    ensures
        w == utf8_width(c),
{
    let u = c as u32;
    if u < 0x80 {
        1
    } else if u < 0x800 {
        2
    } else if u < 0x10000 {
        3
    } else {
        4
    }
}

/// The characters of a string slice, in order.
pub fn chars_of(source: &str) -> (cs: Vec<char>)
    ensures
        cs@ == source@,
{
    let mut cs: Vec<char> = Vec::new();
    for c in it: source.chars()
        invariant
            cs@ == it.seq().take(it.index() as int),
    {
        cs.push(c);
        assert(cs@ =~= it.seq().take(it.index() as int + 1));
    }
    cs
}


fn unknown_token(start: usize, end: usize) -> (e: CompilerError)
    ensures
        is_lexer_diagnostic(e, Span { start, end }),
{
    let mut message = String::new();
    push_str(&mut message, "Unknown token at ");
    push_u64(&mut message, start as u64);
    assert(message@ =~= unknown_token_message(start));
    let location = SourceLocation {
        file: "input".to_owned(),
        line: 1,
        column: start,
        span: Span { start, end },
    };
    CompilerError::LexerError { message, location }
}

/// Splits `source` into tokens with their byte spans. The result is `Ok`
/// exactly when no part of the text is an error; otherwise it holds one
/// diagnostic per error, in order.
pub fn tokenize(source: &str) -> (r: Result<Vec<(Token, Span)>, Vec<CompilerError>>)
    requires
        byte_len(source@) <= usize::MAX,
    ensures
        ({
            let (toks, errs) = lex_from(source@, 0);
            match r {
                Ok(v) => errs.len() == 0 && tokens_view(v@) == toks,
                Err(es) => errs.len() > 0 && es.len() == errs.len() && forall|k: int|
                    0 <= k < es.len() ==> is_lexer_diagnostic(#[trigger] es@[k], errs[k]),
            }
        }),
{
    let cs = chars_of(source);
    let ghost s = cs@;
    let ghost all = lex_from(s, 0);
    let mut tokens: Vec<(Token, Span)> = Vec::new();
    let mut errors: Vec<CompilerError> = Vec::new();
    let ghost mut err_spans: Seq<Span> = Seq::empty();
    let mut i: usize = 0;
    let mut b: usize = 0;
    proof {
        assert(s.take(0) =~= Seq::<char>::empty());
        assert(s.take(s.len() as int) =~= s);
    }
    while i < cs.len()
        invariant
            s == cs@,
            s == source@,
            byte_len(s) <= usize::MAX,
            s.take(s.len() as int) == s,
            all == lex_from(s, 0),
            i <= cs.len(),
            b == byte_pos(s, i as int),
            tokens_view(tokens@) + lex_from(s, i as int).0 == all.0,
            err_spans + lex_from(s, i as int).1 == all.1,
            errors.len() == err_spans.len(),
            forall|k: int| 0 <= k < errors.len() ==> is_lexer_diagnostic(#[trigger] errors@[k], err_spans[k]),
        decreases cs.len() - i,
    {
        let l = scan_lexeme(&cs, i);
        proof {
            lemma_lexeme_len(s, i as int);
        }
        let n = match &l {
            Lx::Skip(n) => *n,
            Lx::Tok(n, _) => *n,
            Lx::Bad(n) => *n,
        };
        assert(n == lexeme_len(lexeme_at(s, i as int)));
        let mut e = b;
        let mut j = i;
        while j < i + n
            invariant
                s == cs@,
                byte_len(s) <= usize::MAX,
                s.take(s.len() as int) == s,
                i <= j <= i + n <= cs.len(),
                e == byte_pos(s, j as int),
            decreases i + n - j,
        {
            proof {
                lemma_byte_pos_step(s, j as int);
                lemma_byte_pos_mono(s, j as int + 1, s.len() as int);
            }
            e = e + utf8_width_of(cs[j]);
            j += 1;
        }
        let sp = Span { start: b, end: e };
        let ghost rest = lex_from(s, (i + n) as int);
        assert(lex_from(s, i as int) == match lexeme_at(s, i as int) {
            Lexeme::Skip(_) => rest,
            Lexeme::Tok(_, t) => (seq![(t, sp)] + rest.0, rest.1),
            Lexeme::Error(_) => (rest.0, seq![sp] + rest.1),
        });
        match l {
            Lx::Skip(_) => {},
            Lx::Tok(_, t) => {
                let ghost before = tokens@;
                tokens.push((t, sp));
                assert(tokens_view(tokens@) =~= tokens_view(before).push((t@, sp)));
                assert(tokens_view(tokens@) + rest.0 =~= tokens_view(before) + (seq![(t@, sp)] + rest.0));
            },
            Lx::Bad(_) => {
                errors.push(unknown_token(b, e));
                proof {
                    assert(err_spans.push(sp) + rest.1 =~= err_spans + (seq![sp] + rest.1));
                    err_spans = err_spans.push(sp);
                }
            },
        }
        i = i + n;
        b = e;
    }
    assert(lex_from(s, i as int).0 =~= Seq::<(SToken, Span)>::empty());
    assert(tokens_view(tokens@) =~= all.0);
    assert(err_spans =~= all.1);
    if errors.len() == 0 {
        Ok(tokens)
    } else {
        Err(errors)
    }
}

} // verus!
