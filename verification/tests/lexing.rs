use trinity::ast::Span;
use trinity::error::CompilerError;
use trinity::lexer::{chars_of, text_of, tokenize, Token};

fn kinds(src: &str) -> Vec<Token> {
    tokenize(src).unwrap().into_iter().map(|(t, _)| t).collect()
}

#[test]
fn module_header_tokens_and_spans() {
    let toks = tokenize("module Hello;").unwrap();
    assert_eq!(toks.len(), 3);
    assert_eq!(toks[0], (Token::Module, Span { start: 0, end: 6 }));
    assert_eq!(toks[1], (Token::Identifier("Hello".to_string()), Span { start: 7, end: 12 }));
    assert_eq!(toks[2], (Token::Semicolon, Span { start: 12, end: 13 }));
}

#[test]
fn keywords_win_over_identifiers_only_as_whole_words() {
    assert_eq!(
        kinds("class classy static int"),
        vec![
            Token::Class,
            Token::Identifier("classy".to_string()),
            Token::Static,
            Token::Identifier("int".to_string()),
        ]
    );
}

#[test]
fn integer_literals_in_three_bases() {
    assert_eq!(
        kinds("0x1F 0b101 42 0"),
        vec![Token::IntLit(31), Token::IntLit(5), Token::IntLit(42), Token::IntLit(0)]
    );
}

#[test]
fn prefix_without_digit_is_a_decimal_zero_then_a_word() {
    assert_eq!(kinds("0x"), vec![Token::IntLit(0), Token::Identifier("x".to_string())]);
}

#[test]
fn integer_literal_above_i64_max_reads_as_zero() {
    assert_eq!(kinds("99999999999999999999"), vec![Token::IntLit(0)]);
    assert_eq!(kinds("9223372036854775807"), vec![Token::IntLit(i64::MAX)]);
}

#[test]
fn float_literal_keeps_its_text() {
    assert_eq!(
        kinds("3.14 7."),
        vec![Token::FloatLit("3.14".to_string()), Token::FloatLit("7.".to_string())]
    );
}

#[test]
fn longest_operator_is_taken() {
    assert_eq!(
        kinds("<<= << <= < ... .. . == = ->"),
        vec![
            Token::ShlEq,
            Token::Shl,
            Token::LtEq,
            Token::Lt,
            Token::VarArgs,
            Token::Range,
            Token::Dot,
            Token::EqEq,
            Token::Equals,
            Token::ThinArrow,
        ]
    );
}

#[test]
fn string_and_char_literals() {
    assert_eq!(
        kinds("\"hi there\" 'a' 'bc' ''"),
        vec![
            Token::StringLit("hi there".to_string()),
            Token::CharLit('a'),
            Token::CharLit('b'),
            Token::CharLit('\0'),
        ]
    );
}

#[test]
fn comments_and_white_space_are_skipped() {
    assert_eq!(
        kinds("// line\nx /* block * / still */ y\t\r\n"),
        vec![Token::Identifier("x".to_string()), Token::Identifier("y".to_string())]
    );
}

#[test]
fn spans_count_bytes_of_the_source() {
    let toks = tokenize("\"é\" x").unwrap();
    assert_eq!(toks[0], (Token::StringLit("é".to_string()), Span { start: 0, end: 4 }));
    assert_eq!(toks[1], (Token::Identifier("x".to_string()), Span { start: 5, end: 6 }));
}

#[test]
fn unknown_character_is_one_error() {
    let errs = tokenize("a @ b").unwrap_err();
    assert_eq!(errs.len(), 1);
    match &errs[0] {
        CompilerError::LexerError { message, location } => {
            assert_eq!(message, "Unknown token at 2");
            assert_eq!(location.file, "input");
            assert_eq!(location.line, 1);
            assert_eq!(location.column, 2);
            assert_eq!(location.span, Span { start: 2, end: 3 });
        }
        other => panic!("unexpected {:?}", other),
    }
    assert_eq!(errs[0].to_text(), "Lexer error at 1:2: Unknown token at 2");
}

#[test]
fn every_error_is_reported_in_order() {
    let errs = tokenize("@ x # y").unwrap_err();
    assert_eq!(errs.len(), 2);
    assert_eq!(errs[0].to_text(), "Lexer error at 1:0: Unknown token at 0");
    assert_eq!(errs[1].to_text(), "Lexer error at 1:4: Unknown token at 4");
}

#[test]
fn unterminated_string_runs_to_the_end() {
    let errs = tokenize("x \"abc").unwrap_err();
    assert_eq!(errs.len(), 1);
    match &errs[0] {
        CompilerError::LexerError { location, .. } => {
            assert_eq!(location.span, Span { start: 2, end: 6 });
        }
        other => panic!("unexpected {:?}", other),
    }
}

#[test]
fn unclosed_block_comment_is_a_slash_and_a_star() {
    assert_eq!(
        kinds("/* x"),
        vec![Token::Slash, Token::Star, Token::Identifier("x".to_string())]
    );
}

#[test]
fn empty_source_has_no_tokens() {
    assert_eq!(tokenize("").unwrap().len(), 0);
    assert_eq!(tokenize("  \n ").unwrap().len(), 0);
}

#[test]
fn characters_and_their_text() {
    let cs = chars_of("añb");
    assert_eq!(cs, vec!['a', 'ñ', 'b']);
    assert_eq!(text_of(&cs, 1, 3), "ñb");
    assert_eq!(text_of(&cs, 2, 2), "");
}

#[test]
fn token_spans_lie_in_order_within_the_text() {
    let src = "module Un; class C { int f() { return \"ñé\" + 0x10; } } // énd";
    let toks = tokenize(src).unwrap();
    for (k, (_, sp)) in toks.iter().enumerate() {
        assert!(sp.start < sp.end && sp.end <= src.len());
        if k + 1 < toks.len() {
            assert!(sp.end <= toks[k + 1].1.start);
        }
    }
    assert_eq!(toks[12], (Token::StringLit("ñé".to_string()), Span { start: 38, end: 44 }));
}
