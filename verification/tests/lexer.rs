use lil_syntax::lex::{classify, lex_classified, lexer, CharFlags, LexError, Spanned, Token};

fn kinds<'a>(toks: &[Spanned<Token<'a>>]) -> Vec<Token<'a>> {
    toks.iter().map(|(t, _)| t.clone()).collect()
}

fn spans(toks: &[Spanned<Token>]) -> Vec<(usize, usize)> {
    toks.iter().map(|(_, s)| (s.start, s.end)).collect()
}

#[test]
fn lexes_operators_and_separators() {
    let toks = lexer("-!+*/%^<>=&|~@,()[].:").unwrap();
    assert_eq!(
        kinds(&toks),
        vec![
            Token::OpMinus, Token::OpNot, Token::OpPlus, Token::OpMul, Token::OpDiv, Token::OpMod,
            Token::OpPow, Token::OpLt, Token::OpGt, Token::OpEq, Token::OpAnd, Token::OpOr,
            Token::OpTilde, Token::OpAt, Token::OpComma, Token::ParenOpen, Token::ParenClose,
            Token::SquareOpen, Token::SquareClose, Token::Dot, Token::Colon,
        ]
    );
    assert_eq!(spans(&toks)[3], (3, 4));
}

#[test]
fn lexes_keywords_and_word_operators() {
    let toks = lexer("each in while end on do if else elseif where by orderby asc desc select extract update from insert with into send local split fuse like dict take drop").unwrap();
    let words: Vec<Token> = kinds(&toks).into_iter().filter(|t| *t != Token::Padding).collect();
    assert_eq!(
        words,
        vec![
            Token::KwEach, Token::KwIn, Token::KvWhile, Token::KwEnd, Token::KwOn, Token::KwDo,
            Token::KwIf, Token::KwElse, Token::KwElseIf, Token::KwWhere, Token::KwBy,
            Token::KwOrderBy, Token::KwAsc, Token::KwDesc, Token::KwSelect, Token::KwExtract,
            Token::KwUpdate, Token::KwFrom, Token::KwInsert, Token::KwWith, Token::KwInto,
            Token::KwSend, Token::KwLocal, Token::OpSplit, Token::OpFuse, Token::OpLike,
            Token::OpDict, Token::OpTake, Token::OpDrop,
        ]
    );
}

#[test]
fn keyword_needs_the_whole_identifier() {
    // `eachx` is no keyword; `in2` is not `in` either, as `2` continues an identifier,
    // so the letters lex as an identifier and the digit as a number.
    assert_eq!(kinds(&lexer("eachx").unwrap()), vec![Token::Ident("eachx")]);
    assert_eq!(kinds(&lexer("in2").unwrap()), vec![Token::Ident("in"), Token::Num("2")]);
    // `?` does not continue an identifier, so `in?` is the keyword and an identifier.
    assert_eq!(kinds(&lexer("in?").unwrap()), vec![Token::KwIn, Token::Ident("?")]);
}

#[test]
fn lexes_identifiers() {
    let toks = lexer("foo_Bar? x").unwrap();
    assert_eq!(kinds(&toks), vec![Token::Ident("foo_Bar?"), Token::Padding, Token::Ident("x")]);
    assert_eq!(spans(&toks), vec![(0, 8), (8, 9), (9, 10)]);
}

#[test]
fn lexes_numbers() {
    assert_eq!(kinds(&lexer("12.5").unwrap()), vec![Token::Num("12.5")]);
    assert_eq!(kinds(&lexer("1.").unwrap()), vec![Token::Num("1"), Token::Dot]);
    // An integer is a lone zero or starts with a nonzero digit.
    assert_eq!(kinds(&lexer("007").unwrap()), vec![Token::Num("0"), Token::Num("0"), Token::Num("7")]);
    assert_eq!(kinds(&lexer("1.05").unwrap()), vec![Token::Num("1.0"), Token::Num("5")]);
    // A sign is an operator of its own.
    assert_eq!(kinds(&lexer("-3").unwrap()), vec![Token::OpMinus, Token::Num("3")]);
}

#[test]
fn lexes_strings_with_escapes() {
    let toks = lexer(r#""a\"b\\c\nd\t""#).unwrap();
    assert_eq!(kinds(&toks), vec![Token::Str("a\"b\\c\nd\\t".to_string())]);
    assert_eq!(spans(&toks), vec![(0, 14)]);
    assert_eq!(kinds(&lexer(r#""""#).unwrap()), vec![Token::Str(String::new())]);
}

#[test]
fn unterminated_string_is_an_error() {
    // The error is at the quote where no string could be read.
    assert_eq!(lexer("x \"abc"), Err(LexError { span: 2..3 }));
    // The escaped quote does not close the string.
    assert_eq!(lexer(r#""ab\""#), Err(LexError { span: 0..1 }));
}

#[test]
fn unknown_character_is_an_error() {
    assert_eq!(lexer("a # b"), Err(LexError { span: 2..3 }));
    assert_eq!(lexer("a\u{e9}"), Err(LexError { span: 1..3 }));
    // A Unicode identifier that is no keyword is reported at its first character.
    assert_eq!(lexer("a \u{e9}b1_# c"), Err(LexError { span: 2..4 }));
}

#[test]
fn whitespace_runs_are_one_padding_token() {
    let toks = lexer("a \t\n b").unwrap();
    assert_eq!(kinds(&toks), vec![Token::Ident("a"), Token::Padding, Token::Ident("b")]);
    assert_eq!(spans(&toks), vec![(0, 1), (1, 5), (5, 6)]);
    // Unicode white space counts too, spanning its UTF-8 bytes.
    let toks = lexer("a\u{3000}b").unwrap();
    assert_eq!(kinds(&toks), vec![Token::Ident("a"), Token::Padding, Token::Ident("b")]);
    assert_eq!(spans(&toks), vec![(0, 1), (1, 4), (4, 5)]);
}

#[test]
fn spans_are_utf8_byte_offsets() {
    let toks = lexer("\"\u{e9}\u{1F600}\" x").unwrap();
    assert_eq!(kinds(&toks)[0], Token::Str("\u{e9}\u{1F600}".to_string()));
    assert_eq!(spans(&toks), vec![(0, 8), (8, 9), (9, 10)]);
}

#[test]
fn empty_source_has_no_tokens() {
    assert_eq!(lexer("").unwrap(), vec![]);
}

#[test]
fn tokens_tile_the_source() {
    let src = "x: each a in list do a + 1 end  \"s\" .5";
    let toks = lexer(src).unwrap();
    assert_eq!(toks[0].1.start, 0);
    assert_eq!(toks.last().unwrap().1.end, src.len());
    for w in toks.windows(2) {
        assert_eq!(w[0].1.end, w[1].1.start);
    }
    for (t, s) in &toks {
        assert!(s.start < s.end);
        match t {
            Token::Str(_) | Token::Padding => {}
            _ => assert_eq!(t.to_text(), &src[s.start..s.end]),
        }
    }
    for w in toks.windows(2) {
        assert!(!(w[0].0 == Token::Padding && w[1].0 == Token::Padding));
    }
}

#[test]
fn to_text_of_each_kind() {
    assert_eq!(Token::KwOrderBy.to_text(), "orderby");
    assert_eq!(Token::OpComma.to_text(), ",");
    assert_eq!(Token::Colon.to_text(), ":");
    assert_eq!(Token::Num("4.5").to_text(), "4.5");
    assert_eq!(Token::Str("q\"".to_string()).to_text(), "q\"");
    assert_eq!(Token::Ident("v").to_text(), "v");
    assert_eq!(Token::Padding.to_text(), "");
}

#[test]
fn classes_of_tokens() {
    assert!(Token::KwEach.is_kw() && !Token::KwEach.is_op() && !Token::KwEach.is_sep());
    assert!(Token::OpDrop.is_op() && !Token::OpDrop.is_kw());
    assert!(Token::OpComma.is_op());
    assert!(Token::Dot.is_sep() && !Token::Dot.is_op());
    for t in [Token::Num("1"), Token::Str(String::new()), Token::Ident("x"), Token::Padding] {
        assert!(!t.is_kw() && !t.is_op() && !t.is_sep());
    }
}

fn painted(out: &str, src: &str, code: &str) -> bool {
    out == src || out == format!("\u{1b}[{}m{}\u{1b}[0m", code, src)
}

#[test]
fn color_by_class() {
    assert!(painted(&Token::KwEach.color("each"), "each", "91"));
    assert!(painted(&Token::OpPlus.color("+"), "+", "94"));
    assert!(painted(&Token::Num("2").color("2"), "2", "94"));
    assert!(painted(&Token::Dot.color("."), ".", "37"));
    assert!(painted(&Token::Str("s".to_string()).color("\"s\""), "\"s\"", "92"));
    assert_eq!(Token::Ident("x").color("x"), "x");
    assert_eq!(Token::Padding.color("  "), "  ");
}

#[test]
fn classify_reads_the_unicode_tables() {
    let flags = classify("a 1\u{e9}\u{a0}");
    assert_eq!(flags.len(), 5);
    assert_eq!(flags[0], CharFlags { ident_start: true, ident_continue: true, white_space: false });
    assert_eq!(flags[1], CharFlags { ident_start: false, ident_continue: false, white_space: true });
    assert_eq!(flags[2], CharFlags { ident_start: false, ident_continue: true, white_space: false });
    assert_eq!(flags[3], CharFlags { ident_start: true, ident_continue: true, white_space: false });
    assert_eq!(flags[4], CharFlags { ident_start: false, ident_continue: false, white_space: true });
}

#[test]
fn lex_classified_follows_the_given_classes() {
    let none = CharFlags { ident_start: false, ident_continue: false, white_space: false };
    // A keyword must start where an identifier may start.
    let toks = lex_classified("in", &[none, none]).unwrap();
    assert_eq!(kinds(&toks), vec![Token::Ident("in")]);
    assert_eq!(kinds(&lexer("in").unwrap()), vec![Token::KwIn]);
    // Padding is what the classes call white space.
    let err: LexError = lex_classified(" ", &[none]).unwrap_err();
    assert_eq!((err.span.start, err.span.end), (0, 1));
    let space = CharFlags { ident_start: false, ident_continue: false, white_space: true };
    let toks = lex_classified("a#", &[none, space]).unwrap();
    assert_eq!(kinds(&toks), vec![Token::Ident("a"), Token::Padding]);
    assert_eq!(spans(&toks), vec![(0, 1), (1, 2)]);
}

#[test]
fn non_ascii_white_space_is_padding() {
    let toks = lexer("a\u{a0}b").unwrap();
    assert_eq!(kinds(&toks), vec![Token::Ident("a"), Token::Padding, Token::Ident("b")]);
    assert_eq!(spans(&toks), vec![(0, 1), (1, 3), (3, 4)]);
}

fn fixed_tokens() -> Vec<Token<'static>> {
    vec![
        Token::KwEach, Token::KwIn, Token::KvWhile, Token::KwEnd, Token::KwOn, Token::KwDo,
        Token::KwIf, Token::KwElse, Token::KwElseIf, Token::KwWhere, Token::KwBy,
        Token::KwOrderBy, Token::KwAsc, Token::KwDesc, Token::KwSelect, Token::KwExtract,
        Token::KwUpdate, Token::KwFrom, Token::KwInsert, Token::KwWith, Token::KwInto,
        Token::KwSend, Token::KwLocal, Token::OpMinus, Token::OpNot, Token::OpPlus, Token::OpMul,
        Token::OpDiv, Token::OpMod, Token::OpPow, Token::OpLt, Token::OpGt, Token::OpEq,
        Token::OpAnd, Token::OpOr, Token::OpTilde, Token::OpAt, Token::OpComma, Token::OpSplit,
        Token::OpFuse, Token::OpLike, Token::OpDict, Token::OpTake, Token::OpDrop,
        Token::ParenOpen, Token::ParenClose, Token::SquareOpen, Token::SquareClose, Token::Dot,
        Token::Colon,
    ]
}

#[test]
fn fixed_token_spelling_lexes_to_itself() {
    for t in fixed_tokens() {
        assert!(t.is_kw() || t.is_op() || t.is_sep());
        let s = t.to_text();
        let toks = lexer(&s).unwrap();
        assert_eq!(toks.len(), 1, "{}", s);
        assert_eq!(toks[0].0, t);
        assert_eq!((toks[0].1.start, toks[0].1.end), (0, s.len()));
    }
}

#[test]
fn fixed_token_spellings_are_distinct() {
    let all = fixed_tokens();
    for (a, t1) in all.iter().enumerate() {
        assert!(!t1.to_text().is_empty());
        for (b, t2) in all.iter().enumerate() {
            if a != b {
                assert_ne!(t1.to_text(), t2.to_text());
            }
        }
    }
}

#[test]
fn token_texts_have_their_class_shape() {
    let src = "ab_? 0 12.05 \"x\\\"\\n\" \t\n each";
    let toks = lexer(src).unwrap();
    for (t, sp) in &toks {
        let text = &src[sp.start..sp.end];
        match t {
            Token::Ident(x) => {
                assert_eq!(*x, text);
                assert!(!text.is_empty() && text.chars().all(|c| c.is_ascii_alphabetic() || c == '_' || c == '?'));
            }
            Token::Num(x) => {
                assert_eq!(*x, text);
                assert!(text.parse::<f64>().is_ok());
            }
            Token::Padding => assert!(!text.is_empty() && text.chars().all(char::is_whitespace)),
            Token::Str(x) => {
                assert!(text.starts_with('"') && text.ends_with('"') && text.len() >= 2);
                assert_eq!(x, "x\"\n");
            }
            _ => assert_eq!(t.to_text(), text),
        }
    }
    assert_eq!(kinds(&toks)[4], Token::Num("12.0"));
    assert_eq!(kinds(&toks)[5], Token::Num("5"));
}
