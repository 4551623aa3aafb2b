use dustfmt::{LexError, LexErrorKind, Lexer, Token};

fn lex(src: &str) -> Vec<Token> {
    Lexer::new(src).scan().expect("lexes")
}

fn lex_err(src: &str) -> LexError {
    Lexer::new(src).scan().expect_err("does not lex")
}

fn ident(s: &str) -> Token {
    Token::Ident(s.to_string())
}

fn op(s: &str) -> Token {
    Token::Op(s.to_string())
}

fn number(s: &str) -> Token {
    Token::Number(s.to_string())
}

#[test]
fn empty_text_has_no_tokens() {
    assert_eq!(lex(""), Vec::<Token>::new());
}

#[test]
fn blanks_yield_nothing_and_tabs_yield_skip() {
    assert_eq!(
        lex("a \r\u{c}\tb\n"),
        vec![ident("a"), Token::Skip, ident("b"), Token::Newline]
    );
}

#[test]
fn line_comment_runs_to_the_end_of_its_line() {
    assert_eq!(
        lex("// hi \nx"),
        vec![Token::Comment("// hi ".to_string()), Token::Newline, ident("x")]
    );
    assert_eq!(lex("//"), vec![Token::Comment("//".to_string())]);
}

#[test]
fn block_comment_keeps_its_line_breaks() {
    assert_eq!(
        lex("/* a\n b */x"),
        vec![Token::BlockComment("/* a\n b */".to_string()), ident("x")]
    );
    assert_eq!(lex("/**/"), vec![Token::BlockComment("/**/".to_string())]);
    assert_eq!(
        lex("/* a */ */"),
        vec![Token::BlockComment("/* a */".to_string()), op("*"), op("/")]
    );
}

#[test]
fn unterminated_block_comment_fails() {
    assert_eq!(
        lex_err("a /* b"),
        LexError { kind: LexErrorKind::UnterminatedBlockComment, start: 2, end: 6 }
    );
    assert_eq!(
        lex_err("/*/"),
        LexError { kind: LexErrorKind::UnterminatedBlockComment, start: 0, end: 3 }
    );
    assert_eq!(
        lex_err("/*"),
        LexError { kind: LexErrorKind::UnterminatedBlockComment, start: 0, end: 2 }
    );
}

#[test]
fn string_literal_keeps_quotes_and_escapes() {
    assert_eq!(
        lex("\"a\\\"b\" c"),
        vec![Token::StringLit("\"a\\\"b\"".to_string()), ident("c")]
    );
    assert_eq!(lex("\"\""), vec![Token::StringLit("\"\"".to_string())]);
    assert_eq!(lex("\"a\nb\""), vec![Token::StringLit("\"a\nb\"".to_string())]);
    assert_eq!(lex("\"\\\\\"x"), vec![Token::StringLit("\"\\\\\"".to_string()), ident("x")]);
}

#[test]
fn unterminated_string_fails() {
    assert_eq!(
        lex_err("\"abc"),
        LexError { kind: LexErrorKind::UnterminatedString, start: 0, end: 4 }
    );
    assert_eq!(
        lex_err("\""),
        LexError { kind: LexErrorKind::UnterminatedString, start: 0, end: 1 }
    );
    assert_eq!(
        lex_err("x \"a\\\""),
        LexError { kind: LexErrorKind::UnterminatedString, start: 2, end: 6 }
    );
    assert_eq!(
        lex_err("\"a\\"),
        LexError { kind: LexErrorKind::UnterminatedString, start: 0, end: 3 }
    );
}

#[test]
fn failure_leaves_no_tokens_and_the_cursor_at_its_start() {
    let mut lexer = Lexer::new("a b \"c");
    assert!(lexer.lex().is_err());
    // Lexing again meets the same literal.
    assert_eq!(
        lexer.scan(),
        Err(LexError { kind: LexErrorKind::UnterminatedString, start: 4, end: 6 })
    );
}

#[test]
fn lexing_again_finds_nothing_more() {
    let mut lexer = Lexer::new("a b");
    assert_eq!(lexer.scan(), Ok(vec![ident("a"), ident("b")]));
    assert_eq!(lexer.scan(), Ok(vec![]));
}

#[test]
fn character_literals_fold_into_numbers() {
    assert_eq!(lex("'a'"), vec![number("'a'")]);
    assert_eq!(lex("''"), vec![number("'\0'")]);
    assert_eq!(lex("'a"), vec![number("'a'")]);
    assert_eq!(lex("'"), vec![number("'\0'")]);
    assert_eq!(lex("'ab'"), vec![number("'a'"), ident("b"), number("'\0'")]);
    assert_eq!(lex("'\n'"), vec![number("'\n'")]);
}

#[test]
fn two_character_operators_come_first() {
    assert_eq!(lex("a->b"), vec![ident("a"), op("->"), ident("b")]);
    assert_eq!(
        lex(":: == <= >= && || .. =>"),
        vec![op("::"), op("=="), op("<="), op(">="), op("&&"), op("||"), op(".."), op("=>")]
    );
    assert_eq!(lex("=>="), vec![op("=>"), op("=")]);
    assert_eq!(lex(":::"), vec![op("::"), Token::Delim(':')]);
}

#[test]
fn one_character_operators() {
    assert_eq!(
        lex("+-*/<>=!"),
        vec![op("+"), op("-"), op("*"), op("/"), op("<"), op(">="), op("!")]
    );
    assert_eq!(lex("<<"), vec![op("<"), op("<")]);
    assert_eq!(lex("!="), vec![op("!"), op("=")]);
    assert_eq!(lex("/"), vec![op("/")]);
    assert_eq!(lex("/ /"), vec![op("/"), op("/")]);
}

#[test]
fn delimiters() {
    assert_eq!(
        lex("{}()[],;:"),
        vec![
            Token::Delim('{'),
            Token::Delim('}'),
            Token::Delim('('),
            Token::Delim(')'),
            Token::Delim('['),
            Token::Delim(']'),
            Token::Delim(','),
            Token::Delim(';'),
            Token::Delim(':'),
        ]
    );
}

#[test]
fn numbers_take_one_point_that_a_digit_follows() {
    assert_eq!(lex("1.5"), vec![number("1.5")]);
    assert_eq!(lex("42"), vec![number("42")]);
    assert_eq!(lex("1."), vec![number("1"), Token::Unknown('.')]);
    assert_eq!(lex("1.2.3"), vec![number("1.2"), Token::Unknown('.'), number("3")]);
    assert_eq!(lex("1..2"), vec![number("1"), op(".."), number("2")]);
    assert_eq!(lex("12ab"), vec![number("12"), ident("ab")]);
}

#[test]
fn words_are_classified() {
    assert_eq!(lex("forge"), vec![Token::Keyword("forge".to_string())]);
    assert_eq!(lex("mutex_unlock"), vec![Token::Keyword("mutex_unlock".to_string())]);
    assert_eq!(lex("Self self"), vec![
        Token::Keyword("Self".to_string()),
        Token::Keyword("self".to_string()),
    ]);
    assert_eq!(lex("throw"), vec![Token::Keyword("throw".to_string())]);
    assert_eq!(lex("K Q"), vec![
        Token::Regime("K".to_string()),
        Token::Regime("Q".to_string()),
    ]);
    assert_eq!(lex("true false"), vec![
        Token::BoolLit("true".to_string()),
        Token::BoolLit("false".to_string()),
    ]);
    assert_eq!(lex("foo_1 _x forge1 k"), vec![
        ident("foo_1"),
        ident("_x"),
        ident("forge1"),
        ident("k"),
    ]);
}

#[test]
fn unknown_characters_are_tolerated() {
    assert_eq!(lex("@"), vec![Token::Unknown('@')]);
    assert_eq!(lex("a & b"), vec![ident("a"), Token::Unknown('&'), ident("b")]);
    assert_eq!(lex("Φ"), vec![Token::Unknown('Φ')]);
    assert_eq!(lex("a.b"), vec![ident("a"), Token::Unknown('.'), ident("b")]);
}

#[test]
fn tokens_come_in_source_order() {
    assert_eq!(
        lex("forge F {\n\tK main { emit \"Hi\"; } // done\n}"),
        vec![
            Token::Keyword("forge".to_string()),
            ident("F"),
            Token::Delim('{'),
            Token::Newline,
            Token::Skip,
            Token::Regime("K".to_string()),
            ident("main"),
            Token::Delim('{'),
            Token::Keyword("emit".to_string()),
            Token::StringLit("\"Hi\"".to_string()),
            Token::Delim(';'),
            Token::Delim('}'),
            Token::Comment("// done".to_string()),
            Token::Newline,
            Token::Delim('}'),
        ]
    );
}

#[test]
fn lex_names_a_failure_in_words() {
    assert_eq!(Lexer::new("\"abc").lex(), Err("Unterminated string literal".to_string()));
    assert_eq!(Lexer::new("a /* b").lex(), Err("Unterminated block comment".to_string()));
}

#[test]
fn lex_finds_the_tokens_that_scan_finds() {
    let src = "forge F { K main { emit \"Hi\"; } } // end";
    assert_eq!(Lexer::new(src).lex(), Ok(lex(src)));
}

#[test]
fn kinds_of_failure_have_names() {
    assert_eq!(LexErrorKind::UnterminatedString.name(), "UnterminatedString");
    assert_eq!(LexErrorKind::UnterminatedBlockComment.name(), "UnterminatedBlockComment");
}

#[test]
fn every_reserved_word_is_a_keyword() {
    let words = [
        "forge", "shape", "proc", "process", "bind", "contract", "uses", "constrain", "prove",
        "from", "observe", "emit", "seal", "return", "linear", "alloc", "free", "spawn", "join",
        "mutex_new", "mutex_lock", "mutex_unlock", "open", "read", "write", "close", "io_read",
        "io_write", "mmio_read", "mmio_write", "unsafe", "if", "else", "for", "while", "break",
        "continue", "in", "match", "let", "mut", "where", "loop", "pub", "mod", "use", "as",
        "type", "trait", "enum", "struct", "impl", "self", "Self", "requires", "ensures",
        "invariant", "assert", "assume", "ghost", "effect", "handler", "do", "try", "catch",
        "throw",
    ];
    assert_eq!(words.len(), 66);
    for word in words {
        assert_eq!(lex(word), vec![Token::Keyword(word.to_string())]);
        let longer = format!("{}_", word);
        assert_eq!(lex(&longer), vec![ident(&longer)]);
    }
}
