use dustfmt::{format_tokens, Token};

fn ident(s: &str) -> Token {
    Token::Ident(s.to_string())
}

fn op(s: &str) -> Token {
    Token::Op(s.to_string())
}

fn d(c: char) -> Token {
    Token::Delim(c)
}

#[test]
fn no_tokens_print_as_the_empty_text() {
    assert_eq!(format_tokens(&[]), "");
    assert_eq!(format_tokens(&[Token::Newline, Token::Skip, Token::Newline]), "");
}

#[test]
fn line_breaks_and_tabs_are_dropped() {
    assert_eq!(
        format_tokens(&[ident("a"), Token::Newline, Token::Skip, ident("b")]),
        "a b\n"
    );
}

#[test]
fn calls_and_lists() {
    let tokens = [ident("f"), d('('), ident("a"), d(','), ident("b"), d(')')];
    assert_eq!(format_tokens(&tokens), "f(a, b)\n");
}

#[test]
fn scope_operator_is_glued() {
    assert_eq!(format_tokens(&[ident("a"), op("::"), ident("b")]), "a::b\n");
    assert_eq!(format_tokens(&[ident("a"), op("::"), op("-"), ident("b")]), "a::- b\n");
}

#[test]
fn annotations() {
    assert_eq!(format_tokens(&[ident("x"), d(':'), ident("T")]), "x: T\n");
    assert_eq!(format_tokens(&[ident("x"), d(':'), d(':'), ident("T")]), "x: : T\n");
}

#[test]
fn operators_are_spaced() {
    assert_eq!(
        format_tokens(&[ident("a"), op("+"), ident("b"), op("=="), Token::Number("1".to_string())]),
        "a + b == 1\n"
    );
}

#[test]
fn brackets() {
    assert_eq!(
        format_tokens(&[ident("a"), d('['), Token::Number("1".to_string()), d(']')]),
        "a [1]\n"
    );
    assert_eq!(format_tokens(&[d('('), op("-"), ident("x"), d(')')]), "(- x)\n");
}

#[test]
fn a_point_binds_to_the_left() {
    assert_eq!(format_tokens(&[ident("a"), d('.'), ident("b")]), "a. b\n");
}

#[test]
fn trailing_space_is_trimmed() {
    assert_eq!(format_tokens(&[ident("a"), d(',')]), "a,\n");
    assert_eq!(format_tokens(&[ident("a"), d(','), d(';')]), "a, ;\n");
    assert_eq!(format_tokens(&[ident("a"), d(','), d('}')]), "a,\n}\n");
    assert_eq!(format_tokens(&[ident("a\u{2003}\t")]), "a\n");
}

#[test]
fn braces_open_at_the_end_of_a_line_and_close_on_their_own() {
    let tokens = [
        Token::Keyword("forge".to_string()),
        ident("F"),
        d('{'),
        Token::Regime("K".to_string()),
        ident("main"),
        d('{'),
        Token::Keyword("emit".to_string()),
        Token::StringLit("\"Hello\"".to_string()),
        d(';'),
        d('}'),
        d('}'),
    ];
    assert_eq!(
        format_tokens(&tokens),
        "forge F {\n    K main {\n        emit \"Hello\";\n    }\n}\n"
    );
}

#[test]
fn an_opening_brace_on_a_fresh_line_is_indented() {
    assert_eq!(format_tokens(&[d('{'), d('{'), d('}'), d('}')]), "{\n    {\n    }\n}\n");
    assert_eq!(format_tokens(&[ident("a"), d(','), d('{')]), "a,  {\n");
}

#[test]
fn depth_never_goes_below_zero() {
    assert_eq!(format_tokens(&[d('}')]), "}\n");
    assert_eq!(format_tokens(&[d('}'), d('}'), ident("x")]), "}\n}\nx\n");
    assert_eq!(format_tokens(&[d('}'), d('{'), ident("x"), d('}')]), "}\n{\n    x\n}\n");
}

#[test]
fn a_semicolon_ends_its_line() {
    assert_eq!(format_tokens(&[d(';')]), ";\n");
    assert_eq!(format_tokens(&[ident("a"), d(';'), ident("b"), d(';')]), "a;\nb;\n");
    assert_eq!(format_tokens(&[d('{'), d(';'), d('}')]), "{\n;\n}\n");
    assert_eq!(
        format_tokens(&[d('{'), ident("a"), d(';'), ident("b"), d(';'), d('}')]),
        "{\n    a;\n    b;\n}\n"
    );
}

#[test]
fn a_line_comment_stands_alone_and_is_trimmed() {
    assert_eq!(
        format_tokens(&[ident("a"), Token::Comment("// c  ".to_string()), ident("b")]),
        "a\n// c\nb\n"
    );
    assert_eq!(
        format_tokens(&[
            d('{'),
            ident("a"),
            d(';'),
            Token::Comment("// c".to_string()),
            ident("b"),
            d('}'),
        ]),
        "{\n    a;\n    // c\n    b\n}\n"
    );
}

#[test]
fn a_block_comment_is_indented_line_by_line() {
    assert_eq!(
        format_tokens(&[d('{'), Token::BlockComment("/* a  \n   b */".to_string()), d('}')]),
        "{\n    /* a\n       b */\n}\n"
    );
    assert_eq!(
        format_tokens(&[Token::BlockComment("/* a\n\nb */".to_string())]),
        "/* a\n\nb */\n"
    );
    assert_eq!(
        format_tokens(&[d('{'), Token::BlockComment("/*\n\n*/".to_string())]),
        "{\n    /*\n    \n    */\n"
    );
}

#[test]
fn an_unknown_character_stands_alone() {
    assert_eq!(
        format_tokens(&[d('{'), ident("a"), Token::Unknown('@'), ident("b")]),
        "{\n    a\n    @\n    b\n"
    );
}

#[test]
fn a_last_line_that_is_empty_is_not_doubled() {
    assert_eq!(format_tokens(&[Token::BlockComment("a\n".to_string())]), "a\n");
    assert_eq!(format_tokens(&[Token::BlockComment("".to_string())]), "");
}

#[test]
fn a_printer_takes_tokens_one_by_one() {
    let tokens = [ident("a"), d('{'), ident("b"), d(';'), d('}')];
    let mut printer = dustfmt::format::Printer::new();
    for token in &tokens {
        printer.print(token);
    }
    assert_eq!(printer.finish(), "a {\n    b;\n}\n");
    assert_eq!(dustfmt::format::Printer::new().finish(), "");
}

#[test]
fn trimming_strips_every_white_space_character_and_no_other() {
    for code in 0..=0x10ffffu32 {
        let c = match char::from_u32(code) {
            Some(c) => c,
            None => continue,
        };
        let out = format_tokens(&[Token::Ident(format!("a{}", c))]);
        if c.is_whitespace() {
            assert_eq!(out, "a\n", "{:?}", c);
        } else {
            assert_eq!(out, format!("a{}\n", c), "{:?}", c);
        }
    }
}
