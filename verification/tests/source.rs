use dustfmt::{
    format_source, format_validated, validate, validate_source, Lexer, StructureError,
    StructureErrorKind, Token, Validation,
};

fn check(src: &str) -> Result<(), StructureError> {
    let tokens: Vec<Token> = Lexer::new(src).scan().expect("lexes");
    validate(&tokens)
}

#[test]
fn empty_forge() {
    assert_eq!(format_source("forge F { }"), Ok(["forge F {", "}", ""].join("\n")));
}

#[test]
fn comment_in_a_forge() {
    assert_eq!(
        format_source("forge F {\n// comment\n}\n"),
        Ok(["forge F {", "    // comment", "}", ""].join("\n"))
    );
}

#[test]
fn empty_source() {
    assert_eq!(format_source(""), Ok(String::new()));
    assert_eq!(format_source(" \n\t\r\n"), Ok(String::new()));
}

#[test]
fn source_layout_is_ignored() {
    assert_eq!(
        format_source("forge   F{\r\n\tK main{emit   1.5;emit f ( x,y ) ;}\r\n}"),
        Ok("forge F {\n    K main {\n        emit 1.5;\n        emit f(x, y);\n    }\n}\n".to_string())
    );
}

#[test]
fn statements_outside_any_block_start_at_the_margin() {
    assert_eq!(
        format_source("forge A { } forge B { } uses x; uses y;"),
        Ok("forge A {\n}\nforge B {\n}\nuses x;\nuses y;\n".to_string())
    );
}

#[test]
fn unterminated_string_is_a_lexical_failure() {
    assert_eq!(
        format_source("\"abc"),
        Err("lex error: UnterminatedString at 0..4".to_string())
    );
    assert_eq!(
        format_source("forge F { emit \"abc; }"),
        Err("lex error: UnterminatedString at 15..22".to_string())
    );
}

#[test]
fn unterminated_block_comment_is_a_lexical_failure() {
    assert_eq!(
        format_source("forge F { } /* never closed"),
        Err("lex error: UnterminatedBlockComment at 12..27".to_string())
    );
}

#[test]
fn lexical_span_counts_characters() {
    let src = format!("{}\"", "é".repeat(123));
    assert_eq!(
        format_source(&src),
        Err("lex error: UnterminatedString at 123..124".to_string())
    );
}

#[test]
fn missing_terminator_is_a_parse_failure() {
    assert_eq!(
        format_source("forge F { K main { emit \"X\" } }"),
        Err("parse error: missing `;` at token 8".to_string())
    );
    assert_eq!(format_source("emit 1"), Err("parse error: missing `;` at token 2".to_string()));
}

#[test]
fn unmatched_closing_delimiter_is_a_parse_failure() {
    assert_eq!(
        format_source(")"),
        Err("parse error: unmatched closing delimiter at token 0".to_string())
    );
    assert_eq!(
        format_source("f(a];"),
        Err("parse error: unmatched closing delimiter at token 3".to_string())
    );
    assert_eq!(
        format_source("forge F { } }"),
        Err("parse error: unmatched closing delimiter at token 4".to_string())
    );
}

#[test]
fn unclosed_delimiter_is_a_parse_failure() {
    assert_eq!(
        format_source("forge F {"),
        Err("parse error: unclosed delimiter at token 3".to_string())
    );
    assert_eq!(
        format_source("f(a;"),
        Err("parse error: unclosed delimiter at token 4".to_string())
    );
}

#[test]
fn lexical_failure_comes_before_structure() {
    assert_eq!(
        format_source(") \"x"),
        Err("lex error: UnterminatedString at 2..4".to_string())
    );
}

#[test]
fn validate_accepts_terminated_statements() {
    assert_eq!(check(""), Ok(()));
    assert_eq!(check("forge F { }"), Ok(()));
    assert_eq!(check("forge F { K main { emit f(a[1], b); } }"), Ok(()));
    assert_eq!(check("// only a comment\n/* and another */"), Ok(()));
    assert_eq!(check("forge F { emit 1; // after\n }"), Ok(()));
    assert_eq!(check("uses x;"), Ok(()));
}

#[test]
fn validate_reports_the_first_fault() {
    assert_eq!(
        check("forge F { emit 1 }"),
        Err(StructureError { kind: StructureErrorKind::Unterminated, at: 5 })
    );
    assert_eq!(
        check("a ) b ]"),
        Err(StructureError { kind: StructureErrorKind::Unmatched, at: 1 })
    );
    assert_eq!(
        check("forge F {\n emit (1;\n}"),
        Err(StructureError { kind: StructureErrorKind::Unmatched, at: 9 })
    );
    assert_eq!(
        check("( ( )"),
        Err(StructureError { kind: StructureErrorKind::Unclosed, at: 3 })
    );
    assert_eq!(
        check("forge F { } x"),
        Err(StructureError { kind: StructureErrorKind::Unterminated, at: 5 })
    );
}

#[test]
fn unknown_characters_pass_validation() {
    assert_eq!(
        format_source("forge F { emit a @ b; }"),
        Ok("forge F {\n    emit a\n    @\n    b;\n}\n".to_string())
    );
}

#[test]
fn structure_faults_have_messages() {
    assert_eq!(
        StructureError { kind: StructureErrorKind::Unterminated, at: 8 }.message(),
        "missing `;` at token 8"
    );
    assert_eq!(
        StructureError { kind: StructureErrorKind::Unmatched, at: 0 }.message(),
        "unmatched closing delimiter at token 0"
    );
    assert_eq!(
        StructureError { kind: StructureErrorKind::Unclosed, at: 1234567890 }.message(),
        "unclosed delimiter at token 1234567890"
    );
}

#[test]
fn validate_source_gives_the_verdict() {
    assert_eq!(validate_source("forge F { }"), Validation::Accepted);
    assert_eq!(
        validate_source("forge F { K main { emit \"X\" } }"),
        Validation::ParseFailure { message: "missing `;` at token 8".to_string() }
    );
    assert_eq!(
        validate_source("emit \"X"),
        Validation::LexFailure { kind: "UnterminatedString".to_string(), start: 5, end: 7 }
    );
    assert_eq!(
        validate_source("/* x"),
        Validation::LexFailure { kind: "UnterminatedBlockComment".to_string(), start: 0, end: 4 }
    );
}

#[test]
fn an_accepted_text_is_printed() {
    assert_eq!(
        format_validated("forge F { K main { emit \"X\" } }", &Validation::Accepted),
        Ok("forge F {\n    K main {\n        emit \"X\"\n    }\n}\n".to_string())
    );
    assert_eq!(format_validated("", &Validation::Accepted), Ok(String::new()));
}

#[test]
fn a_rejected_text_is_reported_and_not_printed() {
    let src = "forge F { K main { emit \"X\"; } }";
    assert_eq!(
        format_validated(src, &Validation::ParseFailure { message: "expected `;`".to_string() }),
        Err("parse error: expected `;`".to_string())
    );
    assert_eq!(
        format_validated(
            src,
            &Validation::LexFailure { kind: "BadEscape".to_string(), start: 24, end: 107 }
        ),
        Err("lex error: BadEscape at 24..107".to_string())
    );
    assert_eq!(
        format_validated(
            src,
            &Validation::LexFailure { kind: "X".to_string(), start: 0, end: usize::MAX }
        ),
        Err(format!("lex error: X at 0..{}", usize::MAX))
    );
}

#[test]
fn an_accepted_text_that_does_not_lex_fails_in_words() {
    assert_eq!(
        format_validated("emit \"X", &Validation::Accepted),
        Err("Unterminated string literal".to_string())
    );
    assert_eq!(
        format_validated("emit /* X", &Validation::Accepted),
        Err("Unterminated block comment".to_string())
    );
}

#[test]
fn format_source_is_format_validated_on_its_own_verdict() {
    for src in ["", "forge F { }", "forge F { emit 1 }", "f(", "\"x", "a;\n// c\nb;"] {
        assert_eq!(format_source(src), format_validated(src, &validate_source(src)));
    }
}
