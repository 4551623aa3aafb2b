use dustfmt::{format_source, format_tokens, Lexer, Token};

const SAMPLES: [&str; 6] = [
    "",
    "forge F { }",
    "forge F {\nK main { emit \"Hello\"; }\n}\n",
    "forge F {\n// comment\nK main { emit \"X\"; // trailing\n }\n}\n",
    "/* header */ forge Geometry{shape P{let x:Int=f(a,b[1])::g;let y=-1.5 .. 'c';}}",
    "forge F { K main { if a<=b&&c { emit \"a b\\\"c\"; } else { return x->y; } } }",
];

fn significant(src: &str) -> Vec<Token> {
    Lexer::new(src)
        .scan()
        .expect("lexes")
        .into_iter()
        .filter(|t| !matches!(t, Token::Newline | Token::Skip))
        .collect()
}

#[test]
fn formatting_twice_changes_nothing() {
    for src in SAMPLES {
        let once = format_source(src).expect("formats");
        assert_eq!(format_source(&once), Ok(once.clone()));
    }
}

#[test]
fn formatting_keeps_the_tokens() {
    for src in SAMPLES {
        let out = format_source(src).expect("formats");
        assert_eq!(significant(&out), significant(src));
    }
}

#[test]
fn output_ends_with_one_empty_line() {
    for src in SAMPLES {
        let out = format_source(src).expect("formats");
        let lines: Vec<&str> = out.split('\n').collect();
        assert_eq!(lines.last(), Some(&""));
        if lines.len() > 1 {
            assert_ne!(lines[lines.len() - 2], "");
        }
    }
}

#[test]
fn no_line_ends_in_whitespace() {
    for src in SAMPLES {
        let out = format_source(src).expect("formats");
        for line in out.split('\n') {
            assert_eq!(line.trim_end(), line);
        }
    }
    let out = format_source("forge F {   \n  // c   \r\n  emit  1 ,  2 ;  \n}").expect("formats");
    assert_eq!(out, "forge F {\n    // c\n    emit 1, 2;\n}\n");
}

#[test]
fn closing_braces_stand_at_the_depth_of_their_opening_line() {
    let out = format_source("a { b { c { } d { e; } } f { } }").expect("formats");
    assert_eq!(
        out,
        "a {\n    b {\n        c {\n        }\n        d {\n            e;\n        }\n    }\n    f {\n    }\n}\n"
    );
    let mut open: Vec<usize> = Vec::new();
    for line in out.split('\n') {
        let indent = line.len() - line.trim_start().len();
        if line.ends_with('{') {
            open.push(indent);
        } else if line.trim_start() == "}" {
            assert_eq!(open.pop(), Some(indent));
        }
    }
    assert!(open.is_empty());
}

#[test]
fn printing_depends_on_the_significant_tokens_alone() {
    for src in SAMPLES {
        let all = Lexer::new(src).scan().expect("lexes");
        assert_eq!(format_tokens(&all), format_tokens(&significant(src)));
    }
}

#[test]
fn a_block_comment_over_several_lines_moves_when_nested() {
    let once = format_source("forge F {\n/* a\n   b */\n}").expect("formats");
    assert_eq!(once, "forge F {\n    /* a\n       b */\n}\n");
    let twice = format_source(&once).expect("formats");
    assert_eq!(twice, "forge F {\n    /* a\n           b */\n}\n");
}

#[test]
fn a_stray_space_character_is_kept_at_the_end_of_its_line() {
    assert_eq!(
        format_tokens(&[Token::Unknown('\u{a0}')]),
        "\u{a0}\n"
    );
}

#[test]
fn formatting_twice_changes_nothing_where_comments_are_trimmed() {
    let src = "/* a  \r\n   b \t*/\r\nforge F { // c \r\n emit 1; /* d */ }\r\n";
    let once = format_source(src).expect("formats");
    assert_eq!(once, "/* a\n   b \t*/\nforge F {\n    // c\n    emit 1;\n    /* d */\n}\n");
    assert_eq!(format_source(&once), Ok(once.clone()));
}

#[test]
fn a_comment_that_is_trimmed_is_another_token() {
    let src = "// c \nuses x;";
    let out = format_source(src).expect("formats");
    assert_eq!(out, "// c\nuses x;\n");
    assert_eq!(significant(src)[0], Token::Comment("// c ".to_string()));
    assert_eq!(significant(&out)[0], Token::Comment("// c".to_string()));
    assert_eq!(significant(src)[1..], significant(&out)[1..]);
}

/// A small deterministic generator of source-like texts.
struct Texts(u64);

impl Texts {
    fn next(&mut self) -> u64 {
        self.0 = self.0.wrapping_mul(6364136223846793005).wrapping_add(1442695040888963407);
        self.0 >> 33
    }

    fn text(&mut self) -> String {
        const PIECES: [&str; 40] = [
            " ", " ", "\n", "\n", "\t", "\r\n", "a", "b1", "_x", "forge", "K", "true", "1", "2.5",
            "3.", "{", "}", "{", "}", "(", ")", "[", "]", ",", ";", ";", ":", "::", "->", "=",
            "==", "-", "/", "*", ".", "..", "@", "'c'", "\"s t\"", "// c \n",
        ];
        const RARE: [&str; 6] = ["/* b */", "/* b \n c */", "\"\\\"\"", "'", "\u{a0}", "&"];
        let n = self.next() % 24;
        let mut out = String::new();
        for _ in 0..n {
            let r = self.next();
            if r % 16 == 0 {
                out.push_str(RARE[(self.next() % 6) as usize]);
            } else {
                out.push_str(PIECES[(r % 40) as usize]);
            }
        }
        out
    }
}

fn depth_zero_or_one_line(tokens: &[Token]) -> bool {
    let mut depth = 0usize;
    for t in tokens {
        match t {
            Token::Delim('{') => depth += 1,
            Token::Delim('}') => depth = depth.saturating_sub(1),
            Token::BlockComment(s) if s.contains('\n') && depth > 0 => return false,
            _ => {}
        }
    }
    true
}

fn trimmed_comments(tokens: &[Token]) -> bool {
    tokens.iter().all(|t| match t {
        Token::Comment(s) | Token::BlockComment(s) => {
            s.split('\n').all(|line| line.trim_end() == line)
        }
        _ => true,
    })
}

#[test]
fn laws_hold_on_generated_texts() {
    let mut texts = Texts(20260101);
    let mut lexed = 0;
    let mut stable = 0;
    for _ in 0..3000 {
        let src = texts.text();
        let tokens = match Lexer::new(&src).scan() {
            Ok(tokens) => tokens,
            Err(_) => continue,
        };
        lexed += 1;
        let out = format_tokens(&tokens);
        assert!(out.is_empty() || (out.ends_with('\n') && !out.ends_with("\n\n")), "{:?}", src);
        if !depth_zero_or_one_line(&tokens) {
            continue;
        }
        let again = Lexer::new(&out).scan().expect("canonical text lexes");
        assert_eq!(format_tokens(&again), out, "{:?}", src);
        if trimmed_comments(&tokens) {
            stable += 1;
            assert_eq!(significant(&out), significant(&src), "{:?}", src);
        }
    }
    assert!(lexed > 2000);
    assert!(stable > 500);
}
