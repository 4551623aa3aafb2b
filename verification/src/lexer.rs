//! The lexer: from source text to tokens, comments kept.

use vstd::prelude::*;
use vstd::string::{StrSliceExecFns, StringExecFns};
use crate::scan::{
    blank_len, block_len, is_blank, is_delim, is_digit, is_pair_op, is_single_op, is_word_char,
    is_word_start, lemma_lex_skips_blanks, lemma_line_len_bound, lemma_number_len_bound,
    lemma_token_takes_characters, lemma_word_len_bound, lex_from, line_len, number_len,
    quoted_char, quoted_len, scan_at, string_len, word_len, LexErrorKind, LexFailure, Scanned,
};
use crate::text::{chars_of, string_of};
use crate::token::{classify, is_keyword, lexemes, Lexeme, Token};

verus! {

/// A lexical failure: what never closed, and the span it covers, in
/// characters from the start of the text.
#[derive(Debug, Clone, Copy, PartialEq, Eq)]
pub struct LexError {
    pub kind: LexErrorKind,
    pub start: usize,
    pub end: usize,
}

impl View for LexError {
    type V = LexFailure;

    open spec fn view(&self) -> LexFailure {
        LexFailure { kind: self.kind, start: self.start as nat, end: self.end as nat }
    }
}

/// What a lexical failure is called in words.
pub open spec fn lex_failure_text(kind: LexErrorKind) -> Seq<char> {
    match kind {
        LexErrorKind::UnterminatedString => "Unterminated string literal"@,
        LexErrorKind::UnterminatedBlockComment => "Unterminated block comment"@,
    }
}

/// A cursor over the characters of one source text.
pub struct Lexer {
    input: Vec<char>,
    pos: usize,
}

/// Whether `c` is a digit.
fn digit(c: char) -> (b: bool)
    ensures
        b == is_digit(c),
{
    '0' <= c && c <= '9'
}

/// Whether `c` may begin a word.
fn word_start(c: char) -> (b: bool)
    ensures
        b == is_word_start(c),
{
    ('a' <= c && c <= 'z') || ('A' <= c && c <= 'Z') || c == '_'
}

/// Whether `c` may continue a word.
fn word_char(c: char) -> (b: bool)
    ensures
        b == is_word_char(c),
{
    word_start(c) || digit(c)
}

/// Whether `c` is whitespace that yields no token.
fn blank(c: char) -> (b: bool)
    ensures
        b == is_blank(c),
{
    c == ' ' || c == '\r' || c == '\u{c}'
}

/// Whether `a` and `b` make a two-character operator.
fn pair_op(a: char, b: char) -> (r: bool)
    ensures
        r == is_pair_op(a, b),
{
    (a == ':' && b == ':') || (a == '-' && b == '>') || (a == '=' && b == '=') || (a == '<' && b
        == '=') || (a == '>' && b == '=') || (a == '&' && b == '&') || (a == '|' && b == '|') || (a
        == '.' && b == '.') || (a == '=' && b == '>')
}

/// Whether `c` is a one-character operator.
fn single_op(c: char) -> (b: bool)
    ensures
        b == is_single_op(c),
{
    c == '+' || c == '-' || c == '*' || c == '/' || c == '<' || c == '>' || c == '=' || c == '!'
}

/// Whether `c` is a delimiter.
fn delim(c: char) -> (b: bool)
    ensures
        b == is_delim(c),
{
    c == '{' || c == '}' || c == '(' || c == ')' || c == '[' || c == ']' || c == ',' || c == ';'
        || c == ':'
}

/// Whether `v[from..to]` spells `word`.
fn spells(v: &Vec<char>, from: usize, to: usize, word: &str) -> (b: bool)
    requires
        from <= to <= v.len(),
    ensures
        b == (v@.subrange(from as int, to as int) == word@),
{
    let n = word.unicode_len();
    if n != to - from {
        return false;
    }
    let mut j: usize = 0;
    while j < n
        invariant
            from <= to <= v.len(),
            n == to - from,
            n == word@.len(),
            j <= n,
            forall|k: int| 0 <= k < j ==> v@[from + k] == word@[k],
        decreases n - j,
    {
        if v[from + j] != word.get_char(j) {
            assert(v@.subrange(from as int, to as int)[j as int] != word@[j as int]);
            return false;
        }
        j += 1;
    }
    assert(v@.subrange(from as int, to as int) =~= word@);
    true
}

/// Whether `v[from..to]` spells a reserved word.
fn keyword(v: &Vec<char>, from: usize, to: usize) -> (b: bool)
    requires
        from <= to <= v.len(),
    ensures
        b == is_keyword(v@.subrange(from as int, to as int)),
{
    spells(v, from, to, "forge")
        || spells(v, from, to, "shape")
        || spells(v, from, to, "proc")
        || spells(v, from, to, "process")
        || spells(v, from, to, "bind")
        || spells(v, from, to, "contract")
        || spells(v, from, to, "uses")
        || spells(v, from, to, "constrain")
        || spells(v, from, to, "prove")
        || spells(v, from, to, "from")
        || spells(v, from, to, "observe")
        || spells(v, from, to, "emit")
        || spells(v, from, to, "seal")
        || spells(v, from, to, "return")
        || spells(v, from, to, "linear")
        || spells(v, from, to, "alloc")
        || spells(v, from, to, "free")
        || spells(v, from, to, "spawn")
        || spells(v, from, to, "join")
        || spells(v, from, to, "mutex_new")
        || spells(v, from, to, "mutex_lock")
        || spells(v, from, to, "mutex_unlock")
        || spells(v, from, to, "open")
        || spells(v, from, to, "read")
        || spells(v, from, to, "write")
        || spells(v, from, to, "close")
        || spells(v, from, to, "io_read")
        || spells(v, from, to, "io_write")
        || spells(v, from, to, "mmio_read")
        || spells(v, from, to, "mmio_write")
        || spells(v, from, to, "unsafe")
        || spells(v, from, to, "if")
        || spells(v, from, to, "else")
        || spells(v, from, to, "for")
        || spells(v, from, to, "while")
        || spells(v, from, to, "break")
        || spells(v, from, to, "continue")
        || spells(v, from, to, "in")
        || spells(v, from, to, "match")
        || spells(v, from, to, "let")
        || spells(v, from, to, "mut")
        || spells(v, from, to, "where")
        || spells(v, from, to, "loop")
        || spells(v, from, to, "pub")
        || spells(v, from, to, "mod")
        || spells(v, from, to, "use")
        || spells(v, from, to, "as")
        || spells(v, from, to, "type")
        || spells(v, from, to, "trait")
        || spells(v, from, to, "enum")
        || spells(v, from, to, "struct")
        || spells(v, from, to, "impl")
        || spells(v, from, to, "self")
        || spells(v, from, to, "Self")
        || spells(v, from, to, "requires")
        || spells(v, from, to, "ensures")
        || spells(v, from, to, "invariant")
        || spells(v, from, to, "assert")
        || spells(v, from, to, "assume")
        || spells(v, from, to, "ghost")
        || spells(v, from, to, "effect")
        || spells(v, from, to, "handler")
        || spells(v, from, to, "do")
        || spells(v, from, to, "try")
        || spells(v, from, to, "catch")
        || spells(v, from, to, "throw")
}

/// The token that the word `v[from..to]` stands for.
fn word_token(v: &Vec<char>, from: usize, to: usize) -> (t: Token)
    requires
        from <= to <= v.len(),
    ensures
        t@ == classify(v@.subrange(from as int, to as int)),
{
    let word = string_of(v, from, to);
    if keyword(v, from, to) {
        Token::Keyword(word)
    } else if spells(v, from, to, "K") || spells(v, from, to, "Q") || spells(v, from, to, "Φ") {
        Token::Regime(word)
    } else if spells(v, from, to, "true") || spells(v, from, to, "false") {
        Token::BoolLit(word)
    } else {
        Token::Ident(word)
    }
}

impl Lexer {
    /// The text being lexed.
    pub closed spec fn text(&self) -> Seq<char> {
        self.input@
    }

    /// How many characters of the text are consumed.
    pub closed spec fn cursor(&self) -> int {
        self.pos as int
    }

    /// A lexer at the start of `input`.
    pub fn new(input: &str) -> (lexer: Lexer)
        ensures
            lexer.text() == input@,
            lexer.cursor() == 0,
    {
        Lexer { input: chars_of(input), pos: 0 }
    }

    /// The character `ahead` places past the cursor, if the text reaches
    /// that far.
    fn peek(&self, ahead: usize) -> (c: Option<char>)
        ensures
            c == if self.pos + ahead < self.input@.len() {
                Some(self.input@[self.pos + ahead])
            } else {
                None
            },
    {
        if ahead < self.input.len() && self.pos < self.input.len() - ahead {
            Some(self.input[self.pos + ahead])
        } else {
            None
        }
    }

    /// Moves the cursor one character on, unless the text is at its end.
    fn bump(&mut self)
        ensures
            final(self).input == old(self).input,
            final(self).pos == if old(self).pos < old(self).input@.len() {
                old(self).pos + 1
            } else {
                old(self).pos as int
            },
    {
        if self.pos < self.input.len() {
            self.pos += 1;
        }
    }

    /// Consumes the blank characters at the cursor.
    fn skip_whitespace(&mut self)
        ensures
            final(self).input == old(self).input,
            final(self).pos == old(self).pos + blank_len(old(self).input@, old(self).pos as int),
    {
        loop
            invariant
                self.input == old(self).input,
                self.pos + blank_len(self.input@, self.pos as int) == old(self).pos + blank_len(
                    old(self).input@,
                    old(self).pos as int,
                ),
            ensures
                self.input == old(self).input,
                self.pos == old(self).pos + blank_len(old(self).input@, old(self).pos as int),
            decreases self.input@.len() - self.pos,
        {
            match self.peek(0) {
                Some(c) => {
                    if blank(c) {
                        self.bump();
                    } else {
                        break ;
                    }
                },
                None => {
                    break ;
                },
            }
        }
    }

    /// Reads the `//` comment at the cursor, up to the end of its line.
    fn read_line_comment(&mut self) -> (text: String)
        requires
            old(self).pos + 1 < old(self).input@.len(),
        ensures
            final(self).input == old(self).input,
            final(self).pos == old(self).pos + 2 + line_len(
                old(self).input@,
                old(self).pos + 2,
            ),
            text@ == old(self).input@.subrange(old(self).pos as int, final(self).pos as int),
    {
        let start = self.pos;
        let n = self.input.len();
        self.pos += 2;
        proof {
            lemma_line_len_bound(self.input@, start + 2);
        }
        while self.pos < self.input.len() && self.input[self.pos] != '\n'
            invariant
                self.input == old(self).input,
                start == old(self).pos,
                start + 2 <= self.pos <= self.input@.len(),
                self.pos + line_len(self.input@, self.pos as int) == start + 2 + line_len(
                    self.input@,
                    start + 2,
                ),
            decreases self.input@.len() - self.pos,
        {
            self.pos += 1;
        }
        string_of(&self.input, start, self.pos)
    }

    /// Reads the `/* ... */` comment at the cursor, if it closes. The
    /// cursor stays where it is if it does not.
    fn read_block_comment(&mut self) -> (text: Option<String>)
        requires
            old(self).pos + 1 < old(self).input@.len(),
        ensures
            final(self).input == old(self).input,
            match block_len(old(self).input@, old(self).pos + 2) {
                Some(n) => {
                    &&& final(self).pos == old(self).pos + 2 + n
                    &&& text matches Some(t)
                    &&& t@ == old(self).input@.subrange(
                        old(self).pos as int,
                        final(self).pos as int,
                    )
                },
                None => text is None && final(self).pos == old(self).pos,
            },
    {
        let start = self.pos;
        let n = self.input.len();
        let mut i: usize = start + 2;
        loop
            invariant
                self.input == old(self).input,
                self.pos == old(self).pos,
                start == self.pos,
                n == self.input@.len(),
                start + 2 <= i <= n,
                block_len(self.input@, start + 2) == match block_len(self.input@, i as int) {
                    Some(m) => Some((m + i - (start + 2)) as nat),
                    None => None,
                },
            decreases n - i,
        {
            if n - i <= 1 {
                return None;
            }
            if self.input[i] == '*' && self.input[i + 1] == '/' {
                self.pos = i + 2;
                return Some(string_of(&self.input, start, i + 2));
            }
            i += 1;
        }
    }

    /// Reads the string literal at the cursor, if it closes. The cursor
    /// stays where it is if it does not.
    fn read_string(&mut self) -> (text: Option<String>)
        requires
            old(self).pos < old(self).input@.len(),
        ensures
            final(self).input == old(self).input,
            match string_len(old(self).input@, old(self).pos + 1) {
                Some(n) => {
                    &&& final(self).pos == old(self).pos + 1 + n
                    &&& text matches Some(t)
                    &&& t@ == old(self).input@.subrange(
                        old(self).pos as int,
                        final(self).pos as int,
                    )
                },
                None => text is None && final(self).pos == old(self).pos,
            },
    {
        let start = self.pos;
        let n = self.input.len();
        let mut i: usize = start + 1;
        loop
            invariant
                self.input == old(self).input,
                self.pos == old(self).pos,
                start == self.pos,
                n == self.input@.len(),
                start + 1 <= i <= n,
                string_len(self.input@, start + 1) == match string_len(self.input@, i as int) {
                    Some(m) => Some((m + i - (start + 1)) as nat),
                    None => None,
                },
            decreases n - i,
        {
            if i >= n {
                return None;
            }
            let c = self.input[i];
            if c == '"' {
                self.pos = i + 1;
                return Some(string_of(&self.input, start, i + 1));
            }
            if c == '\\' {
                if n - i <= 1 {
                    return None;
                }
                i += 2;
            } else {
                i += 1;
            }
        }
    }

    /// Reads the number at the cursor: digits, with at most one `.` that a
    /// digit follows.
    fn read_number(&mut self) -> (text: String)
        requires
            old(self).pos < old(self).input@.len(),
            is_digit(old(self).input@[old(self).pos as int]),
        ensures
            final(self).input == old(self).input,
            final(self).pos == old(self).pos + 1 + number_len(
                old(self).input@,
                old(self).pos + 1,
                false,
            ),
            text@ == old(self).input@.subrange(old(self).pos as int, final(self).pos as int),
    {
        let start = self.pos;
        let n = self.input.len();
        let mut dotted = false;
        self.pos += 1;
        proof {
            lemma_number_len_bound(self.input@, start + 1, false);
        }
        loop
            invariant
                self.input == old(self).input,
                start == old(self).pos,
                n == self.input@.len(),
                start + 1 <= self.pos <= n,
                self.pos + number_len(self.input@, self.pos as int, dotted) == start + 1
                    + number_len(self.input@, start + 1, false),
            ensures
                self.input == old(self).input,
                start + 1 <= self.pos <= n,
                self.pos == start + 1 + number_len(self.input@, start + 1, false),
            decreases n - self.pos,
        {
            if self.pos < n && digit(self.input[self.pos]) {
                self.pos += 1;
            } else if !dotted && self.pos < n && self.input[self.pos] == '.' && self.pos + 1 < n
                && digit(self.input[self.pos + 1]) {
                dotted = true;
                self.pos += 1;
            } else {
                break ;
            }
        }
        string_of(&self.input, start, self.pos)
    }

    /// Reads the character literal at the cursor, in its full quoted form
    /// whatever the input leaves out.
    fn read_char_literal(&mut self) -> (text: String)
        requires
            old(self).pos < old(self).input@.len(),
        ensures
            final(self).input == old(self).input,
            final(self).pos == old(self).pos + quoted_len(old(self).input@, old(self).pos as int),
            text@ == seq!['\'', quoted_char(old(self).input@, old(self).pos as int), '\''],
    {
        let n = self.input.len();
        let mut value = '\0';
        self.pos += 1;
        if self.pos < n && self.input[self.pos] != '\'' {
            value = self.input[self.pos];
            self.pos += 1;
        }
        if self.pos < n && self.input[self.pos] == '\'' {
            self.pos += 1;
        }
        let mut text = String::new();
        text.push('\'');
        text.push(value);
        text.push('\'');
        assert(text@ =~= seq!['\'', value, '\'']);
        text
    }

    /// Reads the word at the cursor.
    fn read_ident(&mut self) -> (token: Token)
        requires
            old(self).pos < old(self).input@.len(),
        ensures
            final(self).input == old(self).input,
            final(self).pos == old(self).pos + 1 + word_len(old(self).input@, old(self).pos + 1),
            token@ == classify(
                old(self).input@.subrange(old(self).pos as int, final(self).pos as int),
            ),
    {
        let start = self.pos;
        let n = self.input.len();
        self.pos += 1;
        proof {
            lemma_word_len_bound(self.input@, start + 1);
        }
        while self.pos < self.input.len() && word_char(self.input[self.pos])
            invariant
                self.input == old(self).input,
                start == old(self).pos,
                start + 1 <= self.pos <= self.input@.len(),
                self.pos + word_len(self.input@, self.pos as int) == start + 1 + word_len(
                    self.input@,
                    start + 1,
                ),
            decreases self.input@.len() - self.pos,
        {
            self.pos += 1;
        }
        word_token(&self.input, start, self.pos)
    }

    /// Takes one decision at the cursor, which must stand before the end
    /// of the text: a token, blank space passed over, or a failure.
    fn next_token(&mut self) -> (r: Result<Option<Token>, LexError>)
        requires
            old(self).pos < old(self).input@.len(),
        ensures
            final(self).input == old(self).input,
            match scan_at(old(self).input@, old(self).pos as int) {
                Scanned::Token(t, n) => {
                    &&& r matches Ok(Some(token))
                    &&& token@ == t
                    &&& final(self).pos == old(self).pos + n
                },
                Scanned::Blank => {
                    &&& r == Ok::<Option<Token>, LexError>(None)
                    &&& final(self).pos == old(self).pos + blank_len(
                        old(self).input@,
                        old(self).pos as int,
                    )
                },
                Scanned::Fail(kind) => {
                    &&& r matches Err(e)
                    &&& e.kind == kind
                    &&& e.start == old(self).pos
                    &&& e.end == old(self).input@.len()
                    &&& final(self).pos == old(self).pos
                },
            },
    {
        let c = self.input[self.pos];
        let next = self.peek(1);
        let start = self.pos;
        let n = self.input.len();
        proof {
            lemma_token_takes_characters(self.input@, self.pos as int);
        }
        if c == '\n' {
            self.bump();
            Ok(Some(Token::Newline))
        } else if blank(c) {
            self.skip_whitespace();
            Ok(None)
        } else if c == '\t' {
            self.bump();
            Ok(Some(Token::Skip))
        } else if c == '/' && next == Some('/') {
            Ok(Some(Token::Comment(self.read_line_comment())))
        } else if c == '/' && next == Some('*') {
            match self.read_block_comment() {
                Some(text) => Ok(Some(Token::BlockComment(text))),
                None => Err(
                    LexError {
                        kind: LexErrorKind::UnterminatedBlockComment,
                        start,
                        end: self.input.len(),
                    },
                ),
            }
        } else if c == '"' {
            match self.read_string() {
                Some(text) => Ok(Some(Token::StringLit(text))),
                None => Err(
                    LexError {
                        kind: LexErrorKind::UnterminatedString,
                        start,
                        end: self.input.len(),
                    },
                ),
            }
        } else if next.is_some() && pair_op(c, next.unwrap()) {
            self.pos += 2;
            Ok(Some(Token::Op(string_of(&self.input, start, start + 2))))
        } else if single_op(c) {
            self.bump();
            let op = string_of(&self.input, start, start + 1);
            assert(op@ =~= seq![c]);
            Ok(Some(Token::Op(op)))
        } else if delim(c) {
            self.bump();
            Ok(Some(Token::Delim(c)))
        } else if digit(c) {
            Ok(Some(Token::Number(self.read_number())))
        } else if c == '\'' {
            Ok(Some(Token::Number(self.read_char_literal())))
        } else if word_start(c) {
            Ok(Some(self.read_ident()))
        } else {
            self.bump();
            Ok(Some(Token::Unknown(c)))
        }
    }

    /// Lexes the rest of the text: its tokens in source order, or the
    /// first failure, with the cursor left where the failure starts. The
    /// cursor never moves back.
    pub fn scan(&mut self) -> (r: Result<Vec<Token>, LexError>)
        ensures
            final(self).text() == old(self).text(),
            final(self).cursor() >= old(self).cursor(),
            match lex_from(old(self).text(), old(self).cursor()) {
                Ok(tokens) => {
                    &&& r matches Ok(found)
                    &&& lexemes(found@) == tokens
                    &&& final(self).cursor() == if old(self).cursor() <= old(self).text().len() {
                        old(self).text().len() as int
                    } else {
                        old(self).cursor()
                    }
                },
                Err(failure) => {
                    &&& r matches Err(e)
                    &&& e@ == failure
                    &&& final(self).cursor() == failure.start
                },
            },
    {
        let mut tokens: Vec<Token> = Vec::new();
        let ghost text = self.input@;
        let ghost from = self.pos as int;
        assert(lexemes(tokens@) =~= Seq::<Lexeme>::empty());
        while self.pos < self.input.len()
            invariant
                self.input == old(self).input,
                text == self.input@,
                from == old(self).pos,
                from <= self.pos,
                from <= text.len() ==> self.pos <= text.len(),
                from > text.len() ==> self.pos == from,
                lex_from(text, from) == match lex_from(text, self.pos as int) {
                    Ok(rest) => Ok::<Seq<Lexeme>, LexFailure>(lexemes(tokens@) + rest),
                    Err(failure) => Err(failure),
                },
            decreases self.input@.len() - self.pos,
        {
            let ghost before = self.pos as int;
            let ghost seen = lexemes(tokens@);
            proof {
                lemma_token_takes_characters(text, before);
                lemma_lex_skips_blanks(text, before);
            }
            match self.next_token() {
                Ok(Some(token)) => {
                    tokens.push(token);
                    assert(lexemes(tokens@) =~= seen.push(token@));
                    assert forall|rest: Seq<Lexeme>|
                        seen + (seq![token@] + rest) == #[trigger] (seen.push(token@) + rest) by {
                        assert(seen + (seq![token@] + rest) =~= seen.push(token@) + rest);
                    }
                },
                Ok(None) => {},
                Err(e) => {
                    return Err(e);
                },
            }
        }
        assert(lexemes(tokens@) + Seq::<Lexeme>::empty() =~= lexemes(tokens@));
        Ok(tokens)
    }

    /// Lexes the rest of the text, as [`Lexer::scan`] does, and names a
    /// failure in words.
    pub fn lex(&mut self) -> (r: Result<Vec<Token>, String>)
        ensures
            final(self).text() == old(self).text(),
            final(self).cursor() >= old(self).cursor(),
            match lex_from(old(self).text(), old(self).cursor()) {
                Ok(tokens) => {
                    &&& r matches Ok(found)
                    &&& lexemes(found@) == tokens
                    &&& final(self).cursor() == if old(self).cursor() <= old(self).text().len() {
                        old(self).text().len() as int
                    } else {
                        old(self).cursor()
                    }
                },
                Err(failure) => {
                    &&& r matches Err(message)
                    &&& message@ == lex_failure_text(failure.kind)
                    &&& final(self).cursor() == failure.start
                },
            },
    {
        match self.scan() {
            Ok(tokens) => Ok(tokens),
            Err(e) => match e.kind {
                LexErrorKind::UnterminatedString => Err(
                    String::from_str("Unterminated string literal"),
                ),
                LexErrorKind::UnterminatedBlockComment => Err(
                    String::from_str("Unterminated block comment"),
                ),
            },
        }
    }
}

} // verus!
