//! What the lexer computes, stated over sequences of characters: the
//! character classes, the extent of each kind of token, and the tokens of
//! a whole text.

use vstd::prelude::*;
use crate::token::{classify, Lexeme};

verus! {

pub open spec fn is_digit(c: char) -> bool {
    '0' <= c <= '9'
}

pub open spec fn is_letter(c: char) -> bool {
    ('a' <= c <= 'z') || ('A' <= c <= 'Z')
}

/// A character that may begin a word.
pub open spec fn is_word_start(c: char) -> bool {
    is_letter(c) || c == '_'
}

/// A character that may continue a word.
pub open spec fn is_word_char(c: char) -> bool {
    is_letter(c) || is_digit(c) || c == '_'
}

/// Whitespace that separates tokens and yields none.
pub open spec fn is_blank(c: char) -> bool {
    c == ' ' || c == '\r' || c == '\u{c}'
}

/// The number of blank characters from `i` on.
pub open spec fn blank_len(s: Seq<char>, i: int) -> nat
    decreases s.len() - i,
{
    if 0 <= i < s.len() && is_blank(s[i]) {
        1 + blank_len(s, i + 1)
    } else {
        0
    }
}

/// The two-character operators. They take priority over the
/// one-character operators and delimiters they begin with.
pub open spec fn is_pair_op(a: char, b: char) -> bool {
    ||| a == ':' && b == ':'
    ||| a == '-' && b == '>'
    ||| a == '=' && b == '='
    ||| a == '<' && b == '='
    ||| a == '>' && b == '='
    ||| a == '&' && b == '&'
    ||| a == '|' && b == '|'
    ||| a == '.' && b == '.'
    ||| a == '=' && b == '>'
}

pub open spec fn is_single_op(c: char) -> bool {
    c == '+' || c == '-' || c == '*' || c == '/' || c == '<' || c == '>' || c == '=' || c == '!'
}

pub open spec fn is_delim(c: char) -> bool {
    c == '{' || c == '}' || c == '(' || c == ')' || c == '[' || c == ']' || c == ',' || c == ';'
        || c == ':'
}

/// The number of characters from `i` up to the next line break or the end
/// of `s`.
pub open spec fn line_len(s: Seq<char>, i: int) -> nat
    decreases s.len() - i,
{
    if 0 <= i < s.len() && s[i] != '\n' {
        1 + line_len(s, i + 1)
    } else {
        0
    }
}

/// The number of characters from `i` through the first `*/` that starts at
/// or after `i`, if there is one.
pub open spec fn block_len(s: Seq<char>, i: int) -> Option<nat>
    decreases s.len() - i,
{
    if 0 <= i && i + 1 < s.len() {
        if s[i] == '*' && s[i + 1] == '/' {
            Some(2nat)
        } else {
            match block_len(s, i + 1) {
                Some(n) => Some(n + 1),
                None => None,
            }
        }
    } else {
        None
    }
}

/// The number of characters from `i`, just inside a string literal,
/// through its closing quote, if there is one. A backslash takes the
/// character after it along, whatever it is.
pub open spec fn string_len(s: Seq<char>, i: int) -> Option<nat>
    decreases s.len() - i,
{
    if 0 <= i < s.len() {
        if s[i] == '"' {
            Some(1nat)
        } else if s[i] == '\\' {
            if i + 1 < s.len() {
                match string_len(s, i + 2) {
                    Some(n) => Some(n + 2),
                    None => None,
                }
            } else {
                None
            }
        } else {
            match string_len(s, i + 1) {
                Some(n) => Some(n + 1),
                None => None,
            }
        }
    } else {
        None
    }
}

/// The number of characters of a number that continue it from `i`: digits,
/// and one `.` that a digit follows, unless `dotted` says that the number
/// has its `.` already.
pub open spec fn number_len(s: Seq<char>, i: int, dotted: bool) -> nat
    decreases s.len() - i,
{
    if 0 <= i < s.len() && is_digit(s[i]) {
        1 + number_len(s, i + 1, dotted)
    } else if 0 <= i && i + 1 < s.len() && s[i] == '.' && !dotted && is_digit(s[i + 1]) {
        1 + number_len(s, i + 1, true)
    } else {
        0
    }
}

/// The number of word characters from `i` on.
pub open spec fn word_len(s: Seq<char>, i: int) -> nat
    decreases s.len() - i,
{
    if 0 <= i < s.len() && is_word_char(s[i]) {
        1 + word_len(s, i + 1)
    } else {
        0
    }
}

/// The character that a character literal opening at `i` holds: the one
/// after the quote, or NUL where the input ends or the quote closes at
/// once.
pub open spec fn quoted_char(s: Seq<char>, i: int) -> char {
    if i + 1 < s.len() && s[i + 1] != '\'' {
        s[i + 1]
    } else {
        '\0'
    }
}

/// The number of characters of a character literal opening at `i`: the
/// quote, one character unless it is a quote, and a closing quote if it
/// follows.
pub open spec fn quoted_len(s: Seq<char>, i: int) -> nat {
    let inner: nat = if i + 1 < s.len() && s[i + 1] != '\'' {
        2
    } else {
        1
    };
    if i + inner < s.len() && s[i + inner] == '\'' {
        inner + 1
    } else {
        inner
    }
}

/// Why a text has no tokens.
#[derive(Debug, Clone, Copy, PartialEq, Eq, Structural)]
pub enum LexErrorKind {
    /// The input ended inside a string literal.
    UnterminatedString,
    /// The input ended inside a `/* ... */` comment.
    UnterminatedBlockComment,
}

/// One decision of the lexer.
pub enum Scanned {
    /// A token, and how many characters it takes.
    Token(Lexeme, nat),
    /// Whitespace that yields no token.
    Blank,
    /// The literal or comment that opens here never closes.
    Fail(LexErrorKind),
}

/// The decision at position `i` of `s`, taken on the character there and,
/// where that leaves a choice, on the longest match.
pub open spec fn scan_at(s: Seq<char>, i: int) -> Scanned
    recommends
        0 <= i < s.len(),
{
    let c = s[i];
    if c == '\n' {
        Scanned::Token(Lexeme::Newline, 1)
    } else if is_blank(c) {
        Scanned::Blank
    } else if c == '\t' {
        Scanned::Token(Lexeme::Skip, 1)
    } else if c == '/' && i + 1 < s.len() && s[i + 1] == '/' {
        let n = 2 + line_len(s, i + 2);
        Scanned::Token(Lexeme::Comment(s.subrange(i, i + n)), n)
    } else if c == '/' && i + 1 < s.len() && s[i + 1] == '*' {
        match block_len(s, i + 2) {
            Some(n) => Scanned::Token(Lexeme::BlockComment(s.subrange(i, i + 2 + n)), 2 + n),
            None => Scanned::Fail(LexErrorKind::UnterminatedBlockComment),
        }
    } else if c == '"' {
        match string_len(s, i + 1) {
            Some(n) => Scanned::Token(Lexeme::StringLit(s.subrange(i, i + 1 + n)), 1 + n),
            None => Scanned::Fail(LexErrorKind::UnterminatedString),
        }
    } else if i + 1 < s.len() && is_pair_op(c, s[i + 1]) {
        Scanned::Token(Lexeme::Op(s.subrange(i, i + 2)), 2)
    } else if is_single_op(c) {
        Scanned::Token(Lexeme::Op(seq![c]), 1)
    } else if is_delim(c) {
        Scanned::Token(Lexeme::Delim(c), 1)
    } else if is_digit(c) {
        let n = 1 + number_len(s, i + 1, false);
        Scanned::Token(Lexeme::Number(s.subrange(i, i + n)), n)
    } else if c == '\'' {
        Scanned::Token(Lexeme::Number(seq!['\'', quoted_char(s, i), '\'']), quoted_len(s, i))
    } else if is_word_start(c) {
        let n = 1 + word_len(s, i + 1);
        Scanned::Token(classify(s.subrange(i, i + n)), n)
    } else {
        Scanned::Token(Lexeme::Unknown(c), 1)
    }
}

/// A lexical failure: its kind, and the span of the text it covers, from
/// the opening of the literal or comment to the end of the input.
pub struct LexFailure {
    pub kind: LexErrorKind,
    pub start: nat,
    pub end: nat,
}

/// The tokens of `s` from position `i` on, in source order, or the first
/// failure. A failure leaves no tokens.
pub open spec fn lex_from(s: Seq<char>, i: int) -> Result<Seq<Lexeme>, LexFailure>
    decreases s.len() - i,
    via lex_from_terminates
{
    if 0 <= i < s.len() {
        match scan_at(s, i) {
            Scanned::Fail(kind) => Err(LexFailure { kind, start: i as nat, end: s.len() }),
            Scanned::Blank => lex_from(s, i + 1),
            Scanned::Token(t, n) => match lex_from(s, i + n) {
                Ok(rest) => Ok(seq![t] + rest),
                Err(e) => Err(e),
            },
        }
    } else {
        Ok(Seq::empty())
    }
}

/// The tokens of the whole of `s`.
pub open spec fn tokens_of(s: Seq<char>) -> Result<Seq<Lexeme>, LexFailure> {
    lex_from(s, 0)
}

/// A line ends within the text, at a line break or at the end, and holds
/// no line break.
pub(crate) proof fn lemma_line_len_bound(s: Seq<char>, i: int)
    requires
        0 <= i,
    ensures
        i + line_len(s, i) <= s.len() || line_len(s, i) == 0,
        i + line_len(s, i) < s.len() ==> s[i + line_len(s, i)] == '\n',
        forall|j: int| i <= j < i + line_len(s, i) ==> s[j] != '\n',
    decreases s.len() - i,
{
    if i < s.len() && s[i] != '\n' {
        lemma_line_len_bound(s, i + 1);
    }
}

/// A block comment that closes ends within the text, in `*/`.
pub(crate) proof fn lemma_block_len_bound(s: Seq<char>, i: int)
    requires
        0 <= i,
    ensures
        block_len(s, i) matches Some(n) ==> 2 <= n && i + n <= s.len() && s[i + n - 2] == '*'
            && s[i + n - 1] == '/',
    decreases s.len() - i,
{
    if i + 1 < s.len() && !(s[i] == '*' && s[i + 1] == '/') {
        lemma_block_len_bound(s, i + 1);
    }
}

/// A string literal that closes ends within the text, in a quote.
pub(crate) proof fn lemma_string_len_bound(s: Seq<char>, i: int)
    requires
        0 <= i,
    ensures
        string_len(s, i) matches Some(n) ==> 1 <= n && i + n <= s.len() && s[i + n - 1] == '"',
    decreases s.len() - i,
{
    if i < s.len() && s[i] != '"' {
        if s[i] == '\\' {
            if i + 1 < s.len() {
                lemma_string_len_bound(s, i + 2);
            }
        } else {
            lemma_string_len_bound(s, i + 1);
        }
    }
}

/// A number ends within the text.
pub(crate) proof fn lemma_number_len_bound(s: Seq<char>, i: int, dotted: bool)
    requires
        0 <= i,
    ensures
        i + number_len(s, i, dotted) <= s.len() || number_len(s, i, dotted) == 0,
    decreases s.len() - i,
{
    if i < s.len() && is_digit(s[i]) {
        lemma_number_len_bound(s, i + 1, dotted);
    } else if i + 1 < s.len() && s[i] == '.' && !dotted && is_digit(s[i + 1]) {
        lemma_number_len_bound(s, i + 1, true);
    }
}

/// A word ends within the text, before a character that is no word
/// character, and holds word characters alone.
pub(crate) proof fn lemma_word_len_bound(s: Seq<char>, i: int)
    requires
        0 <= i,
    ensures
        i + word_len(s, i) <= s.len() || word_len(s, i) == 0,
        forall|j: int| i <= j < i + word_len(s, i) ==> is_word_char(s[j]),
        i + word_len(s, i) < s.len() ==> !is_word_char(s[i + word_len(s, i)]),
    decreases s.len() - i,
{
    if i < s.len() && is_word_char(s[i]) {
        lemma_word_len_bound(s, i + 1);
    }
}

/// Every token takes at least one character.
pub(crate) proof fn lemma_token_takes_characters(s: Seq<char>, i: int)
    requires
        0 <= i < s.len(),
    ensures
        scan_at(s, i) matches Scanned::Token(_, n) ==> 1 <= n && i + n <= s.len(),
{
    lemma_line_len_bound(s, i + 2);
    lemma_block_len_bound(s, i + 2);
    lemma_string_len_bound(s, i + 1);
    lemma_number_len_bound(s, i + 1, false);
    lemma_word_len_bound(s, i + 1);
}

#[via_fn]
proof fn lex_from_terminates(s: Seq<char>, i: int) {
    if 0 <= i < s.len() {
        lemma_token_takes_characters(s, i);
    }
}

/// Blank characters change nothing in what follows them.
pub(crate) proof fn lemma_lex_skips_blanks(s: Seq<char>, i: int)
    requires
        0 <= i,
    ensures
        lex_from(s, i + blank_len(s, i)) == lex_from(s, i),
        i + blank_len(s, i) <= s.len() || blank_len(s, i) == 0,
    decreases s.len() - i,
{
    if i < s.len() && is_blank(s[i]) {
        lemma_lex_skips_blanks(s, i + 1);
    }
}

} // verus!
