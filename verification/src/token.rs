//! The token vocabulary shared by the lexer and the printer.

use vstd::prelude::*;

verus! {

/// One lexical unit of Dust source, in the form the lexer hands out.
#[derive(Debug, Clone, PartialEq, Eq)]
pub enum Token {
    /// A line break of the input.
    Newline,
    /// A `//` comment, marker included, up to the end of its line.
    Comment(String),
    /// A `/* ... */` comment, markers included.
    BlockComment(String),
    Ident(String),
    Keyword(String),
    /// One of the regime markers `K`, `Q`, `Φ`.
    Regime(String),
    /// A number, or a character literal in its quoted form.
    Number(String),
    BoolLit(String),
    /// A string literal, quotes included.
    StringLit(String),
    Op(String),
    Delim(char),
    /// A character that starts no other token.
    Unknown(char),
    /// A tab.
    Skip,
}

/// The mathematical value of a [`Token`]: the same variants, with the text
/// as a sequence of characters.
pub enum Lexeme {
    Newline,
    Comment(Seq<char>),
    BlockComment(Seq<char>),
    Ident(Seq<char>),
    Keyword(Seq<char>),
    Regime(Seq<char>),
    Number(Seq<char>),
    BoolLit(Seq<char>),
    StringLit(Seq<char>),
    Op(Seq<char>),
    Delim(char),
    Unknown(char),
    Skip,
}

impl View for Token {
    type V = Lexeme;

    open spec fn view(&self) -> Lexeme {
        match *self {
            Token::Newline => Lexeme::Newline,
            Token::Comment(s) => Lexeme::Comment(s@),
            Token::BlockComment(s) => Lexeme::BlockComment(s@),
            Token::Ident(s) => Lexeme::Ident(s@),
            Token::Keyword(s) => Lexeme::Keyword(s@),
            Token::Regime(s) => Lexeme::Regime(s@),
            Token::Number(s) => Lexeme::Number(s@),
            Token::BoolLit(s) => Lexeme::BoolLit(s@),
            Token::StringLit(s) => Lexeme::StringLit(s@),
            Token::Op(s) => Lexeme::Op(s@),
            Token::Delim(c) => Lexeme::Delim(c),
            Token::Unknown(c) => Lexeme::Unknown(c),
            Token::Skip => Lexeme::Skip,
        }
    }
}

/// The values of a sequence of tokens, in order.
pub open spec fn lexemes(tokens: Seq<Token>) -> Seq<Lexeme> {
    tokens.map_values(|t: Token| t@)
}

impl Lexeme {
    /// Line breaks and tabs carry nothing: the printer drops them.
    pub open spec fn discardable(self) -> bool {
        self is Newline || self is Skip
    }

    /// The characters the printer writes for this token.
    pub open spec fn text(self) -> Seq<char> {
        match self {
            Lexeme::Newline => seq!['\n'],
            Lexeme::Skip => seq!['\t'],
            Lexeme::Comment(s) => s,
            Lexeme::BlockComment(s) => s,
            Lexeme::Ident(s) => s,
            Lexeme::Keyword(s) => s,
            Lexeme::Regime(s) => s,
            Lexeme::Number(s) => s,
            Lexeme::BoolLit(s) => s,
            Lexeme::StringLit(s) => s,
            Lexeme::Op(s) => s,
            Lexeme::Delim(c) => seq![c],
            Lexeme::Unknown(c) => seq![c],
        }
    }
}

/// The tokens that carry meaning, in order: everything but line breaks and
/// tabs.
pub open spec fn significant(tokens: Seq<Lexeme>) -> Seq<Lexeme>
    decreases tokens.len(),
{
    if tokens.len() == 0 {
        Seq::empty()
    } else if tokens.last().discardable() {
        significant(tokens.drop_last())
    } else {
        significant(tokens.drop_last()).push(tokens.last())
    }
}

/// The reserved words of the language.
pub open spec fn is_keyword(w: Seq<char>) -> bool {
    ||| w == "forge"@
    ||| w == "shape"@
    ||| w == "proc"@
    ||| w == "process"@
    ||| w == "bind"@
    ||| w == "contract"@
    ||| w == "uses"@
    ||| w == "constrain"@
    ||| w == "prove"@
    ||| w == "from"@
    ||| w == "observe"@
    ||| w == "emit"@
    ||| w == "seal"@
    ||| w == "return"@
    ||| w == "linear"@
    ||| w == "alloc"@
    ||| w == "free"@
    ||| w == "spawn"@
    ||| w == "join"@
    ||| w == "mutex_new"@
    ||| w == "mutex_lock"@
    ||| w == "mutex_unlock"@
    ||| w == "open"@
    ||| w == "read"@
    ||| w == "write"@
    ||| w == "close"@
    ||| w == "io_read"@
    ||| w == "io_write"@
    ||| w == "mmio_read"@
    ||| w == "mmio_write"@
    ||| w == "unsafe"@
    ||| w == "if"@
    ||| w == "else"@
    ||| w == "for"@
    ||| w == "while"@
    ||| w == "break"@
    ||| w == "continue"@
    ||| w == "in"@
    ||| w == "match"@
    ||| w == "let"@
    ||| w == "mut"@
    ||| w == "where"@
    ||| w == "loop"@
    ||| w == "pub"@
    ||| w == "mod"@
    ||| w == "use"@
    ||| w == "as"@
    ||| w == "type"@
    ||| w == "trait"@
    ||| w == "enum"@
    ||| w == "struct"@
    ||| w == "impl"@
    ||| w == "self"@
    ||| w == "Self"@
    ||| w == "requires"@
    ||| w == "ensures"@
    ||| w == "invariant"@
    ||| w == "assert"@
    ||| w == "assume"@
    ||| w == "ghost"@
    ||| w == "effect"@
    ||| w == "handler"@
    ||| w == "do"@
    ||| w == "try"@
    ||| w == "catch"@
    ||| w == "throw"@
}

/// The three regime markers.
pub open spec fn is_regime(w: Seq<char>) -> bool {
    w == "K"@ || w == "Q"@ || w == "Φ"@
}

pub open spec fn is_boolean(w: Seq<char>) -> bool {
    w == "true"@ || w == "false"@
}

/// The token a word stands for: a keyword before a regime marker, a regime
/// marker before a boolean, an identifier otherwise.
pub open spec fn classify(w: Seq<char>) -> Lexeme {
    if is_keyword(w) {
        Lexeme::Keyword(w)
    } else if is_regime(w) {
        Lexeme::Regime(w)
    } else if is_boolean(w) {
        Lexeme::BoolLit(w)
    } else {
        Lexeme::Ident(w)
    }
}

} // verus!
