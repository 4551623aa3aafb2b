//! The printer: from tokens to canonical text.

use vstd::prelude::*;
use crate::laws::text_ends_with_empty_line;
use crate::render::{
    alone, comment_lines, finish, flush, initial, render, run, space_between, step, written,
    PrintState,
};
use crate::text::{
    append_chars, chars_of, join_lines, push_indentation, same_text, split_lines, string_of,
    trim_end,
};
use crate::token::{lexemes, Lexeme, Token};

verus! {

/// The printer at work: the finished lines, already joined, and the
/// state that decides where the next token goes.
pub struct Printer<'a> {
    /// The finished lines, joined by line breaks.
    text: Vec<char>,
    /// Whether there is a finished line.
    started: bool,
    /// Whether the last finished line is empty.
    last_empty: bool,
    lines: Ghost<Seq<Seq<char>>>,
    current: Vec<char>,
    depth: usize,
    pending: bool,
    prev: Option<&'a Token>,
}

impl<'a> View for Printer<'a> {
    type V = PrintState;

    closed spec fn view(&self) -> PrintState {
        PrintState {
            lines: self.lines@,
            current: self.current@,
            depth: self.depth as nat,
            pending: self.pending,
            prev: match self.prev {
                Some(t) => Some(t@),
                None => None,
            },
        }
    }
}

/// Appends `line` to a text of joined lines; `started` says whether the
/// text holds a line already.
fn add_line(text: &mut Vec<char>, started: bool, line: &Vec<char>)
    ensures
        final(text)@ == if started {
            old(text)@ + seq!['\n'] + line@
        } else {
            old(text)@ + line@
        },
{
    if started {
        text.push('\n');
    }
    append_chars(text, line);
}

/// Whether a space separates `tok` from the token before it.
fn needs_space(prev: Option<&Token>, tok: &Token) -> (b: bool)
    ensures
        b == space_between(
            match prev {
                Some(p) => Some(p@),
                None => None,
            },
            tok@,
        ),
{
    let left = match tok {
        Token::Delim(c) => *c == ',' || *c == ':' || *c == ')' || *c == ']' || *c == '.' || *c
            == '(',
        Token::Op(op) => same_text(op.as_str(), "::"),
        _ => false,
    };
    match prev {
        Some(p) => {
            let right = match p {
                Token::Delim(c) => *c == '(' || *c == '[',
                Token::Op(op) => same_text(op.as_str(), "::"),
                _ => false,
            };
            !left && !right
        },
        None => false,
    }
}

impl<'a> Printer<'a> {
    /// The printer's data are consistent: the text is the finished lines,
    /// joined.
    pub closed spec fn wf(&self) -> bool {
        &&& self.text@ == join_lines(self.lines@)
        &&& self.started == (self.lines@.len() > 0)
        &&& self.started ==> self.last_empty == (self.lines@.last().len() == 0)
    }

    /// A printer that has seen no token.
    pub fn new() -> (p: Printer<'a>)
        ensures
            p.wf(),
            p@ == initial(),
    {
        Printer {
            text: Vec::new(),
            started: false,
            last_empty: false,
            lines: Ghost(Seq::empty()),
            current: Vec::new(),
            depth: 0,
            pending: false,
            prev: None,
        }
    }

    /// Adds `line` to the finished lines.
    fn push_line(&mut self, line: &Vec<char>)
        requires
            old(self).wf(),
        ensures
            final(self).wf(),
            final(self)@ == (PrintState { lines: old(self)@.lines.push(line@), ..old(self)@ }),
    {
        add_line(&mut self.text, self.started, line);
        proof {
            let before = self.lines@;
            let after = before.push(line@);
            assert(after.drop_last() =~= before);
            assert(before.len() == 0 ==> join_lines(before) =~= Seq::<char>::empty());
            assert(self.text@ =~= join_lines(after));
            self.lines@ = after;
        }
        self.started = true;
        self.last_empty = line.len() == 0;
    }

    /// Ends the line in progress.
    fn flush_line(&mut self)
        requires
            old(self).wf(),
        ensures
            final(self).wf(),
            final(self)@ == flush(old(self)@),
    {
        if self.current.len() > 0 {
            let mut line: Vec<char> = Vec::new();
            core::mem::swap(&mut line, &mut self.current);
            trim_end(&mut line);
            self.push_line(&line);
        }
        self.pending = false;
        assert(self.current@ =~= Seq::<char>::empty());
    }

    /// Puts `content`, indented, on a line of its own.
    fn print_alone(&mut self, content: &Vec<char>)
        requires
            old(self).wf(),
        ensures
            final(self).wf(),
            final(self)@ == alone(old(self)@, content@),
    {
        self.flush_line();
        let mut line: Vec<char> = Vec::new();
        push_indentation(&mut line, self.depth);
        append_chars(&mut line, content);
        self.push_line(&line);
    }

    /// Puts each line of a block comment on a line of its own.
    fn print_block_comment(&mut self, text: &Vec<char>)
        requires
            old(self).wf(),
        ensures
            final(self).wf(),
            final(self)@ == (PrintState {
                lines: flush(old(self)@).lines + comment_lines(text@, old(self)@.depth),
                ..flush(old(self)@)
            }),
    {
        self.flush_line();
        let ghost base = self@;
        let mut segment: Vec<char> = Vec::new();
        let mut i: usize = 0;
        assert(text@.take(0) =~= Seq::<char>::empty());
        assert(comment_lines(text@.take(0), base.depth).drop_last() =~= Seq::<Seq<char>>::empty());
        while i < text.len()
            invariant
                self.wf(),
                i <= text.len(),
                split_lines(text@.take(i as int)).last() == segment@,
                self@ == (PrintState {
                    lines: base.lines + comment_lines(text@.take(i as int), base.depth).drop_last(),
                    ..base
                }),
            decreases text.len() - i,
        {
            let ghost seen = text@.take(i as int);
            let ghost more = text@.take(i + 1);
            assert(more.drop_last() =~= seen);
            assert(more.last() == text@[i as int]);
            let c = text[i];
            if c == '\n' {
                trim_end(&mut segment);
                let mut line: Vec<char> = Vec::new();
                push_indentation(&mut line, self.depth);
                append_chars(&mut line, &segment);
                self.push_line(&line);
                segment = Vec::new();
                assert(comment_lines(more, base.depth).drop_last() =~= comment_lines(
                    seen,
                    base.depth,
                ).drop_last().push(line@));
                assert(self@.lines =~= base.lines + comment_lines(more, base.depth).drop_last());
            } else {
                segment.push(c);
                assert(comment_lines(more, base.depth).drop_last() =~= comment_lines(
                    seen,
                    base.depth,
                ).drop_last());
            }
            i += 1;
        }
        assert(text@.take(i as int) =~= text@);
        trim_end(&mut segment);
        let mut line: Vec<char> = Vec::new();
        push_indentation(&mut line, self.depth);
        append_chars(&mut line, &segment);
        self.push_line(&line);
        assert(comment_lines(text@, base.depth) =~= comment_lines(
            text@,
            base.depth,
        ).drop_last().push(line@));
        assert(self@.lines =~= base.lines + comment_lines(text@, base.depth));
    }

    /// Takes one token.
    pub fn print(&mut self, tok: &'a Token)
        requires
            old(self).wf(),
            old(self)@.depth < usize::MAX,
        ensures
            final(self).wf(),
            final(self)@ == step(old(self)@, tok@),
    {
        match tok {
            Token::Newline => {},
            Token::Skip => {},
            Token::Comment(text) => {
                let mut content = chars_of(text.as_str());
                trim_end(&mut content);
                self.print_alone(&content);
                self.prev = Some(tok);
            },
            Token::BlockComment(text) => {
                let content = chars_of(text.as_str());
                self.print_block_comment(&content);
                self.prev = Some(tok);
            },
            Token::Unknown(c) => {
                let mut content: Vec<char> = Vec::new();
                content.push(*c);
                self.print_alone(&content);
                self.prev = Some(tok);
            },
            Token::Delim(c) => {
                if *c == '{' {
                    if self.current.len() > 0 {
                        self.current.push(' ');
                    } else {
                        push_indentation(&mut self.current, self.depth);
                    }
                    self.current.push('{');
                    self.flush_line();
                    self.depth += 1;
                    self.prev = Some(tok);
                } else if *c == '}' {
                    if self.depth > 0 {
                        self.depth -= 1;
                    }
                    let mut content: Vec<char> = Vec::new();
                    content.push('}');
                    self.print_alone(&content);
                    self.pending = true;
                    self.prev = Some(tok);
                } else if *c == ';' {
                    self.current.push(';');
                    self.flush_line();
                    self.pending = true;
                    self.prev = Some(tok);
                } else {
                    let mut content: Vec<char> = Vec::new();
                    content.push(*c);
                    self.write(tok, &content);
                }
            },
            Token::Ident(s) | Token::Keyword(s) | Token::Regime(s) | Token::Number(s)
            | Token::BoolLit(s) | Token::StringLit(s) | Token::Op(s) => {
                let content = chars_of(s.as_str());
                self.write(tok, &content);
            },
        }
    }

    /// Writes an ordinary token, whose text is `content`, to the line in
    /// progress.
    fn write(&mut self, tok: &'a Token, content: &Vec<char>)
        requires
            old(self).wf(),
            content@ == tok@.text(),
            !tok@.discardable(),
            !(tok@ is Comment) && !(tok@ is BlockComment) && !(tok@ is Unknown),
            tok@ != Lexeme::Delim('{') && tok@ != Lexeme::Delim('}') && tok@ != Lexeme::Delim(';'),
        ensures
            final(self).wf(),
            final(self)@ == step(old(self)@, tok@),
    {
        if self.pending {
            self.flush_line();
        }
        let ghost fresh = self@;
        if self.current.len() == 0 {
            push_indentation(&mut self.current, self.depth);
        } else if needs_space(self.prev, tok) && self.current[self.current.len() - 1] != ' ' {
            self.current.push(' ');
        }
        append_chars(&mut self.current, content);
        match tok {
            Token::Delim(c) => {
                if *c == ',' || *c == ':' {
                    self.current.push(' ');
                }
            },
            _ => {},
        }
        self.prev = Some(tok);
        assert(self.current@ =~= written(fresh, tok@));
    }

    /// Ends the text: the finished lines, closed by an empty one, joined.
    pub fn finish(self) -> (text: String)
        requires
            self.wf(),
        ensures
            text@ == join_lines(finish(self@)),
    {
        let mut printer = self;
        printer.flush_line();
        if !printer.started || !printer.last_empty {
            let empty: Vec<char> = Vec::new();
            printer.push_line(&empty);
        }
        string_of(&printer.text, 0, printer.text.len())
    }
}

/// Formats a sequence of tokens into canonical source text: the text
/// that the printer's fold over the tokens gives. It is empty or ends in
/// a line break.
pub fn format_tokens(tokens: &[Token]) -> (text: String)
    ensures
        text@ == render(lexemes(tokens@)),
        text@.len() == 0 || text@.last() == '\n',
{
    let mut printer = Printer::new();
    let mut i: usize = 0;
    assert(lexemes(tokens@).take(0) =~= Seq::<Lexeme>::empty());
    while i < tokens.len()
        invariant
            i <= tokens.len(),
            printer.wf(),
            printer@.depth <= i,
            printer@ == run(initial(), lexemes(tokens@).take(i as int)),
        decreases tokens.len() - i,
    {
        let ghost seen = lexemes(tokens@).take(i as int);
        let ghost more = lexemes(tokens@).take(i + 1);
        assert(more.drop_last() =~= seen);
        assert(more.last() == tokens@[i as int]@);
        printer.print(&tokens[i]);
        i += 1;
    }
    assert(lexemes(tokens@).take(i as int) =~= lexemes(tokens@));
    proof {
        text_ends_with_empty_line(lexemes(tokens@));
    }
    printer.finish()
}

} // verus!
