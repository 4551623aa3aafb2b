//! What the printer computes, stated as a fold of its state over the
//! tokens.

use vstd::prelude::*;
use crate::text::{indentation, join_lines, split_lines, trimmed};
use crate::token::Lexeme;

verus! {

/// The state of the printer between two tokens.
pub struct PrintState {
    /// The finished lines, first to last.
    pub lines: Seq<Seq<char>>,
    /// The line in progress.
    pub current: Seq<char>,
    /// The nesting depth: how many braces are open.
    pub depth: nat,
    /// Set after `;` and `}`: the next token starts a line.
    pub pending: bool,
    /// The token before, once there is one.
    pub prev: Option<Lexeme>,
}

/// The state before the first token.
pub open spec fn initial() -> PrintState {
    PrintState {
        lines: Seq::empty(),
        current: Seq::empty(),
        depth: 0,
        pending: false,
        prev: None,
    }
}

/// Ends the line in progress: unless it is empty, it joins the finished
/// lines without its trailing whitespace.
pub open spec fn flush(st: PrintState) -> PrintState {
    PrintState {
        lines: if st.current.len() > 0 {
            st.lines.push(trimmed(st.current))
        } else {
            st.lines
        },
        current: Seq::empty(),
        pending: false,
        ..st
    }
}

/// Ends the line in progress and puts `content` on a line of its own, at
/// the current depth.
pub open spec fn alone(st: PrintState, content: Seq<char>) -> PrintState {
    let flushed = flush(st);
    PrintState { lines: flushed.lines.push(indentation(flushed.depth) + content), ..flushed }
}

/// The lines of a block comment at `depth`: one for each line of its text,
/// without trailing whitespace, each indented anew.
pub open spec fn comment_lines(text: Seq<char>, depth: nat) -> Seq<Seq<char>> {
    split_lines(text).map_values(|line: Seq<char>| indentation(depth) + trimmed(line))
}

/// Tokens that bind to what stands before them.
pub open spec fn binds_left(t: Lexeme) -> bool {
    ||| t == Lexeme::Delim(',')
    ||| t == Lexeme::Delim(':')
    ||| t == Lexeme::Delim(')')
    ||| t == Lexeme::Delim(']')
    ||| t == Lexeme::Delim('.')
    ||| t == Lexeme::Delim('(')
    ||| t == Lexeme::Op("::"@)
}

/// Tokens that bind to what stands after them.
pub open spec fn binds_right(t: Lexeme) -> bool {
    ||| t == Lexeme::Delim('(')
    ||| t == Lexeme::Delim('[')
    ||| t == Lexeme::Op("::"@)
}

/// Whether a space separates `t` from the token `prev` before it on the
/// same line: always, unless one of the two binds to the other.
pub open spec fn space_between(prev: Option<Lexeme>, t: Lexeme) -> bool {
    match prev {
        Some(p) => !binds_left(t) && !binds_right(p),
        None => false,
    }
}

/// What an ordinary token adds to the line in progress: a new line starts
/// at its indentation; on a line already begun, a space comes first where
/// the two tokens ask for one and none stands there yet; `,` and `:` are
/// followed by a space.
pub open spec fn written(st: PrintState, t: Lexeme) -> Seq<char> {
    let begun = if st.current.len() == 0 {
        indentation(st.depth)
    } else if space_between(st.prev, t) && st.current.last() != ' ' {
        st.current.push(' ')
    } else {
        st.current
    };
    if t == Lexeme::Delim(',') || t == Lexeme::Delim(':') {
        (begun + t.text()).push(' ')
    } else {
        begun + t.text()
    }
}

/// The state after one more token.
pub open spec fn step(st: PrintState, t: Lexeme) -> PrintState {
    match t {
        Lexeme::Newline | Lexeme::Skip => st,
        Lexeme::Comment(text) => PrintState { prev: Some(t), ..alone(st, trimmed(text)) },
        Lexeme::BlockComment(text) => {
            let flushed = flush(st);
            PrintState {
                lines: flushed.lines + comment_lines(text, flushed.depth),
                prev: Some(t),
                ..flushed
            }
        },
        Lexeme::Unknown(c) => PrintState { prev: Some(t), ..alone(st, seq![c]) },
        Lexeme::Delim('{') => {
            let head = if st.current.len() > 0 {
                st.current.push(' ')
            } else {
                indentation(st.depth)
            };
            let flushed = flush(PrintState { current: head.push('{'), ..st });
            PrintState { depth: st.depth + 1, prev: Some(t), ..flushed }
        },
        Lexeme::Delim('}') => {
            let shallower = PrintState {
                depth: if st.depth > 0 {
                    (st.depth - 1) as nat
                } else {
                    0
                },
                ..st
            };
            PrintState { pending: true, prev: Some(t), ..alone(shallower, seq!['}']) }
        },
        Lexeme::Delim(';') => {
            let flushed = flush(PrintState { current: st.current.push(';'), ..st });
            PrintState { pending: true, prev: Some(t), ..flushed }
        },
        _ => {
            let fresh = if st.pending {
                flush(st)
            } else {
                st
            };
            PrintState { current: written(fresh, t), prev: Some(t), ..fresh }
        },
    }
}

/// The state after the tokens `ts`, starting from `st`.
pub open spec fn run(st: PrintState, ts: Seq<Lexeme>) -> PrintState
    decreases ts.len(),
{
    if ts.len() == 0 {
        st
    } else {
        step(run(st, ts.drop_last()), ts.last())
    }
}

/// The lines of the finished text: the line in progress ended, and an
/// empty line at the end unless one is there.
pub open spec fn finish(st: PrintState) -> Seq<Seq<char>> {
    let lines = flush(st).lines;
    if lines.len() == 0 || lines.last().len() > 0 {
        lines.push(Seq::empty())
    } else {
        lines
    }
}

/// The lines that the tokens `ts` are printed as.
pub open spec fn rendered_lines(ts: Seq<Lexeme>) -> Seq<Seq<char>> {
    finish(run(initial(), ts))
}

/// The canonical text of the tokens `ts`.
pub open spec fn render(ts: Seq<Lexeme>) -> Seq<char> {
    join_lines(rendered_lines(ts))
}

} // verus!
