//! Texts without trailing whitespace, and the tokens that the printer
//! turns into such a text.

use vstd::prelude::*;
use crate::lines::{lemma_split_unbroken, lemma_trimmed_is_prefix, unbroken};
use crate::render::{alone, comment_lines, flush, step, written, PrintState};
use crate::text::{indentation, is_space, join_lines, split_lines, trimmed};
use crate::token::Lexeme;

verus! {

/// No line of `x` but the last ends in whitespace: no line break comes
/// directly after a whitespace character other than a line break.
pub open spec fn tidy(x: Seq<char>) -> bool {
    forall|i: int| 0 < i < x.len() && #[trigger] x[i] == '\n' ==> !is_space(x[i - 1]) || x[i - 1]
        == '\n'
}

/// `x` is tidy and does not start with a line break: it stays tidy
/// behind any text.
pub open spec fn tidy_inside(x: Seq<char>) -> bool {
    tidy(x) && (x.len() > 0 ==> x[0] != '\n')
}

/// `x` does not end in whitespace, unless in a line break.
pub open spec fn ends_tidy(x: Seq<char>) -> bool {
    x.len() == 0 || !is_space(x.last()) || x.last() == '\n'
}

/// A line that may stand in a tidy text.
pub open spec fn line_ok(line: Seq<char>) -> bool {
    tidy(line) && ends_tidy(line)
}

/// All lines may stand in a tidy text.
pub open spec fn lines_ok(lines: Seq<Seq<char>>) -> bool {
    forall|k: int| 0 <= k < lines.len() ==> line_ok(#[trigger] lines[k])
}

/// The trimmed form of a tidy text may stand as a line.
pub(crate) proof fn lemma_trimmed_line_ok(c: Seq<char>)
    requires
        tidy(c),
    ensures
        line_ok(trimmed(c)),
{
    lemma_trimmed_is_prefix(c);
    let t = trimmed(c);
    assert forall|i: int| 0 < i < t.len() && #[trigger] t[i] == '\n' implies !is_space(t[i - 1])
        || t[i - 1] == '\n' by {
        assert(t[i] == c[i]);
        assert(t[i - 1] == c[i - 1]);
    }
}

/// A tidy text stays tidy when a text that is tidy inside follows it.
pub(crate) proof fn lemma_tidy_concat(a: Seq<char>, b: Seq<char>)
    requires
        tidy(a),
        tidy_inside(b),
    ensures
        tidy(a + b),
        a.len() > 0 && a[0] != '\n' ==> (a + b)[0] != '\n',
{
    let x = a + b;
    assert forall|i: int| 0 < i < x.len() && #[trigger] x[i] == '\n' implies !is_space(x[i - 1])
        || x[i - 1] == '\n' by {
        if i < a.len() {
            assert(x[i] == a[i]);
            assert(x[i - 1] == a[i - 1]);
        } else {
            assert(x[i] == b[i - a.len()]);
            assert(i - a.len() > 0);
            assert(x[i - 1] == b[i - a.len() - 1]);
        }
    }
}

/// An indentation has no line break.
pub(crate) proof fn lemma_indentation_unbroken(depth: nat)
    ensures
        unbroken(indentation(depth)),
        tidy_inside(indentation(depth)),
        depth == 0 ==> indentation(depth).len() == 0,
{
}

/// An indented text that is tidy inside, and ends tidy unless it is
/// empty at a depth other than zero, may stand as a line.
pub(crate) proof fn lemma_indented_line_ok(depth: nat, content: Seq<char>)
    requires
        tidy_inside(content),
        content.len() == 0 || !is_space(content.last()),
        content.len() > 0 || depth == 0,
    ensures
        line_ok(indentation(depth) + content),
{
    lemma_indentation_unbroken(depth);
    lemma_tidy_concat(indentation(depth), content);
    let line = indentation(depth) + content;
    if content.len() > 0 {
        assert(line.last() == content.last());
    } else {
        assert(line.len() == 0);
    }
}

/// Lines that may stand in a tidy text, joined, are a tidy text that ends
/// tidy.
pub(crate) proof fn lemma_join_tidy(lines: Seq<Seq<char>>)
    requires
        lines_ok(lines),
    ensures
        tidy(join_lines(lines)),
        ends_tidy(join_lines(lines)),
    decreases lines.len(),
{
    if lines.len() > 1 {
        let before = lines.drop_last();
        assert forall|k: int| 0 <= k < before.len() implies line_ok(#[trigger] before[k]) by {
            assert(before[k] == lines[k]);
        }
        lemma_join_tidy(before);
        let a = join_lines(before);
        let l = lines.last();
        assert(line_ok(lines[lines.len() - 1]));
        let x = a + seq!['\n'] + l;
        assert forall|i: int| 0 < i < x.len() && #[trigger] x[i] == '\n' implies !is_space(
            x[i - 1],
        ) || x[i - 1] == '\n' by {
            if i < a.len() {
                assert(x[i] == a[i]);
                assert(x[i - 1] == a[i - 1]);
            } else if i == a.len() {
                assert(x[i - 1] == a.last());
            } else if i == a.len() + 1 {
                assert(x[i - 1] == '\n');
            } else {
                assert(x[i] == l[i - a.len() - 1]);
                assert(x[i - 1] == l[i - a.len() - 2]);
            }
        }
        if l.len() > 0 {
            assert(x.last() == l.last());
        } else {
            assert(x.last() == '\n');
        }
    } else if lines.len() == 1 {
        assert(line_ok(lines[0]));
    }
}

/// A text without a line break is tidy inside, and so is its trimmed
/// form.
pub(crate) proof fn lemma_unbroken_tidy(s: Seq<char>)
    requires
        unbroken(s),
    ensures
        tidy_inside(s),
        tidy_inside(trimmed(s)),
{
    lemma_trimmed_is_prefix(s);
    let t = trimmed(s);
    assert forall|i: int| 0 <= i < t.len() implies #[trigger] t[i] != '\n' by {
        assert(t[i] == s[i]);
    }
}

/// What the printer asks of a token met at `depth`, to print no line
/// that ends in whitespace: no stray character is whitespace; no text
/// holds a line break at its start or after whitespace; a comment has no
/// line that is blank, unless it stands at depth zero.
pub open spec fn neat(t: Lexeme, depth: nat) -> bool {
    match t {
        Lexeme::Newline | Lexeme::Skip => true,
        Lexeme::Comment(s) => tidy_inside(trimmed(s)) && (trimmed(s).len() > 0 || depth == 0),
        Lexeme::BlockComment(s) => forall|k: int|
            0 <= k < split_lines(s).len() ==> trimmed(#[trigger] split_lines(s)[k]).len() > 0
                || depth == 0,
        Lexeme::Unknown(c) => !is_space(c),
        _ => tidy_inside(t.text()),
    }
}

/// What holds of the printer's state while every line is tidy.
pub open spec fn keeps_tidy(st: PrintState) -> bool {
    lines_ok(st.lines) && tidy(st.current)
}

/// Ending the line in progress keeps every line tidy.
proof fn lemma_flush_keeps_tidy(st: PrintState)
    requires
        keeps_tidy(st),
    ensures
        keeps_tidy(flush(st)),
{
    lemma_trimmed_line_ok(st.current);
    let after = flush(st).lines;
    assert forall|k: int| 0 <= k < after.len() implies line_ok(#[trigger] after[k]) by {
        if k < st.lines.len() {
            assert(after[k] == st.lines[k]);
        }
    }
}

/// A tidy line of its own keeps every line tidy.
proof fn lemma_alone_keeps_tidy(st: PrintState, content: Seq<char>)
    requires
        keeps_tidy(st),
        line_ok(indentation(st.depth) + content),
    ensures
        keeps_tidy(alone(st, content)),
{
    lemma_flush_keeps_tidy(st);
    let before = flush(st).lines;
    let after = alone(st, content).lines;
    assert forall|k: int| 0 <= k < after.len() implies line_ok(#[trigger] after[k]) by {
        if k < before.len() {
            assert(after[k] == before[k]);
        }
    }
}

/// A neat block comment keeps every line tidy.
proof fn lemma_block_comment_keeps_tidy(st: PrintState, s: Seq<char>)
    requires
        keeps_tidy(st),
        neat(Lexeme::BlockComment(s), st.depth),
    ensures
        keeps_tidy(step(st, Lexeme::BlockComment(s))),
{
    lemma_flush_keeps_tidy(st);
    lemma_split_unbroken(s);
    let before = flush(st).lines;
    let added = comment_lines(s, st.depth);
    let after = before + added;
    assert forall|k: int| 0 <= k < after.len() implies line_ok(#[trigger] after[k]) by {
        if k < before.len() {
            assert(after[k] == before[k]);
        } else {
            let j = k - before.len();
            let segment = split_lines(s)[j];
            assert(after[k] == added[j]);
            assert(added[j] == indentation(st.depth) + trimmed(segment));
            assert(unbroken(segment));
            lemma_unbroken_tidy(segment);
            lemma_trimmed_is_prefix(segment);
            lemma_indented_line_ok(st.depth, trimmed(segment));
        }
    }
}

/// A text that is tidy inside keeps the line in progress tidy.
proof fn lemma_written_keeps_tidy(st: PrintState, t: Lexeme)
    requires
        tidy(st.current),
        tidy_inside(t.text()),
    ensures
        tidy(written(st, t)),
{
    lemma_indentation_unbroken(st.depth);
    let begun = if st.current.len() == 0 {
        indentation(st.depth)
    } else if crate::render::space_between(st.prev, t) && st.current.last() != ' ' {
        st.current.push(' ')
    } else {
        st.current
    };
    assert(tidy_inside(seq![' ']));
    if st.current.len() > 0 {
        lemma_tidy_concat(st.current, seq![' ']);
        assert(st.current.push(' ') =~= st.current + seq![' ']);
    }
    assert(tidy(begun));
    lemma_tidy_concat(begun, t.text());
    lemma_tidy_concat(begun + t.text(), seq![' ']);
    assert((begun + t.text()).push(' ') =~= begun + t.text() + seq![' ']);
}

/// A step on a neat token keeps every line tidy.
pub(crate) proof fn lemma_step_keeps_tidy(st: PrintState, t: Lexeme)
    requires
        keeps_tidy(st),
        neat(t, st.depth),
    ensures
        keeps_tidy(step(st, t)),
{
    match t {
        Lexeme::Newline | Lexeme::Skip => {},
        Lexeme::Comment(s) => {
            lemma_trimmed_is_prefix(s);
            lemma_indented_line_ok(st.depth, trimmed(s));
            lemma_alone_keeps_tidy(st, trimmed(s));
        },
        Lexeme::BlockComment(s) => {
            lemma_block_comment_keeps_tidy(st, s);
        },
        Lexeme::Unknown(c) => {
            lemma_indented_line_ok(st.depth, seq![c]);
            lemma_alone_keeps_tidy(st, seq![c]);
        },
        Lexeme::Delim(c) => {
            if c == '{' {
                let head = if st.current.len() > 0 {
                    st.current.push(' ')
                } else {
                    indentation(st.depth)
                };
                lemma_indentation_unbroken(st.depth);
                assert(tidy_inside(seq![' ']));
                assert(tidy_inside(seq!['{']));
                if st.current.len() > 0 {
                    lemma_tidy_concat(st.current, seq![' ']);
                    assert(st.current.push(' ') =~= st.current + seq![' ']);
                }
                lemma_tidy_concat(head, seq!['{']);
                assert(head.push('{') =~= head + seq!['{']);
                lemma_flush_keeps_tidy(PrintState { current: head.push('{'), ..st });
            } else if c == '}' {
                let shallower = PrintState {
                    depth: if st.depth > 0 {
                        (st.depth - 1) as nat
                    } else {
                        0
                    },
                    ..st
                };
                lemma_indented_line_ok(shallower.depth, seq!['}']);
                lemma_alone_keeps_tidy(shallower, seq!['}']);
            } else if c == ';' {
                assert(tidy_inside(seq![';']));
                lemma_tidy_concat(st.current, seq![';']);
                assert(st.current.push(';') =~= st.current + seq![';']);
                lemma_flush_keeps_tidy(PrintState { current: st.current.push(';'), ..st });
            } else {
                lemma_flush_keeps_tidy(st);
                let fresh = if st.pending {
                    flush(st)
                } else {
                    st
                };
                lemma_written_keeps_tidy(fresh, t);
            }
        },
        _ => {
            lemma_flush_keeps_tidy(st);
            let fresh = if st.pending {
                flush(st)
            } else {
                st
            };
            lemma_written_keeps_tidy(fresh, t);
        },
    }
}

} // verus!
