//! The printer on tokens of lexical shape: what each token adds to the
//! text, and what stays true of the state between tokens.

use vstd::prelude::*;
use crate::comments::{lemma_tidied_comment, lemma_tidied_one_line, tidied, trimmed_lines};
use crate::lines::{
    ends_clean, lemma_join_concat, lemma_join_extend, lemma_join_push, lemma_join_split,
    lemma_split_one_line, lemma_trimmed_clean, lemma_trimmed_is_prefix, lemma_trimmed_keeps,
    unbroken,
};
use crate::render::{
    alone, binds_left, binds_right, comment_lines, flush, space_between, step, written,
    PrintState,
};
use crate::scan::{is_digit, is_word_char};
use crate::shape::{clear, is_numeral, lemma_number_ends_in_digit, lexical};
use crate::text::{indentation, join_lines, split_lines, trimmed};
use crate::token::Lexeme;

verus! {

/// The tokens that are written into the line in progress: all but
/// comments, stray characters, braces and `;`.
pub open spec fn ordinary(t: Lexeme) -> bool {
    &&& !t.discardable()
    &&& !(t is Comment) && !(t is BlockComment) && !(t is Unknown)
    &&& t != Lexeme::Delim('{') && t != Lexeme::Delim('}') && t != Lexeme::Delim(';')
}

/// `,` and `:`, which are followed by a space.
pub open spec fn trails(t: Lexeme) -> bool {
    t == Lexeme::Delim(',') || t == Lexeme::Delim(':')
}

/// The token as it stands in the printed text: a comment without
/// whitespace at the end of its lines, any other token as it is.
pub open spec fn shown(t: Lexeme) -> Lexeme {
    match t {
        Lexeme::Comment(s) => Lexeme::Comment(trimmed(s)),
        Lexeme::BlockComment(s) => Lexeme::BlockComment(tidied(s)),
        _ => t,
    }
}

/// The tokens as they stand in the printed text.
pub open spec fn shown_all(ts: Seq<Lexeme>) -> Seq<Lexeme> {
    ts.map_values(|t: Lexeme| shown(t))
}

/// A block comment whose lines the printer, at `depth`, leaves where
/// they are: one on a single line, or one at depth zero.
pub open spec fn block_stays(t: Lexeme, depth: nat) -> bool {
    match t {
        Lexeme::BlockComment(s) => unbroken(s) || depth == 0,
        _ => true,
    }
}

/// A token of lexical shape that the printer, at `depth`, writes so that
/// it is read back.
pub open spec fn printable(t: Lexeme, depth: nat) -> bool {
    lexical(t) && !t.discardable() && block_stays(t, depth)
}

/// A token of lexical shape has one as it stands in the printed text.
pub(crate) proof fn lemma_shown_lexical(t: Lexeme)
    requires
        lexical(t),
    ensures
        lexical(shown(t)),
        shown(t).discardable() == t.discardable(),
        shown(t).text().len() > 0,
        forall|c: char| clear(shown(t), c) == clear(t, c),
{
    match t {
        Lexeme::Comment(s) => {
            lemma_trimmed_keeps(s, 1);
            lemma_trimmed_is_prefix(s);
            let kept = trimmed(s);
            assert forall|k: int| 0 <= k < kept.len() implies #[trigger] kept[k] != '\n' by {
                assert(kept[k] == s[k]);
            }
            assert(kept[0] == s[0]);
            assert(kept[1] == s[1]);
        },
        Lexeme::BlockComment(s) => {
            lemma_tidied_comment(s);
        },
        _ => {},
    }
}

/// The text of an ordinary token ends clean.
pub(crate) proof fn lemma_text_ends_clean(t: Lexeme)
    requires
        lexical(t),
        ordinary(t),
    ensures
        ends_clean(t.text()),
{
    match t {
        Lexeme::Number(s) => {
            if is_numeral(s) {
                lemma_number_ends_in_digit(s, 1, false);
                assert(is_digit(s.last()));
            } else {
                assert(s.last() == '\'');
            }
        },
        Lexeme::Ident(w) | Lexeme::Keyword(w) | Lexeme::Regime(w) | Lexeme::BoolLit(w) => {
            assert(is_word_char(w[w.len() - 1]));
        },
        Lexeme::StringLit(s) => {
            crate::scan::lemma_string_len_bound(s, 1);
        },
        _ => {},
    }
}

/// What holds of the printer's state between two tokens of lexical
/// shape.
pub open spec fn steady(st: PrintState) -> bool {
    &&& st.pending ==> st.current.len() == 0
    &&& st.current.len() > 0 ==> {
        &&& st.prev matches Some(p)
        &&& ordinary(p)
        &&& lexical(p)
        &&& if trails(p) {
            st.current.last() == ' ' && ends_clean(st.current.drop_last())
        } else {
            ends_clean(st.current)
        }
    }
    &&& st.prev is Some ==> flush(st).lines.len() > 0 && flush(st).lines.last().len() > 0
    &&& st.prev is None ==> st.lines.len() == 0 && st.current.len() == 0
}

/// The text printed so far: the finished lines and the line in progress,
/// joined.
pub open spec fn emitted(st: PrintState) -> Seq<char> {
    join_lines(flush(st).lines)
}

/// The line break that starts a new line, unless it is the first.
pub open spec fn line_break(st: PrintState) -> Seq<char> {
    if flush(st).lines.len() > 0 {
        seq!['\n']
    } else {
        Seq::empty()
    }
}

/// The space that the line in progress ends in, after `,` or `:`.
pub open spec fn trail(st: PrintState) -> Seq<char> {
    if st.current.len() > 0 && st.current.last() == ' ' {
        seq![' ']
    } else {
        Seq::empty()
    }
}

/// What stands in the text between the token before and the token `t`.
pub open spec fn gap(st: PrintState, t: Lexeme) -> Seq<char> {
    match t {
        Lexeme::Comment(_) | Lexeme::BlockComment(_) | Lexeme::Unknown(_) => line_break(st)
            + indentation(st.depth),
        Lexeme::Delim('}') => line_break(st) + indentation(
            if st.depth > 0 {
                (st.depth - 1) as nat
            } else {
                0
            },
        ),
        Lexeme::Delim('{') => if st.current.len() > 0 {
            trail(st) + seq![' ']
        } else {
            line_break(st) + indentation(st.depth)
        },
        Lexeme::Delim(';') => if st.current.len() > 0 {
            trail(st)
        } else {
            line_break(st)
        },
        _ => if st.current.len() > 0 {
            if space_between(st.prev, t) && st.current.last() != ' ' {
                trail(st) + seq![' ']
            } else {
                trail(st)
            }
        } else {
            line_break(st) + indentation(st.depth)
        },
    }
}

/// The text in progress, trimmed, is what the flushed state ends with.
pub(crate) proof fn lemma_current_trimmed(st: PrintState)
    requires
        steady(st),
        st.current.len() > 0,
    ensures
        st.current == trimmed(st.current) + trail(st),
        ends_clean(trimmed(st.current)),
        flush(st).lines == st.lines.push(trimmed(st.current)),
{
    let p = st.prev->0;
    if trails(p) {
        let body = st.current.drop_last();
        assert(st.current =~= body.push(' '));
        lemma_trimmed_clean(body);
        assert(st.current =~= body + seq![' ']);
    } else {
        lemma_trimmed_clean(st.current);
        assert(st.current =~= st.current + Seq::<char>::empty());
    }
}

/// A line of its own adds a line break, its indentation and its content
/// to the text.
pub(crate) proof fn lemma_alone_emits(st: PrintState, content: Seq<char>)
    requires
        steady(st),
        content.len() > 0,
    ensures
        emitted(alone(st, content)) == emitted(st) + line_break(st) + indentation(st.depth)
            + content,
        alone(st, content).current.len() == 0,
        flush(alone(st, content)).lines.len() > 0,
        flush(alone(st, content)).lines.last().len() > 0,
{
    let flushed = flush(st);
    let line = indentation(st.depth) + content;
    lemma_join_push(flushed.lines, line);
    assert(flush(alone(st, content)).lines == flushed.lines.push(line));
    if flushed.lines.len() == 0 {
        assert(join_lines(flushed.lines) =~= Seq::<char>::empty());
        assert(line =~= emitted(st) + line_break(st) + indentation(st.depth) + content);
    } else {
        assert(join_lines(flushed.lines) + seq!['\n'] + line =~= emitted(st) + line_break(st)
            + indentation(st.depth) + content);
    }
}

/// A gap is made of spaces and line breaks.
pub open spec fn is_gap(g: Seq<char>) -> bool {
    forall|k: int| 0 <= k < g.len() ==> #[trigger] g[k] == ' ' || g[k] == '\n'
}

/// What a step from a steady state gives, for a printable token: the
/// state stays steady and remembers the token, the text grows by a gap
/// and the token as it is shown, and what now follows the token before
/// leaves that token clear.
pub open spec fn step_emits(st: PrintState, t: Lexeme) -> bool {
    let next = step(st, t);
    &&& steady(next)
    &&& next.prev == Some(t)
    &&& emitted(next) == emitted(st) + gap(st, t) + shown(t).text()
    &&& is_gap(gap(st, t))
    &&& st.prev matches Some(p) ==> clear(p, (gap(st, t) + shown(t).text())[0])
}

/// A line break leaves every token clear.
pub(crate) proof fn lemma_clear_at_line_break(p: Lexeme)
    ensures
        clear(p, '\n'),
{
}

/// A token put on a line of its own gives what [`step_emits`] says;
/// `shallower` is the state at the depth of that line.
proof fn lemma_alone_step(st: PrintState, t: Lexeme, content: Seq<char>, shallower: PrintState)
    requires
        steady(st),
        content.len() > 0,
        content == shown(t).text(),
        shallower == (PrintState { depth: shallower.depth, ..st }),
        step(st, t) == (PrintState {
            pending: step(st, t).pending,
            prev: Some(t),
            ..alone(shallower, content)
        }),
        gap(st, t) == line_break(st) + indentation(shallower.depth),
    ensures
        step_emits(st, t),
{
    assert(steady(shallower));
    lemma_alone_emits(shallower, content);
    let g = gap(st, t);
    assert(flush(shallower).lines == flush(st).lines);
    assert(emitted(step(st, t)) =~= emitted(st) + g + content);
    assert(flush(step(st, t)).lines == flush(alone(shallower, content)).lines);
    if st.prev is Some {
        assert(g[0] == '\n');
        lemma_clear_at_line_break(st.prev->0);
    }
}

/// An opening brace gives what [`step_emits`] says.
proof fn lemma_open_brace_step(st: PrintState)
    requires
        steady(st),
    ensures
        step_emits(st, Lexeme::Delim('{')),
{
    let t = Lexeme::Delim('{');
    let next = step(st, t);
    let g = gap(st, t);
    if st.current.len() > 0 {
        lemma_current_trimmed(st);
        let body = trimmed(st.current);
        let line = st.current.push(' ').push('{');
        lemma_trimmed_clean(line);
        assert(line =~= body + (g + t.text()));
        lemma_join_extend(st.lines, body, g + t.text());
        assert(next.lines == st.lines.push(line));
        assert(flush(next).lines == next.lines);
        assert(emitted(next) =~= emitted(st) + g + t.text());
    } else {
        let line = indentation(st.depth).push('{');
        lemma_trimmed_clean(line);
        lemma_join_push(st.lines, line);
        assert(next.lines == st.lines.push(line));
        assert(flush(next).lines == next.lines);
        assert(flush(st).lines == st.lines);
        if st.lines.len() == 0 {
            assert(join_lines(st.lines) =~= Seq::<char>::empty());
        }
        assert(emitted(next) =~= emitted(st) + g + t.text());
        if st.prev is Some {
            assert(g[0] == '\n');
        }
    }
}

/// A semicolon gives what [`step_emits`] says.
proof fn lemma_semicolon_step(st: PrintState)
    requires
        steady(st),
    ensures
        step_emits(st, Lexeme::Delim(';')),
{
    let t = Lexeme::Delim(';');
    let next = step(st, t);
    let g = gap(st, t);
    let line = st.current.push(';');
    lemma_trimmed_clean(line);
    assert(next.lines == st.lines.push(line));
    assert(flush(next).lines == next.lines);
    if st.current.len() > 0 {
        lemma_current_trimmed(st);
        let body = trimmed(st.current);
        assert(line =~= body + (g + t.text()));
        lemma_join_extend(st.lines, body, g + t.text());
        assert(emitted(next) =~= emitted(st) + g + t.text());
    } else {
        assert(line =~= t.text());
        lemma_join_push(st.lines, line);
        assert(flush(st).lines == st.lines);
        if st.lines.len() == 0 {
            assert(join_lines(st.lines) =~= Seq::<char>::empty());
        }
        assert(emitted(next) =~= emitted(st) + g + t.text());
    }
}

/// A token that binds to the one before it starts with a character that
/// leaves any ordinary token clear; a token that binds to the one after
/// it is clear whatever follows.
proof fn lemma_bound_tokens_clear(p: Lexeme, t: Lexeme)
    requires
        lexical(p),
        ordinary(p),
        !trails(p),
        lexical(t),
        ordinary(t),
        binds_left(t) || binds_right(p),
    ensures
        clear(p, t.text()[0]),
{
    reveal_strlit("::");
}

/// What an ordinary token starts from: the indentation on a new line,
/// the line in progress otherwise, with a space where one is due.
pub open spec fn begun(st: PrintState, t: Lexeme) -> Seq<char> {
    if st.current.len() == 0 {
        indentation(st.depth)
    } else if space_between(st.prev, t) && st.current.last() != ' ' {
        st.current.push(' ')
    } else {
        st.current
    }
}

/// An ordinary token of lexical shape is written behind what it starts
/// from, and that is the line once it is trimmed.
proof fn lemma_written_trimmed(st: PrintState, t: Lexeme)
    requires
        lexical(t),
        ordinary(t),
    ensures
        ends_clean(begun(st, t) + t.text()),
        trimmed(written(st, t)) == begun(st, t) + t.text(),
        written(st, t).len() > 0,
        trails(t) ==> written(st, t).last() == ' ' && written(st, t).drop_last() == begun(st, t)
            + t.text(),
        !trails(t) ==> written(st, t) == begun(st, t) + t.text(),
{
    lemma_text_ends_clean(t);
    let body = begun(st, t) + t.text();
    assert(body.last() == t.text().last());
    lemma_trimmed_clean(body);
    if trails(t) {
        assert(written(st, t) =~= body.push(' '));
        assert(written(st, t).drop_last() =~= body);
    } else {
        assert(written(st, t) =~= body);
    }
}

/// The text that an ordinary token adds to a line in progress.
proof fn lemma_ordinary_extends(st: PrintState, t: Lexeme)
    requires
        steady(st),
        st.current.len() > 0,
        lexical(t),
        ordinary(t),
    ensures
        begun(st, t) + t.text() == trimmed(st.current) + (gap(st, t) + t.text()),
        is_gap(gap(st, t)),
        clear(st.prev->0, (gap(st, t) + t.text())[0]),
{
    lemma_current_trimmed(st);
    lemma_text_ends_clean(t);
    let g = gap(st, t);
    assert(begun(st, t) + t.text() =~= trimmed(st.current) + (g + t.text()));
    if g.len() == 0 {
        lemma_bound_tokens_clear(st.prev->0, t);
    } else {
        assert(g[0] == ' ');
    }
}

/// The text that an ordinary token adds on a new line.
proof fn lemma_ordinary_starts(st: PrintState, t: Lexeme)
    requires
        steady(st),
        st.current.len() == 0,
        lexical(t),
        ordinary(t),
    ensures
        join_lines(st.lines.push(begun(st, t) + t.text())) == emitted(st) + gap(st, t) + t.text(),
        is_gap(gap(st, t)),
        st.prev matches Some(p) ==> clear(p, (gap(st, t) + t.text())[0]),
{
    let body = begun(st, t) + t.text();
    let g = gap(st, t);
    lemma_join_push(st.lines, body);
    assert(flush(st).lines == st.lines);
    if st.lines.len() == 0 {
        assert(join_lines(st.lines) =~= Seq::<char>::empty());
    }
    assert(join_lines(st.lines.push(body)) =~= emitted(st) + g + t.text());
    if st.prev is Some {
        assert(g[0] == '\n');
    }
}

/// An ordinary token gives what [`step_emits`] says.
proof fn lemma_ordinary_step(st: PrintState, t: Lexeme)
    requires
        steady(st),
        lexical(t),
        ordinary(t),
    ensures
        step_emits(st, t),
{
    let next = step(st, t);
    let fresh = if st.pending {
        flush(st)
    } else {
        st
    };
    assert(fresh.current =~= st.current);
    assert(fresh.lines == st.lines);
    assert(begun(fresh, t) == begun(st, t));
    assert(written(fresh, t) == written(st, t));
    lemma_written_trimmed(st, t);
    let body = begun(st, t) + t.text();
    assert(next.current == written(st, t));
    assert(next.lines == st.lines);
    assert(flush(next).lines == st.lines.push(body));
    assert(emitted(next) == join_lines(st.lines.push(body)));
    if st.current.len() > 0 {
        lemma_current_trimmed(st);
        lemma_ordinary_extends(st, t);
        lemma_join_extend(st.lines, trimmed(st.current), gap(st, t) + t.text());
        assert(emitted(next) =~= emitted(st) + gap(st, t) + t.text());
    } else {
        lemma_ordinary_starts(st, t);
    }
    assert(steady(next));
}

/// A block comment at depth zero is written with its lines trimmed.
proof fn lemma_block_lines_step(st: PrintState, s: Seq<char>)
    requires
        steady(st),
        st.depth == 0,
        lexical(Lexeme::BlockComment(s)),
    ensures
        step_emits(st, Lexeme::BlockComment(s)),
{
    let t = Lexeme::BlockComment(s);
    let next = step(st, t);
    let g = gap(st, t);
    let first = flush(st).lines;
    let more = trimmed_lines(s);
    lemma_tidied_comment(s);
    lemma_join_split(s);
    assert(indentation(0) =~= Seq::<char>::empty());
    assert(comment_lines(s, 0) =~= more) by {
        assert forall|k: int| 0 <= k < more.len() implies #[trigger] comment_lines(s, 0)[k]
            == more[k] by {
            assert(indentation(0) + trimmed(split_lines(s)[k]) =~= more[k]);
        }
    }
    assert(next.lines == first + more);
    assert(flush(next).lines == next.lines);
    assert((first + more).last() == more.last());
    assert(more.last() == split_lines(s).last());
    lemma_join_concat(first, more);
    if first.len() == 0 {
        assert(join_lines(first) =~= Seq::<char>::empty());
        assert(emitted(next) =~= emitted(st) + g + tidied(s));
    } else {
        assert(emitted(next) =~= emitted(st) + g + tidied(s));
    }
    if st.prev is Some {
        assert(g[0] == '\n');
    }
}

/// Every step from a steady state, on a token that is printable at the
/// depth of the state, gives what [`step_emits`] says.
pub(crate) proof fn lemma_step_emits(st: PrintState, t: Lexeme)
    requires
        steady(st),
        printable(t, st.depth),
    ensures
        step_emits(st, t),
{
    lemma_shown_lexical(t);
    match t {
        Lexeme::Comment(s) => {
            lemma_alone_step(st, t, trimmed(s), st);
        },
        Lexeme::BlockComment(s) => {
            if unbroken(s) {
                lemma_split_one_line(s);
                crate::scan::lemma_block_len_bound(s, 2);
                lemma_trimmed_clean(s);
                lemma_tidied_one_line(s);
                assert(comment_lines(s, st.depth) =~= seq![indentation(st.depth) + s]);
                assert(flush(st).lines + seq![indentation(st.depth) + s] =~= flush(
                    st,
                ).lines.push(indentation(st.depth) + s));
                lemma_alone_step(st, t, s, st);
            } else {
                lemma_block_lines_step(st, s);
            }
        },
        Lexeme::Unknown(c) => {
            lemma_alone_step(st, t, seq![c], st);
        },
        Lexeme::Delim(c) => {
            if c == '{' {
                lemma_open_brace_step(st);
            } else if c == '}' {
                let shallower = PrintState {
                    depth: if st.depth > 0 {
                        (st.depth - 1) as nat
                    } else {
                        0
                    },
                    ..st
                };
                lemma_alone_step(st, t, seq!['}'], shallower);
            } else if c == ';' {
                lemma_semicolon_step(st);
            } else {
                lemma_ordinary_step(st, t);
            }
        },
        _ => {
            lemma_ordinary_step(st, t);
        },
    }
}

/// `line` is not empty and does not end in a line break.
pub open spec fn ends_line(line: Seq<char>) -> bool {
    line.len() > 0 && line.last() != '\n'
}

/// The last finished line, and the line in progress once it is trimmed,
/// are not empty and end in no line break.
pub open spec fn closing(st: PrintState) -> bool {
    &&& st.lines.len() > 0 ==> ends_line(st.lines.last())
    &&& st.current.len() > 0 ==> ends_line(trimmed(st.current))
}

/// A line of its own, not empty and without a line break at its end,
/// keeps the state closing.
proof fn lemma_alone_closing(st: PrintState, content: Seq<char>)
    requires
        closing(st),
        ends_line(content),
    ensures
        closing(alone(st, content)),
{
    let line = indentation(st.depth) + content;
    assert(line.last() == content.last());
}

/// A line in progress that ends clean keeps the state closing, flushed
/// or not, with or without a space behind it.
proof fn lemma_clean_closing(st: PrintState, line: Seq<char>)
    requires
        closing(st),
        ends_clean(line),
    ensures
        closing(flush(PrintState { current: line, ..st })),
        closing(PrintState { current: line, ..st }),
        closing(PrintState { current: line.push(' '), ..st }),
{
    lemma_trimmed_clean(line);
}

/// A token of lexical shape leaves the last line, and the line in
/// progress, not empty.
pub(crate) proof fn lemma_step_closing(st: PrintState, t: Lexeme)
    requires
        closing(st),
        lexical(t),
    ensures
        closing(step(st, t)),
{
    match t {
        Lexeme::Newline | Lexeme::Skip => {},
        Lexeme::Comment(s) => {
            lemma_trimmed_keeps(s, 1);
            lemma_trimmed_is_prefix(s);
            lemma_alone_closing(st, trimmed(s));
        },
        Lexeme::BlockComment(s) => {
            crate::scan::lemma_block_len_bound(s, 2);
            lemma_join_split(s);
            let last = split_lines(s).last();
            lemma_trimmed_clean(last);
            let added = comment_lines(s, st.depth);
            let line = indentation(st.depth) + last;
            assert(added.last() == line);
            assert(line.last() == last.last());
            assert((flush(st).lines + added).last() == line);
        },
        Lexeme::Unknown(c) => {
            lemma_alone_closing(st, seq![c]);
        },
        Lexeme::Delim(c) => {
            if c == '{' {
                let head = if st.current.len() > 0 {
                    st.current.push(' ')
                } else {
                    indentation(st.depth)
                };
                lemma_clean_closing(st, head.push('{'));
            } else if c == '}' {
                let shallower = PrintState {
                    depth: if st.depth > 0 {
                        (st.depth - 1) as nat
                    } else {
                        0
                    },
                    ..st
                };
                lemma_alone_closing(shallower, seq!['}']);
            } else if c == ';' {
                lemma_clean_closing(st, st.current.push(';'));
            } else {
                lemma_ordinary_closing(st, t);
            }
        },
        _ => {
            lemma_ordinary_closing(st, t);
        },
    }
}

/// An ordinary token of lexical shape keeps the state closing.
proof fn lemma_ordinary_closing(st: PrintState, t: Lexeme)
    requires
        closing(st),
        lexical(t),
        ordinary(t),
    ensures
        closing(step(st, t)),
{
    lemma_text_ends_clean(t);
    let fresh = if st.pending {
        flush(st)
    } else {
        st
    };
    let begun = if fresh.current.len() == 0 {
        indentation(fresh.depth)
    } else if space_between(fresh.prev, t) && fresh.current.last() != ' ' {
        fresh.current.push(' ')
    } else {
        fresh.current
    };
    let body = begun + t.text();
    assert(body.last() == t.text().last());
    lemma_clean_closing(fresh, body);
    if trails(t) {
        assert(step(st, t).current =~= body.push(' '));
    } else {
        assert(step(st, t).current =~= body);
    }
}

} // verus!
