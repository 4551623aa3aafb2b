//! What holds of the formatter for every input: where closing braces
//! stand, how the text ends, that no line ends in whitespace, that the
//! tokens are kept, and that formatting again changes nothing.

use vstd::prelude::*;
use crate::{formatted, outcome};
use crate::lines::lemma_join_push;
use crate::render::{flush, initial, render, rendered_lines, run, step, PrintState};
use crate::roundtrip::{
    lemma_check_ignores_discardable, lemma_check_shown, lemma_depth_follows_braces,
    lemma_join_ends_with_last, lemma_lexer_tokens_are_lexical, lemma_render_reads_back,
    lemma_run_closing, lemma_run_concat, lemma_run_ignores_discardable, lemma_run_keeps_tidy,
    lemma_run_shown, lemma_significant_are_printable, lemma_significant_shown,
};
use crate::scan::tokens_of;
use crate::steady::{block_stays, shown, shown_all};
use crate::text::{indentation, join_lines, split_lines};
use crate::tidy::{lemma_join_tidy, lemma_trimmed_line_ok, line_ok, neat, tidy};
use crate::token::{significant, Lexeme};
use crate::validate::checked;
use crate::validation::{answer_of, Answer};

verus! {

/// The depth at which the printer stands before the token at index `k`.
pub open spec fn depth_before(ts: Seq<Lexeme>, k: int) -> nat {
    run(initial(), ts.take(k)).depth
}

/// How far the braces of `ts` open more than they close.
pub open spec fn brace_excess(ts: Seq<Lexeme>) -> int
    decreases ts.len(),
{
    if ts.len() == 0 {
        0
    } else if ts.last() == Lexeme::Delim('{') {
        brace_excess(ts.drop_last()) + 1
    } else if ts.last() == Lexeme::Delim('}') {
        brace_excess(ts.drop_last()) - 1
    } else {
        brace_excess(ts.drop_last())
    }
}

/// No brace of `ts` closes what `ts` did not open.
pub open spec fn closes_only_its_own(ts: Seq<Lexeme>) -> bool {
    forall|k: int| 0 <= k <= ts.len() ==> brace_excess(#[trigger] ts.take(k)) >= 0
}

/// The braces of `ts` pair up among themselves.
pub open spec fn balanced(ts: Seq<Lexeme>) -> bool {
    closes_only_its_own(ts) && brace_excess(ts) == 0
}

/// The `{` at index `i` and the `}` at index `j` of `ts` match: what
/// stands between them is balanced.
pub open spec fn matching(ts: Seq<Lexeme>, i: int, j: int) -> bool {
    &&& 0 <= i < j < ts.len()
    &&& ts[i] == Lexeme::Delim('{')
    &&& ts[j] == Lexeme::Delim('}')
    &&& balanced(ts.subrange(i + 1, j))
}

/// A closing brace is printed at the depth at which its opening brace
/// was met, one less than the depth of what stands between them, on a
/// line of its own.
pub proof fn braces_close_at_their_depth(ts: Seq<Lexeme>, i: int, j: int)
    requires
        matching(ts, i, j),
    ensures
        depth_before(ts, j + 1) == depth_before(ts, i),
        depth_before(ts, j) == depth_before(ts, i) + 1,
        run(initial(), ts.take(j + 1)).lines.last() == indentation(depth_before(ts, i)) + seq!['}'],
{
    let head = ts.take(i);
    let inner = ts.subrange(i + 1, j);
    let at_open = run(initial(), head);
    let opened = step(at_open, ts[i]);
    assert(ts.take(i + 1).drop_last() =~= head);
    assert(run(initial(), ts.take(i + 1)) == opened);
    assert(ts.take(j) =~= ts.take(i + 1) + inner);
    lemma_run_concat(initial(), ts.take(i + 1), inner);
    lemma_depth_follows_braces(opened, inner);
    assert(ts.take(j + 1).drop_last() =~= ts.take(j));
}

/// The depth never goes below zero: a closing brace met at depth zero is
/// printed at the margin, and leaves the depth at zero.
pub proof fn depth_stays_at_zero(st: PrintState)
    requires
        st.depth == 0,
    ensures
        step(st, Lexeme::Delim('}')).depth == 0,
        step(st, Lexeme::Delim('}')).lines.last() == seq!['}'],
{
    assert(indentation(0) + seq!['}'] =~= seq!['}']);
}

/// The finished text always closes with an empty line: split at its line
/// breaks, its last segment is empty.
pub proof fn text_ends_with_empty_line(ts: Seq<Lexeme>)
    ensures
        split_lines(render(ts)).last().len() == 0,
        render(ts).len() == 0 || render(ts).last() == '\n',
{
    let lines = rendered_lines(ts);
    assert(lines.len() > 0 && lines.last().len() == 0);
    if lines.len() > 1 {
        assert(render(ts) =~= join_lines(lines.drop_last()) + seq!['\n']);
    }
}

/// `x` is empty, or ends in one line break and no more.
pub open spec fn ends_in_one_line_break(x: Seq<char>) -> bool {
    x.len() == 0 || (x.len() >= 2 && x.last() == '\n' && x[x.len() - 2] != '\n')
}

/// The canonical text of a text that lexes closes with exactly one empty
/// line: it is empty, or ends in one line break and no more.
pub proof fn one_trailing_line_break(src: Seq<char>)
    requires
        tokens_of(src) is Ok,
    ensures
        ends_in_one_line_break(render(tokens_of(src)->Ok_0)),
{
    let ts = tokens_of(src)->Ok_0;
    lemma_lexer_tokens_are_lexical(src, 0);
    lemma_run_closing(ts);
    let st = run(initial(), ts);
    let lines = flush(st).lines;
    if lines.len() > 0 {
        let last = lines.last();
        assert(last.len() > 0 && last.last() != '\n');
        lemma_join_push(lines, Seq::<char>::empty());
        lemma_join_ends_with_last(lines);
        let x = join_lines(lines) + seq!['\n'] + Seq::<char>::empty();
        assert(render(ts) == x);
        assert(x[x.len() - 2] == join_lines(lines).last());
    } else {
        assert(render(ts) =~= Seq::<char>::empty());
    }
}

/// Every token is neat at the depth at which the printer meets it.
pub open spec fn all_neat(ts: Seq<Lexeme>) -> bool {
    forall|k: int| 0 <= k < ts.len() ==> neat(#[trigger] ts[k], depth_before(ts, k))
}

/// No line of the finished text ends in whitespace, where every token is
/// neat at the depth at which the printer meets it.
pub proof fn no_trailing_whitespace(ts: Seq<Lexeme>)
    requires
        all_neat(ts),
    ensures
        tidy(render(ts)),
{
    lemma_run_keeps_tidy(ts);
    let st = run(initial(), ts);
    lemma_trimmed_line_ok(st.current);
    let lines = rendered_lines(ts);
    assert(line_ok(Seq::<char>::empty()));
    assert forall|k: int| 0 <= k < lines.len() implies line_ok(#[trigger] lines[k]) by {
        if k < st.lines.len() {
            assert(lines[k] == st.lines[k]);
        }
    }
    lemma_join_tidy(lines);
}

/// The block comments among the tokens stay where they are: each is on
/// one line, or stands at depth zero, where its lines are not indented
/// anew.
pub open spec fn block_comments_stay(ts: Seq<Lexeme>) -> bool {
    forall|k: int| 0 <= k < ts.len() ==> block_stays(#[trigger] ts[k], depth_before(ts, k))
}

/// The printer writes the comments among the tokens as they are: no line
/// of a comment ends in whitespace.
pub open spec fn comments_unchanged(ts: Seq<Lexeme>) -> bool {
    forall|k: int| 0 <= k < ts.len() ==> shown(#[trigger] ts[k]) == ts[k]
}

/// The tokens of the canonical text: for a text that lexes, whose block
/// comments stay where they are, the canonical text lexes too, and its
/// significant tokens are those of the text, in the same order, each
/// comment without the whitespace at the end of its lines.
pub proof fn tokens_of_canonical_text(src: Seq<char>)
    requires
        tokens_of(src) is Ok,
        block_comments_stay(tokens_of(src)->Ok_0),
    ensures
        tokens_of(render(tokens_of(src)->Ok_0)) is Ok,
        significant(tokens_of(render(tokens_of(src)->Ok_0))->Ok_0) == shown_all(
            significant(tokens_of(src)->Ok_0),
        ),
{
    let ts = tokens_of(src)->Ok_0;
    lemma_lexer_tokens_are_lexical(src, 0);
    lemma_significant_are_printable(ts);
    printing_ignores_discardable(ts);
    lemma_render_reads_back(significant(ts));
}

/// Formatting keeps the tokens: for a text that lexes, whose block
/// comments stay where they are and whose comments have no whitespace at
/// the end of a line, the canonical text lexes too, and its significant
/// tokens are those of the text, in the same order.
pub proof fn tokens_preserved(src: Seq<char>)
    requires
        tokens_of(src) is Ok,
        block_comments_stay(tokens_of(src)->Ok_0),
        comments_unchanged(tokens_of(src)->Ok_0),
    ensures
        tokens_of(render(tokens_of(src)->Ok_0)) is Ok,
        significant(tokens_of(render(tokens_of(src)->Ok_0))->Ok_0) == significant(
            tokens_of(src)->Ok_0,
        ),
{
    tokens_of_canonical_text(src);
    lemma_significant_shown(tokens_of(src)->Ok_0);
}

/// Printing is idempotent: for a text that lexes, whose block comments
/// stay where they are, the tokens of the canonical text are printed as
/// the canonical text again.
pub proof fn printing_idempotent(src: Seq<char>)
    requires
        tokens_of(src) is Ok,
        block_comments_stay(tokens_of(src)->Ok_0),
    ensures
        tokens_of(render(tokens_of(src)->Ok_0)) is Ok,
        render(tokens_of(render(tokens_of(src)->Ok_0))->Ok_0) == render(tokens_of(src)->Ok_0),
{
    let ts = tokens_of(src)->Ok_0;
    tokens_of_canonical_text(src);
    let again = tokens_of(render(ts))->Ok_0;
    printing_ignores_discardable(ts);
    printing_ignores_discardable(again);
    lemma_run_shown(significant(ts));
}

/// Formatting is idempotent: where formatting a text gives a canonical
/// text, and the block comments of the text stay where they are,
/// formatting the canonical text gives it back.
pub proof fn formatting_idempotent(src: Seq<char>)
    requires
        formatted(src) is Ok,
        block_comments_stay(tokens_of(src)->Ok_0),
    ensures
        formatted(formatted(src)->Ok_0) == formatted(src),
{
    let ts = tokens_of(src)->Ok_0;
    assert(answer_of(src) is Accepted);
    assert(checked(ts) is Ok);
    assert(formatted(src) == Ok::<Seq<char>, Seq<char>>(render(ts)));
    printing_idempotent(src);
    tokens_of_canonical_text(src);
    let again = tokens_of(render(ts))->Ok_0;
    lemma_check_ignores_discardable(ts);
    lemma_check_ignores_discardable(again);
    lemma_check_shown(significant(ts));
    assert(checked(again) is Ok);
    assert(answer_of(render(ts)) is Accepted);
    assert(render(again) == render(ts));
}

/// Formatting is idempotent whoever validates: where formatting an
/// accepted text gives a canonical text, and the block comments of the
/// text stay where they are, formatting the canonical text, accepted
/// too, gives it back.
pub proof fn accepted_formatting_idempotent(src: Seq<char>)
    requires
        outcome(src, Answer::Accepted) is Ok,
        block_comments_stay(tokens_of(src)->Ok_0),
    ensures
        outcome(outcome(src, Answer::Accepted)->Ok_0, Answer::Accepted) == outcome(
            src,
            Answer::Accepted,
        ),
{
    printing_idempotent(src);
}

/// The printed text depends on the significant tokens alone.
pub proof fn printing_ignores_discardable(ts: Seq<Lexeme>)
    ensures
        render(ts) == render(significant(ts)),
{
    lemma_run_ignores_discardable(initial(), ts);
}

} // verus!
