//! The inductions behind the laws: what a whole run of the printer keeps,
//! and how its text is read back.

use vstd::prelude::*;
use crate::laws::{
    all_neat, block_comments_stay, brace_excess, closes_only_its_own, comments_unchanged,
    depth_before,
};
use crate::lines::{lemma_join_push, lemma_trimmed_twice};
use crate::reading::{followed, lemma_read_gap, lemma_read_token, read};
use crate::render::{binds_right, finish, flush, initial, render, run, step, PrintState};
use crate::scan::{lemma_token_takes_characters, lex_from, scan_at, Scanned};
use crate::shape::{clear, lemma_scanned_is_lexical, lemma_text_reads_back, lexical};
use crate::steady::{
    block_stays, closing, emitted, gap, is_gap, lemma_clear_at_line_break, lemma_shown_lexical,
    lemma_step_closing, lemma_step_emits, printable, shown, shown_all, steady,
};
use crate::text::join_lines;
use crate::tidy::{keeps_tidy, lemma_step_keeps_tidy, neat};
use crate::token::{significant, Lexeme};
use crate::validate::{checked, scanned};

verus! {

/// Printing `a` and then `b` is printing `a + b`.
pub(crate) proof fn lemma_run_concat(st: PrintState, a: Seq<Lexeme>, b: Seq<Lexeme>)
    ensures
        run(st, a + b) == run(run(st, a), b),
    decreases b.len(),
{
    if b.len() == 0 {
        assert(a + b =~= a);
    } else {
        assert((a + b).drop_last() =~= a + b.drop_last());
        lemma_run_concat(st, a, b.drop_last());
    }
}

/// Tokens that close none but their own braces move the depth by their
/// excess of opening braces.
pub(crate) proof fn lemma_depth_follows_braces(st: PrintState, ts: Seq<Lexeme>)
    requires
        closes_only_its_own(ts),
    ensures
        run(st, ts).depth == st.depth + brace_excess(ts),
    decreases ts.len(),
{
    if ts.len() > 0 {
        let before = ts.drop_last();
        assert forall|k: int| 0 <= k <= before.len() implies brace_excess(
            #[trigger] before.take(k),
        ) >= 0 by {
            assert(before.take(k) =~= ts.take(k));
        }
        lemma_depth_follows_braces(st, before);
        assert(ts.take(ts.len() as int) =~= ts);
        assert(before =~= ts.take(ts.len() - 1));
    }
}

/// Neat tokens leave the printer with tidy lines.
pub(crate) proof fn lemma_run_keeps_tidy(ts: Seq<Lexeme>)
    requires
        all_neat(ts),
    ensures
        keeps_tidy(run(initial(), ts)),
    decreases ts.len(),
{
    if ts.len() > 0 {
        let before = ts.drop_last();
        assert forall|k: int| 0 <= k < before.len() implies neat(
            #[trigger] before[k],
            depth_before(before, k),
        ) by {
            assert(before[k] == ts[k]);
            assert(before.take(k) =~= ts.take(k));
        }
        lemma_run_keeps_tidy(before);
        assert(before =~= ts.take(ts.len() - 1));
        assert(neat(ts[ts.len() - 1], depth_before(ts, ts.len() - 1)));
        lemma_step_keeps_tidy(run(initial(), before), ts.last());
    }
}

/// Tokens of lexical shape leave the last line, and the line in
/// progress, not empty.
pub(crate) proof fn lemma_run_closing(ts: Seq<Lexeme>)
    requires
        all_lexical(ts),
    ensures
        closing(run(initial(), ts)),
    decreases ts.len(),
{
    if ts.len() > 0 {
        let before = ts.drop_last();
        assert forall|k: int| 0 <= k < before.len() implies lexical(#[trigger] before[k]) by {
            assert(before[k] == ts[k]);
        }
        lemma_run_closing(before);
        assert(lexical(ts[ts.len() - 1]));
        lemma_step_closing(run(initial(), before), ts.last());
    }
}

/// Joined lines end as the last line does, if that is not empty.
pub(crate) proof fn lemma_join_ends_with_last(lines: Seq<Seq<char>>)
    requires
        lines.len() > 0,
        lines.last().len() > 0,
    ensures
        join_lines(lines).len() > 0,
        join_lines(lines).last() == lines.last().last(),
{
}

/// Line breaks and tabs among the tokens change nothing in the state of
/// the printer.
pub(crate) proof fn lemma_run_ignores_discardable(st: PrintState, ts: Seq<Lexeme>)
    ensures
        run(st, ts) == run(st, significant(ts)),
    decreases ts.len(),
{
    if ts.len() > 0 {
        lemma_run_ignores_discardable(st, ts.drop_last());
        if !ts.last().discardable() {
            assert(significant(ts).drop_last() =~= significant(ts.drop_last()));
        }
    }
}

/// The structural check depends on the significant tokens alone: the
/// scan ends in the same state, or fails, with and without the others.
pub(crate) proof fn lemma_check_ignores_discardable(ts: Seq<Lexeme>)
    ensures
        scanned(ts) is Ok <==> scanned(significant(ts)) is Ok,
        scanned(ts) is Ok ==> scanned(ts)->Ok_0 == scanned(significant(ts))->Ok_0,
        checked(ts) is Ok <==> checked(significant(ts)) is Ok,
    decreases ts.len(),
{
    if ts.len() > 0 {
        lemma_check_ignores_discardable(ts.drop_last());
        if !ts.last().discardable() {
            assert(significant(ts).drop_last() =~= significant(ts.drop_last()));
        }
    }
}

/// Every token is printable at the depth at which the printer meets it:
/// it has a lexical shape, is significant, and is a block comment only
/// if that comment stays where it is.
#[verifier::opaque]
pub open spec fn all_printable(ts: Seq<Lexeme>) -> bool {
    forall|k: int| 0 <= k < ts.len() ==> printable(#[trigger] ts[k], depth_before(ts, k))
}

/// Every token has the shape of a token that the lexer makes.
pub open spec fn all_lexical(ts: Seq<Lexeme>) -> bool {
    forall|k: int| 0 <= k < ts.len() ==> lexical(#[trigger] ts[k])
}

/// The tokens of a text have the shapes of tokens.
pub(crate) proof fn lemma_lexer_tokens_are_lexical(s: Seq<char>, i: int)
    requires
        lex_from(s, i) is Ok,
    ensures
        all_lexical(lex_from(s, i)->Ok_0),
    decreases s.len() - i,
{
    if 0 <= i < s.len() {
        lemma_token_takes_characters(s, i);
        lemma_scanned_is_lexical(s, i);
        match scan_at(s, i) {
            Scanned::Token(t, n) => {
                lemma_lexer_tokens_are_lexical(s, i + n);
                let rest = lex_from(s, i + n)->Ok_0;
                let all = seq![t] + rest;
                assert forall|k: int| 0 <= k < all.len() implies lexical(#[trigger] all[k]) by {
                    if k > 0 {
                        assert(all[k] == rest[k - 1]);
                    }
                }
            },
            Scanned::Blank => {
                lemma_lexer_tokens_are_lexical(s, i + 1);
            },
            Scanned::Fail(_) => {},
        }
    }
}

/// The significant ones among tokens of lexical shape, with block
/// comments that stay, are printable.
pub(crate) proof fn lemma_significant_are_printable(ts: Seq<Lexeme>)
    requires
        all_lexical(ts),
        block_comments_stay(ts),
    ensures
        all_printable(significant(ts)),
    decreases ts.len(),
{
    reveal(all_printable);
    if ts.len() > 0 {
        let before = ts.drop_last();
        let last = ts.last();
        assert forall|k: int| 0 <= k < before.len() implies lexical(#[trigger] before[k])
            && block_stays(before[k], depth_before(before, k)) by {
            assert(before[k] == ts[k]);
            assert(before.take(k) =~= ts.take(k));
        }
        lemma_significant_are_printable(before);
        let kept = significant(before);
        if !last.discardable() {
            let all = significant(ts);
            assert(all == kept.push(last));
            assert forall|k: int| 0 <= k < all.len() implies printable(
                #[trigger] all[k],
                depth_before(all, k),
            ) by {
                if k < kept.len() {
                    assert(all[k] == kept[k]);
                    assert(all.take(k) =~= kept.take(k));
                } else {
                    assert(all.take(k) =~= kept);
                    lemma_run_ignores_discardable(initial(), before);
                    assert(before =~= ts.take(ts.len() - 1));
                    assert(lexical(ts[ts.len() - 1]));
                    assert(block_stays(ts[ts.len() - 1], depth_before(ts, ts.len() - 1)));
                }
            }
        }
    }
}

/// All but the last of printable tokens are printable, and so is the
/// last, at the depth that the others leave.
pub(crate) proof fn lemma_all_printable_prefix(ts: Seq<Lexeme>)
    requires
        all_printable(ts),
        ts.len() > 0,
    ensures
        all_printable(ts.drop_last()),
        printable(ts.last(), run(initial(), ts.drop_last()).depth),
{
    reveal(all_printable);
    let before = ts.drop_last();
    assert forall|k: int| 0 <= k < before.len() implies printable(
        #[trigger] before[k],
        depth_before(before, k),
    ) by {
        assert(before[k] == ts[k]);
        assert(before.take(k) =~= ts.take(k));
    }
    assert(before =~= ts.take(ts.len() - 1));
    assert(printable(ts[ts.len() - 1], depth_before(ts, ts.len() - 1)));
}

/// Printable tokens leave the printer in a steady state that remembers
/// the last of them.
pub(crate) proof fn lemma_run_steady(ts: Seq<Lexeme>)
    requires
        all_printable(ts),
    ensures
        steady(run(initial(), ts)),
        ts.len() > 0 ==> run(initial(), ts).prev == Some(ts.last()),
        ts.len() == 0 ==> run(initial(), ts) == initial(),
    decreases ts.len(),
{
    if ts.len() > 0 {
        lemma_all_printable_prefix(ts);
        lemma_run_steady(ts.drop_last());
        lemma_step_emits(run(initial(), ts.drop_last()), ts.last());
    }
}

/// A gap and the text of a significant token of lexical shape, where
/// what follows leaves the token clear, are read as that token and what
/// follows.
pub(crate) proof fn lemma_read_one_more(
    x: Seq<char>,
    before: Seq<char>,
    g: Seq<char>,
    t: Lexeme,
    tail: Seq<char>,
)
    requires
        x == before + g + t.text() + tail,
        is_gap(g),
        lexical(t),
        !t.discardable(),
        tail.len() > 0 ==> clear(t, tail[0]),
    ensures
        read(x, before.len() as int) == followed(
            seq![t],
            read(x, (before.len() + g.len() + t.text().len()) as int),
        ),
{
    let text = t.text();
    let p: int = (before.len() + g.len()) as int;
    assert forall|k: int| before.len() <= k < p implies x[k] == ' ' || x[k] == '\n' by {
        assert(x[k] == g[k - before.len()]);
    }
    lemma_read_gap(x, before.len() as int, g.len());
    assert(x.subrange(p, p + text.len()) =~= text);
    if tail.len() > 0 {
        assert(x[p + text.len()] == tail[0]);
    }
    lemma_text_reads_back(x, p, t);
    lemma_read_token(x, p);
}

/// The text printed for the tokens `ts`, the line in progress included.
#[verifier::opaque]
pub open spec fn printed(ts: Seq<Lexeme>) -> Seq<char> {
    emitted(run(initial(), ts))
}

/// The last of printable tokens adds a gap and itself, as it is shown,
/// to the printed text; the gap is returned. What then follows the token
/// before it leaves that token clear.
pub(crate) proof fn lemma_printed_grows(ts: Seq<Lexeme>) -> (g: Seq<char>)
    requires
        all_printable(ts),
        ts.len() > 0,
    ensures
        all_printable(ts.drop_last()),
        printed(ts) == printed(ts.drop_last()) + g + shown(ts.last()).text(),
        is_gap(g),
        lexical(shown(ts.last())),
        !shown(ts.last()).discardable(),
        shown(ts.last()).text().len() > 0,
        ts.len() > 1 ==> clear(shown(ts[ts.len() - 2]), (g + shown(ts.last()).text())[0]),
{
    reveal(printed);
    let before = ts.drop_last();
    let t = ts.last();
    let st0 = run(initial(), before);
    lemma_all_printable_prefix(ts);
    lemma_run_steady(before);
    lemma_step_emits(st0, t);
    lemma_shown_lexical(t);
    if ts.len() > 1 {
        assert(before.last() == ts[ts.len() - 2]);
        assert(lexical(before[before.len() - 1])) by {
            reveal(all_printable);
        }
        lemma_shown_lexical(before.last());
    }
    gap(st0, t)
}

/// The text printed for printable tokens is read back as those tokens,
/// each as it is shown, whatever follows the text, as long as that
/// leaves the last token clear.
pub(crate) proof fn lemma_printed_reads_back(ts: Seq<Lexeme>, tail: Seq<char>)
    requires
        all_printable(ts),
        ts.len() > 0 && tail.len() > 0 ==> clear(shown(ts.last()), tail[0]),
    ensures
        read(printed(ts) + tail, 0) == followed(
            shown_all(ts),
            read(printed(ts) + tail, printed(ts).len() as int),
        ),
    decreases ts.len(),
{
    let x = printed(ts) + tail;
    if ts.len() == 0 {
        assert(printed(ts) =~= Seq::<char>::empty()) by {
            reveal(printed);
        }
        match read(x, 0) {
            Some(r) => {
                assert(shown_all(ts) + r =~= r);
            },
            None => {},
        }
    } else {
        let before = ts.drop_last();
        let t = shown(ts.last());
        let g = lemma_printed_grows(ts);
        let text = t.text();
        let tail0 = g + text + tail;
        let e0 = printed(before);
        assert(x =~= e0 + tail0);
        assert(x =~= e0 + g + text + tail);
        assert(tail0[0] == (g + text)[0]);
        if before.len() > 0 {
            assert(before.last() == ts[ts.len() - 2]);
        }
        lemma_printed_reads_back(before, tail0);
        lemma_read_one_more(x, e0, g, t, tail);
        assert(printed(ts).len() == e0.len() + g.len() + text.len());
        match read(x, printed(ts).len() as int) {
            Some(r) => {
                assert(shown_all(before) + (seq![t] + r) =~= shown_all(ts) + r);
            },
            None => {},
        }
    }
}

/// The text printed for printable tokens lexes, and its significant
/// tokens are those tokens, each as it is shown.
pub(crate) proof fn lemma_render_reads_back(ts: Seq<Lexeme>)
    requires
        all_printable(ts),
    ensures
        read(render(ts), 0) == Some(shown_all(ts)),
{
    let st = run(initial(), ts);
    lemma_run_steady(ts);
    if ts.len() == 0 {
        assert(render(ts) =~= Seq::<char>::empty());
        assert(significant(Seq::<Lexeme>::empty()) =~= shown_all(ts));
    } else {
        let tail = seq!['\n'];
        let e = printed(ts);
        lemma_clear_at_line_break(shown(ts.last()));
        lemma_printed_reads_back(ts, tail);
        let lines = flush(st).lines;
        lemma_join_push(lines, Seq::<char>::empty());
        assert(finish(st) == lines.push(Seq::<char>::empty()));
        assert(render(ts) =~= e + tail) by {
            reveal(printed);
        }
        let x = e + tail;
        lemma_read_gap(x, e.len() as int, 1);
        assert(significant(Seq::<Lexeme>::empty()) =~= Seq::<Lexeme>::empty());
        assert(read(x, (e.len() + 1) as int) == Some(Seq::<Lexeme>::empty()));
        assert(shown_all(ts) + Seq::<Lexeme>::empty() =~= shown_all(ts));
    }
}

/// Two states of the printer that differ at most in the token they
/// remember, and agree on whether one is remembered and on whether it
/// binds to what follows.
pub open spec fn alike(a: PrintState, b: PrintState) -> bool {
    &&& a.lines == b.lines
    &&& a.current == b.current
    &&& a.depth == b.depth
    &&& a.pending == b.pending
    &&& a.prev is Some <==> b.prev is Some
    &&& a.prev is Some ==> binds_right(a.prev->0) == binds_right(b.prev->0)
}

/// A token, and the token as it is shown, take states that are alike to
/// states that are alike.
pub(crate) proof fn lemma_step_alike(a: PrintState, b: PrintState, t: Lexeme)
    requires
        alike(a, b),
    ensures
        alike(step(a, t), step(b, shown(t))),
{
    match t {
        Lexeme::Comment(s) => {
            lemma_trimmed_twice(s);
        },
        Lexeme::BlockComment(s) => {
            crate::comments::lemma_tidied_lines(s);
            assert(crate::render::comment_lines(crate::comments::tidied(s), a.depth)
                =~= crate::render::comment_lines(s, a.depth)) by {
                let lines = crate::text::split_lines(s);
                let kept = crate::comments::trimmed_lines(s);
                assert forall|k: int| 0 <= k < kept.len() implies crate::text::trimmed(
                    #[trigger] kept[k],
                ) == kept[k] by {
                    lemma_trimmed_twice(lines[k]);
                }
            }
        },
        _ => {},
    }
}

/// The tokens as they are shown are printed as the tokens are.
pub(crate) proof fn lemma_run_shown(ts: Seq<Lexeme>)
    ensures
        alike(run(initial(), ts), run(initial(), shown_all(ts))),
        render(shown_all(ts)) == render(ts),
    decreases ts.len(),
{
    if ts.len() > 0 {
        lemma_run_shown(ts.drop_last());
        assert(shown_all(ts).drop_last() =~= shown_all(ts.drop_last()));
        lemma_step_alike(
            run(initial(), ts.drop_last()),
            run(initial(), shown_all(ts.drop_last())),
            ts.last(),
        );
    } else {
        assert(shown_all(ts) =~= ts);
    }
}

/// The structural check passes on the tokens as they are shown just
/// when it passes on the tokens.
pub(crate) proof fn lemma_check_shown(ts: Seq<Lexeme>)
    ensures
        scanned(shown_all(ts)) is Ok <==> scanned(ts) is Ok,
        scanned(ts) is Ok ==> scanned(shown_all(ts))->Ok_0 == scanned(ts)->Ok_0,
        checked(shown_all(ts)) is Ok <==> checked(ts) is Ok,
    decreases ts.len(),
{
    if ts.len() > 0 {
        lemma_check_shown(ts.drop_last());
        assert(shown_all(ts).drop_last() =~= shown_all(ts.drop_last()));
    } else {
        assert(shown_all(ts) =~= ts);
    }
}

/// Tokens that are shown as they are, among them, are so among their
/// significant ones.
pub(crate) proof fn lemma_significant_shown(ts: Seq<Lexeme>)
    requires
        comments_unchanged(ts),
    ensures
        shown_all(significant(ts)) == significant(ts),
    decreases ts.len(),
{
    if ts.len() > 0 {
        let before = ts.drop_last();
        assert forall|k: int| 0 <= k < before.len() implies shown(#[trigger] before[k])
            == before[k] by {
            assert(before[k] == ts[k]);
        }
        lemma_significant_shown(before);
        assert(shown(ts[ts.len() - 1]) == ts[ts.len() - 1]);
        assert(shown_all(significant(ts)) =~= significant(ts));
    } else {
        assert(shown_all(significant(ts)) =~= significant(ts));
    }
}

} // verus!
