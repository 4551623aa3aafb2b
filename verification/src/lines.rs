//! Facts about lines: trimming, splitting a text at its line breaks, and
//! joining lines again.

use vstd::prelude::*;
use crate::text::{is_space, join_lines, split_lines, trimmed};

verus! {

/// `x` has no line break.
pub open spec fn unbroken(x: Seq<char>) -> bool {
    forall|i: int| 0 <= i < x.len() ==> #[trigger] x[i] != '\n'
}

/// `b` is not empty and does not end in whitespace.
pub open spec fn ends_clean(b: Seq<char>) -> bool {
    b.len() > 0 && !is_space(b.last())
}

/// A trimmed text is the start of the text, and ends in no whitespace.
pub(crate) proof fn lemma_trimmed_is_prefix(c: Seq<char>)
    ensures
        trimmed(c).len() <= c.len(),
        trimmed(c) == c.take(trimmed(c).len() as int),
        trimmed(c).len() == 0 || !is_space(trimmed(c).last()),
    decreases c.len(),
{
    if c.len() > 0 && is_space(c.last()) {
        lemma_trimmed_is_prefix(c.drop_last());
        assert(c.drop_last().take(trimmed(c).len() as int) =~= c.take(trimmed(c).len() as int));
    } else {
        assert(c.take(c.len() as int) =~= c);
    }
}

/// What trimming takes away is whitespace.
pub(crate) proof fn lemma_trimmed_drops_space(s: Seq<char>)
    ensures
        forall|k: int| trimmed(s).len() <= k < s.len() ==> is_space(#[trigger] s[k]),
    decreases s.len(),
{
    if s.len() > 0 && is_space(s.last()) {
        lemma_trimmed_drops_space(s.drop_last());
        assert forall|k: int| trimmed(s).len() <= k < s.len() implies is_space(#[trigger] s[k]) by {
            if k < s.len() - 1 {
                assert(s[k] == s.drop_last()[k]);
            }
        }
    }
}

/// A text that ends clean is its own trimmed form.
pub(crate) proof fn lemma_trimmed_clean(b: Seq<char>)
    requires
        ends_clean(b),
    ensures
        trimmed(b) == b,
        trimmed(b.push(' ')) == b,
{
    let longer = b.push(' ');
    assert(longer.drop_last() =~= b);
    assert(is_space(longer.last()));
    assert(trimmed(longer) == trimmed(longer.drop_last()));
    assert(trimmed(b) == b);
}

/// A text keeps, when trimmed, every character up to one that is no
/// whitespace.
pub(crate) proof fn lemma_trimmed_keeps(s: Seq<char>, j: int)
    requires
        0 <= j < s.len(),
        !is_space(s[j]),
    ensures
        trimmed(s).len() > j,
    decreases s.len(),
{
    if is_space(s.last()) {
        lemma_trimmed_keeps(s.drop_last(), j);
    }
}

/// Trimming twice is trimming once.
pub(crate) proof fn lemma_trimmed_twice(s: Seq<char>)
    ensures
        trimmed(trimmed(s)) == trimmed(s),
{
    lemma_trimmed_is_prefix(s);
}

/// Adding a line to the lines adds a line break, unless it is the first
/// line, and the line to their text.
pub(crate) proof fn lemma_join_push(lines: Seq<Seq<char>>, line: Seq<char>)
    ensures
        join_lines(lines.push(line)) == if lines.len() == 0 {
            line
        } else {
            join_lines(lines) + seq!['\n'] + line
        },
{
    assert(lines.push(line).drop_last() =~= lines);
}

/// What is added to the last line is added to the text.
pub(crate) proof fn lemma_join_extend(lines: Seq<Seq<char>>, line: Seq<char>, more: Seq<char>)
    ensures
        join_lines(lines.push(line + more)) == join_lines(lines.push(line)) + more,
{
    lemma_join_push(lines, line);
    lemma_join_push(lines, line + more);
    assert(join_lines(lines.push(line + more)) =~= join_lines(lines.push(line)) + more);
}

/// Lines joined behind lines: a line break stands between the two texts.
pub(crate) proof fn lemma_join_concat(first: Seq<Seq<char>>, more: Seq<Seq<char>>)
    requires
        more.len() > 0,
    ensures
        join_lines(first + more) == if first.len() == 0 {
            join_lines(more)
        } else {
            join_lines(first) + seq!['\n'] + join_lines(more)
        },
    decreases more.len(),
{
    if more.len() == 1 {
        assert(first + more =~= first.push(more[0]));
        lemma_join_push(first, more[0]);
    } else {
        let all = first + more;
        assert(all.drop_last() =~= first + more.drop_last());
        assert(all.last() == more.last());
        lemma_join_concat(first, more.drop_last());
        if first.len() == 0 {
            assert(first + more =~= more);
        } else {
            assert(join_lines(all) =~= join_lines(first) + seq!['\n'] + join_lines(more));
        }
    }
}

/// A text without a line break is one line.
pub(crate) proof fn lemma_split_one_line(s: Seq<char>)
    requires
        forall|k: int| 0 <= k < s.len() ==> s[k] != '\n',
    ensures
        split_lines(s) == seq![s],
    decreases s.len(),
{
    if s.len() > 0 {
        lemma_split_one_line(s.drop_last());
        assert(s.drop_last().push(s.last()) =~= s);
        assert(seq![s.drop_last()].drop_last().push(s) =~= seq![s]);
    } else {
        assert(s =~= Seq::<char>::empty());
    }
}

/// The segments of a text between its line breaks have no line break.
pub(crate) proof fn lemma_split_unbroken(s: Seq<char>)
    ensures
        split_lines(s).len() >= 1,
        forall|k: int| 0 <= k < split_lines(s).len() ==> unbroken(#[trigger] split_lines(s)[k]),
    decreases s.len(),
{
    if s.len() > 0 {
        lemma_split_unbroken(s.drop_last());
        let before = split_lines(s.drop_last());
        let after = split_lines(s);
        assert forall|k: int| 0 <= k < after.len() implies unbroken(#[trigger] after[k]) by {
            if s.last() == '\n' {
                if k < before.len() {
                    assert(after[k] == before[k]);
                }
            } else {
                if k < before.len() - 1 {
                    assert(after[k] == before[k]);
                } else {
                    assert(unbroken(before[before.len() - 1]));
                }
            }
        }
    }
}

/// The lines of a text, joined, are the text.
pub(crate) proof fn lemma_join_split(s: Seq<char>)
    ensures
        split_lines(s).len() >= 1,
        join_lines(split_lines(s)) == s,
        s.len() > 0 && s.last() != '\n' ==> split_lines(s).last().len() > 0 && split_lines(
            s,
        ).last().last() == s.last(),
    decreases s.len(),
{
    if s.len() == 0 {
        assert(join_lines(split_lines(s)) =~= s);
    } else {
        let before = split_lines(s.drop_last());
        lemma_join_split(s.drop_last());
        if s.last() == '\n' {
            lemma_join_push(before, Seq::<char>::empty());
            assert(join_lines(before) + seq!['\n'] + Seq::<char>::empty() =~= s);
        } else {
            let head = before.drop_last();
            assert(before =~= head.push(before.last()));
            lemma_join_extend(head, before.last(), seq![s.last()]);
            assert(before.last() + seq![s.last()] =~= before.last().push(s.last()));
            assert(s.drop_last() + seq![s.last()] =~= s);
        }
    }
}

/// A text behind a line break behind a text has the lines of both.
pub(crate) proof fn lemma_split_concat(a: Seq<char>, b: Seq<char>)
    ensures
        split_lines(a + seq!['\n'] + b) == split_lines(a) + split_lines(b),
    decreases b.len(),
{
    let whole = a + seq!['\n'] + b;
    if b.len() == 0 {
        assert(whole.drop_last() =~= a);
        assert(split_lines(a).push(Seq::<char>::empty()) =~= split_lines(a) + split_lines(b));
    } else {
        let shorter = b.drop_last();
        assert(whole.drop_last() =~= a + seq!['\n'] + shorter);
        lemma_split_concat(a, shorter);
        lemma_join_split(shorter);
        let lines = split_lines(shorter);
        if b.last() == '\n' {
            assert((split_lines(a) + lines).push(Seq::<char>::empty()) =~= split_lines(a)
                + split_lines(b));
        } else {
            assert((split_lines(a) + lines).drop_last().push(
                (split_lines(a) + lines).last().push(b.last()),
            ) =~= split_lines(a) + split_lines(b));
        }
    }
}

/// Lines without line breaks, joined, have those lines.
pub(crate) proof fn lemma_split_join(lines: Seq<Seq<char>>)
    requires
        lines.len() > 0,
        forall|k: int| 0 <= k < lines.len() ==> unbroken(#[trigger] lines[k]),
    ensures
        split_lines(join_lines(lines)) == lines,
    decreases lines.len(),
{
    if lines.len() == 1 {
        lemma_split_one_line(lines[0]);
        assert(seq![lines[0]] =~= lines);
    } else {
        let before = lines.drop_last();
        assert forall|k: int| 0 <= k < before.len() implies unbroken(#[trigger] before[k]) by {
            assert(before[k] == lines[k]);
        }
        lemma_split_join(before);
        lemma_split_concat(join_lines(before), lines.last());
        assert(unbroken(lines[lines.len() - 1]));
        lemma_split_one_line(lines.last());
        assert(before + seq![lines.last()] =~= lines);
    }
}

} // verus!
