//! Block comments as the printer leaves them: every line without its
//! trailing whitespace, and still one block comment.

use vstd::prelude::*;
use crate::lines::{
    lemma_join_extend, lemma_join_push, lemma_join_split, lemma_split_join, lemma_split_one_line,
    lemma_split_unbroken, lemma_trimmed_clean, lemma_trimmed_drops_space, lemma_trimmed_is_prefix,
    lemma_trimmed_twice, unbroken,
};
use crate::scan::{block_len, lemma_block_len_bound};
use crate::text::{is_space, join_lines, split_lines, trimmed};

verus! {

/// The lines of `s`, each without its trailing whitespace.
pub open spec fn trimmed_lines(s: Seq<char>) -> Seq<Seq<char>> {
    split_lines(s).map_values(|line: Seq<char>| trimmed(line))
}

/// The text `s` with no whitespace at the end of any line.
pub open spec fn tidied(s: Seq<char>) -> Seq<char> {
    join_lines(trimmed_lines(s))
}

/// The text `s` with no whitespace at the end of any line but the last.
pub open spec fn tidied_but_last(s: Seq<char>) -> Seq<char> {
    join_lines(trimmed_lines(s).drop_last().push(split_lines(s).last()))
}

/// A character that is no line break goes to the end of the last line.
pub(crate) proof fn lemma_tidied_grows(v: Seq<char>, c: char)
    requires
        c != '\n',
    ensures
        tidied_but_last(v.push(c)) == tidied_but_last(v).push(c),
{
    let lines = split_lines(v);
    lemma_join_split(v);
    assert(v.push(c).drop_last() =~= v);
    let head = trimmed_lines(v).drop_last();
    assert(trimmed_lines(v.push(c)).drop_last() =~= head);
    lemma_join_extend(head, lines.last(), seq![c]);
    assert(lines.last() + seq![c] =~= lines.last().push(c));
    assert(join_lines(head.push(lines.last())) + seq![c] =~= tidied_but_last(v).push(c));
}

/// A line break ends the last line, which is trimmed then.
pub(crate) proof fn lemma_tidied_breaks(v: Seq<char>)
    ensures
        tidied_but_last(v.push('\n')) == tidied(v).push('\n'),
{
    let lines = split_lines(v);
    lemma_join_split(v);
    assert(v.push('\n').drop_last() =~= v);
    assert(trimmed(Seq::<char>::empty()) =~= Seq::<char>::empty());
    assert(trimmed_lines(v.push('\n')).drop_last() =~= trimmed_lines(v));
    lemma_join_push(trimmed_lines(v), Seq::<char>::empty());
    assert(join_lines(trimmed_lines(v)) + seq!['\n'] + Seq::<char>::empty() =~= tidied(v).push(
        '\n',
    ));
}

/// The tidied text is the start of the text tidied but for its last
/// line; what is left out is whitespace.
pub(crate) proof fn lemma_tidied_is_prefix(v: Seq<char>)
    ensures
        tidied(v).len() <= tidied_but_last(v).len(),
        tidied(v) == tidied_but_last(v).take(tidied(v).len() as int),
        forall|k: int|
            tidied(v).len() <= k < tidied_but_last(v).len() ==> is_space(
                #[trigger] tidied_but_last(v)[k],
            ),
{
    let lines = split_lines(v);
    lemma_join_split(v);
    let last = lines.last();
    let head = trimmed_lines(v).drop_last();
    lemma_trimmed_is_prefix(last);
    lemma_trimmed_drops_space(last);
    let kept = trimmed(last);
    let rest = last.skip(kept.len() as int);
    assert(last =~= kept + rest);
    assert(trimmed_lines(v) =~= head.push(kept));
    lemma_join_extend(head, kept, rest);
    let whole = tidied_but_last(v);
    assert(whole == tidied(v) + rest);
    assert(tidied(v) =~= whole.take(tidied(v).len() as int));
    assert forall|k: int| tidied(v).len() <= k < whole.len() implies is_space(
        #[trigger] whole[k],
    ) by {
        assert(whole[k] == rest[k - tidied(v).len()]);
        assert(rest[k - tidied(v).len()] == last[k - tidied(v).len() + kept.len()]);
    }
}

/// A text that ends in neither whitespace nor a line break is tidied when
/// all its lines but the last are.
pub(crate) proof fn lemma_tidied_when_clean(v: Seq<char>)
    requires
        v.len() > 0,
        !is_space(v.last()),
    ensures
        tidied(v) == tidied_but_last(v),
{
    lemma_join_split(v);
    let last = split_lines(v).last();
    assert(trimmed(last) == last);
    assert(trimmed_lines(v) =~= trimmed_lines(v).drop_last().push(last));
}

/// A text without a line break that ends in no whitespace is tidied as
/// it is.
pub(crate) proof fn lemma_tidied_one_line(s: Seq<char>)
    requires
        unbroken(s),
        s.len() > 0,
        !is_space(s.last()),
    ensures
        tidied(s) == s,
{
    lemma_split_one_line(s);
    assert(trimmed(s) == s);
    assert(trimmed_lines(s) =~= seq![s]);
}

/// No `*/` starts at or after `i` in `x` with one more character, if
/// none does in `x` and the last character of `x` with the new one is
/// none.
pub(crate) proof fn lemma_open_grows(x: Seq<char>, c: char, i: int)
    requires
        0 <= i,
        block_len(x, i) is None,
        !(x.len() > i && x.last() == '*' && c == '/'),
    ensures
        block_len(x.push(c), i) is None,
    decreases x.len() - i,
{
    let longer = x.push(c);
    if i + 1 < longer.len() {
        if i + 1 < x.len() {
            assert(longer[i] == x[i]);
            assert(longer[i + 1] == x[i + 1]);
            lemma_open_grows(x, c, i + 1);
        } else {
            assert(longer[i] == x.last());
            assert(longer[i + 1] == c);
            assert(block_len(longer, i + 1) is None);
        }
    }
}

/// No `*/` starts at or after `i` in a start of `x`, if none does in
/// `x`.
pub(crate) proof fn lemma_open_prefix(x: Seq<char>, n: int, i: int)
    requires
        0 <= i,
        0 <= n <= x.len(),
        block_len(x, i) is None,
    ensures
        block_len(x.take(n), i) is None,
    decreases x.len() - i,
{
    let start = x.take(n);
    if i + 1 < start.len() {
        assert(start[i] == x[i]);
        assert(start[i + 1] == x[i + 1]);
        lemma_open_prefix(x, n, i + 1);
    }
}

/// Where no `*/` starts at or after `i` in `x`, and `x` ends in `*` at
/// or after `i`, a `/` closes the comment at the end.
pub(crate) proof fn lemma_close_at_end(x: Seq<char>, i: int)
    requires
        0 <= i < x.len(),
        block_len(x, i) is None,
        x.last() == '*',
    ensures
        block_len(x.push('/'), i) == Some((x.len() + 1 - i) as nat),
    decreases x.len() - i,
{
    let longer = x.push('/');
    if i + 1 < x.len() {
        assert(longer[i] == x[i]);
        assert(longer[i + 1] == x[i + 1]);
        lemma_close_at_end(x, i + 1);
    } else {
        assert(longer[i] == x.last());
        assert(longer[i + 1] == '/');
    }
}

/// A comment that closes at its end, and not before, holds no `*/`
/// without its last character.
pub(crate) proof fn lemma_open_before_end(s: Seq<char>, i: int)
    requires
        0 <= i,
        i + 2 <= s.len(),
        block_len(s, i) == Some((s.len() - i) as nat),
    ensures
        block_len(s.drop_last(), i) is None,
    decreases s.len() - i,
{
    let shorter = s.drop_last();
    lemma_block_len_bound(s, i + 1);
    if !(s[i] == '*' && s[i + 1] == '/') {
        assert(i + 3 <= s.len());
        lemma_open_before_end(s, i + 1);
        assert(shorter[i] == s[i]);
        assert(shorter[i + 1] == s[i + 1]);
    }
}

/// A `*/` at or after `i` closes the comment.
pub(crate) proof fn lemma_closed(x: Seq<char>, i: int, k: int)
    requires
        0 <= i <= k,
        k + 1 < x.len(),
        x[k] == '*',
        x[k + 1] == '/',
    ensures
        block_len(x, i) is Some,
    decreases k - i,
{
    if i < k {
        lemma_closed(x, i + 1, k);
    }
}

/// What an open block comment keeps while it is tidied but for its last
/// line: its opening, its last character, and that it is open.
pub(crate) proof fn lemma_tidied_stays_open(v: Seq<char>)
    requires
        v.len() >= 2,
        v[0] == '/',
        v[1] == '*',
        block_len(v, 2) is None,
    ensures
        tidied_but_last(v).len() >= 2,
        v.len() >= 3 ==> tidied_but_last(v).len() >= 3,
        tidied_but_last(v)[0] == '/',
        tidied_but_last(v)[1] == '*',
        tidied_but_last(v).last() == v.last(),
        block_len(tidied_but_last(v), 2) is None,
        tidied(v).len() >= 2,
        tidied(v)[0] == '/',
        tidied(v)[1] == '*',
        block_len(tidied(v), 2) is None,
    decreases v.len(),
{
    let whole = tidied_but_last(v);
    if v.len() == 2 {
        lemma_split_one_line(v);
        assert(trimmed_lines(v).drop_last() =~= Seq::<Seq<char>>::empty());
        assert(Seq::<Seq<char>>::empty().push(v) =~= seq![v]);
        assert(whole == v);
    } else {
        let w = v.drop_last();
        let c = v.last();
        assert(v =~= w.push(c));
        assert(w =~= v.take(v.len() - 1));
        lemma_open_prefix(v, v.len() - 1, 2);
        lemma_tidied_stays_open(w);
        let before = tidied_but_last(w);
        if c == '\n' {
            lemma_tidied_breaks(w);
            lemma_open_grows(tidied(w), c, 2);
        } else {
            lemma_tidied_grows(w, c);
            if before.len() > 2 && before.last() == '*' && c == '/' {
                assert(w.len() > 2) by {
                    if w.len() == 2 {
                        lemma_split_one_line(w);
                        assert(trimmed_lines(w).drop_last() =~= Seq::<Seq<char>>::empty());
                        assert(Seq::<Seq<char>>::empty().push(w) =~= seq![w]);
                    }
                }
                lemma_closed(v, 2, v.len() - 2);
            }
            lemma_open_grows(before, c, 2);
            assert(whole[0] == before[0]);
            assert(whole[1] == before[1]);
        }
    }
    lemma_tidied_is_prefix(v);
    let kept = tidied(v);
    assert(kept.len() >= 2) by {
        if kept.len() < 2 {
            assert(is_space(whole[1]));
        }
    }
    assert(kept[0] == whole[0]);
    assert(kept[1] == whole[1]);
    lemma_open_prefix(whole, kept.len() as int, 2);
}

/// A block comment, tidied, is a block comment: it opens, and closes at
/// its end and not before.
pub(crate) proof fn lemma_tidied_comment(s: Seq<char>)
    requires
        s.len() >= 4,
        s[0] == '/',
        s[1] == '*',
        block_len(s, 2) == Some((s.len() - 2) as nat),
    ensures
        tidied(s).len() >= 4,
        tidied(s)[0] == '/',
        tidied(s)[1] == '*',
        block_len(tidied(s), 2) == Some((tidied(s).len() - 2) as nat),
        tidied(s).last() == '/',
        split_lines(s).last().len() > 0,
        trimmed(split_lines(s).last()) == split_lines(s).last(),
{
    lemma_block_len_bound(s, 2);
    let w = s.drop_last();
    assert(s =~= w.push('/'));
    lemma_open_before_end(s, 2);
    lemma_tidied_stays_open(w);
    lemma_tidied_grows(w, '/');
    lemma_tidied_when_clean(s);
    let before = tidied_but_last(w);
    lemma_close_at_end(before, 2);
    assert(tidied(s)[0] == before[0]);
    assert(tidied(s)[1] == before[1]);
    lemma_join_split(s);
    lemma_trimmed_clean(split_lines(s).last());
}

/// The lines of a tidied text are the trimmed lines of the text, and
/// trimming them again changes nothing.
pub(crate) proof fn lemma_tidied_lines(s: Seq<char>)
    ensures
        split_lines(tidied(s)) == trimmed_lines(s),
        trimmed_lines(tidied(s)) == trimmed_lines(s),
{
    lemma_split_unbroken(s);
    let lines = trimmed_lines(s);
    assert forall|k: int| 0 <= k < lines.len() implies unbroken(#[trigger] lines[k]) by {
        let line = split_lines(s)[k];
        assert(unbroken(line));
        lemma_trimmed_is_prefix(line);
        assert forall|i: int| 0 <= i < lines[k].len() implies #[trigger] lines[k][i] != '\n' by {
            assert(lines[k][i] == line[i]);
        }
    }
    lemma_split_join(lines);
    assert forall|k: int| 0 <= k < lines.len() implies trimmed(#[trigger] lines[k])
        == lines[k] by {
        lemma_trimmed_twice(split_lines(s)[k]);
    }
    assert(trimmed_lines(tidied(s)) =~= lines);
}

} // verus!
