//! Reading a text back: the significant tokens from a position on, and
//! how a token or a gap at that position contributes to them.

use vstd::prelude::*;
use crate::scan::{lemma_token_takes_characters, lex_from, scan_at};
use crate::token::{significant, Lexeme};

verus! {

/// The significant tokens of `s` from position `i` on, if it lexes.
pub open spec fn read(s: Seq<char>, i: int) -> Option<Seq<Lexeme>> {
    match lex_from(s, i) {
        Ok(ts) => Some(significant(ts)),
        Err(_) => None,
    }
}

/// The tokens `first`, then those of `rest`, if there are any.
pub open spec fn followed(first: Seq<Lexeme>, rest: Option<Seq<Lexeme>>) -> Option<Seq<Lexeme>> {
    match rest {
        Some(r) => Some(first + r),
        None => None,
    }
}

/// The significant tokens of two sequences joined are those of each,
/// joined.
pub(crate) proof fn lemma_significant_concat(a: Seq<Lexeme>, b: Seq<Lexeme>)
    ensures
        significant(a + b) == significant(a) + significant(b),
    decreases b.len(),
{
    if b.len() == 0 {
        assert(a + b =~= a);
        assert(significant(a) + significant(b) =~= significant(a));
    } else {
        assert((a + b).drop_last() =~= a + b.drop_last());
        lemma_significant_concat(a, b.drop_last());
        assert(significant(a + b) =~= significant(a) + significant(b));
    }
}

/// A token at position `i` comes first among the tokens read from there,
/// unless it is discardable.
pub(crate) proof fn lemma_read_token(s: Seq<char>, i: int)
    requires
        0 <= i < s.len(),
        scan_at(s, i) is Token,
    ensures
        read(s, i) == if scan_at(s, i)->Token_0.discardable() {
            read(s, i + scan_at(s, i)->Token_1)
        } else {
            followed(seq![scan_at(s, i)->Token_0], read(s, i + scan_at(s, i)->Token_1))
        },
{
    let t = scan_at(s, i)->Token_0;
    let n = scan_at(s, i)->Token_1;
    lemma_token_takes_characters(s, i);
    match lex_from(s, i + n) {
        Ok(rest) => {
            lemma_significant_concat(seq![t], rest);
            assert(seq![t].drop_last() =~= Seq::<Lexeme>::empty());
            assert(significant(Seq::<Lexeme>::empty()) =~= Seq::<Lexeme>::empty());
            assert(seq![t].last() == t);
            assert(significant(seq![t]) =~= if t.discardable() {
                Seq::<Lexeme>::empty()
            } else {
                seq![t]
            });
            assert(Seq::<Lexeme>::empty() + significant(rest) =~= significant(rest));
        },
        Err(_) => {},
    }
}

/// Spaces and line breaks add nothing to what is read.
pub(crate) proof fn lemma_read_gap(s: Seq<char>, i: int, n: nat)
    requires
        0 <= i,
        i + n <= s.len(),
        forall|k: int| i <= k < i + n ==> s[k] == ' ' || s[k] == '\n',
    ensures
        read(s, i) == read(s, i + n),
    decreases n,
{
    if n > 0 {
        lemma_read_gap(s, i + 1, (n - 1) as nat);
        if s[i] == '\n' {
            lemma_read_token(s, i);
        }
    }
}

} // verus!
