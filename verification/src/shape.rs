//! The shapes of the tokens that the lexer makes, and when a token's text
//! is read back as that token.

use vstd::prelude::*;
use crate::scan::{
    block_len, is_blank, is_delim, is_digit, is_pair_op, is_single_op, is_word_char, is_word_start,
    lemma_block_len_bound, lemma_line_len_bound, lemma_string_len_bound, lemma_word_len_bound,
    line_len, number_len, quoted_char, scan_at, string_len, word_len, Scanned,
};
use crate::token::{classify, Lexeme};

verus! {

/// `w` is a word: a letter or `_`, then letters, digits and `_`.
pub open spec fn is_word(w: Seq<char>) -> bool {
    &&& w.len() >= 1
    &&& is_word_start(w[0])
    &&& forall|k: int| 0 <= k < w.len() ==> is_word_char(#[trigger] w[k])
}

/// `s` is a number as the lexer reads one: it starts with a digit and is
/// a number to its end.
pub open spec fn is_numeral(s: Seq<char>) -> bool {
    &&& s.len() >= 1
    &&& is_digit(s[0])
    &&& 1 + number_len(s, 1, false) == s.len()
}

/// `s` is a character literal in its full form: one character, not a
/// quote, between two quotes.
pub open spec fn is_quoted(s: Seq<char>) -> bool {
    s.len() == 3 && s[0] == '\'' && s[1] != '\'' && s[2] == '\''
}

/// `c` starts no token but itself.
pub open spec fn is_stray(c: char) -> bool {
    &&& c != '\n' && c != '\t' && c != '"' && c != '\''
    &&& !is_blank(c)
    &&& !is_single_op(c)
    &&& !is_delim(c)
    &&& !is_digit(c)
    &&& !is_word_start(c)
}

/// `t` has the shape of a token that the lexer makes.
pub open spec fn lexical(t: Lexeme) -> bool {
    match t {
        Lexeme::Newline | Lexeme::Skip => true,
        Lexeme::Comment(s) => {
            &&& s.len() >= 2
            &&& s[0] == '/'
            &&& s[1] == '/'
            &&& forall|k: int| 0 <= k < s.len() ==> #[trigger] s[k] != '\n'
        },
        Lexeme::BlockComment(s) => {
            &&& s.len() >= 4
            &&& s[0] == '/'
            &&& s[1] == '*'
            &&& block_len(s, 2) == Some((s.len() - 2) as nat)
        },
        Lexeme::StringLit(s) => {
            &&& s.len() >= 2
            &&& s[0] == '"'
            &&& string_len(s, 1) == Some((s.len() - 1) as nat)
        },
        Lexeme::Number(s) => is_numeral(s) || is_quoted(s),
        Lexeme::Ident(w) | Lexeme::Keyword(w) | Lexeme::Regime(w) | Lexeme::BoolLit(w) => is_word(
            w,
        ) && classify(w) == t,
        Lexeme::Op(s) => (s.len() == 2 && is_pair_op(s[0], s[1])) || (s.len() == 1
            && is_single_op(s[0])),
        Lexeme::Delim(c) => is_delim(c),
        Lexeme::Unknown(c) => is_stray(c),
    }
}

/// A text with no line break before its end is a line to its end.
pub(crate) proof fn lemma_line_len_is(s: Seq<char>, i: int, n: nat)
    requires
        0 <= i,
        i + n <= s.len(),
        forall|k: int| i <= k < i + n ==> s[k] != '\n',
        i + n == s.len() || s[i + n] == '\n',
    ensures
        line_len(s, i) == n,
    decreases n,
{
    if n > 0 {
        lemma_line_len_is(s, i + 1, (n - 1) as nat);
    }
}

/// Word characters up to a character that is none are a word to there.
pub(crate) proof fn lemma_word_len_is(s: Seq<char>, i: int, n: nat)
    requires
        0 <= i,
        i + n <= s.len(),
        forall|k: int| i <= k < i + n ==> is_word_char(s[k]),
        i + n == s.len() || !is_word_char(s[i + n]),
    ensures
        word_len(s, i) == n,
    decreases n,
{
    if n > 0 {
        lemma_word_len_is(s, i + 1, (n - 1) as nat);
    }
}

/// A number ends in a digit.
pub(crate) proof fn lemma_number_ends_in_digit(s: Seq<char>, i: int, dotted: bool)
    requires
        0 <= i,
    ensures
        number_len(s, i, dotted) > 0 ==> i + number_len(s, i, dotted) <= s.len() && is_digit(
            s[i + number_len(s, i, dotted) - 1],
        ),
    decreases s.len() - i,
{
    if i < s.len() && is_digit(s[i]) {
        lemma_number_ends_in_digit(s, i + 1, dotted);
    } else if i + 1 < s.len() && s[i] == '.' && !dotted && is_digit(s[i + 1]) {
        lemma_number_ends_in_digit(s, i + 1, true);
    }
}

/// The extent of a number depends on its own characters and on the one
/// after them alone.
pub(crate) proof fn lemma_number_len_local(
    a: Seq<char>,
    i: int,
    b: Seq<char>,
    j: int,
    dotted: bool,
    m: nat,
)
    requires
        0 <= i,
        0 <= j,
        i + m <= a.len(),
        j + m <= b.len(),
        a.subrange(i, i + m) == b.subrange(j, j + m),
        number_len(a, i, dotted) == m,
        j + m == b.len() || (!is_digit(b[j + m]) && b[j + m] != '.'),
    ensures
        number_len(b, j, dotted) == m,
    decreases m,
{
    if m > 0 {
        assert(a.subrange(i, i + m)[0] == a[i]);
        assert(b.subrange(j, j + m)[0] == b[j]);
        assert(a.subrange(i + 1, i + m) =~= a.subrange(i, i + m).subrange(1, m as int));
        assert(b.subrange(j + 1, j + m) =~= b.subrange(j, j + m).subrange(1, m as int));
        if is_digit(a[i]) {
            lemma_number_len_local(a, i + 1, b, j + 1, dotted, (m - 1) as nat);
        } else {
            assert(a[i] == '.' && !dotted && is_digit(a[i + 1]));
            assert(number_len(a, i + 1, true) == 1 + number_len(a, i + 2, true));
            assert(m >= 2);
            assert(a.subrange(i, i + m)[1] == a[i + 1]);
            assert(b.subrange(j, j + m)[1] == b[j + 1]);
            lemma_number_len_local(a, i + 1, b, j + 1, true, (m - 1) as nat);
        }
    }
}

/// The extent of a block comment depends on its own characters alone.
pub(crate) proof fn lemma_block_len_local(a: Seq<char>, i: int, b: Seq<char>, j: int, m: nat)
    requires
        0 <= i,
        0 <= j,
        i + m <= a.len(),
        j + m <= b.len(),
        a.subrange(i, i + m) == b.subrange(j, j + m),
        block_len(a, i) == Some(m),
    ensures
        block_len(b, j) == Some(m),
    decreases m,
{
    lemma_block_len_bound(a, i);
    assert(a.subrange(i, i + m)[0] == a[i]);
    assert(b.subrange(j, j + m)[0] == b[j]);
    assert(a.subrange(i, i + m)[1] == a[i + 1]);
    assert(b.subrange(j, j + m)[1] == b[j + 1]);
    if !(a[i] == '*' && a[i + 1] == '/') {
        lemma_block_len_bound(a, i + 1);
        assert(a.subrange(i + 1, i + m) =~= a.subrange(i, i + m).subrange(1, m as int));
        assert(b.subrange(j + 1, j + m) =~= b.subrange(j, j + m).subrange(1, m as int));
        lemma_block_len_local(a, i + 1, b, j + 1, (m - 1) as nat);
    }
}

/// The extent of a string literal depends on its own characters alone.
pub(crate) proof fn lemma_string_len_local(a: Seq<char>, i: int, b: Seq<char>, j: int, m: nat)
    requires
        0 <= i,
        0 <= j,
        i + m <= a.len(),
        j + m <= b.len(),
        a.subrange(i, i + m) == b.subrange(j, j + m),
        string_len(a, i) == Some(m),
    ensures
        string_len(b, j) == Some(m),
    decreases m,
{
    lemma_string_len_bound(a, i);
    assert(a.subrange(i, i + m)[0] == a[i]);
    assert(b.subrange(j, j + m)[0] == b[j]);
    if a[i] == '"' {
    } else if a[i] == '\\' {
        lemma_string_len_bound(a, i + 2);
        assert(a.subrange(i + 2, i + m) =~= a.subrange(i, i + m).subrange(2, m as int));
        assert(b.subrange(j + 2, j + m) =~= b.subrange(j, j + m).subrange(2, m as int));
        lemma_string_len_local(a, i + 2, b, j + 2, (m - 2) as nat);
    } else {
        lemma_string_len_bound(a, i + 1);
        assert(a.subrange(i + 1, i + m) =~= a.subrange(i, i + m).subrange(1, m as int));
        assert(b.subrange(j + 1, j + m) =~= b.subrange(j, j + m).subrange(1, m as int));
        lemma_string_len_local(a, i + 1, b, j + 1, (m - 1) as nat);
    }
}

/// Every token that the lexer makes has the shape of one.
pub(crate) proof fn lemma_scanned_is_lexical(s: Seq<char>, i: int)
    requires
        0 <= i < s.len(),
    ensures
        scan_at(s, i) matches Scanned::Token(t, _) ==> lexical(t),
{
    let c = s[i];
    lemma_line_len_bound(s, i + 2);
    lemma_block_len_bound(s, i + 2);
    lemma_string_len_bound(s, i + 1);
    crate::scan::lemma_number_len_bound(s, i + 1, false);
    lemma_word_len_bound(s, i + 1);
    match scan_at(s, i) {
        Scanned::Token(t, n) => {
            let sub = s.subrange(i, i + n);
            match t {
                Lexeme::BlockComment(_) => {
                    let m = block_len(s, i + 2)->0;
                    assert(s.subrange(i + 2, i + 2 + m) =~= sub.subrange(2, (2 + m) as int));
                    lemma_block_len_local(s, i + 2, sub, 2, m);
                },
                Lexeme::StringLit(_) => {
                    let m = string_len(s, i + 1)->0;
                    assert(s.subrange(i + 1, i + 1 + m) =~= sub.subrange(1, (1 + m) as int));
                    lemma_string_len_local(s, i + 1, sub, 1, m);
                },
                Lexeme::Number(_) => {
                    if is_digit(c) {
                        let m = number_len(s, i + 1, false);
                        assert(s.subrange(i + 1, i + 1 + m) =~= sub.subrange(1, (1 + m) as int));
                        lemma_number_len_local(s, i + 1, sub, 1, false, m);
                    }
                },
                Lexeme::Ident(_) | Lexeme::Keyword(_) | Lexeme::Regime(_) | Lexeme::BoolLit(_) => {
                    assert(is_word(sub));
                },
                _ => {},
            }
        },
        _ => {},
    }
}

/// Whether the character `c`, standing right after the text of `t`,
/// leaves the token as it is: it neither continues it nor joins it.
pub open spec fn clear(t: Lexeme, c: char) -> bool {
    match t {
        Lexeme::Newline | Lexeme::Skip => true,
        Lexeme::Comment(_) => c == '\n',
        Lexeme::BlockComment(_) | Lexeme::StringLit(_) => true,
        Lexeme::Number(_) => !is_digit(c) && c != '.',
        Lexeme::Ident(_) | Lexeme::Keyword(_) | Lexeme::Regime(_) | Lexeme::BoolLit(_) => 
            !is_word_char(c),
        Lexeme::Op(s) => s.len() == 2 || (!is_pair_op(s[0], c) && !(s[0] == '/' && (c == '/' || c
            == '*'))),
        Lexeme::Delim(d) => !is_pair_op(d, c),
        Lexeme::Unknown(d) => !is_pair_op(d, c),
    }
}

/// The text of a token, where what follows leaves it clear, is read back
/// as that token.
pub(crate) proof fn lemma_text_reads_back(x: Seq<char>, p: int, t: Lexeme)
    requires
        lexical(t),
        !t.discardable(),
        0 <= p,
        p + t.text().len() <= x.len(),
        x.subrange(p, p + t.text().len()) == t.text(),
        p + t.text().len() == x.len() || clear(t, x[p + t.text().len()]),
    ensures
        scan_at(x, p) == Scanned::Token(t, t.text().len()),
{
    let text = t.text();
    let n = text.len();
    assert(n >= 1);
    assert forall|k: int| 0 <= k < n implies x[p + k] == text[k] by {
        assert(x.subrange(p, p + n)[k] == x[p + k]);
    }
    assert(x[p] == text[0]);
    match t {
        Lexeme::Comment(s) => {
            assert(x[p + 1] == text[1]);
            assert forall|k: int| p + 2 <= k < p + n implies x[k] != '\n' by {
                assert(x[p + (k - p)] == text[k - p]);
            }
            lemma_line_len_is(x, p + 2, (n - 2) as nat);
        },
        Lexeme::BlockComment(s) => {
            assert(x[p + 1] == text[1]);
            assert(s.subrange(2, n as int) =~= x.subrange(p + 2, p + n));
            lemma_block_len_local(s, 2, x, p + 2, (n - 2) as nat);
        },
        Lexeme::StringLit(s) => {
            assert(s.subrange(1, n as int) =~= x.subrange(p + 1, p + n));
            lemma_string_len_local(s, 1, x, p + 1, (n - 1) as nat);
        },
        Lexeme::Number(s) => {
            if is_numeral(s) {
                assert(s.subrange(1, n as int) =~= x.subrange(p + 1, p + n));
                lemma_number_len_local(s, 1, x, p + 1, false, (n - 1) as nat);
            } else {
                assert(x[p + 1] == text[1]);
                assert(x[p + 2] == text[2]);
                assert(seq!['\'', quoted_char(x, p), '\''] =~= s);
            }
        },
        Lexeme::Ident(w) | Lexeme::Keyword(w) | Lexeme::Regime(w) | Lexeme::BoolLit(w) => {
            assert forall|k: int| p + 1 <= k < p + n implies is_word_char(x[k]) by {
                assert(x[p + (k - p)] == text[k - p]);
            }
            lemma_word_len_is(x, p + 1, (n - 1) as nat);
        },
        Lexeme::Op(s) => {
            if n == 2 {
                assert(x[p + 1] == text[1]);
            } else {
                assert(seq![x[p]] =~= s);
            }
        },
        _ => {},
    }
}

} // verus!
