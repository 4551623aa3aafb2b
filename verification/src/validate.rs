//! The structural check that a text must pass where the library
//! validates it itself: delimiters are balanced and nested, and every
//! statement is terminated before its block closes or the input ends.
//!
//! It knows nothing of the language beyond its delimiters and
//! terminators; the answer of a frontend that parses the language is a
//! `Validation`.

use vstd::prelude::*;
use crate::token::{lexemes, Lexeme, Token};

verus! {

/// What is wrong with the structure of a token sequence.
#[derive(Debug, Clone, Copy, PartialEq, Eq, Structural)]
pub enum StructureErrorKind {
    /// A closing delimiter that closes nothing, or not what is open.
    Unmatched,
    /// The input ends while a delimiter is open.
    Unclosed,
    /// A block closes, or the input ends, after a statement that has no
    /// `;`.
    Unterminated,
}

/// A structural failure, and the index of the token at which it shows;
/// the number of tokens where it shows at the end of the input.
#[derive(Debug, Clone, Copy, PartialEq, Eq, Structural)]
pub struct StructureError {
    pub kind: StructureErrorKind,
    pub at: usize,
}

/// The mathematical value of a [`StructureError`].
pub struct StructureFault {
    pub kind: StructureErrorKind,
    pub at: nat,
}

impl View for StructureError {
    type V = StructureFault;

    open spec fn view(&self) -> StructureFault {
        StructureFault { kind: self.kind, at: self.at as nat }
    }
}

/// Where a scan of the structure stands between two tokens.
pub struct Nesting {
    /// The delimiters that are open, outermost first.
    pub open: Seq<char>,
    /// Whether a block may close here: nothing has been written since the
    /// last `{`, `}` or `;`, or since the start.
    pub settled: bool,
}

/// The scan before the first token.
pub open spec fn outermost() -> Nesting {
    Nesting { open: Seq::empty(), settled: true }
}

/// The closing delimiter `c` closes the innermost open delimiter.
pub open spec fn closes(n: Nesting, c: char) -> bool {
    n.open.len() > 0 && {
        let innermost = n.open.last();
        ||| c == ')' && innermost == '('
        ||| c == ']' && innermost == '['
        ||| c == '}' && innermost == '{'
    }
}

/// The scan after one more token, or what is wrong with that token.
/// Comments, line breaks and tabs change nothing.
pub open spec fn advance(n: Nesting, t: Lexeme) -> Result<Nesting, StructureErrorKind> {
    match t {
        Lexeme::Newline | Lexeme::Skip | Lexeme::Comment(_) | Lexeme::BlockComment(_) => Ok(n),
        Lexeme::Delim(c) => if c == '{' {
            Ok(Nesting { open: n.open.push(c), settled: true })
        } else if c == '(' || c == '[' {
            Ok(Nesting { open: n.open.push(c), settled: false })
        } else if c == ')' || c == ']' {
            if closes(n, c) {
                Ok(Nesting { open: n.open.drop_last(), settled: false })
            } else {
                Err(StructureErrorKind::Unmatched)
            }
        } else if c == '}' {
            if !closes(n, c) {
                Err(StructureErrorKind::Unmatched)
            } else if !n.settled {
                Err(StructureErrorKind::Unterminated)
            } else {
                Ok(Nesting { open: n.open.drop_last(), settled: true })
            }
        } else if c == ';' {
            Ok(Nesting { settled: true, ..n })
        } else {
            Ok(Nesting { settled: false, ..n })
        },
        _ => Ok(Nesting { settled: false, ..n }),
    }
}

/// The scan after the tokens `ts`, or the first thing wrong among them.
pub open spec fn scanned(ts: Seq<Lexeme>) -> Result<Nesting, StructureFault>
    decreases ts.len(),
{
    if ts.len() == 0 {
        Ok(outermost())
    } else {
        match scanned(ts.drop_last()) {
            Ok(n) => match advance(n, ts.last()) {
                Ok(next) => Ok(next),
                Err(kind) => Err(StructureFault { kind, at: (ts.len() - 1) as nat }),
            },
            Err(fault) => Err(fault),
        }
    }
}

/// The result of the check on a whole token sequence: the first thing
/// wrong among the tokens, or else what is wrong at the end of the input,
/// if anything is.
pub open spec fn checked(ts: Seq<Lexeme>) -> Result<(), StructureFault> {
    match scanned(ts) {
        Err(fault) => Err(fault),
        Ok(n) => if n.open.len() > 0 {
            Err(StructureFault { kind: StructureErrorKind::Unclosed, at: ts.len() })
        } else if !n.settled {
            Err(StructureFault { kind: StructureErrorKind::Unterminated, at: ts.len() })
        } else {
            Ok(())
        },
    }
}

/// A fault among the first `k` tokens is the fault of the whole sequence.
pub(crate) proof fn lemma_fault_stays(ts: Seq<Lexeme>, k: int)
    requires
        0 <= k <= ts.len(),
        scanned(ts.take(k)) is Err,
    ensures
        scanned(ts) == scanned(ts.take(k)),
    decreases ts.len() - k,
{
    if k < ts.len() {
        assert(ts.take(k + 1).drop_last() =~= ts.take(k));
        lemma_fault_stays(ts, k + 1);
    } else {
        assert(ts.take(k) =~= ts);
    }
}

/// Takes one token into account: the open delimiters and the flag become
/// those of the scan after it, unless something is wrong with it.
fn advance_scan(open: &mut Vec<char>, settled: &mut bool, tok: &Token) -> (r: Result<
    (),
    StructureErrorKind,
>)
    ensures
        match advance(Nesting { open: old(open)@, settled: *old(settled) }, tok@) {
            Ok(next) => r is Ok && final(open)@ == next.open && *final(settled) == next.settled,
            Err(kind) => r == Err::<(), StructureErrorKind>(kind),
        },
{
    match tok {
        Token::Newline | Token::Skip | Token::Comment(_) | Token::BlockComment(_) => {},
        Token::Delim(c) => {
            let c = *c;
            if c == '{' {
                open.push(c);
                *settled = true;
            } else if c == '(' || c == '[' {
                open.push(c);
                *settled = false;
            } else if c == ')' || c == ']' || c == '}' {
                let n = open.len();
                if n == 0 {
                    return Err(StructureErrorKind::Unmatched);
                }
                let innermost = open[n - 1];
                let fits = (c == ')' && innermost == '(') || (c == ']' && innermost == '[') || (c
                    == '}' && innermost == '{');
                if !fits {
                    return Err(StructureErrorKind::Unmatched);
                }
                if c == '}' && !*settled {
                    return Err(StructureErrorKind::Unterminated);
                }
                open.pop();
                *settled = c == '}';
            } else if c == ';' {
                *settled = true;
            } else {
                *settled = false;
            }
        },
        _ => {
            *settled = false;
        },
    }
    Ok(())
}

/// Checks the structure of a token sequence.
pub fn validate(tokens: &[Token]) -> (r: Result<(), StructureError>)
    ensures
        match checked(lexemes(tokens@)) {
            Ok(_) => r is Ok,
            Err(fault) => r matches Err(e) && e@ == fault,
        },
{
    let ghost ts = lexemes(tokens@);
    let mut open: Vec<char> = Vec::new();
    let mut settled = true;
    let mut i: usize = 0;
    while i < tokens.len()
        invariant
            i <= tokens.len(),
            ts == lexemes(tokens@),
            scanned(ts.take(i as int)) == Ok::<Nesting, StructureFault>(
                Nesting { open: open@, settled },
            ),
        decreases tokens.len() - i,
    {
        assert(ts.take(i + 1).drop_last() =~= ts.take(i as int));
        match advance_scan(&mut open, &mut settled, &tokens[i]) {
            Ok(_) => {},
            Err(kind) => {
                proof {
                    lemma_fault_stays(ts, i + 1);
                }
                return Err(StructureError { kind, at: i });
            },
        }
        i += 1;
    }
    assert(ts.take(i as int) =~= ts);
    if open.len() > 0 {
        Err(StructureError { kind: StructureErrorKind::Unclosed, at: i })
    } else if !settled {
        Err(StructureError { kind: StructureErrorKind::Unterminated, at: i })
    } else {
        Ok(())
    }
}

} // verus!
