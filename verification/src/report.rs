//! The diagnostic text of each failure: numerals, names and reports.

use vstd::prelude::*;
use vstd::string::StringExecFns;
use crate::scan::LexErrorKind;
use crate::validate::{StructureError, StructureErrorKind, StructureFault};

verus! {

/// The character of a decimal digit.
pub open spec fn digit_char(d: nat) -> char {
    if d == 0 {
        '0'
    } else if d == 1 {
        '1'
    } else if d == 2 {
        '2'
    } else if d == 3 {
        '3'
    } else if d == 4 {
        '4'
    } else if d == 5 {
        '5'
    } else if d == 6 {
        '6'
    } else if d == 7 {
        '7'
    } else if d == 8 {
        '8'
    } else {
        '9'
    }
}

/// The decimal numeral of `n`, without leading zeros.
pub open spec fn decimal(n: nat) -> Seq<char>
    decreases n,
{
    if n < 10 {
        seq![digit_char(n)]
    } else {
        decimal(n / 10).push(digit_char(n % 10))
    }
}

/// The name of a kind of lexical failure.
pub open spec fn lex_kind_name(kind: LexErrorKind) -> Seq<char> {
    match kind {
        LexErrorKind::UnterminatedString => "UnterminatedString"@,
        LexErrorKind::UnterminatedBlockComment => "UnterminatedBlockComment"@,
    }
}

/// The report of a lexical failure: its kind, by name, and the span it
/// covers.
pub open spec fn lex_report(kind: Seq<char>, start: nat, end: nat) -> Seq<char> {
    "lex error: "@ + kind + " at "@ + decimal(start) + ".."@ + decimal(end)
}

/// What a kind of structural failure is called in a message.
pub open spec fn structure_kind_name(kind: StructureErrorKind) -> Seq<char> {
    match kind {
        StructureErrorKind::Unmatched => "unmatched closing delimiter"@,
        StructureErrorKind::Unclosed => "unclosed delimiter"@,
        StructureErrorKind::Unterminated => "missing `;`"@,
    }
}

/// The message of a structural failure: its kind and the token at which
/// it shows.
pub open spec fn structure_message(fault: StructureFault) -> Seq<char> {
    structure_kind_name(fault.kind) + " at token "@ + decimal(fault.at)
}

/// The report of a structural failure, whose message is `message`.
pub open spec fn parse_report(message: Seq<char>) -> Seq<char> {
    "parse error: "@ + message
}

/// The character of the decimal digit `d`.
fn digit_of(d: usize) -> (c: char)
    requires
        d < 10,
    ensures
        c == digit_char(d as nat),
{
    if d == 0 {
        '0'
    } else if d == 1 {
        '1'
    } else if d == 2 {
        '2'
    } else if d == 3 {
        '3'
    } else if d == 4 {
        '4'
    } else if d == 5 {
        '5'
    } else if d == 6 {
        '6'
    } else if d == 7 {
        '7'
    } else if d == 8 {
        '8'
    } else {
        '9'
    }
}

/// Appends the decimal numeral of `n` to `out`.
pub(crate) fn push_decimal(out: &mut String, n: usize)
    ensures
        final(out)@ == old(out)@ + decimal(n as nat),
    decreases n,
{
    if n >= 10 {
        push_decimal(out, n / 10);
    }
    out.push(digit_of(n % 10));
    assert(out@ =~= old(out)@ + decimal(n as nat));
}

impl LexErrorKind {
    /// The name of this kind of failure.
    pub fn name(&self) -> (text: String)
        ensures
            text@ == lex_kind_name(*self),
    {
        match self {
            LexErrorKind::UnterminatedString => String::from_str("UnterminatedString"),
            LexErrorKind::UnterminatedBlockComment => String::from_str("UnterminatedBlockComment"),
        }
    }
}

impl StructureError {
    /// The message of this failure.
    pub fn message(&self) -> (text: String)
        ensures
            text@ == structure_message(self@),
    {
        let mut text = match self.kind {
            StructureErrorKind::Unmatched => String::from_str("unmatched closing delimiter"),
            StructureErrorKind::Unclosed => String::from_str("unclosed delimiter"),
            StructureErrorKind::Unterminated => String::from_str("missing `;`"),
        };
        text.append(" at token ");
        push_decimal(&mut text, self.at);
        text
    }
}

/// The report of a lexical failure of the kind called `kind`, over the
/// span from `start` to `end`.
pub(crate) fn report_lex_failure(kind: &str, start: usize, end: usize) -> (text: String)
    ensures
        text@ == lex_report(kind@, start as nat, end as nat),
{
    let mut text = String::from_str("lex error: ");
    text.append(kind);
    text.append(" at ");
    push_decimal(&mut text, start);
    text.append("..");
    push_decimal(&mut text, end);
    text
}

/// The report of a structural failure whose message is `message`.
pub(crate) fn report_parse_failure(message: &str) -> (text: String)
    ensures
        text@ == parse_report(message@),
{
    let mut text = String::from_str("parse error: ");
    text.append(message);
    text
}

} // verus!
