//! A canonicalizing formatter for Dust source text.
//!
//! A text is lexed into tokens, comments kept ([`Lexer`]), and the
//! printer writes the tokens anew, one syntactic item a line, with fixed
//! indentation and spacing ([`format_tokens`]). A text is formatted only
//! once it is validated: [`format_validated`] takes the answer of a
//! validating frontend, and [`format_source`] validates the text itself,
//! by the structural check of [`validate`].
//!
//! What each step computes is stated over sequences of characters and
//! tokens ([`scan`], [`validate`], [`render`]), and proved of the code.
//! What holds of the whole for every input is stated and proved in
//! [`laws`].

use vstd::prelude::*;
use crate::lexer::lex_failure_text;
use crate::render::render;
use crate::report::{lex_report, parse_report, report_lex_failure, report_parse_failure};
use crate::scan::tokens_of;
use crate::validation::{answer_of, Answer};

pub mod text;
pub mod token;
pub mod scan;
pub mod lexer;
pub mod render;
pub mod format;
pub mod validate;
pub mod report;
pub mod validation;
pub mod lines;
pub mod shape;
pub mod reading;
pub mod steady;
pub mod comments;
pub mod tidy;
pub mod roundtrip;
pub mod laws;

pub use crate::format::format_tokens;
pub use crate::lexer::{LexError, Lexer};
pub use crate::scan::LexErrorKind;
pub use crate::token::Token;
pub use crate::validate::{validate, StructureError, StructureErrorKind};
pub use crate::validation::{validate_source, Validation};

verus! {

/// What formatting the text `src` gives, once the validation has given
/// `answer`: for a text that is rejected, the report of the
/// failure, and nothing is printed; for one that is accepted, its
/// canonical text, unless it does not lex, which is then said in words.
pub open spec fn outcome(src: Seq<char>, answer: Answer) -> Result<Seq<char>, Seq<char>> {
    match answer {
        Answer::LexFailure { kind, start, end } => Err(lex_report(kind, start, end)),
        Answer::ParseFailure { message } => Err(parse_report(message)),
        Answer::Accepted => match tokens_of(src) {
            Ok(tokens) => Ok(render(tokens)),
            Err(failure) => Err(lex_failure_text(failure.kind)),
        },
    }
}

/// What formatting the text `src` gives where the library validates it
/// itself.
pub open spec fn formatted(src: Seq<char>) -> Result<Seq<char>, Seq<char>> {
    outcome(src, answer_of(src))
}

/// Formats a source text to which a validating frontend has given
/// `answer`.
pub fn format_validated(src: &str, answer: &Validation) -> (r: Result<String, String>)
    ensures
        match outcome(src@, answer@) {
            Ok(text) => r matches Ok(out) && out@ == text,
            Err(message) => r matches Err(m) && m@ == message,
        },
{
    match answer {
        Validation::LexFailure { kind, start, end } => Err(
            report_lex_failure(kind.as_str(), *start, *end),
        ),
        Validation::ParseFailure { message } => Err(report_parse_failure(message.as_str())),
        Validation::Accepted => {
            let mut lexer = Lexer::new(src);
            match lexer.lex() {
                Ok(tokens) => Ok(format_tokens(tokens.as_slice())),
                Err(message) => Err(message),
            }
        },
    }
}

/// Formats one source text: validates it, then prints its tokens.
pub fn format_source(src: &str) -> (r: Result<String, String>)
    ensures
        match formatted(src@) {
            Ok(text) => r matches Ok(out) && out@ == text,
            Err(message) => r matches Err(m) && m@ == message,
        },
{
    let answer = validate_source(src);
    format_validated(src, &answer)
}

} // verus!
