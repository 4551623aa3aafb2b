//! What a validating frontend says of a text, and what this library
//! says where it validates a text itself.

use vstd::prelude::*;
use crate::lexer::Lexer;
use crate::report::{lex_kind_name, structure_message};
use crate::scan::tokens_of;
use crate::validate::{checked, validate};

verus! {

/// The answer of a validating frontend: the text is well formed, or it
/// does not lex, or it does not parse.
#[derive(Debug, Clone, PartialEq, Eq)]
pub enum Validation {
    /// The text lexes and parses.
    Accepted,
    /// The text does not lex: the name of the kind of failure, and the
    /// span of the text that it covers.
    LexFailure { kind: String, start: usize, end: usize },
    /// The text does not parse, for the reason that the message gives.
    ParseFailure { message: String },
}

/// The mathematical value of a [`Validation`].
pub enum Answer {
    Accepted,
    LexFailure { kind: Seq<char>, start: nat, end: nat },
    ParseFailure { message: Seq<char> },
}

impl View for Validation {
    type V = Answer;

    open spec fn view(&self) -> Answer {
        match *self {
            Validation::Accepted => Answer::Accepted,
            Validation::LexFailure { kind, start, end } => Answer::LexFailure {
                kind: kind@,
                start: start as nat,
                end: end as nat,
            },
            Validation::ParseFailure { message } => Answer::ParseFailure { message: message@ },
        }
    }
}

/// The answer of this library to the text `src`: a text that does not
/// lex fails lexically, with the kind and span of the failure; one whose
/// tokens fail the structural check fails to parse, with the message of
/// the fault; any other is accepted.
pub open spec fn answer_of(src: Seq<char>) -> Answer {
    match tokens_of(src) {
        Err(failure) => Answer::LexFailure {
            kind: lex_kind_name(failure.kind),
            start: failure.start,
            end: failure.end,
        },
        Ok(tokens) => match checked(tokens) {
            Err(fault) => Answer::ParseFailure { message: structure_message(fault) },
            Ok(_) => Answer::Accepted,
        },
    }
}

/// Validates a text: lexes it, and checks the structure of its tokens.
pub fn validate_source(src: &str) -> (answer: Validation)
    ensures
        answer@ == answer_of(src@),
{
    let mut lexer = Lexer::new(src);
    match lexer.scan() {
        Err(e) => Validation::LexFailure { kind: e.kind.name(), start: e.start, end: e.end },
        Ok(tokens) => match validate(tokens.as_slice()) {
            Err(e) => Validation::ParseFailure { message: e.message() },
            Ok(_) => Validation::Accepted,
        },
    }
}

} // verus!
