//! Relative English time phrases such as "3 weeks and 5 days ago" or
//! "in 5 days and 2 hours", resolved to a point in time.
use vstd::prelude::*;
use vstd::string::StringSliceAdditionalSpecFns;

pub mod clock;
pub mod eval;
pub mod grammar;
pub mod laws;
pub mod lexer;

use crate::eval::{evaluate, resolved, EvalError, Timestamp};
use crate::grammar::{parse_phrase, recognize};

verus! {

/// What `parse_at` gives for the phrase with UTF-8 bytes `s`, seen from
/// `reference`: `None` when the phrase is not of this grammar, otherwise the
/// point in time it names or why it has none.
pub open spec fn outcome(reference: Timestamp, s: Seq<u8>) -> Option<Result<Timestamp, EvalError>> {
    match parse_phrase(s) {
        None => None,
        Some(e) => Some(resolved(reference, e)),
    }
}

/// Parses `input` and resolves it against `reference`.
///
/// `None` means that the input is not a phrase of this grammar, so that
/// another parser may be tried; `Some(Err(..))` that it is one, but names no
/// representable point in time.
pub fn parse_at(reference: Timestamp, input: &str) -> (r: Option<Result<Timestamp, EvalError>>)
    ensures
        r == outcome(reference, input.spec_bytes()),
{
    match recognize(input) {
        None => None,
        Some(expr) => Some(evaluate(&expr, reference)),
    }
}

/// Parses `input` and resolves it against the current time.
pub fn parse(input: &str) -> (r: Option<Result<Timestamp, EvalError>>)
    ensures
        exists|now: Timestamp| now.wf() && r == outcome(now, input.spec_bytes()),
{
    let now = clock::now();
    parse_at(now, input)
}

} // verus!
