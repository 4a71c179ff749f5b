//! Turning a recognized expression into a point in time.
use vstd::prelude::*;
use crate::grammar::{Direction, ParsedExpression, Term};

verus! {

/// A point in time: whole seconds since the Unix epoch (UTC), and the
/// nanoseconds into that second.
#[derive(Clone, Copy, Debug, PartialEq, Eq, Structural)]
pub struct Timestamp {
    pub secs: i64,
    pub nanos: u32,
}

impl Timestamp {
    pub open spec fn wf(&self) -> bool {
        self.nanos < 1_000_000_000
    }
}

/// Why a recognized expression has no point in time.
#[derive(Clone, Copy, Debug, PartialEq, Eq, Structural)]
pub enum EvalError {
    /// The offset moves the time out of the range of `Timestamp`.
    Overflow,
}

/// The seconds that one term lasts.
pub open spec fn term_seconds(t: Term) -> int {
    t.quantity * t.unit.spec_seconds()
}

pub open spec fn add_term() -> spec_fn(int, Term) -> int {
    |acc: int, t: Term| acc + term_seconds(t)
}

/// The seconds that all of `terms` last together.
pub open spec fn total_seconds(terms: Seq<Term>) -> int {
    terms.fold_left(0int, add_term())
}

/// The signed offset in seconds that an expression stands for: back in time
/// for `Past`, forward otherwise.
pub open spec fn signed_offset(e: (Seq<Term>, Direction)) -> int {
    if e.1 == Direction::Past {
        -total_seconds(e.0)
    } else {
        total_seconds(e.0)
    }
}

/// `reference` moved by `delta` seconds, or `Overflow` when that leaves the
/// range of `Timestamp`.
pub open spec fn shifted(reference: Timestamp, delta: int) -> Result<Timestamp, EvalError> {
    let secs = reference.secs + delta;
    if i64::MIN <= secs <= i64::MAX {
        Ok(Timestamp { secs: secs as i64, nanos: reference.nanos })
    } else {
        Err(EvalError::Overflow)
    }
}

/// The point in time that the expression `e` names, seen from `reference`.
pub open spec fn resolved(reference: Timestamp, e: (Seq<Term>, Direction)) -> Result<
    Timestamp,
    EvalError,
> {
    shifted(reference, signed_offset(e))
}

proof fn lemma_total_step(terms: Seq<Term>, i: int)
    requires
        0 <= i < terms.len(),
    ensures
        total_seconds(terms.take(i + 1)) == total_seconds(terms.take(i)) + term_seconds(terms[i]),
{
    assert(terms.take(i + 1).drop_last() =~= terms.take(i));
}

proof fn lemma_total_nonneg(terms: Seq<Term>)
    ensures
        total_seconds(terms) >= 0,
    decreases terms.len(),
{
    if terms.len() > 0 {
        lemma_total_nonneg(terms.drop_last());
        let t = terms.last();
        assert(t.quantity * t.unit.spec_seconds() >= 0) by (nonlinear_arith)
            requires
                t.unit.spec_seconds() > 0,
        ;
    }
}

/// A prefix of the terms lasts no longer than all of them.
proof fn lemma_total_prefix(terms: Seq<Term>, i: int)
    requires
        0 <= i <= terms.len(),
    ensures
        total_seconds(terms.take(i)) <= total_seconds(terms),
    decreases terms.len() - i,
{
    if i < terms.len() {
        lemma_total_step(terms, i);
        lemma_total_prefix(terms, i + 1);
        let t = terms[i];
        assert(t.quantity * t.unit.spec_seconds() >= 0) by (nonlinear_arith)
            requires
                t.unit.spec_seconds() > 0,
        ;
    } else {
        assert(terms.take(i) =~= terms);
    }
}

/// Resolves `expr` against `reference`: the reference moved by the sum of the
/// terms, back for `Past` and forward otherwise, or `Overflow` when the
/// result leaves the range of `Timestamp`.
pub fn evaluate(expr: &ParsedExpression, reference: Timestamp) -> (r: Result<Timestamp, EvalError>)
    ensures
        r == resolved(reference, expr@),
{
    let ghost terms = expr.terms@;
    let mut total: u64 = 0;
    let mut i: usize = 0;
    while i < expr.terms.len()
        invariant
            terms == expr.terms@,
            i <= terms.len(),
            total == total_seconds(terms.take(i as int)),
        decreases terms.len() - i,
    {
        let t = expr.terms[i];
        proof {
            lemma_total_step(terms, i as int);
            lemma_total_prefix(terms, i + 1);
            lemma_total_nonneg(terms);
        }
        let f = t.unit.seconds();
        let part: u128 = t.quantity as u128 * f as u128;
        let sum: u128 = total as u128 + part;
        if sum > u64::MAX as u128 {
            assert(total_seconds(terms) > u64::MAX);
            return Err(EvalError::Overflow);
        }
        total = sum as u64;
        i = i + 1;
    }
    assert(terms.take(i as int) =~= terms);
    let secs: i128 = if expr.direction == Direction::Past {
        reference.secs as i128 - total as i128
    } else {
        reference.secs as i128 + total as i128
    };
    if secs < i64::MIN as i128 || secs > i64::MAX as i128 {
        return Err(EvalError::Overflow);
    }
    Ok(Timestamp { secs: secs as i64, nanos: reference.nanos })
}

} // verus!
