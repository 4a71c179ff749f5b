//! Laws that relate phrases to the times they name.
use vstd::prelude::*;
use vstd::seq_lib::{commutative_foldl, lemma_fold_left_permutation};
use crate::eval::{add_term, shifted, term_seconds, total_seconds, Timestamp};
use crate::grammar::{
    ends_with_ago, is_keyword, is_number, kw_ago, kw_in, leads_with_in, lower, parse_phrase,
    quantity_of, term_list, unit_named, Direction, Term, Unit,
};
use crate::lexer::words;
use crate::outcome;

verus! {

/// A number is never the keyword "in".
proof fn lemma_number_not_in(w: Seq<u8>)
    requires
        is_number(w),
    ensures
        !is_keyword(w, kw_in()),
{
    if is_keyword(w, kw_in()) {
        assert(lower(w[0]) == 105u8);
    }
}

/// A unit word is never the keyword "ago".
proof fn lemma_unit_not_ago(w: Seq<u8>)
    requires
        unit_named(w) is Some,
    ensures
        !is_keyword(w, kw_ago()),
{
    if is_keyword(w, kw_ago()) {
        assert(lower(w[0]) == 97u8);
    }
}

/// A term list begins with a number and ends with a unit word.
proof fn lemma_term_list_ends(b: Seq<Seq<u8>>)
    requires
        term_list(b) is Some,
    ensures
        b.len() >= 2,
        is_number(b[0]),
        unit_named(b.last()) is Some,
    decreases b.len(),
{
    if b.len() > 2 {
        let rest = b.subrange(3, b.len() as int);
        lemma_term_list_ends(rest);
        assert(rest.last() == b.last());
    }
}

proof fn lemma_total_single(t: Term)
    ensures
        total_seconds(seq![t]) == term_seconds(t),
{
    let f = add_term();
    assert(seq![t].drop_last() =~= Seq::<Term>::empty());
    assert(Seq::<Term>::empty().fold_left(0int, f) == 0);
    assert(seq![t].fold_left(0int, f) == f(0int, t));
}

/// "N unit ago" names the reference instant moved back by N of that unit.
pub proof fn lemma_single_term_ago(
    reference: Timestamp,
    s: Seq<u8>,
    n: Seq<u8>,
    u: Seq<u8>,
    a: Seq<u8>,
    unit: Unit,
)
    requires
        words(s) == seq![n, u, a],
        is_number(n),
        unit_named(u) == Some(unit),
        is_keyword(a, kw_ago()),
    ensures
        outcome(reference, s) == Some(
            shifted(reference, -(quantity_of(n) * unit.spec_seconds())),
        ),
{
    let w = words(s);
    lemma_number_not_in(n);
    assert(!leads_with_in(w));
    assert(ends_with_ago(w));
    let body = w.drop_last();
    assert(body =~= seq![n, u]);
    let t = Term { quantity: quantity_of(n), unit };
    assert(term_list(body) == Some(seq![t]));
    lemma_total_single(t);
}

/// A phrase "in ..." names the reference instant moved forward by the sum of
/// its terms.
pub proof fn lemma_in_is_forward(reference: Timestamp, s: Seq<u8>, terms: Seq<Term>)
    requires
        leads_with_in(words(s)),
        term_list(words(s).drop_first()) == Some(terms),
    ensures
        outcome(reference, s) == Some(shifted(reference, total_seconds(terms))),
{
    let w = words(s);
    lemma_term_list_ends(w.drop_first());
    assert(w.drop_first().last() == w.last());
    lemma_unit_not_ago(w.last());
    assert(parse_phrase(s) == Some((terms, Direction::Future)));
}

/// A phrase with neither "in" nor "ago" names the reference instant moved
/// forward by the sum of its terms.
pub proof fn lemma_unmarked_is_forward(reference: Timestamp, s: Seq<u8>, terms: Seq<Term>)
    requires
        term_list(words(s)) == Some(terms),
    ensures
        parse_phrase(s) == Some((terms, Direction::Unspecified)),
        outcome(reference, s) == Some(shifted(reference, total_seconds(terms))),
{
    let w = words(s);
    lemma_term_list_ends(w);
    lemma_number_not_in(w[0]);
    lemma_unit_not_ago(w.last());
}

/// Two phrases with the same direction whose terms are the same up to order
/// name the same point in time.
pub proof fn lemma_order_independent(
    reference: Timestamp,
    s1: Seq<u8>,
    s2: Seq<u8>,
    t1: Seq<Term>,
    t2: Seq<Term>,
    d: Direction,
)
    requires
        parse_phrase(s1) == Some((t1, d)),
        parse_phrase(s2) == Some((t2, d)),
        t1.to_multiset() == t2.to_multiset(),
    ensures
        outcome(reference, s1) == outcome(reference, s2),
{
    assert(commutative_foldl(add_term()));
    lemma_fold_left_permutation(t1, t2, add_term(), 0int);
}

/// A phrase with no words, or with both "in" and "ago", is not applicable.
pub proof fn lemma_not_applicable(reference: Timestamp, s: Seq<u8>)
    requires
        words(s).len() == 0 || (leads_with_in(words(s)) && ends_with_ago(words(s))),
    ensures
        outcome(reference, s) is None,
{
}

} // verus!
