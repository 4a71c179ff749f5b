//! The phrase grammar and its recognizer.
//!
//! ```text
//! expression  := ["in"] term_list ["ago"]      (not both markers)
//! term_list   := term (conjunction term)*
//! term        := number unit
//! conjunction := "and" | ","
//! unit        := "second(s)" | "minute(s)" | "hour(s)" | "day(s)" | "week(s)"
//! ```
//!
//! The grammar is stated over the words of the phrase (see `lexer`); keywords
//! match without regard to ASCII case.
use vstd::prelude::*;
use crate::lexer::{split_words, span_texts, spans_within, words};
use vstd::string::StringSliceAdditionalSpecFns;

verus! {

/// A unit of time that a phrase may name.
#[derive(Clone, Copy, Debug, PartialEq, Eq, Structural)]
pub enum Unit {
    Second,
    Minute,
    Hour,
    Day,
    Week,
}

impl Unit {
    /// How many seconds one of this unit lasts.
    pub open spec fn spec_seconds(self) -> int {
        match self {
            Unit::Second => 1,
            Unit::Minute => 60,
            Unit::Hour => 3600,
            Unit::Day => 86400,
            Unit::Week => 604800,
        }
    }

    /// How many seconds one of this unit lasts.
    pub fn seconds(self) -> (r: u64)
        ensures
            r == self.spec_seconds(),
    {
        match self {
            Unit::Second => 1,
            Unit::Minute => 60,
            Unit::Hour => 3600,
            Unit::Day => 86400,
            Unit::Week => 604800,
        }
    }
}

/// Which way a phrase points from the reference instant.
#[derive(Clone, Copy, Debug, PartialEq, Eq, Structural)]
pub enum Direction {
    /// The phrase ends in "ago".
    Past,
    /// The phrase begins with "in".
    Future,
    /// The phrase has neither marker; it is read as `Future`.
    Unspecified,
}

/// One quantity of one unit, as in "5 days".
#[derive(Clone, Copy, Debug, PartialEq, Eq, Structural)]
pub struct Term {
    pub quantity: u64,
    pub unit: Unit,
}

/// A recognized phrase: its terms, in the order written, and its direction.
#[derive(Debug)]
pub struct ParsedExpression {
    pub terms: Vec<Term>,
    pub direction: Direction,
}

impl View for ParsedExpression {
    type V = (Seq<Term>, Direction);

    open spec fn view(&self) -> (Seq<Term>, Direction) {
        (self.terms@, self.direction)
    }
}

/// ASCII upper case letters to lower case; other bytes unchanged.
pub open spec fn lower(b: u8) -> u8 {
    if 65 <= b <= 90 {
        (b + 32) as u8
    } else {
        b
    }
}

/// `w` is the lower case keyword `k`, in any ASCII case.
pub open spec fn is_keyword(w: Seq<u8>, k: Seq<u8>) -> bool {
    w.len() == k.len() && forall|i: int| 0 <= i < w.len() ==> lower(#[trigger] w[i]) == k[i]
}

/// "in"
pub open spec fn kw_in() -> Seq<u8> {
    seq![105u8, 110]
}

/// "ago"
pub open spec fn kw_ago() -> Seq<u8> {
    seq![97u8, 103, 111]
}

/// "and"
pub open spec fn kw_and() -> Seq<u8> {
    seq![97u8, 110, 100]
}

/// "second"
pub open spec fn kw_second() -> Seq<u8> {
    seq![115u8, 101, 99, 111, 110, 100]
}

/// "minute"
pub open spec fn kw_minute() -> Seq<u8> {
    seq![109u8, 105, 110, 117, 116, 101]
}

/// "hour"
pub open spec fn kw_hour() -> Seq<u8> {
    seq![104u8, 111, 117, 114]
}

/// "day"
pub open spec fn kw_day() -> Seq<u8> {
    seq![100u8, 97, 121]
}

/// "week"
pub open spec fn kw_week() -> Seq<u8> {
    seq![119u8, 101, 101, 107]
}

/// The keyword `k` or its plural `k` + "s".
pub open spec fn is_unit_word(w: Seq<u8>, k: Seq<u8>) -> bool {
    is_keyword(w, k) || is_keyword(w, k.push(115u8))
}

/// The unit that the word `w` names, if any.
pub open spec fn unit_named(w: Seq<u8>) -> Option<Unit> {
    if is_unit_word(w, kw_second()) {
        Some(Unit::Second)
    } else if is_unit_word(w, kw_minute()) {
        Some(Unit::Minute)
    } else if is_unit_word(w, kw_hour()) {
        Some(Unit::Hour)
    } else if is_unit_word(w, kw_day()) {
        Some(Unit::Day)
    } else if is_unit_word(w, kw_week()) {
        Some(Unit::Week)
    } else {
        None
    }
}

/// "and" or ",".
pub open spec fn is_conjunction(w: Seq<u8>) -> bool {
    is_keyword(w, kw_and()) || w == seq![44u8]
}

pub open spec fn is_digit(b: u8) -> bool {
    48 <= b <= 57
}

/// A non-empty run of decimal digits.
pub open spec fn is_number(w: Seq<u8>) -> bool {
    w.len() > 0 && forall|i: int| 0 <= i < w.len() ==> is_digit(#[trigger] w[i])
}

/// The value of the decimal digits `w`.
pub open spec fn digits_value(w: Seq<u8>) -> nat
    decreases w.len(),
{
    if w.len() == 0 {
        0
    } else {
        digits_value(w.drop_last()) * 10 + (w.last() - 48) as nat
    }
}

/// The value of the digits `w`, held at `u64::MAX` when it is larger.
pub open spec fn quantity_of(w: Seq<u8>) -> u64 {
    if digits_value(w) <= u64::MAX {
        digits_value(w) as u64
    } else {
        u64::MAX
    }
}

/// The term that the words `n` and `u` spell, if they spell one.
pub open spec fn term_of(n: Seq<u8>, u: Seq<u8>) -> Option<Term> {
    if is_number(n) && unit_named(u) is Some {
        Some(Term { quantity: quantity_of(n), unit: unit_named(u)->0 })
    } else {
        None
    }
}

/// The terms of `w` when `w` is a term list.
pub open spec fn term_list(w: Seq<Seq<u8>>) -> Option<Seq<Term>>
    decreases w.len(),
{
    if w.len() < 2 {
        None
    } else {
        match term_of(w[0], w[1]) {
            None => None,
            Some(t) => if w.len() == 2 {
                Some(seq![t])
            } else if is_conjunction(w[2]) {
                prepend(seq![t], term_list(w.subrange(3, w.len() as int)))
            } else {
                None
            },
        }
    }
}

/// `rest` with `head` in front, when there is a `rest`.
pub open spec fn prepend(head: Seq<Term>, rest: Option<Seq<Term>>) -> Option<Seq<Term>> {
    match rest {
        Some(r) => Some(head + r),
        None => None,
    }
}

pub open spec fn leads_with_in(w: Seq<Seq<u8>>) -> bool {
    w.len() > 0 && is_keyword(w[0], kw_in())
}

pub open spec fn ends_with_ago(w: Seq<Seq<u8>>) -> bool {
    w.len() > 0 && is_keyword(w.last(), kw_ago())
}

/// The expression that the words `w` form, if they form one.
pub open spec fn parse_words(w: Seq<Seq<u8>>) -> Option<(Seq<Term>, Direction)> {
    if leads_with_in(w) && ends_with_ago(w) {
        None
    } else {
        let (body, dir) = if leads_with_in(w) {
            (w.drop_first(), Direction::Future)
        } else if ends_with_ago(w) {
            (w.drop_last(), Direction::Past)
        } else {
            (w, Direction::Unspecified)
        };
        match term_list(body) {
            Some(t) => Some((t, dir)),
            None => None,
        }
    }
}

/// The expression that the phrase with UTF-8 bytes `s` forms, if it forms one.
pub open spec fn parse_phrase(s: Seq<u8>) -> Option<(Seq<Term>, Direction)> {
    parse_words(words(s))
}

fn lower_byte(b: u8) -> (r: u8)
    ensures
        r == lower(b),
{
    if 65 <= b && b <= 90 {
        b + 32
    } else {
        b
    }
}

/// Whether `s[start..end]` is the keyword `k`.
fn word_is(s: &[u8], start: usize, end: usize, k: &[u8]) -> (r: bool)
    requires
        start <= end <= s@.len(),
    ensures
        r == is_keyword(s@.subrange(start as int, end as int), k@),
{
    let ghost w = s@.subrange(start as int, end as int);
    if end - start != k.len() {
        return false;
    }
    let mut i: usize = 0;
    while i < k.len()
        invariant
            start <= end <= s@.len(),
            w == s@.subrange(start as int, end as int),
            end - start == k@.len(),
            i <= k@.len(),
            forall|j: int| 0 <= j < i ==> lower(#[trigger] w[j]) == k@[j],
        decreases k@.len() - i,
    {
        if lower_byte(s[start + i]) != k[i] {
            assert(lower(w[i as int]) != k@[i as int]);
            return false;
        }
        i = i + 1;
    }
    true
}

/// Whether `s[start..end]` is the unit word `k` or its plural.
fn unit_word_is(s: &[u8], start: usize, end: usize, k: &[u8], plural: &[u8]) -> (r: bool)
    requires
        start <= end <= s@.len(),
        plural@ == k@.push(115u8),
    ensures
        r == is_unit_word(s@.subrange(start as int, end as int), k@),
{
    word_is(s, start, end, k) || word_is(s, start, end, plural)
}

/// The unit that `s[start..end]` names, if any.
fn unit_at(s: &[u8], start: usize, end: usize) -> (r: Option<Unit>)
    requires
        start <= end <= s@.len(),
    ensures
        r == unit_named(s@.subrange(start as int, end as int)),
{
    let second: [u8; 6] = [115, 101, 99, 111, 110, 100];
    let seconds: [u8; 7] = [115, 101, 99, 111, 110, 100, 115];
    let minute: [u8; 6] = [109, 105, 110, 117, 116, 101];
    let minutes: [u8; 7] = [109, 105, 110, 117, 116, 101, 115];
    let hour: [u8; 4] = [104, 111, 117, 114];
    let hours: [u8; 5] = [104, 111, 117, 114, 115];
    let day: [u8; 3] = [100, 97, 121];
    let days: [u8; 4] = [100, 97, 121, 115];
    let week: [u8; 4] = [119, 101, 101, 107];
    let weeks: [u8; 5] = [119, 101, 101, 107, 115];
    assert(second@ =~= kw_second() && seconds@ =~= kw_second().push(115u8));
    assert(minute@ =~= kw_minute() && minutes@ =~= kw_minute().push(115u8));
    assert(hour@ =~= kw_hour() && hours@ =~= kw_hour().push(115u8));
    assert(day@ =~= kw_day() && days@ =~= kw_day().push(115u8));
    assert(week@ =~= kw_week() && weeks@ =~= kw_week().push(115u8));
    if unit_word_is(s, start, end, &second, &seconds) {
        Some(Unit::Second)
    } else if unit_word_is(s, start, end, &minute, &minutes) {
        Some(Unit::Minute)
    } else if unit_word_is(s, start, end, &hour, &hours) {
        Some(Unit::Hour)
    } else if unit_word_is(s, start, end, &day, &days) {
        Some(Unit::Day)
    } else if unit_word_is(s, start, end, &week, &weeks) {
        Some(Unit::Week)
    } else {
        None
    }
}

/// The quantity that `s[start..end]` spells, if it is a number.
fn number_at(s: &[u8], start: usize, end: usize) -> (r: Option<u64>)
    requires
        start <= end <= s@.len(),
    ensures
        is_number(s@.subrange(start as int, end as int)) ==> r == Some(
            quantity_of(s@.subrange(start as int, end as int)),
        ),
        !is_number(s@.subrange(start as int, end as int)) ==> r is None,
{
    if start == end {
        return None;
    }
    let mut acc: u64 = 0;
    let mut i: usize = start;
    while i < end
        invariant
            start <= i <= end <= s@.len(),
            forall|j: int| start <= j < i ==> is_digit(#[trigger] s@[j]),
            acc == quantity_of(s@.subrange(start as int, i as int)),
        decreases end - i,
    {
        let ghost prev = s@.subrange(start as int, i as int);
        let ghost next = s@.subrange(start as int, i + 1);
        let b = s[i];
        if b < 48 || b > 57 {
            assert(!is_digit(s@.subrange(start as int, end as int)[i - start]));
            return None;
        }
        assert(next.drop_last() =~= prev);
        let wide: u128 = acc as u128 * 10 + (b - 48) as u128;
        if acc == u64::MAX || wide > u64::MAX as u128 {
            assert(digits_value(next) > u64::MAX) by (nonlinear_arith)
                requires
                    digits_value(next) == digits_value(prev) * 10 + (b - 48) as nat,
                    acc == u64::MAX ==> digits_value(prev) >= u64::MAX,
                    acc < u64::MAX ==> acc == digits_value(prev),
                    acc == u64::MAX || wide > u64::MAX,
                    wide == acc * 10 + (b - 48),
            ;
            acc = u64::MAX;
        } else {
            acc = wide as u64;
        }
        i = i + 1;
    }
    assert(s@.subrange(start as int, i as int) =~= s@.subrange(start as int, end as int));
    Some(acc)
}

/// Whether `s[start..end]` is a conjunction.
fn conjunction_at(s: &[u8], start: usize, end: usize) -> (r: bool)
    requires
        start <= end <= s@.len(),
    ensures
        r == is_conjunction(s@.subrange(start as int, end as int)),
{
    let and: [u8; 3] = [97, 110, 100];
    assert(and@ =~= kw_and());
    let comma = end - start == 1 && s[start] == 44;
    assert(comma ==> s@.subrange(start as int, end as int) =~= seq![44u8]);
    assert(s@.subrange(start as int, end as int) == seq![44u8] ==> s@.subrange(
        start as int,
        end as int,
    )[0] == 44u8);
    word_is(s, start, end, &and) || comma
}

/// The terms of the words `lo..hi` of `s`, whose spans are `spans`.
fn terms_in(s: &[u8], spans: &Vec<(usize, usize)>, lo: usize, hi: usize) -> (r: Option<Vec<Term>>)
    requires
        spans_within(s@, spans@),
        lo <= hi <= spans@.len(),
    ensures
        r is Some <==> term_list(span_texts(s@, spans@).subrange(lo as int, hi as int)) is Some,
        r is Some ==> r->0@ == term_list(span_texts(s@, spans@).subrange(lo as int, hi as int))->0,
{
    let ghost w = span_texts(s@, spans@);
    let mut terms: Vec<Term> = Vec::new();
    let mut j: usize = lo;
    assert(terms@ + seq![] =~= seq![]);
    loop
        invariant
            spans_within(s@, spans@),
            w == span_texts(s@, spans@),
            lo <= j <= hi <= spans@.len(),
            term_list(w.subrange(lo as int, hi as int)) == prepend(
                terms@,
                term_list(w.subrange(j as int, hi as int)),
            ),
        decreases hi - j,
    {
        let ghost rest = w.subrange(j as int, hi as int);
        if hi - j < 2 {
            return None;
        }
        assert(rest[0] == w[j as int] && rest[1] == w[j + 1]);
        let (a, b) = spans[j];
        let (c, d) = spans[j + 1];
        assert(spans@[j as int] == (a, b) && spans@[j + 1] == (c, d));
        let quantity = match number_at(s, a, b) {
            Some(q) => q,
            None => {
                return None;
            },
        };
        let unit = match unit_at(s, c, d) {
            Some(u) => u,
            None => {
                return None;
            },
        };
        let t = Term { quantity, unit };
        assert(term_of(rest[0], rest[1]) == Some(t));
        let ghost before = terms@;
        terms.push(t);
        if hi - j == 2 {
            assert(before + seq![t] =~= terms@);
            return Some(terms);
        }
        let (e, f) = spans[j + 2];
        assert(spans@[j + 2] == (e, f) && rest[2] == w[j + 2]);
        if !conjunction_at(s, e, f) {
            return None;
        }
        assert(rest.subrange(3, rest.len() as int) =~= w.subrange(j + 3, hi as int));
        assert(before + seq![t] =~= terms@);
        assert forall|o: Option<Seq<Term>>| prepend(before, prepend(seq![t], o)) == prepend(terms@, o) by {
            if o is Some {
                assert(before + (seq![t] + o->0) =~= terms@ + o->0);
            }
        }
        j = j + 3;
    }
}

/// Recognizes `input`: the expression it forms, or `None` when it is not a
/// phrase of this grammar.
pub fn recognize(input: &str) -> (r: Option<ParsedExpression>)
    ensures
        r is Some <==> parse_phrase(input.spec_bytes()) is Some,
        r is Some ==> Some(r->0@) == parse_phrase(input.spec_bytes()),
{
    let s = input.as_bytes();
    let spans = split_words(s);
    let ghost w = words(s@);
    let n = spans.len();
    let in_word: [u8; 2] = [105, 110];
    let ago_word: [u8; 3] = [97, 103, 111];
    assert(in_word@ =~= kw_in() && ago_word@ =~= kw_ago());
    let leads_in = n > 0 && word_is(s, spans[0].0, spans[0].1, &in_word);
    let ends_ago = n > 0 && word_is(s, spans[n - 1].0, spans[n - 1].1, &ago_word);
    assert(leads_in == leads_with_in(w));
    assert(ends_ago == ends_with_ago(w));
    if leads_in && ends_ago {
        return None;
    }
    let (lo, hi, direction) = if leads_in {
        assert(w.drop_first() =~= w.subrange(1, n as int));
        (1, n, Direction::Future)
    } else if ends_ago {
        assert(w.drop_last() =~= w.subrange(0, n - 1));
        (0, n - 1, Direction::Past)
    } else {
        assert(w =~= w.subrange(0, n as int));
        (0, n, Direction::Unspecified)
    };
    match terms_in(s, &spans, lo, hi) {
        Some(terms) => Some(ParsedExpression { terms, direction }),
        None => None,
    }
}

} // verus!
