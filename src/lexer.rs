//! Splitting a phrase into words.
//!
//! Words are separated by ASCII whitespace. A comma ends the word before it and
//! is a word of its own, so "5 days, 2 hours" has the words
//! `5`, `days`, `,`, `2`, `hours`.
use vstd::prelude::*;

verus! {

/// Space, tab, line feed or carriage return.
pub open spec fn is_space(b: u8) -> bool {
    b == 32 || b == 9 || b == 10 || b == 13
}

/// The byte of `,`.
pub open spec fn is_comma(b: u8) -> bool {
    b == 44
}

/// The word `s[start..end]`, or nothing when that range is empty.
pub open spec fn pending_word(s: Seq<u8>, start: int, end: int) -> Seq<Seq<u8>> {
    if start < end {
        seq![s.subrange(start, end)]
    } else {
        seq![]
    }
}

/// The words of `s` from position `i` on, where a word began at `start`
/// (`start == i` when none has begun).
pub open spec fn scan(s: Seq<u8>, i: int, start: int) -> Seq<Seq<u8>>
    decreases s.len() - i,
{
    if i < 0 || i >= s.len() {
        pending_word(s, start, s.len() as int)
    } else if is_space(s[i]) {
        pending_word(s, start, i) + scan(s, i + 1, i + 1)
    } else if is_comma(s[i]) {
        pending_word(s, start, i) + seq![s.subrange(i, i + 1)] + scan(s, i + 1, i + 1)
    } else {
        scan(s, i + 1, start)
    }
}

/// The words of `s`, in order.
pub open spec fn words(s: Seq<u8>) -> Seq<Seq<u8>> {
    scan(s, 0, 0)
}

/// The text that each span `(start, end)` of `spans` covers in `s`.
pub open spec fn span_texts(s: Seq<u8>, spans: Seq<(usize, usize)>) -> Seq<Seq<u8>> {
    Seq::new(spans.len(), |k: int| s.subrange(spans[k].0 as int, spans[k].1 as int))
}

pub open spec fn spans_within(s: Seq<u8>, spans: Seq<(usize, usize)>) -> bool {
    forall|k: int| 0 <= k < spans.len() ==> (#[trigger] spans[k]).0 <= spans[k].1 <= s.len()
}

fn push_pending(spans: &mut Vec<(usize, usize)>, s: &[u8], start: usize, end: usize)
    requires
        start <= end <= s@.len(),
    ensures
        final(spans)@.len() <= old(spans)@.len() + 1,
        span_texts(s@, final(spans)@) == span_texts(s@, old(spans)@) + pending_word(
            s@,
            start as int,
            end as int,
        ),
        spans_within(s@, old(spans)@) ==> spans_within(s@, final(spans)@),
{
    if start < end {
        spans.push((start, end));
        assert(span_texts(s@, final(spans)@) =~= span_texts(s@, old(spans)@) + pending_word(
            s@,
            start as int,
            end as int,
        ));
    } else {
        assert(span_texts(s@, old(spans)@) + pending_word(s@, start as int, end as int)
            =~= span_texts(s@, old(spans)@));
    }
}

/// The spans of the words of `s`, in order.
pub fn split_words(s: &[u8]) -> (spans: Vec<(usize, usize)>)
    ensures
        spans_within(s@, spans@),
        span_texts(s@, spans@) == words(s@),
{
    let mut spans: Vec<(usize, usize)> = Vec::new();
    let mut i: usize = 0;
    let mut start: usize = 0;
    while i < s.len()
        invariant
            start <= i <= s@.len(),
            spans_within(s@, spans@),
            span_texts(s@, spans@) + scan(s@, i as int, start as int) == words(s@),
        decreases s@.len() - i,
    {
        let b = s[i];
        if b == 32 || b == 9 || b == 10 || b == 13 {
            let ghost before = span_texts(s@, spans@);
            push_pending(&mut spans, s, start, i);
            assert(span_texts(s@, spans@) + scan(s@, i + 1, i + 1) =~= before + scan(
                s@,
                i as int,
                start as int,
            ));
            start = i + 1;
        } else if b == 44 {
            let ghost before = span_texts(s@, spans@);
            push_pending(&mut spans, s, start, i);
            push_pending(&mut spans, s, i, i + 1);
            assert(span_texts(s@, spans@) + scan(s@, i + 1, i + 1) =~= before + scan(
                s@,
                i as int,
                start as int,
            ));
            start = i + 1;
        }
        i = i + 1;
    }
    let ghost before = span_texts(s@, spans@);
    push_pending(&mut spans, s, start, i);
    assert(span_texts(s@, spans@) =~= before + scan(s@, i as int, start as int));
    spans
}

} // verus!
