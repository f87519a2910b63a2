//! How a text and its table of render slots are composed into one HTML
//! string.

use crate::embed::{
    distinct_begins, embedded, embedded_all, lemma_embedded_commutes, lemma_embedded_pair,
    lemma_merge_in_any_order, lemma_same_range_is_one_span, slots_of, spans_of, vacant_slots,
    Replacement, Slot,
};
use crate::entity::{Embeddable, Span};
use crate::text::chars_of;
use vstd::prelude::*;

verus! {

/// What composing emits from offset `i` on, when everything before `skip`
/// has already been consumed by a range that was replaced.
pub open spec fn composed_from(text: Seq<char>, slots: Seq<Slot>, i: int, skip: int) -> Seq<char>
    decreases text.len() - i,
{
    if i < 0 || i >= text.len() {
        Seq::empty()
    } else if i < skip {
        composed_from(text, slots, i + 1, skip)
    } else if slots[i].text.len() == 0 {
        seq![text[i]] + composed_from(text, slots, i + 1, skip)
    } else {
        slots[i].text + composed_from(text, slots, i + 1, slots[i].end as int)
    }
}

/// The text with each occupied slot's range replaced by the slot's text: a
/// character of a vacant slot passes through, an occupied slot emits its text
/// and consumes the characters up to its end.
pub open spec fn composed(text: Seq<char>, slots: Seq<Slot>) -> Seq<char> {
    composed_from(text, slots, 0, 0)
}

/// What is left of the text from offset `i` on: nothing, where `i` lies
/// behind the end.
pub open spec fn rest_from(text: Seq<char>, i: int) -> Seq<char> {
    if 0 <= i <= text.len() {
        text.subrange(i, text.len() as int)
    } else {
        Seq::empty()
    }
}

/// Composes the text and its table into one HTML string.
pub fn compose(text: &str, replacements: &Vec<Replacement>) -> (html: String)
    requires
        text@.len() <= replacements.len(),
    ensures
        html@ == composed(text@, slots_of(replacements@)),
{
    let chars = chars_of(text);
    let ghost slots = slots_of(replacements@);
    let mut buf = String::new();
    let mut end: usize = 0;
    let mut i: usize = 0;
    while i < chars.len()
        invariant
            i <= chars.len(),
            chars@ == text@,
            text@.len() <= replacements.len(),
            slots == slots_of(replacements@),
            buf@ + composed_from(text@, slots, i as int, end as int) == composed(text@, slots),
        decreases chars.len() - i,
    {
        if i < end {
            // consumed by the range that was replaced last
        } else if replacements[i].text.as_str().is_empty() {
            buf.push(chars[i]);
        } else {
            buf.append(replacements[i].text.as_str());
            end = replacements[i].end;
        }
        i += 1;
    }
    buf
}

/// Across a run of vacant slots that nothing has consumed, the text passes
/// through unchanged.
pub proof fn lemma_composed_vacant_run(
    text: Seq<char>,
    slots: Seq<Slot>,
    i: int,
    j: int,
    skip: int,
)
    requires
        0 <= i <= j <= text.len(),
        skip <= i,
        forall|k: int| i <= k < j ==> (#[trigger] slots[k]).text.len() == 0,
    ensures
        composed_from(text, slots, i, skip) == text.subrange(i, j) + composed_from(
            text,
            slots,
            j,
            skip,
        ),
    decreases j - i,
{
    if i < j {
        lemma_composed_vacant_run(text, slots, i + 1, j, skip);
    }
}

/// The characters that a replaced range has consumed emit nothing, whatever
/// their slots hold; a range that reaches behind the end consumes the rest.
pub proof fn lemma_composed_consumed(text: Seq<char>, slots: Seq<Slot>, i: int, skip: int)
    requires
        0 <= i <= skip,
    ensures
        composed_from(text, slots, i, skip) == if skip <= text.len() {
            composed_from(text, slots, skip, skip)
        } else {
            Seq::empty()
        },
    decreases text.len() - i,
{
    if i < skip && i < text.len() {
        lemma_composed_consumed(text, slots, i + 1, skip);
    }
}

/// A text whose table is vacant composes to itself.
pub proof fn lemma_composed_vacant(text: Seq<char>)
    ensures
        composed(text, vacant_slots(text.len())) == text,
{
    lemma_composed_vacant_run(text, vacant_slots(text.len()), 0, text.len() as int, 0);
}

/// One annotation over a range of at least one character, in an otherwise
/// vacant table: the text before the range, the annotation's text, and the
/// text behind the range.
pub proof fn lemma_single_span(text: Seq<char>, a: Span)
    requires
        a.begin < a.end,
        a.begin < text.len(),
        a.text.len() > 0,
    ensures
        embedded(vacant_slots(text.len()), a) is Ok,
        composed(text, embedded(vacant_slots(text.len()), a)->Ok_0) == text.subrange(
            0,
            a.begin as int,
        ) + a.text + rest_from(text, a.end as int),
{
    let len = text.len() as int;
    let b = a.begin as int;
    let e = a.end as int;
    let slots = embedded(vacant_slots(text.len()), a)->Ok_0;
    lemma_composed_vacant_run(text, slots, 0, b, 0);
    lemma_composed_consumed(text, slots, b + 1, e);
    if e <= len {
        lemma_composed_vacant_run(text, slots, e, len, e);
    }
}

/// Any single annotation over a range of at least one character replaces
/// exactly that range.
pub proof fn lemma_single_annotation<T: Embeddable>(text: Seq<char>, a: T)
    requires
        a.span().begin < a.span().end,
        a.span().begin < text.len(),
    ensures
        embedded_all(vacant_slots(text.len()), spans_of(seq![a])) is Ok,
        composed(text, embedded_all(vacant_slots(text.len()), spans_of(seq![a]))->Ok_0)
            == text.subrange(0, a.span().begin as int) + a.span().text + rest_from(
            text,
            a.span().end as int,
        ),
{
    let start = vacant_slots(text.len());
    a.lemma_text_is_not_empty();
    lemma_single_span(text, a.span());
    assert(spans_of(seq![a]) =~= seq![a.span()]);
    assert(seq![a.span()].skip(1) =~= Seq::<Span>::empty());
    assert(embedded_all(embedded(start, a.span())->Ok_0, Seq::<Span>::empty()) == embedded(
        start,
        a.span(),
    ));
}

/// Two annotations over the same range of at least one character, in an
/// otherwise vacant table: their texts stand in place of the range, the first
/// one's first.
pub proof fn lemma_same_range_concatenates(text: Seq<char>, first: Span, second: Span)
    requires
        first.begin == second.begin,
        first.end == second.end,
        first.begin < first.end,
        first.begin < text.len(),
        first.text.len() > 0,
    ensures
        embedded_all(vacant_slots(text.len()), seq![first, second]) is Ok,
        composed(text, embedded_all(vacant_slots(text.len()), seq![first, second])->Ok_0)
            == text.subrange(0, first.begin as int) + first.text + second.text + rest_from(
            text,
            first.end as int,
        ),
{
    let one = Span { begin: first.begin, end: first.end, text: first.text + second.text };
    lemma_same_range_is_one_span(vacant_slots(text.len()), first, second);
    lemma_single_span(text, one);
}

/// Two annotations over ranges that do not overlap, in an otherwise vacant
/// table and merged in either order: the text with each range replaced by
/// its annotation's text, in the order of the text.
pub proof fn lemma_two_spans(text: Seq<char>, a: Span, b: Span)
    requires
        a.begin < a.end <= b.begin < b.end,
        b.begin < text.len(),
        a.text.len() > 0,
        b.text.len() > 0,
    ensures
        embedded_all(vacant_slots(text.len()), seq![a, b]) is Ok,
        embedded_all(vacant_slots(text.len()), seq![b, a]) == embedded_all(
            vacant_slots(text.len()),
            seq![a, b],
        ),
        composed(text, embedded_all(vacant_slots(text.len()), seq![a, b])->Ok_0)
            == text.subrange(0, a.begin as int) + a.text + text.subrange(
            a.end as int,
            b.begin as int,
        ) + b.text + rest_from(text, b.end as int),
{
    let len = text.len() as int;
    let start = vacant_slots(text.len());
    lemma_embedded_pair(start, a, b);
    lemma_embedded_commutes(start, a, b);
    let slots = embedded_all(start, seq![a, b])->Ok_0;
    let (ab, ae, bb, be) = (a.begin as int, a.end as int, b.begin as int, b.end as int);
    lemma_composed_vacant_run(text, slots, 0, ab, 0);
    lemma_composed_consumed(text, slots, ab + 1, ae);
    lemma_composed_vacant_run(text, slots, ae, bb, ae);
    lemma_composed_consumed(text, slots, bb + 1, be);
    if be <= len {
        lemma_composed_vacant_run(text, slots, be, len, be);
    }
}

/// The text from offset `from` on, with the range of each annotation
/// replaced by the annotation's text. The annotations are taken as the list
/// holds them, one behind the other.
pub open spec fn substituted(text: Seq<char>, spans: Seq<Span>, from: int) -> Seq<char>
    decreases spans.len(),
{
    if spans.len() == 0 {
        rest_from(text, from)
    } else {
        text.subrange(from, spans[0].begin as int) + spans[0].text + substituted(
            text,
            spans.skip(1),
            spans[0].end as int,
        )
    }
}

/// Whether the annotations lie one behind the other in a text of `n`
/// characters, from offset `from` on: each renders to something, covers at
/// least one character, starts inside the text, and does not start before
/// the one before it has ended.
pub open spec fn in_text_order(spans: Seq<Span>, from: int, n: nat) -> bool
    decreases spans.len(),
{
    spans.len() == 0 || (from <= spans[0].begin < spans[0].end && spans[0].begin < n
        && spans[0].text.len() > 0 && in_text_order(spans.skip(1), spans[0].end as int, n))
}

/// Annotations in text order, merged into a table that is vacant from `from`
/// on: they all merge, the table before `from` stays as it was, and from
/// `from` on the text composes to itself with each range replaced.
proof fn lemma_composed_from_in_text_order(
    text: Seq<char>,
    slots: Seq<Slot>,
    spans: Seq<Span>,
    from: int,
)
    requires
        slots.len() == text.len(),
        0 <= from,
        forall|k: int| from <= k < slots.len() ==> (#[trigger] slots[k]).text.len() == 0,
        in_text_order(spans, from, text.len()),
    ensures
        embedded_all(slots, spans) is Ok,
        embedded_all(slots, spans)->Ok_0.len() == slots.len(),
        forall|k: int|
            0 <= k < from && k < slots.len() ==> (#[trigger] embedded_all(slots, spans)->Ok_0[k])
                == slots[k],
        composed_from(text, embedded_all(slots, spans)->Ok_0, from, from) == substituted(
            text,
            spans,
            from,
        ),
    decreases spans.len(),
{
    let len = text.len() as int;
    if spans.len() == 0 {
        if from <= len {
            lemma_composed_vacant_run(text, slots, from, len, from);
        }
    } else {
        let a = spans[0];
        let (b, e) = (a.begin as int, a.end as int);
        let next = embedded(slots, a)->Ok_0;
        lemma_composed_from_in_text_order(text, next, spans.skip(1), e);
        let merged = embedded_all(slots, spans)->Ok_0;
        assert(merged == embedded_all(next, spans.skip(1))->Ok_0);
        assert forall|k: int| 0 <= k <= b implies #[trigger] merged[k] == next[k] by {}
        lemma_composed_vacant_run(text, merged, from, b, from);
        lemma_composed_consumed(text, merged, b + 1, e);
    }
}

/// Annotations in text order start at offsets that grow from one to the
/// next, none of them before `from`.
pub proof fn lemma_in_text_order_begins(spans: Seq<Span>, from: int, n: nat)
    requires
        in_text_order(spans, from, n),
    ensures
        forall|i: int| 0 <= i < spans.len() ==> from <= (#[trigger] spans[i]).begin,
        distinct_begins(spans),
    decreases spans.len(),
{
    if spans.len() > 0 {
        let rest = spans.skip(1);
        lemma_in_text_order_begins(rest, spans[0].end as int, n);
        assert forall|i: int| 0 <= i < spans.len() implies from <= (#[trigger] spans[i]).begin by {
            if i > 0 {
                assert(rest[i - 1] == spans[i]);
            }
        }
        assert forall|i: int, j: int| 0 <= i < j < spans.len() implies (#[trigger] spans[i]).begin
            != (#[trigger] spans[j]).begin by {
            assert(rest[j - 1] == spans[j]);
            if i > 0 {
                assert(rest[i - 1] == spans[i]);
            }
        }
    }
}

/// Annotations over ranges that lie one behind the other, merged into a
/// vacant table in whatever order: the text composes to itself with each
/// range replaced by its annotation's text, and nothing else changed.
pub proof fn lemma_composed_in_any_order(text: Seq<char>, spans: Seq<Span>, ordered: Seq<Span>)
    requires
        in_text_order(ordered, 0, text.len()),
        distinct_begins(spans),
        forall|a: Span| spans.contains(a) <==> ordered.contains(a),
    ensures
        embedded_all(vacant_slots(text.len()), spans) is Ok,
        composed(text, embedded_all(vacant_slots(text.len()), spans)->Ok_0) == substituted(
            text,
            ordered,
            0,
        ),
{
    let start = vacant_slots(text.len());
    lemma_composed_from_in_text_order(text, start, ordered, 0);
    lemma_in_text_order_begins(ordered, 0, text.len());
    lemma_merge_in_any_order(start, ordered, spans);
}

} // verus!
