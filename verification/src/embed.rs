//! The table of render slots, one per character offset of a post's text, and
//! how annotations are merged into it.

use crate::entity::{Embeddable, Span};
use crate::text::{append_decimal, decimal};
use vstd::prelude::*;

verus! {

/// One offset's entry in the table. The slot is vacant while `text` is empty;
/// once occupied, `begin..end` is the range that `text` stands for.
#[derive(Debug)]
pub struct Replacement {
    pub begin: usize,
    pub end: usize,
    pub text: String,
}

/// A slot as contracts see it.
pub struct Slot {
    pub begin: usize,
    pub end: usize,
    pub text: Seq<char>,
}

impl View for Replacement {
    type V = Slot;

    open spec fn view(&self) -> Slot {
        Slot { begin: self.begin, end: self.end, text: self.text@ }
    }
}

/// Why an annotation could not be merged into the table.
#[derive(Debug, Clone, Copy, PartialEq, Eq)]
pub enum EmbedError {
    /// The slot at `begin` is occupied by a range that ends at `current_end`,
    /// and the new annotation ends elsewhere, at `end`.
    Conflict { begin: usize, end: usize, current_begin: usize, current_end: usize },
    /// The annotation starts at or behind the end of a table of `len` slots.
    OutOfRange { begin: usize, end: usize, len: usize },
}

impl EmbedError {
    /// The error in words, with the ranges that it is about.
    pub open spec fn message_of(self) -> Seq<char> {
        match self {
            EmbedError::Conflict { begin, end, current_begin, current_end } => {
                "New entity has ("@ + decimal(begin as nat) + ", "@ + decimal(end as nat)
                    + ") indices, but current entity has ("@ + decimal(current_begin as nat)
                    + ", "@ + decimal(current_end as nat) + ")"@
            },
            EmbedError::OutOfRange { begin, end, len } => {
                "New entity has ("@ + decimal(begin as nat) + ", "@ + decimal(end as nat)
                    + ") indices, but the text has "@ + decimal(len as nat) + " characters"@
            },
        }
    }

    /// Says in words what went wrong.
    pub fn message(&self) -> (m: String)
        ensures
            m@ == self.message_of(),
    {
        let mut m = "New entity has (".to_owned();
        match *self {
            EmbedError::Conflict { begin, end, current_begin, current_end } => {
                append_decimal(&mut m, begin);
                m.append(", ");
                append_decimal(&mut m, end);
                m.append(") indices, but current entity has (");
                append_decimal(&mut m, current_begin);
                m.append(", ");
                append_decimal(&mut m, current_end);
                m.append(")");
            },
            EmbedError::OutOfRange { begin, end, len } => {
                append_decimal(&mut m, begin);
                m.append(", ");
                append_decimal(&mut m, end);
                m.append(") indices, but the text has ");
                append_decimal(&mut m, len);
                m.append(" characters");
            },
        }
        m
    }
}

/// The slots of a table, in order.
pub open spec fn slots_of(table: Seq<Replacement>) -> Seq<Slot> {
    table.map_values(|r: Replacement| r@)
}

/// The spans of a list of annotations, in order.
pub open spec fn spans_of<T: Embeddable>(entities: Seq<T>) -> Seq<Span> {
    entities.map_values(|a: T| a.span())
}

/// A table of `n` vacant slots.
pub open spec fn vacant_slots(n: nat) -> Seq<Slot> {
    Seq::new(n, |i: int| Slot { begin: i as usize, end: i as usize, text: Seq::empty() })
}

/// Whether every slot holds its own offset as its `begin`.
pub open spec fn in_place(slots: Seq<Slot>) -> bool {
    forall|i: int| 0 <= i < slots.len() ==> (#[trigger] slots[i]).begin == i
}

/// The table after one annotation was merged into it. A vacant slot takes
/// the annotation's end and text. An occupied slot with the same end gets the
/// text appended. An occupied slot with another end is a conflict, and an
/// annotation that starts outside the table has no slot at all.
pub open spec fn embedded(slots: Seq<Slot>, a: Span) -> Result<Seq<Slot>, EmbedError> {
    let b = a.begin as int;
    if b >= slots.len() {
        Err(EmbedError::OutOfRange { begin: a.begin, end: a.end, len: slots.len() as usize })
    } else if slots[b].text.len() == 0 {
        Ok(slots.update(b, Slot { begin: slots[b].begin, end: a.end, text: a.text }))
    } else if slots[b].end == a.end {
        Ok(
            slots.update(
                b,
                Slot { begin: slots[b].begin, end: slots[b].end, text: slots[b].text + a.text },
            ),
        )
    } else {
        Err(
            EmbedError::Conflict {
                begin: a.begin,
                end: a.end,
                current_begin: slots[b].begin,
                current_end: slots[b].end,
            },
        )
    }
}

/// The table after a list of annotations was merged into it one by one, in
/// order; the first annotation that cannot be merged decides the error.
pub open spec fn embedded_all(slots: Seq<Slot>, spans: Seq<Span>) -> Result<Seq<Slot>, EmbedError>
    decreases spans.len(),
{
    if spans.len() == 0 {
        Ok(slots)
    } else {
        match embedded(slots, spans[0]) {
            Ok(next) => embedded_all(next, spans.skip(1)),
            Err(e) => Err(e),
        }
    }
}

/// Makes a table of `n` vacant slots.
pub fn vacant_table(n: usize) -> (table: Vec<Replacement>)
    ensures
        table.len() == n,
        slots_of(table@) == vacant_slots(n as nat),
        in_place(slots_of(table@)),
{
    let mut table: Vec<Replacement> = Vec::new();
    let mut i: usize = 0;
    while i < n
        invariant
            i <= n,
            table.len() == i,
            forall|j: int|
                0 <= j < i ==> #[trigger] table@[j]@ == vacant_slots(n as nat)[j],
        decreases n - i,
    {
        table.push(Replacement { begin: i, end: i, text: String::new() });
        i += 1;
    }
    table
}

/// Merges one annotation into the table. On an error the table is left as
/// it was. A table that has every slot in place keeps it so.
pub fn embed<T: Embeddable>(replacements: &mut Vec<Replacement>, entity: &T) -> (r: Result<
    (),
    EmbedError,
>)
    ensures
        match embedded(slots_of(old(replacements)@), entity.span()) {
            Ok(slots) => r is Ok && slots_of(final(replacements)@) == slots,
            Err(e) => r == Err::<(), EmbedError>(e) && *final(replacements) == *old(replacements),
        },
        final(replacements).len() == old(replacements).len(),
        in_place(slots_of(old(replacements)@)) ==> in_place(slots_of(final(replacements)@)),
{
    let b = entity.begin();
    let e = entity.end();
    if b >= replacements.len() {
        return Err(EmbedError::OutOfRange { begin: b, end: e, len: replacements.len() });
    }
    let ghost before = slots_of(replacements@);
    if replacements[b].text.as_str().is_empty() {
        replacements[b].text = entity.text();
        replacements[b].end = e;
        Ok(())
    } else if replacements[b].end == e {
        let t = entity.text();
        replacements[b].text.append(t.as_str());
        assert(slots_of(replacements@) =~= embedded(before, entity.span())->Ok_0);
        Ok(())
    } else {
        Err(
            EmbedError::Conflict {
                begin: b,
                end: e,
                current_begin: replacements[b].begin,
                current_end: replacements[b].end,
            },
        )
    }
}

/// Merges a list of annotations into the table, one by one and in order,
/// and hands the table back. The first annotation that cannot be merged ends
/// the work with its error.
pub fn embed_all<T: Embeddable>(replacements: Vec<Replacement>, entities: &Vec<T>) -> (r: Result<
    Vec<Replacement>,
    EmbedError,
>)
    ensures
        match embedded_all(slots_of(replacements@), spans_of(entities@)) {
            Ok(slots) => r matches Ok(table) && slots_of(table@) == slots && table.len()
                == replacements.len() && (in_place(slots_of(replacements@)) ==> in_place(slots)),
            Err(e) => r matches Err(x) && x == e,
        },
{
    proof {
        if in_place(slots_of(replacements@)) {
            lemma_embedded_all_in_place(slots_of(replacements@), spans_of(entities@));
        }
    }
    let mut table = replacements;
    let ghost spans = spans_of(entities@);
    let ghost goal = embedded_all(slots_of(replacements@), spans);
    let mut i: usize = 0;
    assert(spans.skip(0) =~= spans);
    while i < entities.len()
        invariant
            i <= entities.len(),
            spans == spans_of(entities@),
            goal == embedded_all(slots_of(replacements@), spans),
            embedded_all(slots_of(table@), spans.skip(i as int)) == goal,
            table.len() == replacements.len(),
        decreases entities.len() - i,
    {
        assert(spans.skip(i as int).skip(1) =~= spans.skip(i + 1));
        match embed(&mut table, &entities[i]) {
            Ok(()) => {},
            Err(e) => {
                return Err(e);
            },
        }
        i += 1;
    }
    Ok(table)
}

/// Merging a list of two is merging the first and then the second.
pub proof fn lemma_embedded_pair(slots: Seq<Slot>, a: Span, b: Span)
    ensures
        embedded_all(slots, seq![a, b]) == match embedded(slots, a) {
            Ok(next) => embedded(next, b),
            Err(e) => Err(e),
        },
{
    let both = seq![a, b];
    assert(both.skip(1) =~= seq![b]);
    assert(seq![b].skip(1) =~= Seq::<Span>::empty());
    match embedded(slots, a) {
        Ok(next) => {
            assert(embedded_all(next, seq![b]) == match embedded(next, b) {
                Ok(last) => embedded_all(last, Seq::<Span>::empty()),
                Err(e) => Err(e),
            });
        },
        Err(_) => {},
    }
}

/// Merging two lists one after the other is merging their concatenation.
pub proof fn lemma_embedded_all_concat(slots: Seq<Slot>, first: Seq<Span>, second: Seq<Span>)
    ensures
        embedded_all(slots, first + second) == match embedded_all(slots, first) {
            Ok(next) => embedded_all(next, second),
            Err(e) => Err(e),
        },
    decreases first.len(),
{
    if first.len() > 0 {
        assert((first + second).skip(1) =~= first.skip(1) + second);
        if let Ok(next) = embedded(slots, first[0]) {
            lemma_embedded_all_concat(next, first.skip(1), second);
        }
    }
}

/// Merging never adds or removes a slot.
pub proof fn lemma_embedded_all_keeps_len(slots: Seq<Slot>, spans: Seq<Span>)
    ensures
        embedded_all(slots, spans) matches Ok(merged) ==> merged.len() == slots.len(),
    decreases spans.len(),
{
    if spans.len() > 0 {
        match embedded(slots, spans[0]) {
            Ok(next) => {
                lemma_embedded_all_keeps_len(next, spans.skip(1));
            },
            Err(_) => {},
        }
    }
}

/// Merging leaves each slot's `begin` alone: a table that has every slot in
/// place keeps it so, and a conflict in it names two ranges with the same
/// begin.
pub proof fn lemma_embedded_all_in_place(slots: Seq<Slot>, spans: Seq<Span>)
    requires
        in_place(slots),
    ensures
        match embedded_all(slots, spans) {
            Ok(merged) => in_place(merged),
            Err(EmbedError::Conflict { begin, current_begin, .. }) => current_begin == begin,
            Err(EmbedError::OutOfRange { .. }) => true,
        },
    decreases spans.len(),
{
    if spans.len() > 0 {
        match embedded(slots, spans[0]) {
            Ok(next) => {
                lemma_embedded_all_in_place(next, spans.skip(1));
            },
            Err(_) => {},
        }
    }
}

/// Two annotations over the same range count as one whose text is the first
/// one's followed by the second one's.
pub proof fn lemma_same_range_is_one_span(slots: Seq<Slot>, first: Span, second: Span)
    requires
        first.begin == second.begin,
        first.end == second.end,
    ensures
        embedded_all(slots, seq![first, second]) == embedded(
            slots,
            Span { begin: first.begin, end: first.end, text: first.text + second.text },
        ),
{
    let b = first.begin as int;
    let one = Span { begin: first.begin, end: first.end, text: first.text + second.text };
    lemma_embedded_pair(slots, first, second);
    if let Ok(next) = embedded(slots, first) {
        let old_text = slots[b].text;
        assert((old_text + first.text) + second.text =~= old_text + (first.text + second.text));
        assert(embedded(next, second)->Ok_0 =~= embedded(slots, one)->Ok_0);
    }
}

/// Two annotations that start at the same offset and end at different ones
/// do not merge: the second one is refused, and the error names both ranges.
pub proof fn lemma_other_end_conflicts(slots: Seq<Slot>, first: Span, second: Span)
    requires
        first.begin == second.begin,
        first.end != second.end,
        first.text.len() > 0,
        embedded(slots, first) is Ok,
    ensures
        embedded_all(slots, seq![first, second]) == Err::<Seq<Slot>, EmbedError>(
            EmbedError::Conflict {
                begin: second.begin,
                end: second.end,
                current_begin: slots[first.begin as int].begin,
                current_end: first.end,
            },
        ),
{
    let both = seq![first, second];
    assert(both.skip(1) =~= seq![second]);
    let next = embedded(slots, first)->Ok_0;
    assert(embedded_all(next, seq![second]) == match embedded(next, second) {
        Ok(last) => embedded_all(last, seq![second].skip(1)),
        Err(e) => Err(e),
    });
}

/// Annotations that start at different offsets can be merged in either
/// order: both orders succeed or both fail, and where they succeed they give
/// the same table.
pub proof fn lemma_embedded_commutes(slots: Seq<Slot>, a: Span, b: Span)
    requires
        a.begin != b.begin,
    ensures
        embedded_all(slots, seq![a, b]) is Ok <==> embedded_all(slots, seq![b, a]) is Ok,
        embedded_all(slots, seq![a, b]) is Ok ==> embedded_all(slots, seq![a, b]) == embedded_all(
            slots,
            seq![b, a],
        ),
{
    lemma_embedded_pair(slots, a, b);
    lemma_embedded_pair(slots, b, a);
    if embedded(slots, a) is Ok && embedded(slots, b) is Ok {
        let ab = embedded(embedded(slots, a)->Ok_0, b)->Ok_0;
        let ba = embedded(embedded(slots, b)->Ok_0, a)->Ok_0;
        assert(ab =~= ba);
    }
}

/// Two neighbours in a list of annotations that start at different offsets
/// can change places: the list merges in both orders or in neither, and where
/// it merges the table is the same.
pub proof fn lemma_embedded_all_swap(
    slots: Seq<Slot>,
    before: Seq<Span>,
    a: Span,
    b: Span,
    after: Seq<Span>,
)
    requires
        a.begin != b.begin,
    ensures
        embedded_all(slots, before + seq![a, b] + after) is Ok <==> embedded_all(
            slots,
            before + seq![b, a] + after,
        ) is Ok,
        embedded_all(slots, before + seq![a, b] + after) is Ok ==> embedded_all(
            slots,
            before + seq![a, b] + after,
        ) == embedded_all(slots, before + seq![b, a] + after),
{
    lemma_embedded_all_concat(slots, before + seq![a, b], after);
    lemma_embedded_all_concat(slots, before + seq![b, a], after);
    lemma_embedded_all_concat(slots, before, seq![a, b]);
    lemma_embedded_all_concat(slots, before, seq![b, a]);
    if let Ok(next) = embedded_all(slots, before) {
        lemma_embedded_commutes(next, a, b);
    }
}

/// Whether the annotation fits the table as it stands: it starts at a slot,
/// and that slot is vacant or ends where the annotation ends.
pub open spec fn fits(slots: Seq<Slot>, a: Span) -> bool {
    a.begin < slots.len() && (slots[a.begin as int].text.len() == 0 || slots[a.begin as int].end
        == a.end)
}

/// Whether each annotation of the list fits the table as it stands.
pub open spec fn all_fit(slots: Seq<Slot>, spans: Seq<Span>) -> bool {
    forall|i: int| 0 <= i < spans.len() ==> fits(slots, #[trigger] spans[i])
}

/// Whether annotations of the list that start together also end together.
pub open spec fn ends_agree(spans: Seq<Span>) -> bool {
    forall|i: int, j: int|
        0 <= i < j < spans.len() && (#[trigger] spans[i]).begin == (#[trigger] spans[j]).begin
            ==> spans[i].end == spans[j].end
}

/// Whether no two annotations of the list start at the same offset.
pub open spec fn distinct_begins(spans: Seq<Span>) -> bool {
    forall|i: int, j: int|
        0 <= i < j < spans.len() ==> (#[trigger] spans[i]).begin != (#[trigger] spans[j]).begin
}

/// Whether each annotation of the list renders to at least one character.
pub open spec fn all_render(spans: Seq<Span>) -> bool {
    forall|i: int| 0 <= i < spans.len() ==> (#[trigger] spans[i]).text.len() > 0
}

/// When a list of annotations merges: exactly when each of them fits the
/// table as it stands, and those that start together end together.
pub proof fn lemma_merges_iff(slots: Seq<Slot>, spans: Seq<Span>)
    requires
        all_render(spans) || distinct_begins(spans),
    ensures
        embedded_all(slots, spans) is Ok <==> all_fit(slots, spans) && ends_agree(spans),
    decreases spans.len(),
{
    if spans.len() > 0 {
        let a = spans[0];
        let rest = spans.skip(1);
        assert(forall|i: int| 0 <= i < rest.len() ==> rest[i] == spans[i + 1]);
        if fits(slots, a) {
            let next = embedded(slots, a)->Ok_0;
            lemma_merges_iff(next, rest);
            if all_fit(next, rest) && ends_agree(rest) {
                assert forall|i: int| 0 <= i < spans.len() implies fits(
                    slots,
                    #[trigger] spans[i],
                ) by {
                    if i > 0 {
                        assert(fits(next, rest[i - 1]));
                    }
                }
                assert forall|i: int, j: int|
                    0 <= i < j < spans.len() && (#[trigger] spans[i]).begin == (
                    #[trigger] spans[j]).begin implies spans[i].end == spans[j].end by {
                    if i == 0 {
                        assert(fits(next, rest[j - 1]));
                    } else {
                        assert(rest[i - 1].begin == rest[j - 1].begin);
                    }
                }
            }
            if all_fit(slots, spans) && ends_agree(spans) {
                assert forall|i: int| 0 <= i < rest.len() implies fits(
                    next,
                    #[trigger] rest[i],
                ) by {
                    assert(fits(slots, spans[i + 1]));
                    assert(spans[0].begin == spans[i + 1].begin ==> spans[0].end == spans[i
                        + 1].end);
                }
                assert forall|i: int, j: int|
                    0 <= i < j < rest.len() && (#[trigger] rest[i]).begin == (
                    #[trigger] rest[j]).begin implies rest[i].end == rest[j].end by {
                    assert(spans[i + 1].begin == spans[j + 1].begin);
                }
            }
        } else {
            assert(!fits(slots, spans[0]));
        }
    }
}

/// What a merged table holds, slot by slot, where no two annotations start
/// at the same offset: a slot at which none of them starts is as it was, and
/// the slot at which one of them starts is as that one alone would leave it.
pub proof fn lemma_merged_slots(slots: Seq<Slot>, spans: Seq<Span>)
    requires
        distinct_begins(spans),
        embedded_all(slots, spans) is Ok,
    ensures
        embedded_all(slots, spans)->Ok_0.len() == slots.len(),
        forall|k: int|
            0 <= k < slots.len() && (forall|i: int|
                0 <= i < spans.len() ==> (#[trigger] spans[i]).begin != k) ==> (
            #[trigger] embedded_all(slots, spans)->Ok_0[k]) == slots[k],
        forall|i: int|
            0 <= i < spans.len() ==> embedded(slots, #[trigger] spans[i]) is Ok && embedded_all(
                slots,
                spans,
            )->Ok_0[spans[i].begin as int] == embedded(slots, spans[i])->Ok_0[spans[i].begin as int],
    decreases spans.len(),
{
    if spans.len() > 0 {
        let a = spans[0];
        let rest = spans.skip(1);
        let next = embedded(slots, a)->Ok_0;
        let merged = embedded_all(slots, spans)->Ok_0;
        assert(forall|i: int| 0 <= i < rest.len() ==> rest[i] == spans[i + 1]);
        assert(distinct_begins(rest)) by {
            assert forall|i: int, j: int| 0 <= i < j < rest.len() implies (#[trigger] rest[i]).begin
                != (#[trigger] rest[j]).begin by {
                assert(spans[i + 1].begin != spans[j + 1].begin);
            }
        }
        lemma_merged_slots(next, rest);
        assert forall|k: int|
            0 <= k < slots.len() && (forall|i: int|
                0 <= i < spans.len() ==> (#[trigger] spans[i]).begin != k) implies (
        #[trigger] merged[k]) == slots[k] by {
            assert(spans[0].begin != k);
            assert forall|i: int| 0 <= i < rest.len() implies (#[trigger] rest[i]).begin != k by {
                assert(spans[i + 1].begin != k);
            }
        }
        assert forall|i: int| 0 <= i < spans.len() implies embedded(slots, #[trigger] spans[i])
            is Ok && merged[spans[i].begin as int] == embedded(
            slots,
            spans[i],
        )->Ok_0[spans[i].begin as int] by {
            if i == 0 {
                assert forall|j: int| 0 <= j < rest.len() implies (#[trigger] rest[j]).begin
                    != a.begin by {
                    assert(spans[0].begin != spans[j + 1].begin);
                }
            } else {
                assert(spans[0].begin != spans[i].begin);
                assert(rest[i - 1] == spans[i]);
                assert(embedded(next, rest[i - 1]) is Ok);
            }
        }
    }
}

/// Two lists of the same annotations, neither with two that start at the
/// same offset, merge alike in whichever order they hold them: both merge or
/// neither does, and where they merge they give the same table.
pub proof fn lemma_merge_in_any_order(slots: Seq<Slot>, one: Seq<Span>, other: Seq<Span>)
    requires
        distinct_begins(one),
        distinct_begins(other),
        forall|a: Span| one.contains(a) <==> other.contains(a),
    ensures
        embedded_all(slots, one) is Ok <==> embedded_all(slots, other) is Ok,
        embedded_all(slots, one) is Ok ==> embedded_all(slots, one) == embedded_all(slots, other),
{
    lemma_merges_iff(slots, one);
    lemma_merges_iff(slots, other);
    assert(all_fit(slots, one) <==> all_fit(slots, other)) by {
        if all_fit(slots, one) {
            assert forall|i: int| 0 <= i < other.len() implies fits(slots, #[trigger] other[i]) by {
                assert(other.contains(other[i]));
                let j = choose|j: int| 0 <= j < one.len() && one[j] == other[i];
                assert(fits(slots, one[j]));
            }
        }
        if all_fit(slots, other) {
            assert forall|i: int| 0 <= i < one.len() implies fits(slots, #[trigger] one[i]) by {
                assert(one.contains(one[i]));
                let j = choose|j: int| 0 <= j < other.len() && other[j] == one[i];
                assert(fits(slots, other[j]));
            }
        }
    }
    if embedded_all(slots, one) is Ok {
        let left = embedded_all(slots, one)->Ok_0;
        let right = embedded_all(slots, other)->Ok_0;
        lemma_merged_slots(slots, one);
        lemma_merged_slots(slots, other);
        assert forall|k: int| 0 <= k < slots.len() implies left[k] == right[k] by {
            if exists|i: int| 0 <= i < one.len() && (#[trigger] one[i]).begin == k {
                let i = choose|i: int| 0 <= i < one.len() && (#[trigger] one[i]).begin == k;
                assert(one.contains(one[i]));
                let j = choose|j: int| 0 <= j < other.len() && other[j] == one[i];
                assert(other[j].begin == k);
            } else {
                assert forall|j: int| 0 <= j < other.len() implies (#[trigger] other[j]).begin
                    != k by {
                    assert(other.contains(other[j]));
                    let i = choose|i: int| 0 <= i < one.len() && one[i] == other[j];
                    assert(one[i].begin == other[j].begin);
                }
            }
        }
        assert(left =~= right);
    }
}

/// A list that holds the same annotations as another, each as often as the
/// other holds it, has no two that start at the same offset where the other
/// has none.
pub proof fn lemma_rearranged(one: Seq<Span>, other: Seq<Span>)
    requires
        other.to_multiset() == one.to_multiset(),
        distinct_begins(one),
    ensures
        distinct_begins(other),
        forall|a: Span| one.contains(a) <==> other.contains(a),
{
    one.to_multiset_ensures();
    other.to_multiset_ensures();
    assert(one.no_duplicates()) by {
        assert forall|i: int, j: int| 0 <= i < one.len() && 0 <= j < one.len() && i != j implies one[i]
            != one[j] by {
            if i < j {
                assert(one[i].begin != one[j].begin);
            } else {
                assert(one[j].begin != one[i].begin);
            }
        }
    }
    one.lemma_multiset_has_no_duplicates();
    other.lemma_multiset_has_no_duplicates_conv();
    assert forall|a: Span| one.contains(a) <==> other.contains(a) by {
        assert(one.contains(a) <==> one.to_multiset().count(a) > 0);
        assert(other.contains(a) <==> other.to_multiset().count(a) > 0);
    }
    assert forall|i: int, j: int| 0 <= i < j < other.len() implies (#[trigger] other[i]).begin != (
    #[trigger] other[j]).begin by {
        assert(other.contains(other[i]));
        assert(other.contains(other[j]));
        assert(one.to_multiset().count(other[i]) > 0);
        assert(one.to_multiset().count(other[j]) > 0);
        assert(one.contains(other[i]));
        assert(one.contains(other[j]));
        let a = choose|a: int| 0 <= a < one.len() && one[a] == other[i];
        let b = choose|b: int| 0 <= b < one.len() && one[b] == other[j];
        assert(other[i] != other[j]);
        if a < b {
            assert(one[a].begin != one[b].begin);
        } else {
            assert(one[b].begin != one[a].begin);
        }
    }
}

/// A list of annotations, no two of which start at the same offset, merges
/// as any rearrangement of it does: both merge or neither does, and where
/// they merge they give the same table.
pub proof fn lemma_merge_rearranged(slots: Seq<Slot>, one: Seq<Span>, other: Seq<Span>)
    requires
        other.to_multiset() == one.to_multiset(),
        distinct_begins(one),
    ensures
        embedded_all(slots, one) is Ok <==> embedded_all(slots, other) is Ok,
        embedded_all(slots, one) is Ok ==> embedded_all(slots, one) == embedded_all(slots, other),
{
    lemma_rearranged(one, other);
    lemma_merge_in_any_order(slots, one, other);
}

} // verus!
