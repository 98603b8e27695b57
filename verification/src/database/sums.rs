//! Facts about sums over journal entries.

use crate::database::{selected_amounts, sum_units, Selector, Side};
use crate::models::journal_entry::JournalEntry;
use crate::money::{total_units, Money};
use vstd::prelude::*;

verus! {

/// The sum over two runs of entries, one after the other, is the sum of
/// their sums.
pub proof fn lemma_sum_units_append(
    a: Seq<JournalEntry>,
    b: Seq<JournalEntry>,
    selector: Selector,
    side: Side,
)
    ensures
        sum_units(a + b, selector, side) == sum_units(a, selector, side) + sum_units(
            b,
            selector,
            side,
        ),
    decreases b.len(),
{
    if b.len() == 0 {
        assert(a + b =~= a);
    } else {
        lemma_sum_units_append(a, b.drop_last(), selector, side);
        assert((a + b).drop_last() =~= a + b.drop_last());
        assert((a + b).last() == b.last());
    }
}

/// A sum over entries of which none is selected is zero.
pub proof fn lemma_sum_units_none(entries: Seq<JournalEntry>, selector: Selector, side: Side)
    requires
        forall|i: int| 0 <= i < entries.len() ==> !selector.selects(#[trigger] entries[i]),
    ensures
        sum_units(entries, selector, side) == 0,
    decreases entries.len(),
{
    if entries.len() > 0 {
        let front = entries.drop_last();
        assert forall|i: int| 0 <= i < front.len() implies !selector.selects(
            #[trigger] front[i],
        ) by {
            assert(front[i] == entries[i]);
        }
        lemma_sum_units_none(front, selector, side);
        assert(!selector.selects(entries[entries.len() - 1]));
    }
}

/// The amounts on one side of all the entries, in order.
pub open spec fn side_column(entries: Seq<JournalEntry>, side: Side) -> Seq<Money> {
    Seq::new(entries.len(), |i: int| side.amount_of(entries[i]))
}

/// A sum over entries that are all selected is the total of that side.
pub proof fn lemma_sum_units_every(entries: Seq<JournalEntry>, selector: Selector, side: Side)
    requires
        forall|i: int| 0 <= i < entries.len() ==> selector.selects(#[trigger] entries[i]),
    ensures
        sum_units(entries, selector, side) == total_units(side_column(entries, side)),
    decreases entries.len(),
{
    if entries.len() > 0 {
        let front = entries.drop_last();
        assert forall|i: int| 0 <= i < front.len() implies selector.selects(
            #[trigger] front[i],
        ) by {
            assert(front[i] == entries[i]);
        }
        lemma_sum_units_every(front, selector, side);
        assert(selector.selects(entries[entries.len() - 1]));
        assert(side_column(entries, side).drop_last() =~= side_column(front, side));
    }
}

/// The total of the selected amounts is the sum over the selected entries.
pub proof fn lemma_selected_total(entries: Seq<JournalEntry>, selector: Selector, side: Side)
    ensures
        total_units(selected_amounts(entries, selector, side)) == sum_units(
            entries,
            selector,
            side,
        ),
    decreases entries.len(),
{
    if entries.len() > 0 {
        let front = entries.drop_last();
        lemma_selected_total(front, selector, side);
        if selector.selects(entries.last()) {
            let picked = selected_amounts(entries, selector, side);
            assert(picked.drop_last() =~= selected_amounts(front, selector, side));
        }
    }
}

/// The selected amounts of well-formed entries are well formed.
pub proof fn lemma_selected_wf(entries: Seq<JournalEntry>, selector: Selector, side: Side)
    requires
        forall|i: int| 0 <= i < entries.len() ==> (#[trigger] entries[i]).wf(),
    ensures
        crate::money::all_wf(selected_amounts(entries, selector, side)),
    decreases entries.len(),
{
    if entries.len() > 0 {
        let front = entries.drop_last();
        assert forall|i: int| 0 <= i < front.len() implies (#[trigger] front[i]).wf() by {
            assert(front[i] == entries[i]);
        }
        lemma_selected_wf(front, selector, side);
        assert(entries[entries.len() - 1].wf());
    }
}

/// The selected amounts of two runs of entries, one after the other, are
/// those of the first followed by those of the second.
pub proof fn lemma_selected_append(
    a: Seq<JournalEntry>,
    b: Seq<JournalEntry>,
    selector: Selector,
    side: Side,
)
    ensures
        selected_amounts(a + b, selector, side) == selected_amounts(a, selector, side)
            + selected_amounts(b, selector, side),
    decreases b.len(),
{
    if b.len() == 0 {
        assert(a + b =~= a);
        assert(selected_amounts(a, selector, side) + Seq::<Money>::empty() =~= selected_amounts(
            a,
            selector,
            side,
        ));
    } else {
        lemma_selected_append(a, b.drop_last(), selector, side);
        assert((a + b).drop_last() =~= a + b.drop_last());
        assert((a + b).last() == b.last());
        let front = selected_amounts(a, selector, side);
        let back = selected_amounts(b.drop_last(), selector, side);
        if selector.selects(b.last()) {
            assert((front + back).push(side.amount_of(b.last())) =~= front + back.push(
                side.amount_of(b.last()),
            ));
        }
    }
}

/// Of entries of which none is selected, no amount is selected.
pub proof fn lemma_selected_none(entries: Seq<JournalEntry>, selector: Selector, side: Side)
    requires
        forall|i: int| 0 <= i < entries.len() ==> !selector.selects(#[trigger] entries[i]),
    ensures
        selected_amounts(entries, selector, side) == Seq::<Money>::empty(),
    decreases entries.len(),
{
    if entries.len() > 0 {
        let front = entries.drop_last();
        assert forall|i: int| 0 <= i < front.len() implies !selector.selects(
            #[trigger] front[i],
        ) by {
            assert(front[i] == entries[i]);
        }
        lemma_selected_none(front, selector, side);
        assert(!selector.selects(entries[entries.len() - 1]));
    }
}

/// Of entries that are all selected, the selected amounts are the whole
/// column.
pub proof fn lemma_selected_every(entries: Seq<JournalEntry>, selector: Selector, side: Side)
    requires
        forall|i: int| 0 <= i < entries.len() ==> selector.selects(#[trigger] entries[i]),
    ensures
        selected_amounts(entries, selector, side) == side_column(entries, side),
    decreases entries.len(),
{
    if entries.len() > 0 {
        let front = entries.drop_last();
        assert forall|i: int| 0 <= i < front.len() implies selector.selects(
            #[trigger] front[i],
        ) by {
            assert(front[i] == entries[i]);
        }
        lemma_selected_every(front, selector, side);
        assert(selector.selects(entries[entries.len() - 1]));
        assert(side_column(front, side).push(side.amount_of(entries.last())) =~= side_column(
            entries,
            side,
        ));
    } else {
        assert(side_column(entries, side) =~= Seq::<Money>::empty());
    }
}

/// By what the journal entries are grouped.
pub enum Grouping {
    ByAccount,
    ByTransaction,
}

impl Grouping {
    /// The entries of the group with the given key.
    pub open spec fn group(self, key: i64) -> Selector {
        match self {
            Grouping::ByAccount => Selector::OnAccount(key),
            Grouping::ByTransaction => Selector::OfTransaction(key),
        }
    }

    /// The key of the group that the entry belongs to.
    pub open spec fn key_of(self, entry: JournalEntry) -> i64 {
        match self {
            Grouping::ByAccount => entry.account_id,
            Grouping::ByTransaction => entry.transaction_id,
        }
    }
}

/// The sums of the groups with the given keys, added up.
pub open spec fn grouped_units(
    entries: Seq<JournalEntry>,
    grouping: Grouping,
    keys: Seq<i64>,
    side: Side,
) -> int
    decreases keys.len(),
{
    if keys.len() == 0 {
        0
    } else {
        grouped_units(entries, grouping, keys.drop_last(), side) + sum_units(
            entries,
            grouping.group(keys.last()),
            side,
        )
    }
}

/// How often `key` occurs among `keys`.
pub open spec fn occurrences(keys: Seq<i64>, key: i64) -> int
    decreases keys.len(),
{
    if keys.len() == 0 {
        0
    } else {
        occurrences(keys.drop_last(), key) + (if keys.last() == key {
            1int
        } else {
            0int
        })
    }
}

/// Whether no key occurs twice.
pub open spec fn distinct(keys: Seq<i64>) -> bool {
    forall|i: int, j: int| 0 <= i < j < keys.len() ==> keys[i] != keys[j]
}

/// A key that does not occur among the keys occurs zero times.
pub proof fn lemma_occurrences_absent(keys: Seq<i64>, key: i64)
    requires
        forall|i: int| 0 <= i < keys.len() ==> keys[i] != key,
    ensures
        occurrences(keys, key) == 0,
    decreases keys.len(),
{
    if keys.len() > 0 {
        let front = keys.drop_last();
        assert forall|i: int| 0 <= i < front.len() implies front[i] != key by {
            assert(front[i] == keys[i]);
        }
        lemma_occurrences_absent(front, key);
        assert(keys[keys.len() - 1] != key);
    }
}

/// Among distinct keys, a key that occurs occurs once.
pub proof fn lemma_occurrences_once(keys: Seq<i64>, i: int)
    requires
        distinct(keys),
        0 <= i < keys.len(),
    ensures
        occurrences(keys, keys[i]) == 1,
    decreases keys.len(),
{
    let front = keys.drop_last();
    assert(distinct(front)) by {
        assert forall|a: int, b: int| 0 <= a < b < front.len() implies front[a] != front[b] by {
            assert(front[a] == keys[a] && front[b] == keys[b]);
        }
    }
    if i == keys.len() - 1 {
        assert forall|k: int| 0 <= k < front.len() implies front[k] != keys[i] by {
            assert(front[k] == keys[k]);
        }
        lemma_occurrences_absent(front, keys[i]);
    } else {
        assert(front[i] == keys[i]);
        lemma_occurrences_once(front, i);
        assert(keys[keys.len() - 1] != keys[i]);
    }
}

/// One more entry adds its amount to the grouped sums once for each time
/// its key occurs among the keys.
pub proof fn lemma_grouped_step(
    entries: Seq<JournalEntry>,
    entry: JournalEntry,
    grouping: Grouping,
    keys: Seq<i64>,
    side: Side,
)
    ensures
        grouped_units(entries.push(entry), grouping, keys, side) == grouped_units(
            entries,
            grouping,
            keys,
            side,
        ) + side.amount_of(entry)@ * occurrences(keys, grouping.key_of(entry)),
    decreases keys.len(),
{
    if keys.len() > 0 {
        lemma_grouped_step(entries, entry, grouping, keys.drop_last(), side);
        let longer = entries.push(entry);
        assert(longer.drop_last() =~= entries);
        assert(longer.last() == entry);
        let amount = side.amount_of(entry)@;
        let before = occurrences(keys.drop_last(), grouping.key_of(entry));
        assert(amount * (before + 1) == amount * before + amount) by (nonlinear_arith);
        assert(amount * (before + 0) == amount * before) by (nonlinear_arith);
    } else {
        assert(side.amount_of(entry)@ * 0 == 0) by (nonlinear_arith);
    }
}

/// Where the keys are distinct and every entry belongs to one of them, the
/// sums of the groups add up to the sum over all entries.
pub proof fn lemma_grouped_total(
    entries: Seq<JournalEntry>,
    grouping: Grouping,
    keys: Seq<i64>,
    side: Side,
)
    requires
        distinct(keys),
        forall|i: int|
            0 <= i < entries.len() ==> keys.contains(grouping.key_of(#[trigger] entries[i])),
    ensures
        grouped_units(entries, grouping, keys, side) == sum_units(entries, Selector::All, side),
    decreases entries.len(),
{
    if entries.len() == 0 {
        assert(entries =~= Seq::<JournalEntry>::empty());
        lemma_grouped_empty(grouping, keys, side);
    } else {
        let front = entries.drop_last();
        let entry = entries.last();
        assert forall|i: int| 0 <= i < front.len() implies keys.contains(
            grouping.key_of(#[trigger] front[i]),
        ) by {
            assert(front[i] == entries[i]);
        }
        lemma_grouped_total(front, grouping, keys, side);
        assert(front.push(entry) =~= entries);
        lemma_grouped_step(front, entry, grouping, keys, side);
        assert(keys.contains(grouping.key_of(entries[entries.len() - 1])));
        let i = choose|i: int| 0 <= i < keys.len() && keys[i] == grouping.key_of(entry);
        lemma_occurrences_once(keys, i);
        assert(side.amount_of(entry)@ * 1 == side.amount_of(entry)@) by (nonlinear_arith);
    }
}

/// The grouped sums of no entries are zero.
pub proof fn lemma_grouped_empty(grouping: Grouping, keys: Seq<i64>, side: Side)
    ensures
        grouped_units(Seq::<JournalEntry>::empty(), grouping, keys, side) == 0,
    decreases keys.len(),
{
    if keys.len() > 0 {
        lemma_grouped_empty(grouping, keys.drop_last(), side);
    }
}

} // verus!
