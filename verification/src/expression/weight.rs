//! Sampling weights and weight tables, as mathematics.
//!
//! A weight is a fixed-point number in millionths: 1_000_000 stands for 1.0.
//! A weight table is a sequence of entries, each an item with its weight.
//! Where a caller's table has several entries for one item, the last of
//! them counts.
use vstd::prelude::*;

verus! {

/// The weight 1.0, which an item gets that the caller's table leaves out.
pub const DEFAULT_WEIGHT: i32 = 1_000_000;

/// Whether a weight lies between -1.0 and 1.0, bounds included.
pub open spec fn in_unit_range(weight: int) -> bool {
    -1_000_000 <= weight <= 1_000_000
}

/// Whether some entry of the table is for the item.
pub open spec fn lists<T>(entries: Seq<(T, int)>, item: T) -> bool {
    exists|i: int| 0 <= i < entries.len() && (#[trigger] entries[i]).0 == item
}

/// Whether some entry of the table is for the item and has a positive weight.
pub open spec fn drawable<T>(entries: Seq<(T, int)>, item: T) -> bool {
    exists|i: int|
        0 <= i < entries.len() && (#[trigger] entries[i]).0 == item && entries[i].1 > 0
}

/// The predicate that holds of the items without an entry in the table.
pub open spec fn unlisted<T>(entries: Seq<(T, int)>) -> spec_fn(T) -> bool {
    |item: T| !lists(entries, item)
}

/// The predicate that holds of the entries for the item.
pub open spec fn names<T>(item: T) -> spec_fn((T, int)) -> bool {
    |entry: (T, int)| entry.0 == item
}

/// How many entries of the table are for the item.
pub open spec fn occurrences<T>(entries: Seq<(T, int)>, item: T) -> nat {
    entries.filter(names(item)).len()
}

/// One entry of weight 1.0 for each item, in order.
pub open spec fn defaults<T>(items: Seq<T>) -> Seq<(T, int)> {
    Seq::new(items.len(), |i: int| (items[i], DEFAULT_WEIGHT as int))
}

/// The entries that count: of the entries for one item the last, the order
/// being kept.
pub open spec fn last_wins<T>(entries: Seq<(T, int)>) -> Seq<(T, int)>
    decreases entries.len(),
{
    if entries.len() == 0 {
        entries
    } else if lists(entries.skip(1), entries[0].0) {
        last_wins(entries.skip(1))
    } else {
        seq![entries[0]] + last_wins(entries.skip(1))
    }
}

/// The weight that counts for a listed item: that of its last entry.
pub open spec fn last_weight<T>(entries: Seq<(T, int)>, item: T) -> int
    decreases entries.len(),
{
    if entries.len() == 0 {
        0
    } else if lists(entries.skip(1), item) {
        last_weight(entries.skip(1), item)
    } else {
        entries[0].1
    }
}

/// The table completed over a domain: the entries that count, then an entry
/// of weight 1.0 for each item of the domain that the table does not list,
/// in the domain's order.
pub open spec fn completed<T>(entries: Seq<(T, int)>, domain: Seq<T>) -> Seq<(T, int)> {
    last_wins(entries) + defaults(domain.filter(unlisted(entries)))
}

/// Machine weights as mathematical integers.
pub open spec fn integers(weights: Seq<i32>) -> Seq<int> {
    Seq::new(weights.len(), |i: int| weights[i] as int)
}

/// The weights of the entries, in order.
pub open spec fn weights_of<T>(entries: Seq<(T, int)>) -> Seq<int> {
    Seq::new(entries.len(), |i: int| entries[i].1)
}

/// The sum of the weights.
pub open spec fn total(weights: Seq<int>) -> int
    decreases weights.len(),
{
    if weights.len() == 0 {
        0
    } else {
        total(weights.drop_last()) + weights.last()
    }
}

/// Whether a draw can be made from the weights: there is at least one, none
/// is negative, and they do not sum to zero.
pub open spec fn usable(weights: Seq<int>) -> bool {
    &&& weights.len() > 0
    &&& forall|i: int| 0 <= i < weights.len() ==> weights[i] >= 0
    &&& total(weights) != 0
}

/// The integers from `low` to `high`, bounds included, in ascending order.
pub open spec fn interval(low: int, high: int) -> Seq<int> {
    if low <= high {
        Seq::new((high - low + 1) as nat, |i: int| low + i)
    } else {
        Seq::empty()
    }
}

/// The predicate that holds of the copies of the item.
pub open spec fn same<T>(item: T) -> spec_fn(T) -> bool {
    |other: T| other == item
}

/// How often the item occurs in the sequence.
pub open spec fn copies<T>(items: Seq<T>, item: T) -> nat {
    items.filter(same(item)).len()
}

/// A sequence without repetitions holds each of its items once, and an
/// item that is not in a sequence occurs in it zero times.
pub proof fn lemma_copies<T>(items: Seq<T>, item: T)
    ensures
        !items.contains(item) ==> copies(items, item) == 0,
        items.contains(item) ==> copies(items, item) >= 1,
        items.no_duplicates() && items.contains(item) ==> copies(items, item) == 1,
    decreases items.len(),
{
    reveal(Seq::filter);
    if items.len() > 0 {
        let rest = items.drop_last();
        lemma_copies(rest, item);
        assert(rest.push(items.last()) =~= items);
        rest.lemma_filter_push(items.last(), same(item));
    }
}

/// A table lists an item exactly when it has at least one entry for it.
pub proof fn lemma_lists_occurrences<T>(entries: Seq<(T, int)>, item: T)
    ensures
        lists(entries, item) <==> occurrences(entries, item) > 0,
    decreases entries.len(),
{
    reveal(Seq::filter);
    if entries.len() > 0 {
        let rest = entries.drop_last();
        lemma_lists_occurrences(rest, item);
        assert(rest.push(entries.last()) =~= entries);
        rest.lemma_filter_push(entries.last(), names(item));
    }
}

/// Default entries are for their items: as many for one as the items hold
/// copies of it.
pub proof fn lemma_defaults_occurrences<T>(items: Seq<T>, item: T)
    ensures
        occurrences(defaults(items), item) == copies(items, item),
    decreases items.len(),
{
    reveal(Seq::filter);
    if items.len() > 0 {
        let rest = items.drop_last();
        lemma_defaults_occurrences(rest, item);
        assert(defaults(rest).push((items.last(), DEFAULT_WEIGHT as int)) =~= defaults(items));
        rest.lemma_filter_push(items.last(), same(item));
        defaults(rest).lemma_filter_push((items.last(), DEFAULT_WEIGHT as int), names(item));
    }
}

/// Filtering keeps the copies of an item of which the predicate holds, and
/// none of another.
pub proof fn lemma_filter_copies<T>(items: Seq<T>, keep: spec_fn(T) -> bool, item: T)
    ensures
        copies(items.filter(keep), item) == if keep(item) {
            copies(items, item)
        } else {
            0
        },
    decreases items.len(),
{
    reveal(Seq::filter);
    if items.len() > 0 {
        let rest = items.drop_last();
        let last = items.last();
        lemma_filter_copies(rest, keep, item);
        rest.lemma_filter_push(last, keep);
        rest.lemma_filter_push(last, same(item));
        if keep(last) {
            rest.filter(keep).lemma_filter_push(last, same(item));
        }
    }
}

/// Listing an item in a table and in the rest of it after the first entry.
pub proof fn lemma_lists_rest<T>(entries: Seq<(T, int)>, item: T)
    requires
        entries.len() > 0,
    ensures
        lists(entries, item) <==> entries[0].0 == item || lists(entries.skip(1), item),
{
    let rest = entries.skip(1);
    if lists(entries, item) {
        let i = choose|i: int| 0 <= i < entries.len() && (#[trigger] entries[i]).0 == item;
        if i > 0 {
            assert(rest[i - 1].0 == item);
        }
    }
}

/// Of the entries that count, exactly one is for each listed item, and it
/// carries the weight of the item's last entry; none is for another item.
pub proof fn lemma_last_wins<T>(entries: Seq<(T, int)>, item: T)
    ensures
        occurrences(last_wins(entries), item) == if lists(entries, item) {
            1nat
        } else {
            0nat
        },
        lists(entries, item) ==> last_wins(entries).contains((item, last_weight(entries, item))),
    decreases entries.len(),
{
    reveal(Seq::filter);
    if entries.len() > 0 {
        let first = entries[0];
        let rest = entries.skip(1);
        let kept = last_wins(rest);
        lemma_last_wins(rest, item);
        lemma_lists_rest(entries, item);
        if !lists(rest, first.0) {
            let alone = seq![first];
            Seq::filter_distributes_over_add(alone, kept, names(item));
            Seq::<(T, int)>::empty().lemma_filter_push(first, names(item));
            if lists(rest, item) {
                let weight = last_weight(rest, item);
                let i = choose|i: int| 0 <= i < kept.len() && kept[i] == (item, weight);
                assert((alone + kept)[i + 1] == kept[i]);
            } else if first.0 == item {
                assert((alone + kept)[0] == first);
            }
        }
    }
}

/// What completion does to the number of entries for an item: a listed item
/// has one entry, and an item that is not listed gets one entry for each of
/// its copies in the domain.
pub proof fn lemma_completed_occurrences<T>(entries: Seq<(T, int)>, domain: Seq<T>, item: T)
    ensures
        occurrences(completed(entries, domain), item) == if lists(entries, item) {
            1nat
        } else {
            copies(domain, item)
        },
{
    let missing = domain.filter(unlisted(entries));
    Seq::filter_distributes_over_add(last_wins(entries), defaults(missing), names(item));
    lemma_defaults_occurrences(missing, item);
    lemma_filter_copies(domain, unlisted(entries), item);
    lemma_last_wins(entries, item);
}

/// The completed table covers the domain exactly once: over a domain without
/// repetitions it has one entry for every item of the domain, whatever the
/// caller's table holds. An item that the caller's table lists has the weight
/// of its last entry there, and any other item of the domain the weight 1.0.
pub proof fn lemma_completed_covers<T>(entries: Seq<(T, int)>, domain: Seq<T>, item: T)
    requires
        domain.no_duplicates(),
        domain.contains(item),
    ensures
        occurrences(completed(entries, domain), item) == 1,
        lists(completed(entries, domain), item),
        completed(entries, domain).contains(
            (
                item,
                if lists(entries, item) {
                    last_weight(entries, item)
                } else {
                    DEFAULT_WEIGHT as int
                },
            ),
        ),
{
    let table = completed(entries, domain);
    let missing = domain.filter(unlisted(entries));
    lemma_completed_occurrences(entries, domain, item);
    lemma_copies(domain, item);
    lemma_lists_occurrences(table, item);
    lemma_last_wins(entries, item);
    if lists(entries, item) {
        let kept = last_wins(entries);
        let i = choose|i: int| 0 <= i < kept.len() && kept[i] == (item, last_weight(entries, item));
        assert(table[i] == kept[i]);
    } else {
        let i = choose|i: int| 0 <= i < domain.len() && domain[i] == item;
        domain.lemma_filter_contains(unlisted(entries), i);
        let j = choose|j: int| 0 <= j < missing.len() && missing[j] == item;
        assert(table[last_wins(entries).len() + j] == defaults(missing)[j]);
    }
}

/// An interval holds exactly the integers between its bounds, each once.
pub proof fn lemma_interval(low: int, high: int)
    ensures
        interval(low, high).no_duplicates(),
        forall|value: int| interval(low, high).contains(value) <==> low <= value <= high,
{
    let items = interval(low, high);
    assert forall|value: int| items.contains(value) <==> low <= value <= high by {
        if low <= value <= high {
            assert(items[value - low] == value);
        }
    }
}

/// The total of weights of which none is negative is not negative, and is
/// positive as soon as one of them is.
pub proof fn lemma_total_sign(weights: Seq<int>)
    requires
        forall|i: int| 0 <= i < weights.len() ==> weights[i] >= 0,
    ensures
        total(weights) >= 0,
        total(weights) > 0 <==> exists|i: int| 0 <= i < weights.len() && weights[i] > 0,
    decreases weights.len(),
{
    if weights.len() > 0 {
        let rest = weights.drop_last();
        lemma_total_sign(rest);
        if total(rest) > 0 {
            let i = choose|i: int| 0 <= i < rest.len() && rest[i] > 0;
        } else if weights.last() > 0 {
        } else {
            assert forall|i: int| 0 <= i < weights.len() implies !(weights[i] > 0) by {
                if i < rest.len() {
                    assert(rest[i] == weights[i]);
                }
            }
        }
    }
}

/// A table without entries is completed to one default entry for each item
/// of the domain.
pub proof fn lemma_completed_from_nothing<T>(domain: Seq<T>)
    ensures
        completed(Seq::<(T, int)>::empty(), domain) == defaults(domain),
{
    let nothing = Seq::<(T, int)>::empty();
    lemma_filter_everything(domain, unlisted(nothing));
}

/// A predicate that holds of every item filters nothing out.
pub proof fn lemma_filter_everything<T>(items: Seq<T>, keep: spec_fn(T) -> bool)
    requires
        forall|item: T| #[trigger] keep(item),
    ensures
        items.filter(keep) == items,
    decreases items.len(),
{
    reveal(Seq::filter);
    if items.len() > 0 {
        lemma_filter_everything(items.drop_last(), keep);
    }
}

/// A draw can be made from a table of default entries that is not empty,
/// and only an item of the table can be drawn.
pub proof fn lemma_defaults_usable<T>(items: Seq<T>)
    requires
        items.len() > 0,
    ensures
        usable(weights_of(defaults(items))),
        forall|item: T| drawable(defaults(items), item) ==> items.contains(item),
{
    let weights = weights_of(defaults(items));
    lemma_total_sign(weights);
    assert forall|item: T| drawable(defaults(items), item) implies items.contains(item) by {
        let i = choose|i: int|
            0 <= i < defaults(items).len() && (#[trigger] defaults(items)[i]).0 == item;
    }
}

} // verus!
