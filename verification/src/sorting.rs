//! The order of listings: rows are sorted by a key made of a number and a
//! text, ascending or descending, and rows with equal keys stay in insertion
//! order.

use vstd::prelude::*;
use vstd::relations::{sorted_by, total_ordering};
use vstd::seq_lib::{group_to_multiset_ensures, lemma_sorted_unique};

verus! {

/// Whether text `a` comes strictly before text `b` in dictionary order by
/// character code, given that the two agree before position `i`.
pub open spec fn text_before_from(a: Seq<char>, b: Seq<char>, i: int) -> bool
    decreases a.len() - i,
{
    if i >= b.len() {
        false
    } else if i >= a.len() {
        true
    } else if a[i] != b[i] {
        (a[i] as int) < (b[i] as int)
    } else {
        text_before_from(a, b, i + 1)
    }
}

/// Whether text `a` comes strictly before text `b` in dictionary order by
/// character code: at the first position where they differ `a` has the
/// smaller character, or `a` is a proper prefix of `b`.
pub open spec fn text_before(a: Seq<char>, b: Seq<char>) -> bool {
    text_before_from(a, b, 0)
}

/// Dictionary order never places two texts before each other.
pub proof fn lemma_text_before_asymmetric(a: Seq<char>, b: Seq<char>, i: int)
    requires
        0 <= i,
        text_before_from(a, b, i),
    ensures
        !text_before_from(b, a, i),
    decreases a.len() - i,
{
    if i < a.len() && i < b.len() && a[i] == b[i] {
        lemma_text_before_asymmetric(a, b, i + 1);
    }
}

/// Of two different texts that agree before position `i`, one comes before
/// the other.
pub proof fn lemma_text_before_connected(a: Seq<char>, b: Seq<char>, i: int)
    requires
        0 <= i <= a.len(),
        i <= b.len(),
        forall|k: int| 0 <= k < i ==> a[k] == b[k],
    ensures
        a == b || text_before_from(a, b, i) || text_before_from(b, a, i),
    decreases a.len() - i,
{
    if i < a.len() && i < b.len() {
        if a[i] == b[i] {
            lemma_text_before_connected(a, b, i + 1);
        }
    } else if i == a.len() && i == b.len() {
        assert(a =~= b);
    }
}

/// Dictionary order is transitive.
pub proof fn lemma_text_before_transitive(a: Seq<char>, b: Seq<char>, c: Seq<char>, i: int)
    requires
        0 <= i,
        text_before_from(a, b, i),
        text_before_from(b, c, i),
    ensures
        text_before_from(a, c, i),
    decreases b.len() - i,
{
    if i < a.len() && i < b.len() && i < c.len() && a[i] == b[i] && b[i] == c[i] {
        lemma_text_before_transitive(a, b, c, i + 1);
    }
}

/// A row of a listing as the sort sees it: its key, and its place in
/// insertion order.
#[derive(Debug)]
pub struct SortEntry {
    /// The numeric part of the key.
    pub number: i64,
    /// The textual part of the key, compared where the numbers are equal.
    pub text: Vec<char>,
    /// The row's place in insertion order.
    pub index: usize,
}

/// What a [`SortEntry`] is, mathematically.
pub struct SortEntryView {
    pub number: int,
    pub text: Seq<char>,
    pub index: int,
}

impl View for SortEntry {
    type V = SortEntryView;

    open spec fn view(&self) -> SortEntryView {
        SortEntryView { number: self.number as int, text: self.text@, index: self.index as int }
    }
}

/// The views of a sequence of entries.
pub open spec fn entry_views(entries: Seq<SortEntry>) -> Seq<SortEntryView> {
    entries.map_values(|e: SortEntry| e@)
}

/// Whether the key of `a` is strictly smaller than the key of `b`.
pub open spec fn key_before(a: SortEntryView, b: SortEntryView) -> bool {
    a.number < b.number || (a.number == b.number && text_before(a.text, b.text))
}

/// Whether `a` and `b` have the same key.
pub open spec fn same_key(a: SortEntryView, b: SortEntryView) -> bool {
    a.number == b.number && a.text == b.text
}

/// Whether `a` stands at or before `b` in a listing: by key, smaller first
/// or, if `descending`, larger first; with equal keys, by insertion order.
pub open spec fn comes_first(a: SortEntryView, b: SortEntryView, descending: bool) -> bool {
    if same_key(a, b) {
        a.index <= b.index
    } else if descending {
        key_before(b, a)
    } else {
        key_before(a, b)
    }
}

/// The order of a listing, as a relation.
pub open spec fn entry_order(descending: bool) -> spec_fn(SortEntryView, SortEntryView) -> bool {
    |a: SortEntryView, b: SortEntryView| comes_first(a, b, descending)
}

/// Keys are totally ordered: of two different keys exactly one is smaller.
pub proof fn lemma_key_connected(a: SortEntryView, b: SortEntryView)
    ensures
        same_key(a, b) || key_before(a, b) || key_before(b, a),
        !(key_before(a, b) && key_before(b, a)),
        same_key(a, b) ==> !key_before(a, b) && !key_before(b, a),
{
    if a.number == b.number {
        lemma_text_before_connected(a.text, b.text, 0);
        if text_before(a.text, b.text) {
            lemma_text_before_asymmetric(a.text, b.text, 0);
        }
        if text_before(b.text, a.text) {
            lemma_text_before_asymmetric(b.text, a.text, 0);
        }
    }
}

/// The order on keys is transitive.
pub proof fn lemma_key_transitive(a: SortEntryView, b: SortEntryView, c: SortEntryView)
    requires
        key_before(a, b),
        key_before(b, c),
    ensures
        key_before(a, c),
{
    if a.number == b.number && b.number == c.number {
        lemma_text_before_transitive(a.text, b.text, c.text, 0);
    }
}

/// The order of a listing is a total order: any two entries are comparable,
/// and two entries that stand at or before each other are the same entry.
pub proof fn lemma_entry_order_total(descending: bool)
    ensures
        total_ordering(entry_order(descending)),
{
    let leq = entry_order(descending);
    assert forall|x: SortEntryView, y: SortEntryView| #[trigger] leq(x, y) || #[trigger] leq(
        y,
        x,
    ) by {
        lemma_key_connected(x, y);
    }
    assert forall|x: SortEntryView, y: SortEntryView| #[trigger]
        leq(x, y) && #[trigger] leq(y, x) implies x == y by {
        lemma_key_connected(x, y);
    }
    assert forall|x: SortEntryView, y: SortEntryView, z: SortEntryView| #[trigger]
        leq(x, y) && #[trigger] leq(y, z) implies leq(x, z) by {
        lemma_key_connected(x, y);
        lemma_key_connected(y, z);
        lemma_key_connected(x, z);
        if same_key(x, y) {
        } else if same_key(y, z) {
        } else if descending {
            lemma_key_transitive(z, y, x);
        } else {
            lemma_key_transitive(x, y, z);
        }
    }
    assert forall|x: SortEntryView| #[trigger] leq(x, x) by {}
}

/// Whether `a` comes strictly before `b` in dictionary order.
pub fn text_precedes(a: &Vec<char>, b: &Vec<char>) -> (before: bool)
    ensures
        before == text_before(a@, b@),
{
    let mut i: usize = 0;
    while i < a.len() && i < b.len()
        invariant
            i <= a.len(),
            i <= b.len(),
            text_before(a@, b@) == text_before_from(a@, b@, i as int),
        decreases a.len() - i,
    {
        if a[i] != b[i] {
            return a[i] < b[i];
        }
        i += 1;
    }
    i < b.len()
}

/// Whether `a` and `b` hold the same characters.
pub fn same_text(a: &Vec<char>, b: &Vec<char>) -> (same: bool)
    ensures
        same == (a@ == b@),
{
    if a.len() != b.len() {
        return false;
    }
    let mut i: usize = 0;
    while i < a.len()
        invariant
            i <= a.len(),
            a.len() == b.len(),
            forall|k: int| 0 <= k < i ==> a@[k] == b@[k],
        decreases a.len() - i,
    {
        if a[i] != b[i] {
            return false;
        }
        i += 1;
    }
    assert(a@ =~= b@);
    true
}

/// Whether `a` stands at or before `b` in a listing.
pub fn entry_comes_first(a: &SortEntry, b: &SortEntry, descending: bool) -> (first: bool)
    ensures
        first == comes_first(a@, b@, descending),
{
    if a.number == b.number && same_text(&a.text, &b.text) {
        a.index <= b.index
    } else if descending {
        b.number < a.number || (b.number == a.number && text_precedes(&b.text, &a.text))
    } else {
        a.number < b.number || (a.number == b.number && text_precedes(&a.text, &b.text))
    }
}

/// Sorts the entries into the order of a listing.
pub fn sort_entries(entries: Vec<SortEntry>, descending: bool) -> (sorted: Vec<SortEntry>)
    ensures
        entry_views(sorted@) == entry_views(entries@).sort_by(entry_order(descending)),
        sorted_by(entry_views(sorted@), entry_order(descending)),
        entry_views(sorted@).to_multiset() == entry_views(entries@).to_multiset(),
{
    let ghost leq = entry_order(descending);
    let ghost all = entry_views(entries@);
    let mut rest = entries;
    let mut sorted: Vec<SortEntry> = Vec::new();
    proof {
        lemma_entry_order_total(descending);
        broadcast use group_to_multiset_ensures;

        assert(entry_views(sorted@) =~= Seq::empty());
        assert(entry_views(sorted@).to_multiset().add(entry_views(rest@).to_multiset())
            =~= all.to_multiset());
    }
    while rest.len() > 0
        invariant
            leq == entry_order(descending),
            total_ordering(leq),
            sorted_by(entry_views(sorted@), leq),
            entry_views(sorted@).to_multiset().add(entry_views(rest@).to_multiset())
                == all.to_multiset(),
        decreases rest.len(),
    {
        let ghost rest_before = entry_views(rest@);
        let ghost sorted_before = entry_views(sorted@);
        let entry = rest.pop().unwrap();
        let mut at: usize = 0;
        while at < sorted.len() && entry_comes_first(&sorted[at], &entry, descending)
            invariant
                at <= sorted.len(),
                leq == entry_order(descending),
                sorted_before == entry_views(sorted@),
                forall|k: int| 0 <= k < at ==> leq(#[trigger] sorted_before[k], entry@),
            decreases sorted.len() - at,
        {
            at += 1;
        }
        sorted.insert(at, entry);
        proof {
            broadcast use group_to_multiset_ensures;

            let now = entry_views(sorted@);
            assert(now =~= sorted_before.insert(at as int, entry@));
            assert(rest_before =~= entry_views(rest@).push(entry@));
            assert forall|i: int, j: int| 0 <= i < j < now.len() implies #[trigger] leq(
                now[i],
                now[j],
            ) by {
                if j < at {
                    assert(leq(sorted_before[i], sorted_before[j]));
                } else if j == at {
                    assert(leq(sorted_before[i], entry@));
                } else if i == at {
                    assert(!leq(sorted_before[at as int], entry@));
                    assert(leq(entry@, sorted_before[at as int]) || leq(
                        sorted_before[at as int],
                        entry@,
                    ));
                    if j - 1 > at {
                        assert(leq(sorted_before[at as int], sorted_before[j - 1]));
                    }
                    assert(leq(entry@, sorted_before[j - 1]));
                } else if i < at {
                    assert(leq(sorted_before[i], sorted_before[j - 1]));
                } else {
                    assert(leq(sorted_before[i - 1], sorted_before[j - 1]));
                }
            }
            assert(now.to_multiset().add(entry_views(rest@).to_multiset()) =~= all.to_multiset());
        }
    }
    proof {
        broadcast use group_to_multiset_ensures;

        assert(entry_views(rest@) =~= Seq::empty());
        assert(entry_views(sorted@).to_multiset() =~= all.to_multiset());
        all.lemma_sort_by_ensures(leq);
        lemma_sorted_unique(entry_views(sorted@), all.sort_by(leq), leq);
    }
    sorted
}

/// The listing of the rows at `positions`, where `entry_at` gives the sort
/// entry of the row at a position.
pub open spec fn sorted_entries(
    positions: Seq<int>,
    entry_at: spec_fn(int) -> SortEntryView,
    descending: bool,
) -> Seq<SortEntryView> {
    positions.map_values(entry_at).sort_by(entry_order(descending))
}

/// A listing holds the entry of every position it was made from, each
/// once, in the order of the listing.
pub proof fn lemma_sorted_entries(
    positions: Seq<int>,
    entry_at: spec_fn(int) -> SortEntryView,
    descending: bool,
)
    requires
        forall|i: int| (#[trigger] entry_at(i)).index == i,
        forall|a: int, b: int|
            0 <= a < b < positions.len() ==> (#[trigger] positions[a]) < (#[trigger] positions[b]),
    ensures
        sorted_entries(positions, entry_at, descending).len() == positions.len(),
        sorted_by(sorted_entries(positions, entry_at, descending), entry_order(descending)),
        forall|k: int|
            0 <= k < positions.len() ==> {
                let e = #[trigger] sorted_entries(positions, entry_at, descending)[k];
                positions.contains(e.index) && e == entry_at(e.index)
            },
        forall|j: int|
            0 <= j < positions.len() ==> sorted_entries(positions, entry_at, descending).contains(
                entry_at(#[trigger] positions[j]),
            ),
        forall|a: int, b: int|
            0 <= a < b < positions.len() ==> (#[trigger] sorted_entries(
                positions,
                entry_at,
                descending,
            )[a]).index != (#[trigger] sorted_entries(positions, entry_at, descending)[b]).index,
{
    broadcast use group_to_multiset_ensures;

    let entries = positions.map_values(entry_at);
    let leq = entry_order(descending);
    let sorted = entries.sort_by(leq);
    lemma_entry_order_total(descending);
    entries.lemma_sort_by_ensures(leq);
    assert(sorted.to_multiset().len() == entries.to_multiset().len());
    assert forall|k: int| 0 <= k < positions.len() implies {
        let e = #[trigger] sorted[k];
        positions.contains(e.index) && e == entry_at(e.index)
    } by {
        assert(sorted.contains(sorted[k]));
        assert(entries.contains(sorted[k]));
        let j = choose|j: int| 0 <= j < entries.len() && entries[j] == sorted[k];
        assert(entries[j] == entry_at(positions[j]));
        assert(positions[j] == sorted[k].index);
    }
    assert forall|j: int| 0 <= j < positions.len() implies sorted.contains(
        entry_at(#[trigger] positions[j]),
    ) by {
        let e = entry_at(positions[j]);
        assert(entries[j] == e);
        assert(entries.contains(e));
        assert(entries.to_multiset().count(e) > 0);
        assert(sorted.to_multiset().count(e) > 0);
    }
    assert(entries.no_duplicates()) by {
        assert forall|i: int, j: int|
            0 <= i < entries.len() && 0 <= j < entries.len() && i != j implies entries[i]
            != entries[j] by {
            assert(entries[i].index == positions[i]);
            assert(entries[j].index == positions[j]);
            if i < j {
                assert(positions[i] < positions[j]);
            } else {
                assert(positions[j] < positions[i]);
            }
        }
    }
    entries.lemma_multiset_has_no_duplicates();
    sorted.lemma_multiset_has_no_duplicates_conv();
    assert forall|a: int, b: int| 0 <= a < b < positions.len() implies (#[trigger] sorted[a]).index
        != (#[trigger] sorted[b]).index by {
        assert(sorted[a] == entry_at(sorted[a].index));
        assert(sorted[b] == entry_at(sorted[b].index));
        assert(sorted[a] != sorted[b]);
    }
}

/// The positions that a sequence of entries names, in order.
pub open spec fn entry_positions(entries: Seq<SortEntryView>) -> Seq<int> {
    entries.map_values(|e: SortEntryView| e.index)
}

/// Sorts the entries into the order of a listing and returns the positions
/// of their rows, first row first.
pub fn listing_order(entries: Vec<SortEntry>, descending: bool) -> (order: Vec<usize>)
    ensures
        order@.map_values(|i: usize| i as int) == entry_positions(
            entry_views(entries@).sort_by(entry_order(descending)),
        ),
{
    let sorted = sort_entries(entries, descending);
    let ghost sorted_views = entry_views(sorted@);
    let mut order: Vec<usize> = Vec::new();
    let mut k: usize = 0;
    proof {
        assert(order@.map_values(|i: usize| i as int) =~= entry_positions(sorted_views.take(0)));
    }
    while k < sorted.len()
        invariant
            k <= sorted.len(),
            sorted_views == entry_views(sorted@),
            order@.map_values(|i: usize| i as int) == entry_positions(sorted_views.take(k as int)),
        decreases sorted.len() - k,
    {
        let ghost before = order@.map_values(|i: usize| i as int);
        order.push(sorted[k].index);
        proof {
            assert(sorted_views.take(k + 1) =~= sorted_views.take(k as int).push(
                sorted_views[k as int],
            ));
            assert(order@.map_values(|i: usize| i as int) =~= before.push(
                sorted_views[k as int].index,
            ));
            assert(entry_positions(sorted_views.take(k + 1)) =~= before.push(
                sorted_views[k as int].index,
            ));
        }
        k += 1;
    }
    proof {
        assert(sorted_views.take(k as int) =~= sorted_views);
    }
    order
}

} // verus!
