//! Listing the versions of a package in a chosen order.

use vstd::prelude::*;
use crate::error::Error;
use crate::lookup::{lemma_select, select};
use crate::models::{PackageVersion, PackageVersionSort, PackageVersionView};
use crate::sorting::{
    entry_order, entry_positions, entry_views, lemma_sorted_entries, listing_order, sorted_entries,
    SortEntry, SortEntryView,
};
use crate::store::{version_views, Registry, RegistryView};

verus! {

/// Whether a sort runs from the largest key down.
pub open spec fn version_descending(sort: PackageVersionSort) -> bool {
    sort != PackageVersionSort::Oldest
}

/// The number a version is sorted by: its download counter for
/// `MostDownloads`, its identifier otherwise.
pub open spec fn version_number(row: PackageVersionView, sort: PackageVersionSort) -> int {
    if sort == PackageVersionSort::MostDownloads {
        row.downloads_count
    } else {
        row.id
    }
}

impl RegistryView {
    /// The condition "the version at this position belongs to package
    /// `package_id`".
    pub open spec fn belongs_to(self, package_id: int) -> spec_fn(int) -> bool {
        |i: int| self.versions[i].package_id == package_id
    }

    /// The positions of the versions of package `package_id`, in insertion
    /// order.
    pub open spec fn versions_of(self, package_id: int) -> Seq<int> {
        select(self.versions.len() as int, self.belongs_to(package_id))
    }

    /// The sort entry of the version at a position.
    pub open spec fn version_entry(self, sort: PackageVersionSort) -> spec_fn(int)
        -> SortEntryView {
        |i: int|
            SortEntryView {
                number: version_number(self.versions[i], sort),
                text: Seq::empty(),
                index: i,
            }
    }

    /// The version at a position.
    pub open spec fn version_at(self) -> spec_fn(int) -> PackageVersionView {
        |i: int| self.versions[i]
    }

    /// The positions of the versions of package `package_id` in the order
    /// `sort`.
    pub open spec fn version_order(self, package_id: int, sort: PackageVersionSort) -> Seq<int> {
        entry_positions(
            sorted_entries(
                self.versions_of(package_id),
                self.version_entry(sort),
                version_descending(sort),
            ),
        )
    }

    /// The versions of package `package_id` in the order `sort`: `Latest`
    /// by identifier from the highest down, `Oldest` by identifier from the
    /// lowest up, `MostDownloads` by download counter from the highest down
    /// with equal counters in insertion order.
    pub open spec fn list_versions(self, package_id: int, sort: PackageVersionSort) -> Seq<
        PackageVersionView,
    > {
        self.version_order(package_id, sort).map_values(self.version_at())
    }
}

/// What a listing of versions holds: exactly the versions of the package,
/// each once, in the order asked for.
pub proof fn lemma_list_versions(s: RegistryView, package_id: int, sort: PackageVersionSort)
    requires
        s.wf(),
    ensures
        s.list_versions(package_id, sort).len() == s.versions_of(package_id).len(),
        s.version_order(package_id, sort).len() == s.versions_of(package_id).len(),
        forall|k: int|
            0 <= k < s.versions_of(package_id).len() ==> 0 <= (#[trigger] s.version_order(
                package_id,
                sort,
            )[k]) < s.versions.len(),
        forall|k: int|
            0 <= k < s.versions_of(package_id).len() ==> {
                let row = #[trigger] s.list_versions(package_id, sort)[k];
                &&& row.package_id == package_id
                &&& 1 <= row.id <= s.versions.len()
                &&& s.versions[row.id - 1] == row
            },
        forall|i: int|
            0 <= i < s.versions.len() && s.versions[i].package_id == package_id
                ==> s.list_versions(package_id, sort).contains(#[trigger] s.versions[i]),
        forall|a: int, b: int|
            0 <= a < b < s.versions_of(package_id).len() ==> {
                let first = #[trigger] s.list_versions(package_id, sort)[a];
                let second = #[trigger] s.list_versions(package_id, sort)[b];
                match sort {
                    PackageVersionSort::Latest => first.id > second.id,
                    PackageVersionSort::Oldest => first.id < second.id,
                    PackageVersionSort::MostDownloads => first.downloads_count
                        > second.downloads_count || (first.downloads_count
                        == second.downloads_count && first.id < second.id),
                }
            },
{
    let positions = s.versions_of(package_id);
    let entry_at = s.version_entry(sort);
    let descending = version_descending(sort);
    let sorted = sorted_entries(positions, entry_at, descending);
    let order = s.version_order(package_id, sort);
    let listed = s.list_versions(package_id, sort);
    lemma_select(s.versions.len() as int, s.belongs_to(package_id));
    lemma_sorted_entries(positions, entry_at, descending);
    assert forall|k: int| 0 <= k < positions.len() implies {
        let row = #[trigger] listed[k];
        &&& 0 <= order[k] < s.versions.len()
        &&& row.package_id == package_id
        &&& 1 <= row.id <= s.versions.len()
        &&& s.versions[row.id - 1] == row
    } by {
        let e = sorted[k];
        assert(positions.contains(e.index));
        let j = choose|j: int| 0 <= j < positions.len() && positions[j] == e.index;
        assert(listed[k] == s.versions[e.index]);
    }
    assert forall|i: int|
        0 <= i < s.versions.len() && s.versions[i].package_id == package_id implies listed.contains(
        #[trigger] s.versions[i],
    ) by {
        assert(positions.contains(i));
        let j = choose|j: int| 0 <= j < positions.len() && positions[j] == i;
        assert(sorted.contains(entry_at(positions[j])));
        let k = choose|k: int| 0 <= k < sorted.len() && sorted[k] == entry_at(i);
        assert(listed[k] == s.versions[i]);
    }
    assert forall|a: int, b: int| 0 <= a < b < positions.len() implies {
        let first = #[trigger] listed[a];
        let second = #[trigger] listed[b];
        match sort {
            PackageVersionSort::Latest => first.id > second.id,
            PackageVersionSort::Oldest => first.id < second.id,
            PackageVersionSort::MostDownloads => first.downloads_count > second.downloads_count || (
            first.downloads_count == second.downloads_count && first.id < second.id),
        }
    } by {
        assert(entry_order(descending)(sorted[a], sorted[b]));
        assert(sorted[a].index != sorted[b].index);
        assert(sorted[a] == entry_at(sorted[a].index));
        assert(sorted[b] == entry_at(sorted[b].index));
        assert(positions.contains(sorted[a].index));
        assert(positions.contains(sorted[b].index));
        assert(listed[a] == s.versions[sorted[a].index]);
        assert(listed[b] == s.versions[sorted[b].index]);
        assert(sorted[a].text =~= sorted[b].text);
    }
}

impl PackageVersion {
    /// The versions of package `uid` in the order `sort_type`. A package
    /// without versions, or an identifier that names no package, gives an
    /// empty list.
    pub fn from_package_id(uid: i32, sort_type: &PackageVersionSort, store: &Registry) -> (result:
        Result<Vec<PackageVersion>, Error>)
        requires
            store.wf(),
        ensures
            result matches Ok(rows) && version_views(rows@) == store@.list_versions(
                uid as int,
                *sort_type,
            ),
            forall|a: int, b: int|
                0 <= a < b < result->Ok_0.len() ==> {
                    let first = #[trigger] result->Ok_0[a];
                    let second = #[trigger] result->Ok_0[b];
                    match *sort_type {
                        PackageVersionSort::Latest => first.id > second.id,
                        PackageVersionSort::Oldest => first.id < second.id,
                        PackageVersionSort::MostDownloads => first.downloads_count
                            >= second.downloads_count,
                    }
                },
    {
        let ghost s = store@;
        let ghost wanted = s.belongs_to(uid as int);
        let ghost entry_at = s.version_entry(*sort_type);
        let descending = match sort_type {
            PackageVersionSort::Oldest => false,
            _ => true,
        };
        let most_downloads = match sort_type {
            PackageVersionSort::MostDownloads => true,
            _ => false,
        };
        let total = store.version_count();
        let mut entries: Vec<SortEntry> = Vec::new();
        let mut i: usize = 0;
        proof {
            assert(entry_views(entries@) =~= select(0, wanted).map_values(entry_at));
        }
        while i < total
            invariant
                store.wf(),
                s == store@,
                total == s.versions.len(),
                i <= total,
                wanted == s.belongs_to(uid as int),
                entry_at == s.version_entry(*sort_type),
                most_downloads == (*sort_type == PackageVersionSort::MostDownloads),
                entry_views(entries@) == select(i as int, wanted).map_values(entry_at),
            decreases total - i,
        {
            let row = store.version_at(i);
            if row.package_id == uid {
                let number = if most_downloads {
                    row.downloads_count
                } else {
                    row.id
                };
                let ghost before = entry_views(entries@);
                entries.push(SortEntry { number: number as i64, text: Vec::new(), index: i });
                proof {
                    assert(entries@[entries.len() - 1]@.text =~= Seq::empty());
                    assert(entry_views(entries@) =~= before.push(entry_at(i as int)));
                    assert(select(i + 1, wanted) == select(i as int, wanted).push(i as int));
                    assert(select(i + 1, wanted).map_values(entry_at) =~= before.push(
                        entry_at(i as int),
                    ));
                }
            } else {
                proof {
                    assert(select(i + 1, wanted) == select(i as int, wanted));
                }
            }
            i += 1;
        }
        let order = listing_order(entries, descending);
        let ghost positions = order@.map_values(|i: usize| i as int);
        proof {
            lemma_list_versions(s, uid as int, *sort_type);
            assert(positions == s.version_order(uid as int, *sort_type));
        }
        let mut rows: Vec<PackageVersion> = Vec::new();
        let mut k: usize = 0;
        proof {
            assert(version_views(rows@) =~= positions.take(0).map_values(s.version_at()));
        }
        while k < order.len()
            invariant
                s == store@,
                k <= order.len(),
                positions == order@.map_values(|i: usize| i as int),
                forall|k: int| 0 <= k < positions.len() ==> 0 <= (#[trigger] positions[k])
                    < s.versions.len(),
                version_views(rows@) == positions.take(k as int).map_values(s.version_at()),
            decreases order.len() - k,
        {
            let ghost before = version_views(rows@);
            assert(order[k as int] == positions[k as int]);
            let row = store.version_at(order[k]).clone();
            rows.push(row);
            proof {
                assert(version_views(rows@) =~= before.push(row@));
                assert(positions.take(k + 1) =~= positions.take(k as int).push(positions[k as int]));
                assert(positions.take(k + 1).map_values(s.version_at()) =~= before.push(row@));
            }
            k += 1;
        }
        proof {
            assert(positions.take(k as int) =~= positions);
            let listed = s.list_versions(uid as int, *sort_type);
            assert forall|a: int, b: int| 0 <= a < b < rows.len() implies {
                let first = #[trigger] rows[a];
                let second = #[trigger] rows[b];
                match *sort_type {
                    PackageVersionSort::Latest => first.id > second.id,
                    PackageVersionSort::Oldest => first.id < second.id,
                    PackageVersionSort::MostDownloads => first.downloads_count
                        >= second.downloads_count,
                }
            } by {
                assert(rows[a]@ == listed[a]);
                assert(rows[b]@ == listed[b]);
            }
        }
        Ok(rows)
    }
}

} // verus!
