//! Search and browse: the packages that hold every term of a query, ranked
//! and cut into pages.

use vstd::prelude::*;
use vstd::string::*;
use crate::error::Error;
use crate::lookup::{lemma_select, select};
use crate::models::{
    Package, PackageSearchResult, PackageSearchResultView, PackageSortField, PackageSortOrder,
    PackageView,
};
use crate::paging::{
    lemma_page_len, page_bounds, page_count, page_first, page_of, page_start, requested_page,
    requested_size, resolve_request, total_pages, valid_request,
};
use crate::query::{count_occurrences, occurrences, split_terms, term_views, words};
use crate::sorting::{
    entry_order, entry_positions, entry_views, lemma_sorted_entries, listing_order, sorted_entries,
    SortEntry, SortEntryView,
};
use crate::store::{Registry, RegistryView};
use crate::text::to_chars;

verus! {

/// The largest relevance that is told apart; higher ones count as this.
pub const MAX_RELEVANCE: i64 = 9223372036854775807;

/// `n`, or the largest relevance where `n` lies above it.
pub open spec fn capped(n: int) -> int {
    if n > MAX_RELEVANCE {
        MAX_RELEVANCE as int
    } else {
        n
    }
}

/// How often `term` occurs as a word of a package's name or description.
pub open spec fn term_hits(name: Seq<char>, description: Seq<char>, term: Seq<char>) -> nat {
    occurrences(name, term) + occurrences(description, term)
}

/// The relevance of a package to a query: how often the terms of the query
/// occur as words of its name or its description, all terms together.
pub open spec fn relevance(name: Seq<char>, description: Seq<char>, terms: Seq<Seq<char>>) -> nat
    decreases terms.len(),
{
    if terms.len() == 0 {
        0
    } else {
        relevance(name, description, terms.drop_last()) + term_hits(
            name,
            description,
            terms.last(),
        )
    }
}

/// Whether a package matches a query: the query has a term, and every term
/// occurs as a word of the package's name or description.
pub open spec fn matches_all(name: Seq<char>, description: Seq<char>, terms: Seq<Seq<char>>)
    -> bool {
    &&& terms.len() > 0
    &&& forall|k: int| 0 <= k < terms.len() ==> term_hits(name, description, #[trigger] terms[k]) > 0
}

/// Whether a direction runs from the largest key down.
pub open spec fn is_descending(order: PackageSortOrder) -> bool {
    order == PackageSortOrder::Desc
}

/// The number a package is sorted by.
pub open spec fn package_number(row: PackageView, terms: Seq<Seq<char>>, field: PackageSortField)
    -> int {
    match field {
        PackageSortField::Relevance => capped(
            relevance(row.name, row.description, terms) as int,
        ),
        PackageSortField::MostDownloads => row.total_downloads_count,
        PackageSortField::NewlyAdded => row.created_at,
        PackageSortField::Name => 0,
        PackageSortField::Description => 0,
    }
}

/// The text a package is sorted by.
pub open spec fn package_text(row: PackageView, field: PackageSortField) -> Seq<char> {
    match field {
        PackageSortField::Name => row.name,
        PackageSortField::Description => row.description,
        _ => Seq::empty(),
    }
}

/// The row of a listing that stands for a package.
pub open spec fn result_of(row: PackageView) -> PackageSearchResultView {
    PackageSearchResultView {
        id: row.id,
        name: row.name,
        description: row.description,
        total_downloads_count: row.total_downloads_count,
    }
}

/// The views of a sequence of result rows.
pub open spec fn result_views(rows: Seq<PackageSearchResult>) -> Seq<PackageSearchResultView> {
    rows.map_values(|r: PackageSearchResult| r@)
}

/// One page of a listing: its rows, the number of rows of the whole
/// listing, and the number of pages of the whole listing.
pub struct PageView {
    pub items: Seq<PackageSearchResultView>,
    pub total_count: int,
    pub total_pages: int,
}

/// The view of a result that carries a page.
pub open spec fn page_result(result: Result<(Vec<PackageSearchResult>, i64, i64), Error>) -> Result<
    PageView,
    Error,
> {
    match result {
        Ok((items, total_count, total_pages)) => Ok(
            PageView {
                items: result_views(items@),
                total_count: total_count as int,
                total_pages: total_pages as int,
            },
        ),
        Err(e) => Err(e),
    }
}

impl RegistryView {
    /// The condition on positions "the package here is listed": every
    /// package where `filtered` is false, and otherwise the packages that
    /// match `terms`.
    pub open spec fn is_listed(self, terms: Seq<Seq<char>>, filtered: bool) -> spec_fn(int)
        -> bool {
        |i: int|
            !filtered || matches_all(self.packages[i].name, self.packages[i].description, terms)
    }

    /// The positions of the listed packages, in insertion order.
    pub open spec fn listed(self, terms: Seq<Seq<char>>, filtered: bool) -> Seq<int> {
        select(self.packages.len() as int, self.is_listed(terms, filtered))
    }

    /// The sort entry of the package at a position.
    pub open spec fn package_entry(self, terms: Seq<Seq<char>>, field: PackageSortField) -> spec_fn(
        int,
    ) -> SortEntryView {
        |i: int|
            SortEntryView {
                number: package_number(self.packages[i], terms, field),
                text: package_text(self.packages[i], field),
                index: i,
            }
    }

    /// Whether `row` is the result row of a package that matches `terms`.
    pub open spec fn is_row_of_match(self, terms: Seq<Seq<char>>, row: PackageSearchResultView)
        -> bool {
        exists|i: int|
            0 <= i < self.packages.len() && matches_all(
                self.packages[i].name,
                self.packages[i].description,
                terms,
            ) && row == result_of(#[trigger] self.packages[i])
    }

    /// The result row of the package at a position.
    pub open spec fn result_at(self) -> spec_fn(int) -> PackageSearchResultView {
        |i: int| result_of(self.packages[i])
    }

    /// The positions of the listed packages in the order of the listing:
    /// by `field` in the direction `order`, packages with equal keys in
    /// insertion order.
    pub open spec fn ranking(
        self,
        terms: Seq<Seq<char>>,
        filtered: bool,
        field: PackageSortField,
        order: PackageSortOrder,
    ) -> Seq<int> {
        entry_positions(
            sorted_entries(
                self.listed(terms, filtered),
                self.package_entry(terms, field),
                is_descending(order),
            ),
        )
    }

    /// One page of a ranking, with the counts of the whole ranking. A page
    /// or a page size below one is refused with `InvalidPage`.
    pub open spec fn page(
        self,
        ranking: Seq<int>,
        page: Option<i64>,
        per_page: Option<i64>,
    ) -> Result<PageView, Error> {
        if !valid_request(page, per_page) {
            Err(Error::InvalidPage)
        } else {
            Ok(
                PageView {
                    items: page_of(
                        ranking,
                        requested_page(page),
                        requested_size(per_page),
                    ).map_values(self.result_at()),
                    total_count: ranking.len() as int,
                    total_pages: page_count(ranking.len() as int, requested_size(per_page)),
                },
            )
        }
    }

    /// A search: the page asked for of the packages that hold every term of
    /// `query`, ranked by `field` and `order`. A query without terms
    /// matches nothing.
    pub open spec fn search(
        self,
        query: Seq<char>,
        field: PackageSortField,
        order: PackageSortOrder,
        page: Option<i64>,
        per_page: Option<i64>,
    ) -> Result<PageView, Error> {
        self.page(self.ranking(words(query), true, field, order), page, per_page)
    }

    /// Browsing: the page asked for of all packages, ranked by `field` and
    /// `order`.
    pub open spec fn all_packages(
        self,
        field: PackageSortField,
        order: PackageSortOrder,
        page: Option<i64>,
        per_page: Option<i64>,
    ) -> Result<PageView, Error> {
        self.page(self.ranking(Seq::empty(), false, field, order), page, per_page)
    }
}

/// What a ranking holds: exactly the listed packages, each once, in the
/// order of the listing.
pub proof fn lemma_ranking(
    s: RegistryView,
    terms: Seq<Seq<char>>,
    filtered: bool,
    field: PackageSortField,
    order: PackageSortOrder,
)
    ensures
        s.ranking(terms, filtered, field, order).len() == s.listed(terms, filtered).len(),
        s.ranking(terms, filtered, field, order).len() <= s.packages.len(),
        forall|k: int|
            0 <= k < s.listed(terms, filtered).len() ==> {
                let i = #[trigger] s.ranking(terms, filtered, field, order)[k];
                0 <= i < s.packages.len() && s.is_listed(terms, filtered)(i)
            },
        forall|i: int|
            0 <= i < s.packages.len() && s.is_listed(terms, filtered)(i) ==> #[trigger] s.ranking(
                terms,
                filtered,
                field,
                order,
            ).contains(i),
        forall|a: int, b: int|
            0 <= a < b < s.listed(terms, filtered).len() ==> {
                let first = #[trigger] s.ranking(terms, filtered, field, order)[a];
                let second = #[trigger] s.ranking(terms, filtered, field, order)[b];
                &&& first != second
                &&& entry_order(is_descending(order))(
                    s.package_entry(terms, field)(first),
                    s.package_entry(terms, field)(second),
                )
            },
{
    let positions = s.listed(terms, filtered);
    let entry_at = s.package_entry(terms, field);
    let descending = is_descending(order);
    let sorted = sorted_entries(positions, entry_at, descending);
    let ranking = s.ranking(terms, filtered, field, order);
    lemma_select(s.packages.len() as int, s.is_listed(terms, filtered));
    lemma_sorted_entries(positions, entry_at, descending);
    assert forall|k: int| 0 <= k < positions.len() implies {
        let i = #[trigger] ranking[k];
        0 <= i < s.packages.len() && s.is_listed(terms, filtered)(i)
    } by {
        let e = sorted[k];
        assert(positions.contains(e.index));
        let j = choose|j: int| 0 <= j < positions.len() && positions[j] == e.index;
    }
    assert forall|i: int|
        0 <= i < s.packages.len() && s.is_listed(terms, filtered)(i) implies #[trigger] ranking.contains(
        i,
    ) by {
        assert(positions.contains(i));
        let j = choose|j: int| 0 <= j < positions.len() && positions[j] == i;
        assert(sorted.contains(entry_at(positions[j])));
        let k = choose|k: int| 0 <= k < sorted.len() && sorted[k] == entry_at(i);
        assert(ranking[k] == i);
    }
    assert forall|a: int, b: int| 0 <= a < b < positions.len() implies {
        let first = #[trigger] ranking[a];
        let second = #[trigger] ranking[b];
        &&& first != second
        &&& entry_order(descending)(entry_at(first), entry_at(second))
    } by {
        assert(entry_order(descending)(sorted[a], sorted[b]));
        assert(sorted[a].index != sorted[b].index);
        assert(sorted[a] == entry_at(sorted[a].index));
        assert(sorted[b] == entry_at(sorted[b].index));
    }
}

/// What a search answers, for every page and page size of at least one:
/// the rows of the page are rows of packages in which every term of the
/// query occurs; the count is the number of all such packages, whatever
/// page was asked for; the number of pages is the count divided by the page
/// size, rounded up; a page holds no more rows than the page size, and
/// none where it lies behind the last page; a query without terms matches
/// nothing.
pub proof fn lemma_search(
    s: RegistryView,
    query: Seq<char>,
    field: PackageSortField,
    order: PackageSortOrder,
    page: Option<i64>,
    per_page: Option<i64>,
)
    requires
        valid_request(page, per_page),
    ensures
        s.search(query, field, order, page, per_page) is Ok,
        ({
            let answer = s.search(query, field, order, page, per_page)->Ok_0;
            let terms = words(query);
            &&& answer.total_count == s.listed(terms, true).len()
            &&& answer.total_count <= s.packages.len()
            &&& answer.total_pages == page_count(answer.total_count, requested_size(per_page))
            &&& answer.items.len() <= requested_size(per_page)
            &&& answer.items.len() <= answer.total_count
            &&& requested_page(page) > answer.total_pages ==> answer.items.len() == 0
            &&& requested_page(page) < answer.total_pages ==> answer.items.len()
                == requested_size(per_page)
            &&& terms.len() == 0 ==> answer.total_count == 0 && answer.total_pages == 0
            &&& forall|k: int|
                0 <= k < answer.items.len() ==> s.is_row_of_match(terms, #[trigger] answer.items[k])
        }),
{
    let terms = words(query);
    let ranking = s.ranking(terms, true, field, order);
    let number = requested_page(page);
    let size = requested_size(per_page);
    let answer = s.search(query, field, order, page, per_page)->Ok_0;
    lemma_ranking(s, terms, true, field, order);
    lemma_page_len(ranking, number, size);
    lemma_select(s.packages.len() as int, s.is_listed(terms, true));
    let shown = page_of(ranking, number, size);
    assert(page_start(number, size) >= 0) by (nonlinear_arith)
        requires
            number >= 1,
            size >= 1,
    ;
    assert forall|k: int| 0 <= k < answer.items.len() implies s.is_row_of_match(
        terms,
        #[trigger] answer.items[k],
    ) by {
        let at = page_first(ranking.len() as int, number, size) + k;
        let i = ranking[at];
        assert(shown[k] == i);
        assert(s.is_listed(terms, true)(i));
        assert(answer.items[k] == s.result_at()(shown[k]));
        assert(answer.items[k] == result_of(s.packages[i]));
    }
    if terms.len() == 0 {
        assert(ranking.len() == 0) by {
            if ranking.len() > 0 {
                assert(s.is_listed(terms, true)(ranking[0]));
            }
        }
    }
}

/// `total + count`, held at the largest relevance.
pub fn add_capped(total: i64, count: usize) -> (sum: i64)
    requires
        total >= 0,
    ensures
        sum == capped(total + count),
{
    if (count as u64) > (MAX_RELEVANCE - total) as u64 {
        MAX_RELEVANCE
    } else {
        total + (count as i64)
    }
}

/// Whether a package with this name and description matches the terms, and
/// its relevance to them.
pub fn score(name: &Vec<char>, description: &Vec<char>, terms: &Vec<Vec<char>>) -> (scored: (
    bool,
    i64,
))
    ensures
        scored.0 == matches_all(name@, description@, term_views(terms@)),
        scored.1 == capped(relevance(name@, description@, term_views(terms@)) as int),
{
    let ghost all = term_views(terms@);
    let mut matched = terms.len() > 0;
    let mut total: i64 = 0;
    let mut k: usize = 0;
    proof {
        assert(all.take(0) =~= Seq::empty());
    }
    while k < terms.len()
        invariant
            k <= terms.len(),
            all == term_views(terms@),
            total == capped(relevance(name@, description@, all.take(k as int)) as int),
            total >= 0,
            matched == (terms.len() > 0 && forall|j: int|
                0 <= j < k ==> term_hits(name@, description@, #[trigger] all[j]) > 0),
        decreases terms.len() - k,
    {
        let in_name = count_occurrences(name, &terms[k]);
        let in_description = count_occurrences(description, &terms[k]);
        proof {
            assert(all[k as int] == terms@[k as int]@);
            assert(all.take(k + 1).drop_last() =~= all.take(k as int));
            assert(all.take(k + 1).last() == all[k as int]);
        }
        if in_name == 0 && in_description == 0 {
            matched = false;
        }
        total = add_capped(add_capped(total, in_name), in_description);
        k += 1;
    }
    proof {
        assert(all.take(k as int) =~= all);
    }
    (matched, total)
}

/// The entries of the listed packages, in insertion order.
fn listed_entries(
    store: &Registry,
    terms: &Vec<Vec<char>>,
    filtered: bool,
    field: &PackageSortField,
) -> (entries: Vec<SortEntry>)
    requires
        store.wf(),
    ensures
        entry_views(entries@) == store@.listed(term_views(terms@), filtered).map_values(
            store@.package_entry(term_views(terms@), *field),
        ),
{
    let ghost s = store@;
    let ghost all = term_views(terms@);
    let ghost wanted = s.is_listed(all, filtered);
    let ghost entry_at = s.package_entry(all, *field);
    let total = store.package_count();
    let mut entries: Vec<SortEntry> = Vec::new();
    let mut i: usize = 0;
    proof {
        assert(entry_views(entries@) =~= select(0, wanted).map_values(entry_at));
    }
    while i < total
        invariant
            store.wf(),
            s == store@,
            all == term_views(terms@),
            total == s.packages.len(),
            i <= total,
            wanted == s.is_listed(all, filtered),
            entry_at == s.package_entry(all, *field),
            entry_views(entries@) == select(i as int, wanted).map_values(entry_at),
        decreases total - i,
    {
        let row = store.package_at(i);
        let name = to_chars(row.name.as_str());
        let description = to_chars(row.description.as_str());
        let (matched, relevance) = score(&name, &description, terms);
        if matched || !filtered {
            let entry = match field {
                PackageSortField::Relevance => SortEntry {
                    number: relevance,
                    text: Vec::new(),
                    index: i,
                },
                PackageSortField::MostDownloads => SortEntry {
                    number: row.total_downloads_count as i64,
                    text: Vec::new(),
                    index: i,
                },
                PackageSortField::NewlyAdded => SortEntry {
                    number: row.created_at,
                    text: Vec::new(),
                    index: i,
                },
                PackageSortField::Name => SortEntry { number: 0, text: name, index: i },
                PackageSortField::Description => SortEntry {
                    number: 0,
                    text: description,
                    index: i,
                },
            };
            let ghost before = entry_views(entries@);
            proof {
                assert(entry@.text =~= entry_at(i as int).text);
                assert(entry@ == entry_at(i as int));
            }
            entries.push(entry);
            proof {
                assert(entry_views(entries@) =~= before.push(entry_at(i as int)));
                assert(select(i + 1, wanted) == select(i as int, wanted).push(i as int));
                assert(select(i + 1, wanted).map_values(entry_at) =~= before.push(
                    entry_at(i as int),
                ));
            }
        } else {
            proof {
                assert(select(i + 1, wanted) == select(i as int, wanted));
            }
        }
        i += 1;
    }
    entries
}

/// The page asked for of the listed packages.
fn listing_page(
    store: &Registry,
    terms: &Vec<Vec<char>>,
    filtered: bool,
    field: &PackageSortField,
    order: &PackageSortOrder,
    page: Option<i64>,
    per_page: Option<i64>,
) -> (result: Result<(Vec<PackageSearchResult>, i64, i64), Error>)
    requires
        store.wf(),
    ensures
        page_result(result) == store@.page(
            store@.ranking(term_views(terms@), filtered, *field, *order),
            page,
            per_page,
        ),
{
    let (number, size) = match resolve_request(page, per_page) {
        Ok(request) => request,
        Err(e) => {
            return Err(e);
        },
    };
    let ghost s = store@;
    let ghost all = term_views(terms@);
    let descending = match order {
        PackageSortOrder::Desc => true,
        PackageSortOrder::Asc => false,
    };
    let entries = listed_entries(store, terms, filtered, field);
    let ranking = listing_order(entries, descending);
    let ghost positions = ranking@.map_values(|i: usize| i as int);
    proof {
        lemma_ranking(s, all, filtered, *field, *order);
        assert(positions == s.ranking(all, filtered, *field, *order));
    }
    let total_count = ranking.len() as i64;
    let pages = total_pages(total_count, size);
    let (first, end) = page_bounds(total_count, number, size);
    let ghost shown = positions.subrange(first as int, end as int);
    let mut items: Vec<PackageSearchResult> = Vec::new();
    let mut k: usize = first as usize;
    proof {
        assert(result_views(items@) =~= shown.take(0).map_values(s.result_at()));
    }
    while k < end as usize
        invariant
            s == store@,
            0 <= first <= k <= end <= ranking.len(),
            positions == ranking@.map_values(|i: usize| i as int),
            shown == positions.subrange(first as int, end as int),
            forall|k: int| 0 <= k < positions.len() ==> 0 <= (#[trigger] positions[k])
                < s.packages.len(),
            result_views(items@) == shown.take(k - first).map_values(s.result_at()),
        decreases end - k,
    {
        let ghost before = result_views(items@);
        assert(ranking[k as int] == positions[k as int]);
        let row = store.package_at(ranking[k]);
        let item = PackageSearchResult {
            id: row.id,
            name: row.name.clone(),
            description: row.description.clone(),
            total_downloads_count: row.total_downloads_count,
        };
        proof {
            assert(item@ == s.result_at()(positions[k as int]));
        }
        items.push(item);
        proof {
            assert(shown[k - first] == positions[k as int]);
            assert(shown.take(k - first + 1) =~= shown.take(k - first).push(shown[k - first]));
            assert(result_views(items@) =~= before.push(s.result_at()(positions[k as int])));
            assert(shown.take(k - first + 1).map_values(s.result_at()) =~= before.push(
                s.result_at()(positions[k as int]),
            ));
        }
        k += 1;
    }
    proof {
        assert(shown.take(k - first) =~= shown);
    }
    Ok((items, total_count, pages))
}

impl Package {
    /// Searches the packages for `search_query`.
    ///
    /// The query is split at spaces into terms. A package matches where
    /// every term occurs as a word of its name or its description, capital
    /// ASCII letters counting as small ones; a query without terms matches
    /// nothing. The matches are ordered by `sort_field` in the direction
    /// `sort_order`, packages with equal keys in insertion order. Returned
    /// are the rows of page `page` (the first where none is named) at
    /// `per_page` rows a page (the default where none is named), the number
    /// of matches, and the number of pages they fill. A page behind the
    /// last is empty. Fails with `InvalidPage` where the page or the page
    /// size is below one.
    pub fn search(
        search_query: &str,
        sort_field: &PackageSortField,
        sort_order: &PackageSortOrder,
        page: Option<i64>,
        per_page: Option<i64>,
        store: &Registry,
    ) -> (result: Result<(Vec<PackageSearchResult>, i64, i64), Error>)
        requires
            store.wf(),
        ensures
            page_result(result) == store@.search(
                search_query@,
                *sort_field,
                *sort_order,
                page,
                per_page,
            ),
    {
        let query = to_chars(search_query);
        let terms = split_terms(&query);
        listing_page(store, &terms, true, sort_field, sort_order, page, per_page)
    }

    /// Lists all packages, ordered and cut into pages as
    /// [`Package::search`] does with its matches.
    pub fn all_packages(
        sort_field: &PackageSortField,
        sort_order: &PackageSortOrder,
        page: Option<i64>,
        per_page: Option<i64>,
        store: &Registry,
    ) -> (result: Result<(Vec<PackageSearchResult>, i64, i64), Error>)
        requires
            store.wf(),
        ensures
            page_result(result) == store@.all_packages(*sort_field, *sort_order, page, per_page),
    {
        let terms: Vec<Vec<char>> = Vec::new();
        proof {
            assert(term_views(terms@) =~= Seq::empty());
        }
        listing_page(store, &terms, false, sort_field, sort_order, page, per_page)
    }
}

} // verus!
