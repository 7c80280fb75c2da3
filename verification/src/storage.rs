//! The columnar store: row groups of five aligned columns, the sink that
//! takes them in flush order, and the lookup of pages by identifier.
//!
//! A row group holds, column by column, the identifiers, the revision
//! identifiers, the times, the titles and the contents of its pages. What
//! stands at one position in the five columns is one page.

use crate::batch::flattened;
use crate::page::{page_views, CleanPage, CleanPageView};
use std::collections::HashSet;
use vstd::prelude::*;

verus! {

broadcast use vstd::std_specs::hash::group_hash_axioms;

/// Why the store refused an operation.
#[derive(Debug, Clone, Copy, PartialEq, Eq, Structural)]
pub enum StorageError {
    /// The file is finished: it takes no more row groups and cannot be
    /// closed again.
    Closed,
}

/// The five columns of a row group.
#[derive(Debug)]
pub struct RowGroup {
    pub ids: Vec<i64>,
    pub revision_ids: Vec<i64>,
    pub timestamps: Vec<i64>,
    pub titles: Vec<String>,
    pub contents: Vec<String>,
}

/// Five columns as mathematical data.
pub struct Columns {
    pub ids: Seq<i64>,
    pub revision_ids: Seq<i64>,
    pub timestamps: Seq<i64>,
    pub titles: Seq<Seq<char>>,
    pub contents: Seq<Seq<char>>,
}

impl Columns {
    /// The columns are of one length.
    pub open spec fn aligned(self) -> bool {
        &&& self.revision_ids.len() == self.ids.len()
        &&& self.timestamps.len() == self.ids.len()
        &&& self.titles.len() == self.ids.len()
        &&& self.contents.len() == self.ids.len()
    }

    /// The page at one position of the columns.
    pub open spec fn row(self, i: int) -> CleanPageView {
        CleanPageView {
            page_id: self.ids[i],
            revision_id: self.revision_ids[i],
            timestamp: self.timestamps[i],
            title: self.titles[i],
            content: self.contents[i],
        }
    }

    /// The pages of the columns, position by position.
    pub open spec fn rows(self) -> Seq<CleanPageView> {
        Seq::new(self.ids.len(), |i: int| self.row(i))
    }
}

/// The columns that hold `pages`: each column takes one field of every
/// page, in the order of the pages.
pub open spec fn columns_of(pages: Seq<CleanPageView>) -> Columns {
    Columns {
        ids: pages.map_values(|p: CleanPageView| p.page_id),
        revision_ids: pages.map_values(|p: CleanPageView| p.revision_id),
        timestamps: pages.map_values(|p: CleanPageView| p.timestamp),
        titles: pages.map_values(|p: CleanPageView| p.title),
        contents: pages.map_values(|p: CleanPageView| p.content),
    }
}

impl View for RowGroup {
    type V = Columns;

    open spec fn view(&self) -> Columns {
        Columns {
            ids: self.ids@,
            revision_ids: self.revision_ids@,
            timestamps: self.timestamps@,
            titles: self.titles@.map_values(|s: String| s@),
            contents: self.contents@.map_values(|s: String| s@),
        }
    }
}

/// The columns of a run of pages are aligned, and read back position by
/// position they are the pages again.
pub proof fn law_columns_keep_pages(pages: Seq<CleanPageView>)
    ensures
        columns_of(pages).aligned(),
        columns_of(pages).rows() == pages,
{
    assert(columns_of(pages).rows() =~= pages);
}

impl RowGroup {
    /// Lays `pages` out in columns.
    pub fn from_pages(pages: &Vec<CleanPage>) -> (group: RowGroup)
        ensures
            group@ == columns_of(page_views(pages@)),
            group@.aligned(),
            group@.rows() == page_views(pages@),
    {
        let mut group = RowGroup {
            ids: Vec::new(),
            revision_ids: Vec::new(),
            timestamps: Vec::new(),
            titles: Vec::new(),
            contents: Vec::new(),
        };
        let ghost views = page_views(pages@);
        let mut i: usize = 0;
        while i < pages.len()
            invariant
                i <= pages.len(),
                views == page_views(pages@),
                group@.ids == columns_of(views).ids.take(i as int),
                group@.revision_ids == columns_of(views).revision_ids.take(i as int),
                group@.timestamps == columns_of(views).timestamps.take(i as int),
                group@.titles == columns_of(views).titles.take(i as int),
                group@.contents == columns_of(views).contents.take(i as int),
            decreases pages.len() - i,
        {
            let page = &pages[i];
            assert(views[i as int] == page@);
            let title = page.title.clone();
            let content = page.content.clone();
            proof {
                let c = columns_of(views);
                assert(c.ids.take(i + 1) =~= c.ids.take(i as int).push(page.page_id));
                assert(c.revision_ids.take(i + 1) =~= c.revision_ids.take(i as int).push(
                    page.revision_id,
                ));
                assert(c.timestamps.take(i + 1) =~= c.timestamps.take(i as int).push(
                    page.timestamp,
                ));
                assert(c.titles.take(i + 1) =~= c.titles.take(i as int).push(title@));
                assert(c.contents.take(i + 1) =~= c.contents.take(i as int).push(content@));
                assert(group.titles@.push(title).map_values(|s: String| s@)
                    =~= group.titles@.map_values(|s: String| s@).push(title@));
                assert(group.contents@.push(content).map_values(|s: String| s@)
                    =~= group.contents@.map_values(|s: String| s@).push(content@));
            }
            group.ids.push(page.page_id);
            group.revision_ids.push(page.revision_id);
            group.timestamps.push(page.timestamp);
            group.titles.push(title);
            group.contents.push(content);
            i += 1;
        }
        proof {
            let c = columns_of(views);
            assert(c.ids.take(i as int) =~= c.ids);
            assert(c.revision_ids.take(i as int) =~= c.revision_ids);
            assert(c.timestamps.take(i as int) =~= c.timestamps);
            assert(c.titles.take(i as int) =~= c.titles);
            assert(c.contents.take(i as int) =~= c.contents);
            law_columns_keep_pages(views);
        }
        group
    }

    /// The number of pages in the row group.
    pub fn len(&self) -> (n: usize)
        ensures
            n == self@.ids.len(),
    {
        self.ids.len()
    }

    /// The page at position `i`, put together from the five columns.
    pub fn row(&self, i: usize) -> (page: CleanPage)
        requires
            self@.aligned(),
            i < self@.ids.len(),
        ensures
            page@ == self@.row(i as int),
    {
        CleanPage {
            page_id: self.ids[i],
            revision_id: self.revision_ids[i],
            timestamp: self.timestamps[i],
            title: self.titles[i].clone(),
            content: self.contents[i].clone(),
        }
    }
}

/// The rows whose identifier is asked for, in the order in which they
/// stand.
pub open spec fn selected(rows: Seq<CleanPageView>, ids: Set<i64>) -> Seq<CleanPageView>
    decreases rows.len(),
{
    if rows.len() == 0 {
        Seq::empty()
    } else if ids.contains(rows.last().page_id) {
        selected(rows.drop_last(), ids).push(rows.last())
    } else {
        selected(rows.drop_last(), ids)
    }
}

/// Tests whether a row with this identifier is asked for.
pub fn wanted(page_id: i64, ids: &HashSet<i64>) -> (b: bool)
    ensures
        b == ids@.contains(page_id),
{
    ids.contains(&page_id)
}

/// Looks pages up by identifier: goes through all rows in the order in
/// which they are stored, and returns those whose identifier is in `ids`,
/// as they stand.
pub fn read(rows: &Vec<CleanPage>, ids: &HashSet<i64>) -> (found: Vec<CleanPage>)
    ensures
        page_views(found@) == selected(page_views(rows@), ids@),
{
    let ghost views = page_views(rows@);
    let mut found: Vec<CleanPage> = Vec::new();
    let n = rows.len();
    let mut i: usize = 0;
    assert(page_views(found@) =~= selected(views.take(0), ids@));
    while i < n
        invariant
            i <= n,
            n == rows.len(),
            views.len() == n,
            forall|j: int| i <= j < n ==> (#[trigger] rows@[j])@ == views[j],
            page_views(found@) == selected(views.take(i as int), ids@),
        decreases n - i,
    {
        assert(views.take(i + 1).drop_last() =~= views.take(i as int));
        assert(views.take(i + 1).last() == views[i as int]);
        if wanted(rows[i].page_id, ids) {
            let page = rows[i].duplicate();
            assert(page_views(found@.push(page)) =~= page_views(found@).push(page@));
            found.push(page);
        }
        i += 1;
    }
    assert(views.take(n as int) =~= views);
    found
}

/// A found row is a stored row whose identifier was asked for.
pub proof fn law_only_wanted_rows_are_found(rows: Seq<CleanPageView>, ids: Set<i64>, k: int)
    requires
        0 <= k < selected(rows, ids).len(),
    ensures
        ids.contains(selected(rows, ids)[k].page_id),
        rows.contains(selected(rows, ids)[k]),
    decreases rows.len(),
{
    if rows.len() > 0 {
        let rest = selected(rows.drop_last(), ids);
        if k < rest.len() {
            law_only_wanted_rows_are_found(rows.drop_last(), ids, k);
            let j = choose|j: int| 0 <= j < rows.drop_last().len() && rows.drop_last()[j] == rest[k];
            assert(rows[j] == rest[k]);
        } else {
            assert(rows[rows.len() - 1] == rows.last());
        }
    }
}

/// A stored row whose identifier is asked for is found, as it stands.
pub proof fn law_every_wanted_row_is_found(rows: Seq<CleanPageView>, ids: Set<i64>, i: int)
    requires
        0 <= i < rows.len(),
        ids.contains(rows[i].page_id),
    ensures
        selected(rows, ids).contains(rows[i]),
    decreases rows.len(),
{
    if i == rows.len() - 1 {
        let found = selected(rows, ids);
        assert(found[found.len() - 1] == rows[i]);
    } else {
        law_every_wanted_row_is_found(rows.drop_last(), ids, i);
        let rest = selected(rows.drop_last(), ids);
        let k = choose|k: int| 0 <= k < rest.len() && rest[k] == rows.drop_last()[i];
        assert(selected(rows, ids)[k] == rows[i]);
    }
}

/// The file that takes the row groups of a run.
pub struct Sink {
    /// Whether the file is finished.
    pub closed: bool,
    /// The row groups written so far, in flush order.
    pub written: Ghost<Seq<Columns>>,
}

/// The rows of a file, row group after row group.
pub open spec fn stored_rows(groups: Seq<Columns>) -> Seq<CleanPageView>
    decreases groups.len(),
{
    if groups.len() == 0 {
        Seq::empty()
    } else {
        stored_rows(groups.drop_last()) + groups.last().rows()
    }
}

impl Sink {
    /// A file just created: open and empty.
    pub fn new() -> (sink: Sink)
        ensures
            !sink.closed,
            sink.written@ == Seq::<Columns>::empty(),
    {
        Sink { closed: false, written: Ghost(Seq::empty()) }
    }

    /// Writes `pages` as exactly one row group, and hands out its columns.
    /// A finished file takes nothing.
    pub fn write_batch(&mut self, pages: &Vec<CleanPage>) -> (out: Result<RowGroup, StorageError>)
        ensures
            final(self).closed == old(self).closed,
            old(self).closed ==> out == Err::<RowGroup, StorageError>(StorageError::Closed)
                && final(self).written@ == old(self).written@,
            !old(self).closed ==> (out matches Ok(group) && group@ == columns_of(
                page_views(pages@),
            ) && group@.aligned() && group@.rows() == page_views(pages@) && final(self).written@
                == old(self).written@.push(group@)),
    {
        if self.closed {
            Err(StorageError::Closed)
        } else {
            let group = RowGroup::from_pages(pages);
            proof {
                self.written@ = self.written@.push(group@);
            }
            Ok(group)
        }
    }

    /// Finishes the file. A file is finished once.
    pub fn close(&mut self) -> (out: Result<(), StorageError>)
        ensures
            final(self).closed,
            final(self).written@ == old(self).written@,
            old(self).closed ==> out == Err::<(), StorageError>(StorageError::Closed),
            !old(self).closed ==> out == Ok::<(), StorageError>(()),
    {
        if self.closed {
            Err(StorageError::Closed)
        } else {
            self.closed = true;
            Ok(())
        }
    }
}

/// The rows of a file to which one more batch was written are the rows
/// before, followed by the pages of the batch.
pub proof fn law_write_appends_rows(groups: Seq<Columns>, pages: Seq<CleanPageView>)
    ensures
        stored_rows(groups.push(columns_of(pages))) == stored_rows(groups) + pages,
{
    law_columns_keep_pages(pages);
    assert(groups.push(columns_of(pages)).drop_last() =~= groups);
}

/// Whatever was written is found again: a page of a written batch whose
/// identifier is asked for is among the rows found, with all its fields,
/// and no row is found whose identifier was not asked for.
pub proof fn law_round_trip(
    groups: Seq<Columns>,
    pages: Seq<CleanPageView>,
    later: Seq<Seq<CleanPageView>>,
    ids: Set<i64>,
    i: int,
)
    requires
        0 <= i < pages.len(),
    ensures
        ({
            let file = written_after(groups.push(columns_of(pages)), later);
            let found = selected(stored_rows(file), ids);
            &&& ids.contains(pages[i].page_id) ==> found.contains(pages[i])
            &&& forall|k: int| 0 <= k < found.len() ==> ids.contains((#[trigger] found[k]).page_id)
        }),
{
    let file = written_after(groups.push(columns_of(pages)), later);
    let rows = stored_rows(file);
    let found = selected(rows, ids);
    law_write_appends_rows(groups, pages);
    lemma_later_writes_keep_rows(groups.push(columns_of(pages)), later);
    let at = stored_rows(groups).len() + i;
    assert(rows[at] == pages[i]);
    if ids.contains(pages[i].page_id) {
        law_every_wanted_row_is_found(rows, ids, at);
    }
    assert forall|k: int| 0 <= k < found.len() implies ids.contains((#[trigger] found[k]).page_id) by {
        law_only_wanted_rows_are_found(rows, ids, k);
    }
}

/// The row groups of a file after more batches were written to it.
pub open spec fn written_after(groups: Seq<Columns>, batches: Seq<Seq<CleanPageView>>) -> Seq<
    Columns,
>
    decreases batches.len(),
{
    if batches.len() == 0 {
        groups
    } else {
        written_after(groups.push(columns_of(batches[0])), batches.skip(1))
    }
}

/// Later writes leave the rows written before where they stand.
pub proof fn lemma_later_writes_keep_rows(groups: Seq<Columns>, batches: Seq<Seq<CleanPageView>>)
    ensures
        stored_rows(groups).len() <= stored_rows(written_after(groups, batches)).len(),
        stored_rows(written_after(groups, batches)).take(stored_rows(groups).len() as int)
            == stored_rows(groups),
        stored_rows(written_after(groups, batches)) == stored_rows(groups) + flattened(batches),
    decreases batches.len(),
{
    if batches.len() == 0 {
        assert(stored_rows(groups).take(stored_rows(groups).len() as int) =~= stored_rows(groups));
        assert(stored_rows(groups) + flattened(batches) =~= stored_rows(groups));
    } else {
        let next = groups.push(columns_of(batches[0]));
        law_write_appends_rows(groups, batches[0]);
        lemma_later_writes_keep_rows(next, batches.skip(1));
        let all = stored_rows(written_after(groups, batches));
        assert(all.take(stored_rows(groups).len() as int) =~= stored_rows(groups));
        lemma_flattened_front(batches);
        assert(stored_rows(next) + flattened(batches.skip(1)) =~= stored_rows(groups) + flattened(
            batches,
        ));
    }
}

/// The records of some groups are those of the first, then those of the
/// others.
pub proof fn lemma_flattened_front(groups: Seq<Seq<CleanPageView>>)
    requires
        groups.len() > 0,
    ensures
        flattened(groups) == groups[0] + flattened(groups.skip(1)),
    decreases groups.len(),
{
    if groups.len() == 1 {
        assert(groups.drop_last() =~= Seq::<Seq<CleanPageView>>::empty());
        assert(groups.skip(1) =~= Seq::<Seq<CleanPageView>>::empty());
        assert(flattened(groups) =~= groups[0] + flattened(groups.skip(1)));
    } else {
        lemma_flattened_front(groups.drop_last());
        assert(groups.drop_last().skip(1) =~= groups.skip(1).drop_last());
        assert(groups.skip(1).last() == groups.last());
        assert(flattened(groups) =~= groups[0] + flattened(groups.skip(1)));
    }
}

} // verus!
