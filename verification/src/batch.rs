//! The batch that the workers fill together, and the row groups it gives.
//!
//! Pages are appended one by one. The append that brings the batch to its
//! limit takes all of it out as one row group and leaves the batch empty.
//! What is still in the batch at the end of a run leaves as a last, shorter
//! row group.

use crate::page::{all_have_content, page_views, CleanPage, CleanPageView};
use vstd::prelude::*;

verus! {

/// The number of pages that make a full row group.
pub const BATCH_SIZE: usize = 1000;

/// The pages waiting to be written.
#[derive(Debug)]
pub struct Batch {
    pub pages: Vec<CleanPage>,
    pub limit: usize,
}

/// A batch as mathematical data: the pages waiting, and the limit.
pub struct BatchView {
    pub pending: Seq<CleanPageView>,
    pub limit: nat,
}

impl View for Batch {
    type V = BatchView;

    open spec fn view(&self) -> BatchView {
        BatchView { pending: page_views(self.pages@), limit: self.limit as nat }
    }
}

impl BatchView {
    /// A batch is never full.
    pub open spec fn has_room(self) -> bool {
        self.limit > 0 && self.pending.len() < self.limit
    }

    /// A batch is never full, and its pages have content.
    pub open spec fn wf(self) -> bool {
        self.has_room() && all_have_content(self.pending)
    }

    /// The batch after one more page, and the row group that leaves it, if
    /// the page fills it.
    pub open spec fn pushed(self, page: CleanPageView) -> (BatchView, Option<Seq<CleanPageView>>) {
        if self.pending.len() + 1 >= self.limit {
            (BatchView { pending: Seq::empty(), limit: self.limit }, Some(self.pending.push(page)))
        } else {
            (BatchView { pending: self.pending.push(page), limit: self.limit }, None)
        }
    }

    /// The row group that leaves the batch at the end of a run, if anything
    /// is left.
    pub open spec fn finished(self) -> Option<Seq<CleanPageView>> {
        if self.pending.len() > 0 {
            Some(self.pending)
        } else {
            None
        }
    }
}

/// The view of a row group that may have left a batch.
pub open spec fn group_view(group: Option<Vec<CleanPage>>) -> Option<Seq<CleanPageView>> {
    match group {
        Some(pages) => Some(page_views(pages@)),
        None => None,
    }
}

impl Batch {
    /// An empty batch that holds up to `limit` pages, unless `limit` is zero.
    pub fn new(limit: usize) -> (batch: Option<Batch>)
        ensures
            batch is Some <==> limit > 0,
            batch matches Some(b) ==> b@.wf() && b@.pending.len() == 0 && b@.limit == limit,
    {
        if limit == 0 {
            None
        } else {
            let b = Batch { pages: Vec::new(), limit };
            assert(b@.pending =~= Seq::<CleanPageView>::empty());
            Some(b)
        }
    }

    /// The number of pages waiting.
    pub fn len(&self) -> (n: usize)
        ensures
            n == self@.pending.len(),
    {
        self.pages.len()
    }

    /// Appends a page. The page that fills the batch takes all of it out as
    /// one row group, in the order of appending.
    pub fn push(&mut self, page: CleanPage) -> (group: Option<Vec<CleanPage>>)
        requires
            old(self)@.wf(),
            page@.has_content(),
        ensures
            final(self)@.wf(),
            final(self)@ == old(self)@.pushed(page@).0,
            group_view(group) == old(self)@.pushed(page@).1,
            group matches Some(pages) ==> all_have_content(page_views(pages@)),
    {
        assert(page_views(self.pages@.push(page)) =~= page_views(self.pages@).push(page@));
        self.pages.push(page);
        if self.pages.len() >= self.limit {
            let mut full: Vec<CleanPage> = Vec::new();
            std::mem::swap(&mut self.pages, &mut full);
            assert(page_views(self.pages@) =~= Seq::<CleanPageView>::empty());
            Some(full)
        } else {
            None
        }
    }

    /// Ends the run: hands out what is left, if anything.
    pub fn finish(self) -> (group: Option<Vec<CleanPage>>)
        requires
            self@.wf(),
        ensures
            group_view(group) == self@.finished(),
            group matches Some(pages) ==> all_have_content(page_views(pages@)),
    {
        if self.pages.len() > 0 {
            Some(self.pages)
        } else {
            None
        }
    }
}

/// Where a batch that takes `records` one by one arrives: the batch at the
/// end, and `groups` followed by the row groups that left on the way.
pub open spec fn batched(
    batch: BatchView,
    groups: Seq<Seq<CleanPageView>>,
    records: Seq<CleanPageView>,
) -> (BatchView, Seq<Seq<CleanPageView>>)
    decreases records.len(),
{
    if records.len() == 0 {
        (batch, groups)
    } else {
        let (next, group) = batch.pushed(records[0]);
        batched(
            next,
            match group {
                Some(g) => groups.push(g),
                None => groups,
            },
            records.skip(1),
        )
    }
}

/// The records of the groups, one group after another.
pub open spec fn flattened(groups: Seq<Seq<CleanPageView>>) -> Seq<CleanPageView>
    decreases groups.len(),
{
    if groups.len() == 0 {
        Seq::empty()
    } else {
        flattened(groups.drop_last()) + groups.last()
    }
}

/// Whatever is appended leaves in full row groups or stays in the batch:
/// nothing is lost, nothing comes twice, and the order stands.
pub proof fn law_batching_keeps_every_record(
    batch: BatchView,
    groups: Seq<Seq<CleanPageView>>,
    records: Seq<CleanPageView>,
)
    requires
        batch.has_room(),
        forall|i: int| 0 <= i < groups.len() ==> (#[trigger] groups[i]).len() == batch.limit,
    ensures
        ({
            let (end, out) = batched(batch, groups, records);
            &&& end.limit == batch.limit
            &&& end.pending.len() < batch.limit
            &&& forall|i: int| 0 <= i < out.len() ==> (#[trigger] out[i]).len() == batch.limit
            &&& flattened(out) + end.pending == flattened(groups) + batch.pending + records
            &&& (out.len() - groups.len()) * batch.limit + end.pending.len() == batch.pending.len()
                + records.len()
        }),
    decreases records.len(),
{
    if records.len() == 0 {
        assert(flattened(groups) + batch.pending + records =~= flattened(groups) + batch.pending);
        assert((groups.len() - groups.len()) * batch.limit == 0);
    } else {
        let (next, group) = batch.pushed(records[0]);
        let more = match group {
            Some(g) => groups.push(g),
            None => groups,
        };
        assert(next.has_room());
        law_batching_keeps_every_record(next, more, records.skip(1));
        assert(seq![records[0]] + records.skip(1) =~= records);
        match group {
            Some(g) => {
                assert(more.drop_last() =~= groups);
                assert(flattened(more) + next.pending =~= flattened(groups) + batch.pending
                    + seq![records[0]]);
                assert(flattened(more) + next.pending + records.skip(1) =~= flattened(groups)
                    + batch.pending + records);
                assert((more.len() - groups.len()) * batch.limit == batch.limit) by (nonlinear_arith)
                    requires
                        more.len() - groups.len() == 1,
                ;
                let (end, out) = batched(next, more, records.skip(1));
                assert((out.len() - groups.len()) * batch.limit == (out.len() - more.len())
                    * batch.limit + batch.limit) by (nonlinear_arith)
                    requires
                        more.len() == groups.len() + 1,
                ;
            },
            None => {
                assert(flattened(more) + next.pending + records.skip(1) =~= flattened(groups)
                    + batch.pending + records);
            },
        }
    }
}

/// An empty batch with the given limit.
pub open spec fn empty_batch(limit: nat) -> BatchView {
    BatchView { pending: Seq::empty(), limit }
}

/// From an empty batch, `n` records give `n / limit` full row groups and
/// leave `n % limit` records waiting.
pub proof fn law_row_group_count(limit: nat, records: Seq<CleanPageView>)
    requires
        limit > 0,
    ensures
        ({
            let (end, out) = batched(empty_batch(limit), Seq::empty(), records);
            &&& out.len() == records.len() / limit
            &&& end.pending.len() == records.len() % limit
            &&& forall|i: int| 0 <= i < out.len() ==> (#[trigger] out[i]).len() == limit
            &&& flattened(out) + end.pending == records
        }),
{
    let (end, out) = batched(empty_batch(limit), Seq::empty(), records);
    law_batching_keeps_every_record(empty_batch(limit), Seq::empty(), records);
    assert(flattened(Seq::<Seq<CleanPageView>>::empty()) + empty_batch(limit).pending + records
        =~= records);
    vstd::arithmetic::div_mod::lemma_fundamental_div_mod_converse(
        records.len() as int,
        limit as int,
        out.len() as int,
        end.pending.len() as int,
    );
}

/// A run of exactly `limit` records gives one full row group and leaves
/// nothing; a run of `limit + k` records, with `k` under the limit, gives
/// the same full row group and leaves the last `k` records, which the end
/// of the run hands out as one shorter row group.
pub proof fn law_batch_boundary(limit: nat, records: Seq<CleanPageView>, k: nat)
    requires
        limit > 0,
        k < limit,
        records.len() == limit + k,
    ensures
        ({
            let (end, out) = batched(empty_batch(limit), Seq::empty(), records);
            &&& out == seq![records.take(limit as int)]
            &&& end.pending == records.skip(limit as int)
            &&& k == 0 ==> end.finished() is None
            &&& k > 0 ==> end.finished() == Some(records.skip(limit as int))
        }),
{
    let (end, out) = batched(empty_batch(limit), Seq::empty(), records);
    law_row_group_count(limit, records);
    vstd::arithmetic::div_mod::lemma_fundamental_div_mod_converse(
        records.len() as int,
        limit as int,
        1,
        k as int,
    );
    assert(out.len() == 1);
    assert(out.drop_last() =~= Seq::<Seq<CleanPageView>>::empty());
    assert(flattened(out) =~= out[0]);
    assert(out[0] =~= records.take(limit as int)) by {
        assert((out[0] + end.pending).take(limit as int) =~= out[0]);
    }
    assert(end.pending =~= records.skip(limit as int)) by {
        assert((out[0] + end.pending).skip(limit as int) =~= end.pending);
    }
    assert(out =~= seq![records.take(limit as int)]);
}

} // verus!
