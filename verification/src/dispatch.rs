//! The dispatcher: which worker takes a page, and what a worker does with it.
//!
//! Pages go to the workers in turn. A worker renders the title of its page,
//! then the body, and normalizes each. A page whose rendering fails, or
//! whose title or content comes out empty, is dropped; the others are ready
//! for the batch.

use crate::normalize::{html_to_text, normalized};
use crate::page::{CleanPage, CleanPageView, RawPage, RawPageView};
use vstd::prelude::*;

verus! {

/// The number of workers of a run.
pub const WORKERS: usize = 20;

/// The lanes of the workers, and the lane that takes the next page.
#[derive(Debug, Clone, Copy, PartialEq, Eq, Structural)]
pub struct Lanes {
    pub workers: usize,
    pub next: usize,
}

/// The lane that takes the next page after `pages` pages were handed out in
/// turn, the first of them to lane `start`.
pub open spec fn lane_after(pages: nat, start: nat, workers: nat) -> nat
    decreases pages,
{
    if pages == 0 {
        start
    } else {
        (lane_after((pages - 1) as nat, start, workers) + 1) % workers
    }
}

impl Lanes {
    /// There is a worker, and the next lane is one of the lanes.
    pub open spec fn wf(self) -> bool {
        0 <= self.next < self.workers
    }

    /// Lanes for `workers` workers, the first page going to lane 0. There
    /// are no lanes without a worker.
    pub fn new(workers: usize) -> (lanes: Option<Lanes>)
        ensures
            lanes is Some <==> workers > 0,
            lanes matches Some(l) ==> l.wf() && l.workers == workers && l.next == 0,
    {
        if workers == 0 {
            None
        } else {
            Some(Lanes { workers, next: 0 })
        }
    }

    /// The lane of the next page. The lanes take their pages strictly in
    /// turn, whatever their load.
    pub fn assign(&mut self) -> (lane: usize)
        requires
            old(self).wf(),
        ensures
            lane == old(self).next,
            final(self).wf(),
            final(self).workers == old(self).workers,
            final(self).next == (old(self).next + 1) % (old(self).workers as int),
            final(self).next == lane_after(1, old(self).next as nat, old(self).workers as nat),
    {
        let lane = self.next;
        assert(lane_after(0, lane as nat, self.workers as nat) == lane);
        if lane + 1 == self.workers {
            self.next = 0;
        } else {
            self.next = lane + 1;
            assert(self.next == (lane + 1) % (self.workers as int)) by (nonlinear_arith)
                requires
                    0 <= lane + 1 < self.workers,
                    self.next == lane + 1,
            ;
        }
        lane
    }
}

/// Handed out in turn from lane 0, page number `k` goes to lane
/// `k % workers`.
pub proof fn law_round_robin(k: nat, workers: nat)
    requires
        workers > 0,
    ensures
        lane_after(k, 0, workers) == k % workers,
    decreases k,
{
    let w = workers as int;
    if k > 0 {
        law_round_robin((k - 1) as nat, workers);
        let before = (k - 1) % w;
        assert(lane_after(k, 0, workers) == (before + 1) % w);
        if workers == 1 {
            assert((before + 1) % w == 0 && k % workers == 0);
        } else {
            vstd::arithmetic::div_mod::lemma_small_mod(1, workers);
            vstd::arithmetic::div_mod::lemma_add_mod_noop(k - 1, 1, w);
            assert((before + 1) % w == (k - 1 + 1) % w);
        }
        assert((before + 1) % w == k % workers);
    } else {
        vstd::arithmetic::div_mod::lemma_small_mod(0, workers);
    }
}

/// What a worker is busy with.
#[derive(Debug)]
pub enum Worker {
    /// Nothing: it waits for a page.
    Idle,
    /// It waits for the rendered title of this page.
    Title(RawPage),
    /// It waits for the rendered body of this page, whose clean title it
    /// has.
    Body(RawPage, String),
}

/// What happens to a worker.
#[derive(Debug)]
pub enum Event {
    /// A page arrives on its lane.
    Page(RawPage),
    /// The render service has answered: with HTML, or not at all.
    Rendered(Option<String>),
}

/// What a worker does next.
#[derive(Debug)]
pub enum Action {
    /// Send this markup to the render service.
    Render(String),
    /// Append this page to the batch.
    Append(CleanPage),
    /// The page is dropped: take the next one.
    Drop,
    /// Nothing to do.
    Wait,
}

/// A worker's business as mathematical data.
pub enum WorkerView {
    Idle,
    Title(RawPageView),
    Body(RawPageView, Seq<char>),
}

/// An event as mathematical data.
pub enum EventView {
    Page(RawPageView),
    Rendered(Option<Seq<char>>),
}

/// An action as mathematical data.
pub enum ActionView {
    Render(Seq<char>),
    Append(CleanPageView),
    Drop,
    Wait,
}

impl View for Worker {
    type V = WorkerView;

    open spec fn view(&self) -> WorkerView {
        match *self {
            Worker::Idle => WorkerView::Idle,
            Worker::Title(page) => WorkerView::Title(page@),
            Worker::Body(page, title) => WorkerView::Body(page@, title@),
        }
    }
}

impl View for Event {
    type V = EventView;

    open spec fn view(&self) -> EventView {
        match *self {
            Event::Page(page) => EventView::Page(page@),
            Event::Rendered(Some(html)) => EventView::Rendered(Some(html@)),
            Event::Rendered(None) => EventView::Rendered(None),
        }
    }
}

impl View for Action {
    type V = ActionView;

    open spec fn view(&self) -> ActionView {
        match *self {
            Action::Render(markup) => ActionView::Render(markup@),
            Action::Append(page) => ActionView::Append(page@),
            Action::Drop => ActionView::Drop,
            Action::Wait => ActionView::Wait,
        }
    }
}

/// The text that normalization makes of an answer of the render service,
/// if there is an answer, it can be normalized, and something is left.
pub open spec fn usable_text(html: Option<Seq<char>>, filter: bool) -> Option<Seq<char>> {
    match html {
        None => None,
        Some(h) => match normalized(h, filter) {
            Ok(text) => if text.len() > 0 {
                Some(text)
            } else {
                None
            },
            Err(_) => None,
        },
    }
}

/// What a worker is busy with after an event, and what it does next.
///
/// A page that arrives is taken up, and its title goes to the render
/// service. The rendered title is normalized without the strict filter;
/// the rendered body with it, where `filter` asks for it. An answer that is
/// missing or yields no text drops the page.
pub open spec fn advanced(worker: WorkerView, event: EventView, filter: bool) -> (
    WorkerView,
    ActionView,
) {
    match event {
        EventView::Page(page) => (WorkerView::Title(page), ActionView::Render(page.title)),
        EventView::Rendered(html) => match worker {
            WorkerView::Idle => (WorkerView::Idle, ActionView::Wait),
            WorkerView::Title(page) => match usable_text(html, false) {
                Some(title) => (WorkerView::Body(page, title), ActionView::Render(page.body)),
                None => (WorkerView::Idle, ActionView::Drop),
            },
            WorkerView::Body(page, title) => match usable_text(html, filter) {
                Some(content) => (
                    WorkerView::Idle,
                    ActionView::Append(
                        CleanPageView {
                            page_id: page.page_id,
                            revision_id: page.revision_id,
                            timestamp: page.timestamp,
                            title,
                            content,
                        },
                    ),
                ),
                None => (WorkerView::Idle, ActionView::Drop),
            },
        },
    }
}

/// Normalizes an answer of the render service, if there is one.
pub fn usable(html: Option<String>, filter: bool) -> (out: Option<String>)
    ensures
        match usable_text(
            match html {
                Some(h) => Some(h@),
                None => None,
            },
            filter,
        ) {
            Some(text) => out matches Some(s) && s@ == text,
            None => out is None,
        },
{
    match html {
        None => None,
        Some(h) => match html_to_text(h.as_str(), filter) {
            Ok(text) => if text.as_str().is_empty() {
                None
            } else {
                Some(text)
            },
            Err(_) => None,
        },
    }
}

/// Takes a worker through one event.
pub fn advance(worker: Worker, event: Event, filter: bool) -> (out: (Worker, Action))
    ensures
        (out.0@, out.1@) == advanced(worker@, event@, filter),
        out.1 matches Action::Append(page) ==> page@.has_content(),
{
    match event {
        Event::Page(page) => {
            let title = page.title.clone();
            (Worker::Title(page), Action::Render(title))
        },
        Event::Rendered(html) => match worker {
            Worker::Idle => (Worker::Idle, Action::Wait),
            Worker::Title(page) => match usable(html, false) {
                Some(title) => {
                    let body = page.body.clone();
                    (Worker::Body(page, title), Action::Render(body))
                },
                None => (Worker::Idle, Action::Drop),
            },
            Worker::Body(page, title) => match usable(html, filter) {
                Some(content) => (
                    Worker::Idle,
                    Action::Append(
                        CleanPage {
                            page_id: page.page_id,
                            revision_id: page.revision_id,
                            timestamp: page.timestamp,
                            title,
                            content,
                        },
                    ),
                ),
                None => (Worker::Idle, Action::Drop),
            },
        },
    }
}

/// A page is appended only as the answer to a rendered body: it has the
/// identifiers and the time of the raw page, its content is what
/// normalization makes of the rendered body, and the content is not empty.
pub proof fn law_appended_page_is_the_normalized_body(
    worker: WorkerView,
    event: EventView,
    filter: bool,
)
    requires
        advanced(worker, event, filter).1 is Append,
    ensures
        ({
            let clean = advanced(worker, event, filter).1->Append_0;
            &&& clean.has_content()
            &&& worker matches WorkerView::Body(raw, title)
            &&& event matches EventView::Rendered(Some(html))
            &&& normalized(html, filter) == Ok::<Seq<char>, crate::normalize::NormalizeError>(
                clean.content,
            )
            &&& clean.page_id == raw.page_id
            &&& clean.revision_id == raw.revision_id
            &&& clean.timestamp == raw.timestamp
            &&& clean.title == title
            &&& advanced(worker, event, filter).0 is Idle
        }),
{
}

} // verus!
