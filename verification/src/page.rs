//! The records that travel through the pipeline.

use vstd::prelude::*;

verus! {

/// A page as the scanner found it in the dump: identifiers, the time of the
/// revision in milliseconds, and title and body as raw markup.
#[derive(Debug)]
pub struct RawPage {
    pub page_id: i64,
    pub revision_id: i64,
    pub timestamp: i64,
    pub title: String,
    pub body: String,
}

/// A raw page as mathematical data.
pub struct RawPageView {
    pub page_id: i64,
    pub revision_id: i64,
    pub timestamp: i64,
    pub title: Seq<char>,
    pub body: Seq<char>,
}

impl View for RawPage {
    type V = RawPageView;

    open spec fn view(&self) -> RawPageView {
        RawPageView {
            page_id: self.page_id,
            revision_id: self.revision_id,
            timestamp: self.timestamp,
            title: self.title@,
            body: self.body@,
        }
    }
}

/// A page after rendering and normalization: the same identifiers, with
/// title and content as plain text.
#[derive(Debug)]
pub struct CleanPage {
    pub page_id: i64,
    pub revision_id: i64,
    pub timestamp: i64,
    pub title: String,
    pub content: String,
}

/// A clean page as mathematical data.
pub struct CleanPageView {
    pub page_id: i64,
    pub revision_id: i64,
    pub timestamp: i64,
    pub title: Seq<char>,
    pub content: Seq<char>,
}

impl View for CleanPage {
    type V = CleanPageView;

    open spec fn view(&self) -> CleanPageView {
        CleanPageView {
            page_id: self.page_id,
            revision_id: self.revision_id,
            timestamp: self.timestamp,
            title: self.title@,
            content: self.content@,
        }
    }
}

impl CleanPageView {
    /// A clean page always has content.
    pub open spec fn has_content(self) -> bool {
        self.content.len() > 0
    }
}

/// The views of a run of clean pages.
pub open spec fn page_views(pages: Seq<CleanPage>) -> Seq<CleanPageView> {
    pages.map_values(|p: CleanPage| p@)
}

/// Whether every page of the run has content.
pub open spec fn all_have_content(pages: Seq<CleanPageView>) -> bool {
    forall|i: int| 0 <= i < pages.len() ==> (#[trigger] pages[i]).has_content()
}

impl CleanPage {
    /// Makes a clean page, unless there is no content to make it of.
    pub fn new(page_id: i64, revision_id: i64, timestamp: i64, title: String, content: String) -> (page:
        Option<CleanPage>)
        ensures
            page is Some <==> content@.len() > 0,
            page matches Some(p) ==> p@ == (CleanPageView {
                page_id,
                revision_id,
                timestamp,
                title: title@,
                content: content@,
            }),
    {
        if content.as_str().is_empty() {
            None
        } else {
            Some(CleanPage { page_id, revision_id, timestamp, title, content })
        }
    }

    /// A copy of the page.
    pub fn duplicate(&self) -> (page: CleanPage)
        ensures
            page@ == self@,
    {
        CleanPage {
            page_id: self.page_id,
            revision_id: self.revision_id,
            timestamp: self.timestamp,
            title: self.title.clone(),
            content: self.content.clone(),
        }
    }
}

} // verus!
