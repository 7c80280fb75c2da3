//! The scanner: from the markup tokens of a dump to the pages worth rendering.
//!
//! The scanner is fed one token at a time and keeps no more than where it
//! stands: which elements are open, what it has learnt of the current page,
//! and its counts. A page is an article until a redirect marker or a
//! namespace other than `0` shows otherwise, wherever in the page that
//! stands. A page is handed out where it ends, if it is still an article
//! then and both identifiers, the time, the title and the body are its own
//! and known.

use crate::markup::{markup_tokens, read_tokens, token_views, unescape, unescaped, Token, TokenView};
use crate::page::{RawPage, RawPageView};
use crate::text::{contains, decimal_i64, occurs_in, parse_i64, same_bytes, same_text};
use vstd::prelude::*;
use vstd::string::StringSliceAdditionalSpecFns;

verus! {

/// Why a scan was given up.
#[derive(Debug, Clone, Copy, PartialEq, Eq, Structural)]
pub enum ScanError {
    /// The dump is not well formed.
    Markup,
    /// Character data of the dump cannot be decoded.
    Text,
    /// The time of a revision cannot be read.
    Timestamp,
}

/// The format of a revision's time: ISO 8601 with date, time and offset.
pub const TIMESTAMP_FORMAT: &'static str = "%+";

/// The number of regional variants that the scanner counts.
pub const VARIANTS: usize = 8;

/// The milliseconds since 1970 of the date and time that `chrono` reads from
/// `text` under `format`, leaving an offset aside. `None` where `text` does
/// not fit `format`.
pub uninterp spec fn datetime_millis(text: Seq<char>, format: Seq<char>) -> Option<i64>;

/// `chrono::NaiveDateTime::parse_from_str`, then the milliseconds of the
/// result taken as UTC, or `None` where the text is refused.
#[verifier::external_body]
pub(crate) fn parse_datetime_millis(text: &str, format: &str) -> (out: Option<i64>)
    ensures
        out == datetime_millis(text@, format@),
{
    chrono::NaiveDateTime::parse_from_str(text, format).ok().map(
        |t| t.and_utc().timestamp_millis(),
    )
}

/// The tag of the variant at `index`.
pub open spec fn tag_of(index: int) -> Seq<char> {
    if index == 0 {
        "zh-hans"@
    } else if index == 1 {
        "zh-hant"@
    } else if index == 2 {
        "zh-cn"@
    } else if index == 3 {
        "zh-hk"@
    } else if index == 4 {
        "zh-mo"@
    } else if index == 5 {
        "zh-my"@
    } else if index == 6 {
        "zh-sg"@
    } else {
        "zh-tw"@
    }
}

/// The tag of the variant at `index` followed by a colon, which is how a
/// body refers to the variant.
pub open spec fn marker_of(index: int) -> Seq<char> {
    if index == 0 {
        "zh-hans:"@
    } else if index == 1 {
        "zh-hant:"@
    } else if index == 2 {
        "zh-cn:"@
    } else if index == 3 {
        "zh-hk:"@
    } else if index == 4 {
        "zh-mo:"@
    } else if index == 5 {
        "zh-my:"@
    } else if index == 6 {
        "zh-sg:"@
    } else {
        "zh-tw:"@
    }
}

/// The tag of the variant at `index`.
pub fn variant_tag(index: usize) -> (tag: &'static str)
    ensures
        tag@ == tag_of(index as int),
{
    if index == 0 {
        "zh-hans"
    } else if index == 1 {
        "zh-hant"
    } else if index == 2 {
        "zh-cn"
    } else if index == 3 {
        "zh-hk"
    } else if index == 4 {
        "zh-mo"
    } else if index == 5 {
        "zh-my"
    } else if index == 6 {
        "zh-sg"
    } else {
        "zh-tw"
    }
}

/// The tag of the variant at `index` followed by a colon.
pub fn variant_marker(index: usize) -> (marker: &'static str)
    ensures
        marker@ == marker_of(index as int),
{
    if index == 0 {
        "zh-hans:"
    } else if index == 1 {
        "zh-hant:"
    } else if index == 2 {
        "zh-cn:"
    } else if index == 3 {
        "zh-hk:"
    } else if index == 4 {
        "zh-mo:"
    } else if index == 5 {
        "zh-my:"
    } else if index == 6 {
        "zh-sg:"
    } else {
        "zh-tw:"
    }
}

/// The counts after one more body: each variant whose marker stands in the
/// body counts one more.
pub open spec fn counted(counts: Seq<nat>, body: Seq<char>) -> Seq<nat> {
    Seq::new(
        VARIANTS as nat,
        |i: int|
            if occurs_in(body, marker_of(i)) {
                counts[i] + 1
            } else {
                counts[i]
            },
    )
}

/// For each regional variant, the number of bodies that refer to it.
#[derive(Debug, Clone, Copy)]
pub struct VariantCounters {
    pub counts: [u64; 8],
}

impl View for VariantCounters {
    type V = Seq<nat>;

    open spec fn view(&self) -> Seq<nat> {
        self.counts@.map_values(|c: u64| c as nat)
    }
}

impl VariantCounters {
    /// Counters at zero.
    pub fn new() -> (counters: VariantCounters)
        ensures
            counters@ == Seq::new(VARIANTS as nat, |i: int| 0nat),
            forall|i: int| 0 <= i < VARIANTS ==> #[trigger] counters.counts[i] == 0,
    {
        let counters = VariantCounters { counts: [0;8] };
        assert(counters@ =~= Seq::new(VARIANTS as nat, |i: int| 0nat));
        counters
    }

    /// Whether every counter can count one more.
    pub open spec fn has_room(self) -> bool {
        forall|i: int| 0 <= i < VARIANTS ==> #[trigger] self.counts[i] < u64::MAX
    }

    /// Counts the variants that `body` refers to.
    pub fn observe(&mut self, body: &str)
        requires
            old(self).has_room(),
        ensures
            final(self)@ == counted(old(self)@, body@),
            forall|i: int|
                0 <= i < VARIANTS ==> (#[trigger] final(self).counts[i]) <= old(self).counts[i]
                    + 1,
    {
        let mut i: usize = 0;
        while i < VARIANTS
            invariant
                i <= VARIANTS,
                old(self).has_room(),
                forall|j: int|
                    0 <= j < VARIANTS ==> (#[trigger] self.counts[j]) <= old(self).counts[j] + 1,
                forall|j: int| 0 <= j < i ==> (#[trigger] self.counts[j]) as nat == counted(old(self)@, body@)[j],
                forall|j: int| i <= j < VARIANTS ==> #[trigger] self.counts[j] == old(self).counts[j],
            decreases VARIANTS - i,
        {
            if contains(body, variant_marker(i)) {
                let c = self.counts[i];
                self.counts[i] = c + 1;
            }
            i += 1;
        }
        assert(self@ =~= counted(old(self)@, body@));
    }

    /// The count of the variant at `index`.
    pub fn count(&self, index: usize) -> (n: u64)
        requires
            index < VARIANTS,
        ensures
            n == self@[index as int],
    {
        self.counts[index]
    }
}


/// Where a scan stands, as mathematical data.
pub struct ScanState {
    pub inside_page: bool,
    pub inside_ns: bool,
    pub inside_id: bool,
    pub inside_revision: bool,
    pub inside_title: bool,
    pub inside_text: bool,
    pub inside_timestamp: bool,
    /// Whether the current page still counts as an article.
    pub is_article: bool,
    /// The number of pages that were articles when they ended.
    pub article_count: nat,
    pub page_id: Option<i64>,
    pub revision_id: Option<i64>,
    pub timestamp: Option<i64>,
    pub title: Option<Seq<char>>,
    pub body: Option<Seq<char>>,
    pub variants: Seq<nat>,
}

/// The scan before the first token.
pub open spec fn scan_start() -> ScanState {
    ScanState {
        inside_page: false,
        inside_ns: false,
        inside_id: false,
        inside_revision: false,
        inside_title: false,
        inside_text: false,
        inside_timestamp: false,
        is_article: false,
        article_count: 0,
        page_id: None,
        revision_id: None,
        timestamp: None,
        title: None,
        body: None,
        variants: Seq::new(VARIANTS as nat, |i: int| 0nat),
    }
}

/// The scan with nothing known of a page.
pub open spec fn forgotten(s: ScanState) -> ScanState {
    ScanState { page_id: None, revision_id: None, timestamp: None, title: None, body: None, ..s }
}

/// The scan after an opening tag. A page begins as an article of which
/// nothing is known yet. A redirect marker ends its standing as an article.
/// A revision begins with its identifier and its time unknown, a body with
/// nothing of it known.
pub open spec fn opened(s: ScanState, name: Seq<u8>) -> ScanState {
    if name == "page".spec_bytes() {
        ScanState { inside_page: true, is_article: true, ..forgotten(s) }
    } else if name == "redirect".spec_bytes() {
        ScanState { is_article: false, ..s }
    } else if name == "ns".spec_bytes() {
        ScanState { inside_ns: true, ..s }
    } else if name == "text".spec_bytes() {
        ScanState { inside_text: true, body: None, ..s }
    } else if name == "id".spec_bytes() {
        ScanState { inside_id: true, ..s }
    } else if name == "revision".spec_bytes() {
        ScanState { inside_revision: true, revision_id: None, timestamp: None, ..s }
    } else if name == "title".spec_bytes() {
        ScanState { inside_title: true, ..s }
    } else if name == "timestamp".spec_bytes() {
        ScanState { inside_timestamp: true, ..s }
    } else {
        s
    }
}

/// The page that the scan has put together, if all of it is known.
pub open spec fn completed(s: ScanState) -> Option<RawPageView> {
    if s.page_id is Some && s.revision_id is Some && s.timestamp is Some && s.title is Some
        && s.body is Some {
        Some(
            RawPageView {
                page_id: s.page_id->0,
                revision_id: s.revision_id->0,
                timestamp: s.timestamp->0,
                title: s.title->0,
                body: s.body->0,
            },
        )
    } else {
        None
    }
}

/// The scan after a closing tag, and the page handed out, if any. The end
/// of a page that is still an article counts it, and hands it out if all of
/// it is known. After the end of a page nothing is known of a page.
pub open spec fn closed(s: ScanState, name: Seq<u8>) -> (ScanState, Option<RawPageView>) {
    if name == "page".spec_bytes() {
        (
            ScanState {
                inside_page: false,
                article_count: if s.is_article {
                    s.article_count + 1
                } else {
                    s.article_count
                },
                ..forgotten(s)
            },
            if s.is_article {
                completed(s)
            } else {
                None
            },
        )
    } else if name == "text".spec_bytes() {
        (ScanState { inside_text: false, ..s }, None)
    } else if name == "ns".spec_bytes() {
        (ScanState { inside_ns: false, ..s }, None)
    } else if name == "id".spec_bytes() {
        (ScanState { inside_id: false, ..s }, None)
    } else if name == "revision".spec_bytes() {
        (ScanState { inside_revision: false, ..s }, None)
    } else if name == "timestamp".spec_bytes() {
        (ScanState { inside_timestamp: false, ..s }, None)
    } else if name == "title".spec_bytes() {
        (ScanState { inside_title: false, ..s }, None)
    } else {
        (s, None)
    }
}

/// The scan after an element without content. A redirect marker ends the
/// page's standing as an article.
pub open spec fn marked(s: ScanState, name: Seq<u8>) -> ScanState {
    if name == "redirect".spec_bytes() {
        ScanState { is_article: false, ..s }
    } else {
        s
    }
}

/// What is known of a body after more of its text was read.
pub open spec fn extended(body: Option<Seq<char>>, text: Seq<char>) -> Seq<char> {
    match body {
        Some(known) => known + text,
        None => text,
    }
}

/// The scan after the time of a revision was read, or the error of a time
/// that cannot be read.
pub open spec fn timed(s: ScanState, millis: Option<i64>) -> Result<ScanState, ScanError> {
    match millis {
        None => Err(ScanError::Timestamp),
        Some(m) => Ok(ScanState { timestamp: Some(m), ..s }),
    }
}

/// Whether character data is read at all where the scan stands: inside a
/// page, and inside a namespace, an identifier, the time of a revision, a
/// title or a body.
pub open spec fn reads_text(s: ScanState) -> bool {
    s.inside_page && (s.inside_ns || s.inside_id || (s.inside_revision && s.inside_timestamp)
        || s.inside_title || s.inside_text)
}

/// The scan after character data that reads `text`: unchanged where no
/// character data is read, else the text is taken for a namespace, an
/// identifier, the time of a revision, a title, or the body of the page,
/// whichever comes first in this order. The first identifier read inside a
/// revision is the revision's, the first read outside one is the page's;
/// identifiers that follow, such as a contributor's, and text that is no
/// number are passed over. A namespace other than `0` ends the
/// page's standing as an article. Text of a body counts for the variants it
/// names, whether the page is an article or not, and is added to what is
/// known of the body.
pub open spec fn noted(s: ScanState, text: Seq<char>) -> Result<ScanState, ScanError> {
    if !reads_text(s) {
        Ok(s)
    } else if s.inside_ns {
        Ok(ScanState { is_article: s.is_article && text == "0"@, ..s })
    } else if s.inside_id {
        match decimal_i64(text) {
            None => Ok(s),
            Some(id) => if s.inside_revision {
                if s.revision_id is None {
                    Ok(ScanState { revision_id: Some(id), ..s })
                } else {
                    Ok(s)
                }
            } else if s.page_id is None {
                Ok(ScanState { page_id: Some(id), ..s })
            } else {
                Ok(s)
            },
        }
    } else if s.inside_revision && s.inside_timestamp {
        timed(s, datetime_millis(text, TIMESTAMP_FORMAT@))
    } else if s.inside_title {
        Ok(ScanState { title: Some(text), ..s })
    } else {
        Ok(ScanState { variants: counted(s.variants, text), body: Some(extended(s.body, text)), ..s })
    }
}

/// The scan after one more token, and the page handed out, if any.
pub open spec fn scan_step(s: ScanState, token: TokenView) -> Result<
    (ScanState, Option<RawPageView>),
    ScanError,
> {
    match token {
        TokenView::Open(name, _) => Ok((opened(s, name), None)),
        TokenView::Empty(name) => Ok((marked(s, name), None)),
        TokenView::Close(name) => Ok(closed(s, name)),
        TokenView::Text(raw) => if reads_text(s) {
            match unescaped(raw) {
                None => Err(ScanError::Text),
                Some(text) => match noted(s, text) {
                    Ok(next) => Ok((next, None)),
                    Err(e) => Err(e),
                },
            }
        } else {
            Ok((s, None))
        },
        TokenView::Other => Ok((s, None)),
        TokenView::Malformed => Err(ScanError::Markup),
    }
}

/// The characters of a text that may be missing.
pub open spec fn text_view(text: Option<String>) -> Option<Seq<char>> {
    match text {
        Some(t) => Some(t@),
        None => None,
    }
}

/// The scanner.
#[derive(Debug)]
pub struct Scanner {
    pub inside_page: bool,
    pub inside_ns: bool,
    pub inside_id: bool,
    pub inside_revision: bool,
    pub inside_title: bool,
    pub inside_text: bool,
    pub inside_timestamp: bool,
    pub is_article: bool,
    pub article_count: u64,
    pub page_id: Option<i64>,
    pub revision_id: Option<i64>,
    pub timestamp: Option<i64>,
    pub title: Option<String>,
    pub body: Option<String>,
    pub variants: VariantCounters,
}

impl View for Scanner {
    type V = ScanState;

    open spec fn view(&self) -> ScanState {
        ScanState {
            inside_page: self.inside_page,
            inside_ns: self.inside_ns,
            inside_id: self.inside_id,
            inside_revision: self.inside_revision,
            inside_title: self.inside_title,
            inside_text: self.inside_text,
            inside_timestamp: self.inside_timestamp,
            is_article: self.is_article,
            article_count: self.article_count as nat,
            page_id: self.page_id,
            revision_id: self.revision_id,
            timestamp: self.timestamp,
            title: text_view(self.title),
            body: text_view(self.body),
            variants: self.variants@,
        }
    }
}

/// The view of what a step hands out.
pub open spec fn handed_out(page: Option<RawPage>) -> Option<RawPageView> {
    match page {
        Some(p) => Some(p@),
        None => None,
    }
}

impl Scanner {
    /// A scanner before the first token.
    pub fn new() -> (scanner: Scanner)
        ensures
            scanner@ == scan_start(),
            scanner.has_room(),
            forall|i: int| 0 <= i < VARIANTS ==> #[trigger] scanner.variants.counts[i] == 0,
    {
        Scanner {
            inside_page: false,
            inside_ns: false,
            inside_id: false,
            inside_revision: false,
            inside_title: false,
            inside_text: false,
            inside_timestamp: false,
            is_article: false,
            article_count: 0,
            page_id: None,
            revision_id: None,
            timestamp: None,
            title: None,
            body: None,
            variants: VariantCounters::new(),
        }
    }

    /// Whether the counts can take one more token.
    pub open spec fn has_room(self) -> bool {
        self.article_count < u64::MAX && self.variants.has_room()
    }

    /// Passes an opening tag.
    pub fn open(&mut self, name: &[u8])
        ensures
            final(self)@ == opened(old(self)@, name@),
            final(self).article_count == old(self).article_count,
            final(self).variants == old(self).variants,
    {
        if same_bytes(name, "page".as_bytes()) {
            self.inside_page = true;
            self.is_article = true;
            self.page_id = None;
            self.revision_id = None;
            self.timestamp = None;
            self.title = None;
            self.body = None;
        } else if same_bytes(name, "redirect".as_bytes()) {
            self.is_article = false;
        } else if same_bytes(name, "ns".as_bytes()) {
            self.inside_ns = true;
        } else if same_bytes(name, "text".as_bytes()) {
            self.inside_text = true;
            self.body = None;
        } else if same_bytes(name, "id".as_bytes()) {
            self.inside_id = true;
        } else if same_bytes(name, "revision".as_bytes()) {
            self.inside_revision = true;
            self.revision_id = None;
            self.timestamp = None;
        } else if same_bytes(name, "title".as_bytes()) {
            self.inside_title = true;
        } else if same_bytes(name, "timestamp".as_bytes()) {
            self.inside_timestamp = true;
        }
    }

    /// Passes a closing tag, and hands out the page that it completes.
    pub fn close(&mut self, name: &[u8]) -> (page: Option<RawPage>)
        requires
            old(self).article_count < u64::MAX,
        ensures
            final(self)@ == closed(old(self)@, name@).0,
            handed_out(page) == closed(old(self)@, name@).1,
            final(self).article_count <= old(self).article_count + 1,
            final(self).variants == old(self).variants,
    {
        if same_bytes(name, "page".as_bytes()) {
            self.inside_page = false;
            if self.is_article {
                self.article_count = self.article_count + 1;
            }
            let page_id = self.page_id;
            let revision_id = self.revision_id;
            let timestamp = self.timestamp;
            let title = self.title.take();
            let body = self.body.take();
            self.page_id = None;
            self.revision_id = None;
            self.timestamp = None;
            if !self.is_article {
                return None;
            }
            match (page_id, revision_id, timestamp, title, body) {
                (Some(page_id), Some(revision_id), Some(timestamp), Some(title), Some(body)) => {
                    Some(RawPage { page_id, revision_id, timestamp, title, body })
                },
                _ => None,
            }
        } else {
            if same_bytes(name, "text".as_bytes()) {
                self.inside_text = false;
            } else if same_bytes(name, "ns".as_bytes()) {
                self.inside_ns = false;
            } else if same_bytes(name, "id".as_bytes()) {
                self.inside_id = false;
            } else if same_bytes(name, "revision".as_bytes()) {
                self.inside_revision = false;
            } else if same_bytes(name, "timestamp".as_bytes()) {
                self.inside_timestamp = false;
            } else if same_bytes(name, "title".as_bytes()) {
                self.inside_title = false;
            }
            None
        }
    }

    /// Passes an element without content.
    pub fn mark(&mut self, name: &[u8])
        ensures
            final(self)@ == marked(old(self)@, name@),
            final(self).article_count == old(self).article_count,
            final(self).variants == old(self).variants,
    {
        if same_bytes(name, "redirect".as_bytes()) {
            self.is_article = false;
        }
    }

    /// Takes the time of a revision as it was read, in milliseconds, or
    /// gives up on a time that could not be read.
    pub fn note_time(&mut self, millis: Option<i64>) -> (out: Result<(), ScanError>)
        ensures
            match timed(old(self)@, millis) {
                Ok(next) => out is Ok && final(self)@ == next,
                Err(e) => out == Err::<(), ScanError>(e) && *final(self) == *old(self),
            },
            final(self).article_count == old(self).article_count,
            final(self).variants == old(self).variants,
    {
        match millis {
            None => Err(ScanError::Timestamp),
            Some(m) => {
                self.timestamp = Some(m);
                Ok(())
            },
        }
    }

    /// Takes character data that reads `text`.
    pub fn note(&mut self, text: String) -> (out: Result<(), ScanError>)
        requires
            old(self).variants.has_room(),
        ensures
            match noted(old(self)@, text@) {
                Ok(next) => out is Ok && final(self)@ == next,
                Err(e) => out == Err::<(), ScanError>(e) && *final(self) == *old(self),
            },
            final(self).article_count == old(self).article_count,
            forall|i: int|
                0 <= i < VARIANTS ==> (#[trigger] final(self).variants.counts[i]) <= old(
                    self,
                ).variants.counts[i] + 1,
    {
        if !(self.inside_page && (self.inside_ns || self.inside_id || (self.inside_revision
            && self.inside_timestamp) || self.inside_title || self.inside_text)) {
            Ok(())
        } else if self.inside_ns {
            if !same_text(text.as_str(), "0") {
                self.is_article = false;
            }
            Ok(())
        } else if self.inside_id {
            match parse_i64(text.as_str()) {
                None => {},
                Some(id) => {
                    if self.inside_revision {
                        if self.revision_id.is_none() {
                            self.revision_id = Some(id);
                        }
                    } else if self.page_id.is_none() {
                        self.page_id = Some(id);
                    }
                },
            }
            Ok(())
        } else if self.inside_revision && self.inside_timestamp {
            self.note_time(parse_datetime_millis(text.as_str(), TIMESTAMP_FORMAT))
        } else if self.inside_title {
            self.title = Some(text);
            Ok(())
        } else {
            self.variants.observe(text.as_str());
            let body = match self.body.take() {
                Some(known) => known.concat(text.as_str()),
                None => text,
            };
            self.body = Some(body);
            Ok(())
        }
    }

    /// Takes one more token. Hands out a page where the page ends, if it is
    /// still an article and all of it is known. On an error the scanner
    /// stays as it was.
    pub fn feed(&mut self, token: &Token) -> (out: Result<Option<RawPage>, ScanError>)
        requires
            old(self).has_room(),
        ensures
            match scan_step(old(self)@, token@) {
                Ok((next, page)) => out is Ok && final(self)@ == next && handed_out(out->Ok_0)
                    == page,
                Err(e) => out == Err::<Option<RawPage>, ScanError>(e) && *final(self) == *old(
                    self,
                ),
            },
            final(self).article_count <= old(self).article_count + 1,
            forall|i: int|
                0 <= i < VARIANTS ==> (#[trigger] final(self).variants.counts[i]) <= old(
                    self,
                ).variants.counts[i] + 1,
    {
        match token {
            Token::Open(name, _) => {
                self.open(name.as_slice());
                Ok(None)
            },
            Token::Empty(name) => {
                self.mark(name.as_slice());
                Ok(None)
            },
            Token::Close(name) => Ok(self.close(name.as_slice())),
            Token::Text(raw) => {
                if self.inside_page && (self.inside_ns || self.inside_id || (self.inside_revision
                    && self.inside_timestamp) || self.inside_title || self.inside_text) {
                    match unescape(raw.as_slice()) {
                        None => Err(ScanError::Text),
                        Some(text) => match self.note(text) {
                            Ok(()) => Ok(None),
                            Err(e) => Err(e),
                        },
                    }
                } else {
                    Ok(None)
                }
            },
            Token::Other => Ok(None),
            Token::Malformed => Err(ScanError::Markup),
        }
    }
}

/// The views of a run of raw pages.
pub open spec fn raw_page_views(pages: Seq<RawPage>) -> Seq<RawPageView> {
    pages.map_values(|p: RawPage| p@)
}

/// The scan after a run of tokens, and `pages` followed by the pages handed
/// out on the way, or the error on which the scan was given up.
pub open spec fn scan_run(s: ScanState, pages: Seq<RawPageView>, tokens: Seq<TokenView>) -> Result<
    (ScanState, Seq<RawPageView>),
    ScanError,
>
    decreases tokens.len(),
{
    if tokens.len() == 0 {
        Ok((s, pages))
    } else {
        match scan_step(s, tokens[0]) {
            Err(e) => Err(e),
            Ok((next, page)) => scan_run(
                next,
                match page {
                    Some(p) => pages.push(p),
                    None => pages,
                },
                tokens.skip(1),
            ),
        }
    }
}

/// What a whole scan brings: the pages handed out, in their order, the
/// number of articles seen, and the counts of the variants.
#[derive(Debug)]
pub struct ScanReport {
    pub pages: Vec<RawPage>,
    pub article_count: u64,
    pub variants: VariantCounters,
}

/// Scans a whole run of tokens from the start.
pub fn scan(tokens: &Vec<Token>) -> (out: Result<ScanReport, ScanError>)
    ensures
        match scan_run(scan_start(), Seq::empty(), token_views(tokens@)) {
            Ok((end, pages)) => out matches Ok(report) && raw_page_views(report.pages@) == pages
                && report.article_count == end.article_count && report.variants@ == end.variants,
            Err(e) => out == Err::<ScanReport, ScanError>(e),
        },
{
    let ghost views = token_views(tokens@);
    let mut scanner = Scanner::new();
    let mut pages: Vec<RawPage> = Vec::new();
    let mut i: usize = 0;
    assert(views.skip(0) =~= views);
    assert(raw_page_views(pages@) =~= Seq::<RawPageView>::empty());
    while i < tokens.len()
        invariant
            i <= tokens.len(),
            views == token_views(tokens@),
            scanner.article_count <= i,
            forall|j: int| 0 <= j < VARIANTS ==> (#[trigger] scanner.variants.counts[j]) <= i,
            scan_run(scanner@, raw_page_views(pages@), views.skip(i as int)) == scan_run(
                scan_start(),
                Seq::empty(),
                views,
            ),
        decreases tokens.len() - i,
    {
        assert(views.skip(i as int)[0] == tokens@[i as int]@);
        assert(views.skip(i as int).skip(1) =~= views.skip(i + 1));
        match scanner.feed(&tokens[i])? {
            Some(page) => {
                assert(raw_page_views(pages@.push(page)) =~= raw_page_views(pages@).push(page@));
                pages.push(page);
            },
            None => {},
        }
        i += 1;
    }
    Ok(ScanReport { pages, article_count: scanner.article_count, variants: scanner.variants })
}

/// Scans a dump held in memory: its tokens are read as they stand, white
/// space included, and scanned from the start.
pub fn scan_document(dump: &str) -> (out: Result<ScanReport, ScanError>)
    ensures
        match scan_run(scan_start(), Seq::empty(), markup_tokens(dump@, false)) {
            Ok((end, pages)) => out matches Ok(report) && raw_page_views(report.pages@) == pages
                && report.article_count == end.article_count && report.variants@ == end.variants,
            Err(e) => out == Err::<ScanReport, ScanError>(e),
        },
{
    let tokens = read_tokens(dump, false);
    scan(&tokens)
}

/// Whether a token opens a page.
pub open spec fn opens_page(token: TokenView) -> bool {
    token matches TokenView::Open(name, _) && name == "page".spec_bytes()
}

/// Whether a token closes a page.
pub open spec fn closes_page(token: TokenView) -> bool {
    token matches TokenView::Close(name) && name == "page".spec_bytes()
}

/// Tests whether a token opens a page.
pub fn is_page_start(token: &Token) -> (b: bool)
    ensures
        b == opens_page(token@),
{
    match token {
        Token::Open(name, _) => same_bytes(name.as_slice(), "page".as_bytes()),
        _ => false,
    }
}

/// The count of pages after one more token: one more where the token opens
/// a page, and no count where the token is malformed.
pub open spec fn page_counted(count: nat, token: TokenView) -> Result<nat, ScanError> {
    if token is Malformed {
        Err(ScanError::Markup)
    } else if opens_page(token) {
        Ok(count + 1)
    } else {
        Ok(count)
    }
}

/// `count` and the number of tokens of the run that open a page, or the
/// error of a run that is not well formed.
pub open spec fn pages_counted(count: nat, tokens: Seq<TokenView>) -> Result<nat, ScanError>
    decreases tokens.len(),
{
    if tokens.len() == 0 {
        Ok(count)
    } else {
        match page_counted(count, tokens[0]) {
            Err(e) => Err(e),
            Ok(next) => pages_counted(next, tokens.skip(1)),
        }
    }
}

/// Counts one more token towards the pages of a dump.
pub fn count_step(count: usize, token: &Token) -> (out: Result<usize, ScanError>)
    requires
        count < usize::MAX,
    ensures
        match page_counted(count as nat, token@) {
            Ok(n) => out == Ok::<usize, ScanError>(n as usize) && n <= count + 1,
            Err(e) => out == Err::<usize, ScanError>(e),
        },
{
    match token {
        Token::Malformed => Err(ScanError::Markup),
        _ => if is_page_start(token) {
            Ok(count + 1)
        } else {
            Ok(count)
        },
    }
}

/// Counts the pages of a dump, eligible or not.
pub fn count_pages(tokens: &Vec<Token>) -> (out: Result<usize, ScanError>)
    ensures
        match pages_counted(0, token_views(tokens@)) {
            Ok(n) => out == Ok::<usize, ScanError>(n as usize) && n <= tokens.len(),
            Err(e) => out == Err::<usize, ScanError>(e),
        },
{
    let ghost views = token_views(tokens@);
    let mut count: usize = 0;
    let mut i: usize = 0;
    assert(views.skip(0) =~= views);
    while i < tokens.len()
        invariant
            i <= tokens.len(),
            count <= i,
            views == token_views(tokens@),
            pages_counted(count as nat, views.skip(i as int)) == pages_counted(0, views),
        decreases tokens.len() - i,
    {
        assert(views.skip(i as int)[0] == tokens@[i as int]@);
        assert(views.skip(i as int).skip(1) =~= views.skip(i + 1));
        count = count_step(count, &tokens[i])?;
        i += 1;
    }
    Ok(count)
}

/// Whether a token is a redirect marker, with or without content.
pub open spec fn is_redirect_marker(token: TokenView) -> bool {
    match token {
        TokenView::Empty(name) => name == "redirect".spec_bytes(),
        TokenView::Open(name, _) => name == "redirect".spec_bytes(),
        _ => false,
    }
}

/// Whether two tokens that follow each other give a namespace other than
/// `0`: the opening of a namespace, then text that does not read `0`.
pub open spec fn names_other_namespace(first: TokenView, second: TokenView) -> bool {
    &&& first matches TokenView::Open(name, _)
    &&& name == "ns".spec_bytes()
    &&& second matches TokenView::Text(raw)
    &&& unescaped(raw) matches Some(text)
    &&& text != "0"@
}

/// Whether no token of the run opens or closes a page.
pub open spec fn inside_one_page(tokens: Seq<TokenView>) -> bool {
    forall|i: int|
        0 <= i < tokens.len() ==> !opens_page(#[trigger] tokens[i]) && !closes_page(tokens[i])
}

/// A page is handed out only where it ends, only while it is an article,
/// and only with both identifiers, the time, the title and the body known.
pub proof fn law_only_articles_are_handed_out(s: ScanState, token: TokenView)
    requires
        scan_step(s, token) matches Ok((_, Some(_))),
    ensures
        closes_page(token),
        s.is_article,
        s.page_id is Some,
        s.revision_id is Some,
        s.timestamp is Some,
        s.title is Some,
        s.body is Some,
        scan_step(s, token)->Ok_0.1 == completed(s),
{
}

/// A page starts afresh: where a page opens, nothing is known of a page,
/// whatever an earlier page has left behind.
pub proof fn law_a_page_starts_afresh(s: ScanState, token: TokenView)
    requires
        opens_page(token),
    ensures
        scan_step(s, token) matches Ok((next, page)) && page is None && next.is_article
            && next.inside_page && next.page_id is None && next.revision_id is None
            && next.timestamp is None && next.title is None && next.body is None,
        scan_step(forgotten(s), token) == scan_step(s, token),
{
}

/// What a page brings owes nothing to the page before it: a run that
/// begins where a page opens gives the same from a scan that has forgotten
/// what it knew of a page.
pub proof fn law_a_page_owes_nothing_to_the_one_before(
    s: ScanState,
    pages: Seq<RawPageView>,
    start: TokenView,
    rest: Seq<TokenView>,
)
    requires
        opens_page(start),
    ensures
        scan_run(forgotten(s), pages, seq![start] + rest) == scan_run(s, pages, seq![start] + rest),
{
    law_a_page_starts_afresh(s, start);
    assert((seq![start] + rest)[0] == start);
}

/// Two runs of tokens scanned one after the other are the two scanned as
/// one.
pub proof fn lemma_scan_run_splits(
    s: ScanState,
    pages: Seq<RawPageView>,
    first: Seq<TokenView>,
    second: Seq<TokenView>,
)
    ensures
        scan_run(s, pages, first + second) == match scan_run(s, pages, first) {
            Err(e) => Err(e),
            Ok((middle, found)) => scan_run(middle, found, second),
        },
    decreases first.len(),
{
    if first.len() == 0 {
        assert(first + second =~= second);
    } else {
        let all = first + second;
        assert(all[0] == first[0]);
        assert(all.skip(1) =~= first.skip(1) + second);
        match scan_step(s, first[0]) {
            Err(_) => {},
            Ok((next, page)) => {
                let found = match page {
                    Some(p) => pages.push(p),
                    None => pages,
                };
                lemma_scan_run_splits(next, found, first.skip(1), second);
            },
        }
    }
}

/// A run of one token is one step.
pub proof fn lemma_scan_run_of_one(s: ScanState, pages: Seq<RawPageView>, token: TokenView)
    ensures
        scan_run(s, pages, seq![token]) == match scan_step(s, token) {
            Err(e) => Err(e),
            Ok((next, page)) => Ok(
                (
                    next,
                    match page {
                        Some(p) => pages.push(p),
                        None => pages,
                    },
                ),
            ),
        },
{
    assert(seq![token].skip(1) =~= Seq::<TokenView>::empty());
    assert(seq![token][0] == token);
    reveal_with_fuel(scan_run, 2);
}

/// Inside a page nothing is handed out, and the scan stays inside the page.
pub proof fn lemma_nothing_is_handed_out_inside_a_page(
    s: ScanState,
    pages: Seq<RawPageView>,
    tokens: Seq<TokenView>,
)
    requires
        inside_one_page(tokens),
    ensures
        scan_run(s, pages, tokens) matches Ok((end, out)) ==> out == pages && end.inside_page
            == s.inside_page && (!s.is_article ==> !end.is_article),
    decreases tokens.len(),
{
    if tokens.len() > 0 {
        assert(!opens_page(tokens[0]) && !closes_page(tokens[0]));
        match scan_step(s, tokens[0]) {
            Err(_) => {},
            Ok((next, page)) => {
                assert(page is None);
                assert(next.inside_page == s.inside_page);
                assert(!s.is_article ==> !next.is_article);
                assert forall|i: int| 0 <= i < tokens.skip(1).len() implies !opens_page(
                    #[trigger] tokens.skip(1)[i],
                ) && !closes_page(tokens.skip(1)[i]) by {
                    assert(tokens.skip(1)[i] == tokens[i + 1]);
                }
                lemma_nothing_is_handed_out_inside_a_page(next, pages, tokens.skip(1));
            },
        }
    }
}

/// A page that holds a redirect marker or a namespace other than `0` is
/// never handed out, wherever in the page the marker stands: before the
/// body, after it, or without any body. The page is the tokens from where
/// it opens to where it closes; the marker is the token at `k` among those
/// in between, alone if it is a redirect marker, with the token after it
/// if it is a namespace.
pub proof fn law_ineligible_page_is_never_handed_out(
    s: ScanState,
    pages: Seq<RawPageView>,
    start: TokenView,
    inner: Seq<TokenView>,
    end: TokenView,
    k: int,
)
    requires
        opens_page(start),
        closes_page(end),
        inside_one_page(inner),
        0 <= k < inner.len(),
        is_redirect_marker(inner[k]) || (k + 1 < inner.len() && names_other_namespace(
            inner[k],
            inner[k + 1],
        )),
    ensures
        scan_run(s, pages, seq![start] + inner + seq![end]) matches Ok((_, out)) ==> out == pages,
{
    let before = inner.take(k);
    let marker = seq![inner[k]];
    let after = inner.skip(k + 1);
    assert(inner =~= before + marker + after);
    assert(seq![start] + inner + seq![end] =~= seq![start] + (before + (marker + (after + seq![
        end,
    ]))));
    assert forall|i: int| 0 <= i < before.len() implies !opens_page(#[trigger] before[i])
        && !closes_page(before[i]) by {
        assert(before[i] == inner[i]);
    }
    assert forall|i: int| 0 <= i < after.len() implies !opens_page(#[trigger] after[i])
        && !closes_page(after[i]) by {
        assert(after[i] == inner[k + 1 + i]);
    }
    assert(!opens_page(inner[k]) && !closes_page(inner[k]));
    lemma_scan_run_splits(s, pages, seq![start], before + (marker + (after + seq![end])));
    lemma_scan_run_of_one(s, pages, start);
    let s1 = scan_step(s, start)->Ok_0.0;
    lemma_scan_run_splits(s1, pages, before, marker + (after + seq![end]));
    lemma_nothing_is_handed_out_inside_a_page(s1, pages, before);
    match scan_run(s1, pages, before) {
        Err(_) => {},
        Ok((s2, p2)) => {
            lemma_scan_run_splits(s2, pages, marker, after + seq![end]);
            lemma_scan_run_of_one(s2, pages, inner[k]);
            match scan_step(s2, inner[k]) {
                Err(_) => {},
                Ok((s3, p3)) => {
                    assert(p3 is None);
                    assert(s3.inside_page);
                    lemma_scan_run_splits(s3, pages, after, seq![end]);
                    lemma_nothing_is_handed_out_inside_a_page(s3, pages, after);
                    if is_redirect_marker(inner[k]) {
                        assert(!s3.is_article);
                    } else {
                        assert(s3.inside_ns);
                        assert(after.len() > 0 && after[0] == inner[k + 1]);
                        match scan_step(s3, after[0]) {
                            Err(_) => {},
                            Ok((s4, p4)) => {
                                assert(!s4.is_article && p4 is None);
                                assert forall|i: int| 0 <= i < after.skip(1).len() implies
                                    !opens_page(#[trigger] after.skip(1)[i]) && !closes_page(
                                    after.skip(1)[i],
                                ) by {
                                    assert(after.skip(1)[i] == after[i + 1]);
                                }
                                lemma_nothing_is_handed_out_inside_a_page(
                                    s4,
                                    pages,
                                    after.skip(1),
                                );
                            },
                        }
                    }
                    match scan_run(s3, pages, after) {
                        Err(_) => {},
                        Ok((s5, p5)) => {
                            assert(p5 == pages);
                            assert(!s5.is_article);
                            lemma_scan_run_of_one(s5, pages, end);
                        },
                    }
                },
            }
        },
    }
}

} // verus!
