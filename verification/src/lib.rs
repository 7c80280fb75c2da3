//! Turning an encyclopedia dump into a cleaned text corpus: the scanner that
//! picks article pages out of the dump's markup events, the dispatcher that
//! hands them to render workers, the normalizer that strips rendered HTML down
//! to plain text, and the batching and point-lookup rules of the columnar store.

pub mod batch;
pub mod dispatch;
pub mod markup;
pub mod normalize;
pub mod page;
pub mod pattern;
pub mod render;
pub mod scan;
pub mod storage;
pub mod text;
