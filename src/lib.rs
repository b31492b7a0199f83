//! Feed pagination and feed resolution for a blogging site: a query-string
//! codec for page parameters, toggle relations for favorites and follows,
//! and the selection of article pages for each kind of feed and for search.

pub mod editor;
pub mod error;
pub mod feed;
pub mod pagination;
pub mod relation;
pub mod search;
pub mod text;
