//! Verified parts of a web crawler and of its search API.
//!
//! - [`robots`], [`pattern`], [`page_url`]: what a robots.txt file says, and whether it lets this
//!   crawler fetch a page.
//! - [`fetch`], [`body`]: fetching that file, with every decision made here and every byte moved by
//!   the caller.
//! - [`search_request`], [`search`], [`json`]: what goes into and comes out of `POST /v2/search`.
//! - [`laws`]: what holds of all of these together.

pub mod body;
pub mod error;
pub mod fetch;
pub mod json;
pub mod laws;
pub mod page_url;
pub mod pattern;
pub mod robots;
pub mod search;
pub mod search_request;
pub mod text;
