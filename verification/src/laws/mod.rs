//! What holds of the library as a whole.

pub mod body;
pub mod directives;
pub mod fetch;
pub mod groups;
pub mod json;
pub mod layout;
pub mod page_url;
pub mod pattern;
pub mod robots;
pub mod search;
pub mod search_request;
pub mod text;
