//! The part of a page's address that robots.txt rules are matched against.

use vstd::prelude::*;
use vstd::string::StringExecFns;

verus! {

/// What a URL text comes to as read by `url::Url::parse`: the path and the query, or nothing if
/// it is not an absolute URL.
pub uninterp spec fn url_parts(text: Seq<char>) -> Option<(Seq<char>, Option<Seq<char>>)>;

/// `url::Url::parse`, with `path` and `query` of the URL it gives. Claimed of it: what it gives
/// depends on the text alone. Which texts are URLs, and how their paths and queries are written
/// out, is left unsaid.
#[verifier::external_body]
fn parse_url(text: &str) -> (r: Option<(String, Option<String>)>)
    ensures
        match r {
            Some((path, query)) => url_parts(text@) == Some(
                (
                    path@,
                    match query {
                        Some(q) => Some(q@),
                        None => None,
                    },
                ),
            ),
            None => url_parts(text@) is None,
        },
{
    match url::Url::parse(text) {
        Ok(url) => Some((url.path().to_string(), url.query().map(|q| q.to_string()))),
        Err(_) => None,
    }
}

/// A page's address, as far as robots.txt rules look at it.
#[derive(Debug, Clone)]
pub struct PageUrl {
    pub path: String,
    pub query: Option<String>,
}

/// What rules are matched against: the path, followed by `?` and the query if there is one.
pub open spec fn target(path: Seq<char>, query: Option<Seq<char>>) -> Seq<char> {
    match query {
        Some(q) => path + "?"@ + q,
        None => path,
    }
}

impl PageUrl {
    /// The query's text, if there is a query.
    pub open spec fn query_text(self) -> Option<Seq<char>> {
        match self.query {
            Some(q) => Some(q@),
            None => None,
        }
    }

    /// What rules are matched against.
    pub open spec fn target(self) -> Seq<char> {
        target(self.path@, self.query_text())
    }

    /// Reads an absolute URL; `None` if `text` is not one.
    pub fn parse(text: &str) -> (r: Option<PageUrl>)
        ensures
            match r {
                Some(url) => url_parts(text@) == Some(
                    (
                        url.path@,
                        match url.query {
                            Some(q) => Some(q@),
                            None => None,
                        },
                    ),
                ),
                None => url_parts(text@) is None,
            },
    {
        match parse_url(text) {
            Some((path, query)) => Some(PageUrl { path, query }),
            None => None,
        }
    }

    /// The path, followed by `?` and the query if there is one.
    pub fn path_and_query(&self) -> (r: String)
        ensures
            r@ == self.target(),
            match self.query {
                Some(q) => r@ == self.path@ + seq!['?'] + q@,
                None => r@ == self.path@,
            },
    {
        proof {
            reveal_strlit("?");
            assert("?"@ =~= seq!['?']);
        }
        match &self.query {
            Some(q) => {
                let mut r = self.path.clone();
                r.append("?");
                r.append(q.as_str());
                r
            },
            None => self.path.clone(),
        }
    }
}

} // verus!
