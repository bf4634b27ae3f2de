//! Laws of page addresses: what rules are matched against.

use vstd::prelude::*;

use crate::page_url;
use crate::page_url::PageUrl;
use crate::pattern;

verus! {

/// What rules are matched against is the path, one `?` and the whole query, as they are; without a
/// query, it is the path.
pub proof fn law_the_whole_query_counts(path: Seq<char>, query: Seq<char>)
    ensures
        ({
            let target = page_url::target(path, Some(query));
            &&& target.len() == path.len() + 1 + query.len()
            &&& path.is_prefix_of(target)
            &&& target[path.len() as int] == '?'
            &&& target.skip(path.len() + 1int) == query
        }),
        page_url::target(path, None) == path,
{
    reveal_strlit("?");
    let target = page_url::target(path, Some(query));
    assert(path =~= target.subrange(0, path.len() as int));
    assert(target.skip(path.len() + 1int) =~= query);
}

/// The address of a page is matched by its own path and query.
pub proof fn law_the_target_of_a_page(url: PageUrl)
    ensures
        match url.query {
            Some(query) => {
                &&& url.target().len() == url.path@.len() + 1 + query@.len()
                &&& url.path@.is_prefix_of(url.target())
                &&& url.target()[url.path@.len() as int] == '?'
                &&& url.target().skip(url.path@.len() + 1int) == query@
            },
            None => url.target() == url.path@,
        },
{
    if let Some(query) = url.query {
        law_the_whole_query_counts(url.path@, query@);
    }
}

/// A rule spelled out with a query covers the page exactly if what it spells is how the query of
/// the page starts; anchored, exactly if it is the query.
pub proof fn law_rules_see_the_whole_query(path: Seq<char>, query: Seq<char>, spelled: Seq<char>)
    requires
        pattern::literal(path),
        pattern::literal(spelled),
        spelled.len() == 0 || spelled.last() != '$',
    ensures
        pattern::covers(path.push('?') + spelled, page_url::target(path, Some(query))) <==>
            spelled.is_prefix_of(query),
        pattern::covers((path.push('?') + spelled).push('$'), page_url::target(path, Some(query)))
            <==> spelled == query,
{
    reveal_strlit("?");
    let rule = path.push('?') + spelled;
    let target = page_url::target(path, Some(query));
    assert(target =~= path.push('?') + query);
    assert forall|i: int| 0 <= i < rule.len() implies rule[i] != '*' by {
        if i < path.len() {
            assert(path[i] != '*');
        } else if i > path.len() {
            assert(spelled[i - path.len() - 1] != '*');
        }
    }
    crate::laws::pattern::law_literal_is_prefix(rule, target);
    crate::laws::pattern::law_anchored_literal_is_equality(rule, target);
    let n = path.len() + 1;
    if rule.is_prefix_of(target) {
        assert forall|i: int| 0 <= i < spelled.len() implies spelled[i] == query[i] by {
            assert(rule[n + i] == target.subrange(0, rule.len() as int)[n + i]);
        }
        assert(spelled =~= query.subrange(0, spelled.len() as int));
    }
    if spelled.is_prefix_of(query) {
        assert forall|i: int| 0 <= i < rule.len() implies rule[i] == target[i] by {
            if i >= n {
                assert(spelled[i - n] == query.subrange(0, spelled.len() as int)[i - n]);
            }
        }
        assert(rule =~= target.subrange(0, rule.len() as int));
    }
    if target == rule {
        assert(spelled =~= rule.skip(n as int));
        assert(query =~= target.skip(n as int));
    }
}

} // verus!
