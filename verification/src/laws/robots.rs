//! Laws of robots.txt files and of the verdict on a path.

use vstd::prelude::*;

use crate::page_url;
use crate::pattern;
use crate::robots;
use crate::robots::{Record, RuleView};
use crate::text;

verus! {

/// A file is read line by line: its records are those of its parts, one after the other.
pub proof fn law_records_line_by_line(a: Seq<char>, b: Seq<char>)
    ensures
        robots::records(a.push('\n') + b) == robots::records(a) + robots::records(b),
{
    text::lemma_split_at_separator(a, '\n', b);
    assert(robots::records(a.push('\n') + b) =~= robots::records(a) + robots::records(b));
}

/// A carriage return before the line feed is no part of the line.
pub proof fn law_carriage_return_is_ignored(line: Seq<char>)
    ensures
        robots::record(line.push('\r')) == robots::record(line),
{
    text::lemma_trim_pushed_space(line, '\r');
}

/// Directive names are read without regard to the case of ASCII letters.
pub proof fn law_directives_ignore_case(
    a: Seq<char>,
    b: Seq<char>,
    rest: Seq<char>,
    prefix: Seq<char>,
)
    requires
        text::same_but_case(a, b),
        a.len() == prefix.len(),
    ensures
        robots::directive(a + rest, prefix) == robots::directive(b + rest, prefix),
{
    let n = prefix.len() as int;
    assert((a + rest).take(n) =~= a);
    assert((b + rest).take(n) =~= b);
    assert((a + rest).skip(n) =~= rest);
    assert((b + rest).skip(n) =~= rest);
    assert(text::same_but_case(a, prefix) == text::same_but_case(b, prefix)) by {
        assert forall|i: int| 0 <= i < n implies #[trigger] text::same_letter(a[i], prefix[i])
            == text::same_letter(b[i], prefix[i]) by {
            assert(text::same_letter(a[i], b[i]));
            text::lemma_same_letter(a[i], b[i], prefix[i]);
        }
        if text::same_but_case(a, prefix) {
            assert forall|i: int| 0 <= i < n implies text::same_letter(
                #[trigger] b[i],
                prefix[i],
            ) by {
                assert(text::same_letter(a[i], prefix[i]));
            }
        }
        if text::same_but_case(b, prefix) {
            assert forall|i: int| 0 <= i < n implies text::same_letter(
                #[trigger] a[i],
                prefix[i],
            ) by {
                assert(text::same_letter(b[i], prefix[i]));
            }
        }
    }
}

proof fn lemma_rules_for_membership(rs: Seq<Record>, n: int, us: bool, rule: RuleView)
    requires
        0 <= n <= rs.len(),
    ensures
        robots::rules_for(rs, n, us).contains(rule) <==> exists|i: int|
            0 <= i < n && #[trigger] robots::is_rule_for(rs, i, us) && rs[i] == Record::Rule(rule),
    decreases n,
{
    if n > 0 {
        let before = robots::rules_for(rs, n - 1, us);
        lemma_rules_for_membership(rs, n - 1, us, rule);
        if robots::is_rule_for(rs, n - 1, us) {
            let last = rs[n - 1]->Rule_0;
            let after = before.push(last);
            if after.contains(rule) {
                let j = choose|j: int| 0 <= j < after.len() && after[j] == rule;
                if j < before.len() {
                    assert(before[j] == rule);
                }
            }
            if before.contains(rule) {
                let j = choose|j: int| 0 <= j < before.len() && before[j] == rule;
                assert(after[j] == rule);
            }
            assert(after[before.len() as int] == last);
        }
    }
}

/// The rules that bind are exactly those with a pattern that stand in a group for this crawler
/// if any agent line names it, and in a group for everyone otherwise: a group that names this
/// crawler suppresses the groups for everyone, be it empty.
pub proof fn law_own_group_suppresses_the_others(rs: Seq<Record>, rule: RuleView)
    ensures
        robots::named(rs) ==> (robots::binding_rules(rs).contains(rule) <==> exists|i: int|
            0 <= i < rs.len() && #[trigger] robots::is_rule_for(rs, i, true) && rs[i]
                == Record::Rule(rule)),
        !robots::named(rs) ==> (robots::binding_rules(rs).contains(rule) <==> exists|i: int|
            0 <= i < rs.len() && #[trigger] robots::is_rule_for(rs, i, false) && rs[i]
                == Record::Rule(rule)),
{
    lemma_rules_for_membership(rs, rs.len() as int, robots::named(rs), rule);
}

/// A group applies if any agent line of its run matches: where no group member stands between an
/// agent line that names this crawler and a rule, the rule binds; the same holds of an agent line
/// for everyone, unless some line names this crawler.
pub proof fn law_any_agent_line_of_the_run_suffices(rs: Seq<Record>, k: int, i: int, rule: RuleView)
    requires
        0 <= k < i < rs.len(),
        forall|j: int| k < j < i ==> !robots::is_member(#[trigger] rs[j]),
        robots::names(rs[k], true) || (robots::names(rs[k], false) && !robots::named(rs)),
        rs[i] == Record::Rule(rule),
        rule.pattern.len() > 0,
    ensures
        robots::binding_rules(rs).contains(rule),
{
    assert(robots::heads(rs, k, i));
    if !robots::named(rs) {
        assert forall|h: int| robots::heads(rs, h, i) implies !robots::names(rs[h], true) by {
            assert(0 <= h < rs.len());
        }
    }
    assert(robots::is_rule_for(rs, i, robots::named(rs)));
    lemma_rules_for_membership(rs, rs.len() as int, robots::named(rs), rule);
}

/// A group member closes the run of agent lines: one that stands before it heads no group that
/// starts after it.
pub proof fn law_member_closes_the_run(rs: Seq<Record>, k: int, p: int, q: int, i: int)
    requires
        k < p < q < i,
        robots::is_member(rs[p]),
        rs[q] is Agent,
    ensures
        !robots::heads(rs, k, i),
{
}

/// Where the line `j` stands once a line has been put in at `at`.
spec fn moved(at: int, j: int) -> int {
    if j < at {
        j
    } else {
        j + 1
    }
}

proof fn lemma_heads_with_neutral(rs: Seq<Record>, at: int, r: Record, k: int, j: int)
    requires
        0 <= at <= rs.len(),
        r is Blank || r is Sitemap,
        0 <= k < rs.len(),
        0 <= j < rs.len(),
    ensures
        robots::heads(rs.insert(at, r), moved(at, k), moved(at, j)) == robots::heads(rs, k, j),
{
    let more = rs.insert(at, r);
    assert forall|i: int| 0 <= i < rs.len() implies more[moved(at, i)] == rs[i] by {}
    if robots::heads(rs, k, j) {
        assert forall|p: int, q: int|
            #![trigger more[p], more[q]]
            moved(at, k) < p < q < moved(at, j) implies !(robots::is_member(more[p])
            && more[q] is Agent) by {
            if p != at && q != at {
                let p0 = if p < at { p } else { p - 1 };
                let q0 = if q < at { q } else { q - 1 };
                assert(more[p] == rs[p0] && more[q] == rs[q0]);
                assert(k < p0 < q0 < j);
            }
        }
    }
    if robots::heads(more, moved(at, k), moved(at, j)) {
        assert forall|p: int, q: int|
            #![trigger rs[p], rs[q]]
            k < p < q < j implies !(robots::is_member(rs[p]) && rs[q] is Agent) by {
            assert(more[moved(at, p)] == rs[p] && more[moved(at, q)] == rs[q]);
        }
    }
}

proof fn lemma_addressed_with_neutral(rs: Seq<Record>, at: int, r: Record, j: int, us: bool)
    requires
        0 <= at <= rs.len(),
        r is Blank || r is Sitemap,
        0 <= j < rs.len(),
    ensures
        robots::addressed(rs.insert(at, r), moved(at, j), us) == robots::addressed(rs, j, us),
{
    let more = rs.insert(at, r);
    if robots::addressed(rs, j, us) {
        let k = choose|k: int| #[trigger] robots::heads(rs, k, j) && robots::names(rs[k], us);
        lemma_heads_with_neutral(rs, at, r, k, j);
        assert(more[moved(at, k)] == rs[k]);
    }
    if robots::addressed(more, moved(at, j), us) {
        let m = choose|m: int|
            #[trigger] robots::heads(more, m, moved(at, j)) && robots::names(more[m], us);
        assert(m != at);
        let k = if m < at { m } else { m - 1 };
        lemma_heads_with_neutral(rs, at, r, k, j);
        assert(more[m] == rs[k]);
        assert(robots::heads(rs, k, j));
    }
}

proof fn lemma_rules_with_neutral(rs: Seq<Record>, at: int, r: Record, n: int, us: bool)
    requires
        0 <= at <= rs.len(),
        r is Blank || r is Sitemap,
        0 <= n <= rs.len(),
    ensures
        n <= at ==> robots::rules_for(rs.insert(at, r), n, us) == robots::rules_for(rs, n, us),
        n >= at ==> robots::rules_for(rs.insert(at, r), n + 1, us) == robots::rules_for(rs, n, us),
    decreases n,
{
    let more = rs.insert(at, r);
    if n > 0 {
        lemma_rules_with_neutral(rs, at, r, n - 1, us);
        lemma_addressed_with_neutral(rs, at, r, n - 1, true);
        lemma_addressed_with_neutral(rs, at, r, n - 1, false);
        assert(more[moved(at, n - 1)] == rs[n - 1]);
        assert(robots::is_rule_for(more, moved(at, n - 1), us) == robots::is_rule_for(
            rs,
            n - 1,
            us,
        ));
    }
    assert(more[at] == r);
    assert(!robots::is_rule_for(more, at, us));
    if n == at {
        assert(robots::rules_for(more, n, us) == robots::rules_for(rs, n, us));
        assert(robots::rules_for(more, n + 1, us) == robots::rules_for(more, n, us));
    }
}

proof fn lemma_named_with_neutral(rs: Seq<Record>, at: int, r: Record)
    requires
        0 <= at <= rs.len(),
        r is Blank || r is Sitemap,
    ensures
        robots::named(rs.insert(at, r)) == robots::named(rs),
{
    let more = rs.insert(at, r);
    if robots::named(rs) {
        let k = choose|k: int| 0 <= k < rs.len() && robots::names(#[trigger] rs[k], true);
        assert(more[moved(at, k)] == rs[k]);
    }
    if robots::named(more) {
        let m = choose|m: int| 0 <= m < more.len() && robots::names(#[trigger] more[m], true);
        assert(m != at);
        let k = if m < at { m } else { m - 1 };
        assert(more[m] == rs[k]);
    }
}

/// A blank line, a comment or a `Sitemap:` line may stand anywhere, between agent lines too: it
/// changes no rule.
pub proof fn law_neutral_lines_change_no_rule(rs: Seq<Record>, at: int, r: Record)
    requires
        0 <= at <= rs.len(),
        r is Blank || r is Sitemap,
    ensures
        robots::binding_rules(rs.insert(at, r)) == robots::binding_rules(rs),
{
    lemma_named_with_neutral(rs, at, r);
    lemma_rules_with_neutral(rs, at, r, rs.len() as int, robots::named(rs));
}

proof fn lemma_addressed_behind(pre: Seq<Record>, rs: Seq<Record>, j: int, us: bool)
    requires
        forall|i: int| 0 <= i < pre.len() ==> !(#[trigger] pre[i] is Agent),
        0 <= j < rs.len(),
    ensures
        robots::addressed(pre + rs, pre.len() + j, us) == robots::addressed(rs, j, us),
{
    let all = pre + rs;
    let m = pre.len() as int;
    assert forall|i: int| 0 <= i < rs.len() implies all[m + i] == rs[i] by {}
    if robots::addressed(rs, j, us) {
        let k = choose|k: int| #[trigger] robots::heads(rs, k, j) && robots::names(rs[k], us);
        assert forall|p: int, q: int|
            #![trigger all[p], all[q]]
            m + k < p < q < m + j implies !(robots::is_member(all[p]) && all[q] is Agent) by {
            assert(all[p] == rs[p - m] && all[q] == rs[q - m]);
        }
        assert(all[m + k] == rs[k]);
        assert(robots::heads(all, m + k, m + j));
    }
    if robots::addressed(all, m + j, us) {
        let k = choose|k: int| #[trigger] robots::heads(all, k, m + j) && robots::names(all[k], us);
        if k < m {
            assert(all[k] == pre[k]);
        }
        assert(all[k] == rs[k - m]);
        assert forall|p: int, q: int|
            #![trigger rs[p], rs[q]]
            k - m < p < q < j implies !(robots::is_member(rs[p]) && rs[q] is Agent) by {
            assert(all[m + p] == rs[p] && all[m + q] == rs[q]);
        }
        assert(robots::heads(rs, k - m, j));
    }
}

proof fn lemma_rules_behind(pre: Seq<Record>, rs: Seq<Record>, n: int, us: bool)
    requires
        forall|i: int| 0 <= i < pre.len() ==> !(#[trigger] pre[i] is Agent),
        0 <= n <= pre.len() + rs.len(),
    ensures
        robots::rules_for(pre + rs, n, us) == if n <= pre.len() {
            Seq::<RuleView>::empty()
        } else {
            robots::rules_for(rs, n - pre.len(), us)
        },
    decreases n,
{
    let all = pre + rs;
    let m = pre.len() as int;
    if n > 0 {
        lemma_rules_behind(pre, rs, n - 1, us);
        if n <= m {
            assert forall|k: int| !(#[trigger] robots::heads(all, k, n - 1)) by {
                if 0 <= k < n - 1 {
                    assert(all[k] == pre[k]);
                }
            }
            assert(!robots::is_rule_for(all, n - 1, us));
        } else {
            lemma_addressed_behind(pre, rs, n - 1 - m, true);
            lemma_addressed_behind(pre, rs, n - 1 - m, false);
            assert(all[n - 1] == rs[n - 1 - m]);
            assert(robots::is_rule_for(all, n - 1, us) == robots::is_rule_for(rs, n - 1 - m, us));
            if n - 1 == m {
                assert(robots::rules_for(rs, 0, us) == Seq::<RuleView>::empty());
            }
        }
    }
}

/// Directives before the first group bind no one: lines without an agent line at the head of a
/// file change no rule.
pub proof fn law_directives_before_the_first_group_are_ignored(pre: Seq<Record>, rs: Seq<Record>)
    requires
        forall|i: int| 0 <= i < pre.len() ==> !(#[trigger] pre[i] is Agent),
    ensures
        robots::binding_rules(pre + rs) == robots::binding_rules(rs),
{
    let all = pre + rs;
    let m = pre.len() as int;
    if robots::named(rs) {
        let k = choose|k: int| 0 <= k < rs.len() && robots::names(#[trigger] rs[k], true);
        assert(all[m + k] == rs[k]);
    }
    if robots::named(all) {
        let k = choose|k: int| 0 <= k < all.len() && robots::names(#[trigger] all[k], true);
        if k < m {
            assert(all[k] == pre[k]);
        } else {
            assert(all[k] == rs[k - m]);
        }
    }
    lemma_rules_behind(pre, rs, all.len() as int, robots::named(rs));
}

/// `rs` with the lines `k` and `k + 1` in each other's place.
pub open spec fn swapped(rs: Seq<Record>, k: int) -> Seq<Record> {
    rs.update(k, rs[k + 1]).update(k + 1, rs[k])
}

/// Where the line `h` stands once the lines `k` and `k + 1` have changed places.
spec fn swapped_place(k: int, h: int) -> int {
    if h == k {
        k + 1
    } else if h == k + 1 {
        k
    } else {
        h
    }
}

proof fn lemma_heads_in_run(rs: Seq<Record>, k: int, i: int)
    requires
        0 <= k,
        k + 2 <= i <= rs.len(),
        rs[k] is Agent,
        rs[k + 1] is Agent,
    ensures
        robots::heads(rs, k, i) == robots::heads(rs, k + 1, i),
{
    if robots::heads(rs, k + 1, i) {
        assert forall|p: int, q: int|
            #![trigger rs[p], rs[q]]
            k < p < q < i implies !(robots::is_member(rs[p]) && rs[q] is Agent) by {}
    }
}

proof fn lemma_addressed_after_swap(rs: Seq<Record>, k: int, i: int, us: bool)
    requires
        0 <= k,
        k + 1 < rs.len(),
        rs[k] is Agent,
        rs[k + 1] is Agent,
        0 <= i <= rs.len(),
        i != k + 1,
    ensures
        robots::addressed(rs, i, us) ==> robots::addressed(swapped(rs, k), i, us),
{
    let other = swapped(rs, k);
    if robots::addressed(rs, i, us) {
        let h = choose|h: int| #[trigger] robots::heads(rs, h, i) && robots::names(rs[h], us);
        let g = swapped_place(k, h);
        if h == k || h == k + 1 {
            lemma_heads_in_run(rs, k, i);
        }
        assert(robots::heads(rs, g, i));
        assert(other[g] == rs[h]);
        assert forall|p: int, q: int|
            #![trigger other[p], other[q]]
            g < p < q < i implies !(robots::is_member(other[p]) && other[q] is Agent) by {
            assert(robots::is_member(other[p]) == robots::is_member(rs[p]));
            assert((other[q] is Agent) == (rs[q] is Agent));
        }
        assert(robots::heads(other, g, i));
    }
}

proof fn lemma_rules_after_swap(rs: Seq<Record>, k: int, n: int, us: bool)
    requires
        0 <= k,
        k + 1 < rs.len(),
        rs[k] is Agent,
        rs[k + 1] is Agent,
        0 <= n <= rs.len(),
    ensures
        robots::rules_for(swapped(rs, k), n, us) == robots::rules_for(rs, n, us),
    decreases n,
{
    if n > 0 {
        let other = swapped(rs, k);
        let i = n - 1;
        lemma_rules_after_swap(rs, k, i, us);
        if i == k || i == k + 1 {
            assert(other[i] is Agent && rs[i] is Agent);
        } else {
            assert(swapped(other, k) =~= rs);
            lemma_addressed_after_swap(rs, k, i, true);
            lemma_addressed_after_swap(rs, k, i, false);
            lemma_addressed_after_swap(other, k, i, true);
            lemma_addressed_after_swap(other, k, i, false);
            assert(other[i] == rs[i]);
        }
    }
}

/// A group applies if any line of its run of agent lines matches, whichever it is: two
/// neighbouring agent lines may change places.
pub proof fn law_agent_lines_of_a_run_are_equals(rs: Seq<Record>, k: int)
    requires
        0 <= k,
        k + 1 < rs.len(),
        rs[k] is Agent,
        rs[k + 1] is Agent,
    ensures
        robots::binding_rules(swapped(rs, k)) == robots::binding_rules(rs),
{
    let other = swapped(rs, k);
    if robots::named(rs) {
        let h = choose|h: int| 0 <= h < rs.len() && robots::names(#[trigger] rs[h], true);
        let g = swapped_place(k, h);
        assert(other[g] == rs[h]);
    }
    if robots::named(other) {
        let h = choose|h: int| 0 <= h < other.len() && robots::names(#[trigger] other[h], true);
        let g = swapped_place(k, h);
        assert(rs[g] == other[h]);
    }
    lemma_rules_after_swap(rs, k, rs.len() as int, robots::named(rs));
}

/// Whether the rule covers `path`.
pub open spec fn applies(rule: RuleView, path: Seq<char>) -> bool {
    pattern::covers(rule.pattern, path)
}

/// Whether the rule `w` wins over the rule `r`: it is more specific, or as specific and allows if
/// `r` does.
pub open spec fn wins(w: RuleView, r: RuleView) -> bool {
    ||| pattern::specificity(r.pattern) < pattern::specificity(w.pattern)
    ||| pattern::specificity(r.pattern) == pattern::specificity(w.pattern) && (r.allow ==> w.allow)
}

/// A path that no rule covers is allowed.
pub proof fn law_uncovered_is_allowed(rules: Seq<RuleView>, path: Seq<char>)
    requires
        forall|i: int| 0 <= i < rules.len() ==> !applies(#[trigger] rules[i], path),
    ensures
        robots::allowed(rules, path),
{
    assert forall|i: int| 0 <= i < rules.len() implies !robots::forbids(
        #[trigger] rules[i],
        path,
    ) by {
        assert(!applies(rules[i], path));
    }
}

/// The most specific rule that covers the path decides; between equally specific ones, Allow
/// wins over Disallow.
pub proof fn law_most_specific_decides(rules: Seq<RuleView>, path: Seq<char>, w: int)
    requires
        0 <= w < rules.len(),
        applies(rules[w], path),
        forall|i: int|
            0 <= i < rules.len() && applies(#[trigger] rules[i], path) ==> wins(rules[w], rules[i]),
    ensures
        robots::allowed(rules, path) == rules[w].allow,
{
    if rules[w].allow {
        assert(robots::permits(rules[w], path));
        assert forall|i: int|
            0 <= i < rules.len() && robots::forbids(#[trigger] rules[i], path) implies exists|
            j: int,
        |
            0 <= j < rules.len() && robots::permits(#[trigger] rules[j], path)
                && pattern::specificity(rules[j].pattern) >= pattern::specificity(
                rules[i].pattern,
            ) by {
            assert(applies(rules[i], path));
            assert(robots::permits(rules[w], path));
        }
    } else {
        assert(robots::forbids(rules[w], path));
        assert forall|j: int|
            0 <= j < rules.len() && robots::permits(#[trigger] rules[j], path) implies
            pattern::specificity(rules[j].pattern) < pattern::specificity(rules[w].pattern) by {
            assert(applies(rules[j], path));
        }
    }
}

/// Neither the order of the rules nor how often one is given matters.
pub proof fn law_order_of_rules_is_irrelevant(
    a: Seq<RuleView>,
    b: Seq<RuleView>,
    path: Seq<char>,
)
    requires
        forall|r: RuleView| a.contains(r) <==> b.contains(r),
    ensures
        robots::allowed(a, path) == robots::allowed(b, path),
{
    if robots::allowed(a, path) {
        lemma_same_rules_allow(a, b, path);
    }
    if robots::allowed(b, path) {
        lemma_same_rules_allow(b, a, path);
    }
}

proof fn lemma_same_rules_allow(a: Seq<RuleView>, b: Seq<RuleView>, path: Seq<char>)
    requires
        forall|r: RuleView| a.contains(r) <==> b.contains(r),
        robots::allowed(a, path),
    ensures
        robots::allowed(b, path),
{
    assert forall|i: int|
        0 <= i < b.len() && robots::forbids(#[trigger] b[i], path) implies exists|j: int|
        0 <= j < b.len() && robots::permits(#[trigger] b[j], path) && pattern::specificity(
            b[j].pattern,
        ) >= pattern::specificity(b[i].pattern) by {
        assert(b.contains(b[i]));
        let i0 = choose|i0: int| 0 <= i0 < a.len() && a[i0] == b[i];
        assert(robots::forbids(a[i0], path));
        let j0 = choose|j0: int|
            0 <= j0 < a.len() && robots::permits(#[trigger] a[j0], path) && pattern::specificity(
                a[j0].pattern,
            ) >= pattern::specificity(a[i0].pattern);
        assert(a.contains(a[j0]));
        let j = choose|j: int| 0 <= j < b.len() && b[j] == a[j0];
        assert(robots::permits(b[j], path));
    }
}

/// One more Allow rule forbids nothing that was allowed.
pub proof fn law_allow_rules_only_allow(rules: Seq<RuleView>, rule: RuleView, path: Seq<char>)
    requires
        rule.allow,
        robots::allowed(rules, path),
    ensures
        robots::allowed(rules.push(rule), path),
{
    let more = rules.push(rule);
    assert forall|i: int|
        0 <= i < more.len() && robots::forbids(#[trigger] more[i], path) implies exists|j: int|
        0 <= j < more.len() && robots::permits(#[trigger] more[j], path) && pattern::specificity(
            more[j].pattern,
        ) >= pattern::specificity(more[i].pattern) by {
        assert(more[i] == rules[i]);
        assert(robots::forbids(rules[i], path));
        let j = choose|j: int|
            0 <= j < rules.len() && robots::permits(#[trigger] rules[j], path)
                && pattern::specificity(rules[j].pattern) >= pattern::specificity(
                rules[i].pattern,
            );
        assert(more[j] == rules[j]);
    }
}

/// One more Disallow rule allows nothing that was forbidden.
pub proof fn law_disallow_rules_only_forbid(rules: Seq<RuleView>, rule: RuleView, path: Seq<char>)
    requires
        !rule.allow,
        robots::allowed(rules.push(rule), path),
    ensures
        robots::allowed(rules, path),
{
    let more = rules.push(rule);
    assert forall|i: int|
        0 <= i < rules.len() && robots::forbids(#[trigger] rules[i], path) implies exists|j: int|
        0 <= j < rules.len() && robots::permits(#[trigger] rules[j], path) && pattern::specificity(
            rules[j].pattern,
        ) >= pattern::specificity(rules[i].pattern) by {
        assert(more[i] == rules[i]);
        assert(robots::forbids(more[i], path));
        let j = choose|j: int|
            0 <= j < more.len() && robots::permits(#[trigger] more[j], path)
                && pattern::specificity(more[j].pattern) >= pattern::specificity(more[i].pattern);
        assert(more[j] == rules[j]);
    }
}

/// How often `c` stands in `s`.
spec fn occurrences(s: Seq<char>, c: char) -> nat
    decreases s.len(),
{
    if s.len() == 0 {
        0
    } else {
        occurrences(s.skip(1), c) + if s[0] == c {
            1nat
        } else {
            0nat
        }
    }
}

proof fn lemma_occurrences_push(s: Seq<char>, d: char, c: char)
    ensures
        occurrences(s.push(d), c) == occurrences(s, c) + if c == d {
            1nat
        } else {
            0nat
        },
    decreases s.len(),
{
    if s.len() > 0 {
        assert(s.push(d).skip(1) =~= s.skip(1).push(d));
        lemma_occurrences_push(s.skip(1), d, c);
    } else {
        assert(s.push(d).skip(1) =~= s);
    }
}

/// What matches a glob has every character of it but `*` at least as often.
proof fn lemma_glob_occurrences(glob: Seq<char>, text: Seq<char>, c: char)
    requires
        pattern::glob(glob, text),
        c != '*',
    ensures
        occurrences(glob, c) <= occurrences(text, c),
    decreases glob.len() + text.len(),
{
    if glob.len() > 0 {
        if glob[0] == '*' {
            if pattern::glob(glob.skip(1), text) {
                lemma_glob_occurrences(glob.skip(1), text, c);
            } else {
                lemma_glob_occurrences(glob, text.skip(1), c);
            }
        } else {
            lemma_glob_occurrences(glob.skip(1), text.skip(1), c);
        }
    }
}

/// An open-ended glob matches its own text with anything behind it.
proof fn lemma_glob_matches_itself(p: Seq<char>, more: Seq<char>)
    ensures
        pattern::glob(p.push('*'), p + more),
    decreases p.len(),
{
    let open = p.push('*');
    if p.len() == 0 {
        assert(open =~= seq!['*']);
        crate::laws::pattern::law_star_matches_everything(p + more);
    } else {
        lemma_glob_matches_itself(p.skip(1), more);
        assert(open.skip(1) =~= p.skip(1).push('*'));
        assert((p + more).skip(1) =~= p.skip(1) + more);
        if p[0] == '*' {
            assert(pattern::glob(open, (p + more).skip(1)));
        }
    }
}

/// A rule keyed on the query, such as `/hide?`, covers the page with any query and not the page
/// without one.
pub proof fn law_query_keyed_rule(path: Seq<char>, query: Seq<char>)
    ensures
        pattern::covers(path.push('?'), page_url::target(path, Some(query))),
        !pattern::covers(path.push('?'), page_url::target(path, None)),
{
    let p = path.push('?');
    reveal_strlit("?");
    assert(path + "?"@ + query =~= p + query);
    lemma_glob_matches_itself(p, query);
    if pattern::covers(p, path) {
        lemma_glob_occurrences(p.push('*'), path, '?');
        lemma_occurrences_push(p, '*', '?');
        lemma_occurrences_push(path, '?', '?');
    }
}

} // verus!
