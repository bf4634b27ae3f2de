//! Laws of groups: which rules of a robots.txt file bind this crawler, and which do not.

use vstd::prelude::*;

use crate::robots;
use crate::robots::{Record, RuleView};
use crate::text;

verus! {

/// Whether the record is an agent line with the product token `crw`, in any case.
pub open spec fn is_us(r: Record) -> bool {
    r matches Record::Agent(agent) && text::same_but_case(agent, seq!['c', 'r', 'w'])
}

/// Whether the record is an agent line for everyone.
pub open spec fn is_everyone(r: Record) -> bool {
    r matches Record::Agent(agent) && agent == seq!['*']
}

/// Whether the agent line `k` is part of the run of agent lines that the line `i` follows: the run
/// goes on over blank, comment and sitemap lines to the last agent line before `i`, and ends there.
pub open spec fn in_run_before(rs: Seq<Record>, k: int, i: int) -> bool {
    &&& rs[k] is Agent
    &&& exists|last: int|
        {
            &&& 0 <= k <= last < i <= rs.len()
            &&& (#[trigger] rs[last]) is Agent
            &&& forall|p: int|
                k <= p <= last ==> (#[trigger] rs[p]) is Agent || rs[p] is Blank || rs[p] is Sitemap
            &&& forall|p: int| last < p < i ==> !((#[trigger] rs[p]) is Agent)
        }
}

/// Whether line `i` is a rule that binds this crawler: it has a pattern, and an agent line of its
/// run is ours, or is for everyone while no line of the file is ours.
pub open spec fn binds(rs: Seq<Record>, i: int) -> bool {
    &&& rs[i] matches Record::Rule(rule)
    &&& rule.pattern.len() > 0
    &&& exists|k: int|
        {
            &&& #[trigger] in_run_before(rs, k, i)
            &&& is_us(rs[k]) || (is_everyone(rs[k]) && forall|j: int|
                0 <= j < rs.len() ==> !is_us(#[trigger] rs[j]))
        }
}

proof fn lemma_last_agent(rs: Seq<Record>, k: int, i: int) -> (last: int)
    requires
        0 <= k < i <= rs.len(),
        rs[k] is Agent,
    ensures
        k <= last < i,
        rs[last] is Agent,
        forall|p: int| last < p < i ==> !((#[trigger] rs[p]) is Agent),
    decreases i - k,
{
    if rs[i - 1] is Agent {
        i - 1
    } else {
        lemma_last_agent(rs, k, i - 1)
    }
}

proof fn lemma_heads_is_run(rs: Seq<Record>, k: int, i: int)
    requires
        0 <= k < i <= rs.len(),
    ensures
        robots::heads(rs, k, i) == in_run_before(rs, k, i),
{
    if robots::heads(rs, k, i) {
        let last = lemma_last_agent(rs, k, i);
        assert forall|p: int| k <= p <= last implies (#[trigger] rs[p]) is Agent || rs[p] is Blank
            || rs[p] is Sitemap by {
            if k < p < last {
                assert(!(robots::is_member(rs[p]) && rs[last] is Agent));
            }
        }
        assert(in_run_before(rs, k, i));
    }
    if in_run_before(rs, k, i) {
        let last = choose|last: int|
            {
                &&& 0 <= k <= last < i <= rs.len()
                &&& (#[trigger] rs[last]) is Agent
                &&& forall|p: int|
                    k <= p <= last ==> (#[trigger] rs[p]) is Agent || rs[p] is Blank
                        || rs[p] is Sitemap
                &&& forall|p: int| last < p < i ==> !((#[trigger] rs[p]) is Agent)
            };
        assert forall|p: int, q: int|
            #![trigger rs[p], rs[q]]
            k < p < q < i implies !(robots::is_member(rs[p]) && rs[q] is Agent) by {
            if rs[q] is Agent {
                assert(q <= last);
                assert(rs[p] is Agent || rs[p] is Blank || rs[p] is Sitemap);
            }
        }
        assert(robots::heads(rs, k, i));
    }
}

proof fn lemma_names(r: Record)
    ensures
        robots::names(r, true) == is_us(r),
        robots::names(r, false) == is_everyone(r),
{
    reveal_strlit("crw");
    reveal_strlit("*");
    assert("crw"@ =~= seq!['c', 'r', 'w']);
    assert("*"@ =~= seq!['*']);
}

proof fn lemma_binds(rs: Seq<Record>, i: int)
    requires
        0 <= i < rs.len(),
    ensures
        robots::is_rule_for(rs, i, robots::named(rs)) == binds(rs, i),
{
    assert forall|r: Record| robots::names(r, true) == #[trigger] is_us(r) by {
        lemma_names(r);
    }
    assert forall|r: Record| robots::names(r, false) == #[trigger] is_everyone(r) by {
        lemma_names(r);
    }
    assert(robots::named(rs) == exists|j: int| 0 <= j < rs.len() && is_us(#[trigger] rs[j])) by {
        if robots::named(rs) {
            let j = choose|j: int| 0 <= j < rs.len() && robots::names(#[trigger] rs[j], true);
            assert(is_us(rs[j]));
        }
    }
    if robots::is_rule_for(rs, i, robots::named(rs)) {
        let us = robots::named(rs);
        let k = choose|k: int| #[trigger] robots::heads(rs, k, i) && robots::names(rs[k], us);
        lemma_heads_is_run(rs, k, i);
        assert(in_run_before(rs, k, i));
        assert(is_us(rs[k]) || is_everyone(rs[k]));
    }
    if binds(rs, i) {
        let k = choose|k: int|
            {
                &&& #[trigger] in_run_before(rs, k, i)
                &&& is_us(rs[k]) || (is_everyone(rs[k]) && forall|j: int|
                    0 <= j < rs.len() ==> !is_us(#[trigger] rs[j]))
            };
        lemma_heads_is_run(rs, k, i);
        assert(robots::heads(rs, k, i));
        assert(is_us(rs[k]) ==> robots::named(rs));
        if !robots::named(rs) {
            assert forall|h: int| robots::heads(rs, h, i) implies !robots::names(rs[h], true) by {
                assert(0 <= h < rs.len());
                assert(!is_us(rs[h]));
            }
        }
    }
}

/// Whether `picked` are the places of the rules that bind: in order, each once, and no other.
pub open spec fn are_places_of_binding_rules(rs: Seq<Record>, picked: Seq<int>) -> bool {
    &&& forall|i: int| #[trigger] picked.contains(i) <==> 0 <= i < rs.len() && binds(rs, i)
    &&& forall|a: int, b: int| 0 <= a < b < picked.len() ==> picked[a] < picked[b]
}

proof fn lemma_places(rs: Seq<Record>, n: int, us: bool) -> (picked: Seq<int>)
    requires
        0 <= n <= rs.len(),
    ensures
        forall|i: int| #[trigger]
            picked.contains(i) <==> 0 <= i < n && robots::is_rule_for(rs, i, us),
        forall|a: int, b: int| 0 <= a < b < picked.len() ==> picked[a] < picked[b],
        robots::rules_for(rs, n, us).len() == picked.len(),
        forall|j: int|
            0 <= j < picked.len() ==> rs[picked[j]] == Record::Rule(
                #[trigger] robots::rules_for(rs, n, us)[j],
            ),
    decreases n,
{
    if n == 0 {
        Seq::empty()
    } else {
        let before = lemma_places(rs, n - 1, us);
        if robots::is_rule_for(rs, n - 1, us) {
            let picked = before.push(n - 1);
            assert forall|i: int| #[trigger] picked.contains(i) <==> 0 <= i < n
                && robots::is_rule_for(rs, i, us) by {
                if picked.contains(i) && i != n - 1 {
                    let j = choose|j: int| 0 <= j < picked.len() && picked[j] == i;
                    assert(before[j] == i);
                    assert(before.contains(i));
                }
                if 0 <= i < n && robots::is_rule_for(rs, i, us) {
                    if i == n - 1 {
                        assert(picked[before.len() as int] == i);
                    } else {
                        assert(before.contains(i));
                        let j = choose|j: int| 0 <= j < before.len() && before[j] == i;
                        assert(picked[j] == i);
                    }
                }
            }
            assert forall|a: int, b: int| 0 <= a < b < picked.len() implies picked[a]
                < picked[b] by {
                if b == before.len() {
                    assert(before.contains(before[a]));
                }
            }
            picked
        } else {
            assert forall|i: int| #[trigger] before.contains(i) <==> 0 <= i < n
                && robots::is_rule_for(rs, i, us) by {}
            before
        }
    }
}

/// The rules that bind are those of the binding lines, all of them, in their order, as they stand.
pub proof fn law_the_binding_rules_are_those_lines(rs: Seq<Record>) -> (picked: Seq<int>)
    ensures
        are_places_of_binding_rules(rs, picked),
        robots::binding_rules(rs).len() == picked.len(),
        forall|j: int|
            0 <= j < picked.len() ==> rs[picked[j]] == Record::Rule(
                #[trigger] robots::binding_rules(rs)[j],
            ),
{
    let picked = lemma_places(rs, rs.len() as int, robots::named(rs));
    assert forall|i: int| #[trigger] picked.contains(i) <==> 0 <= i < rs.len() && binds(rs, i) by {
        if 0 <= i < rs.len() {
            lemma_binds(rs, i);
        }
    }
    picked
}

/// The rules that a file comes to are the binding ones of its records.
pub proof fn law_a_file_comes_to_its_binding_rules(file: Seq<char>)
    ensures
        robots::parsed(file).rules == robots::binding_rules(robots::records(file)),
{
}

/// Every rule of a group binds, not only the first: whatever rules, unknown directives, blank lines
/// and sitemaps stand between it and the agent line, as long as no other agent line does.
pub proof fn law_every_rule_of_a_group_binds(rs: Seq<Record>, k: int, i: int, rule: RuleView)
    requires
        0 <= k < i < rs.len(),
        is_us(rs[k]) || (is_everyone(rs[k]) && forall|j: int|
            0 <= j < rs.len() ==> !is_us(#[trigger] rs[j])),
        forall|p: int| k < p < i ==> !((#[trigger] rs[p]) is Agent),
        rs[i] == Record::Rule(rule),
        rule.pattern.len() > 0,
    ensures
        robots::binding_rules(rs).contains(rule),
{
    assert(rs[k] is Agent);
    assert(in_run_before(rs, k, i));
    assert(binds(rs, i));
    let picked = law_the_binding_rules_are_those_lines(rs);
    assert(picked.contains(i));
    let j = choose|j: int| 0 <= j < picked.len() && picked[j] == i;
    assert(robots::binding_rules(rs)[j] == rule);
}

/// A group that is neither for us nor for everyone binds us by none of its rules: where every
/// binding rule stands, some agent line of its own run speaks to us.
pub proof fn law_no_other_group_binds(rs: Seq<Record>, rule: RuleView)
    requires
        forall|i: int|
            0 <= i < rs.len() && rs[i] == Record::Rule(rule) ==> forall|k: int| #[trigger]
                in_run_before(rs, k, i) ==> !is_us(rs[k]) && !is_everyone(rs[k]),
    ensures
        !robots::binding_rules(rs).contains(rule),
{
    let picked = law_the_binding_rules_are_those_lines(rs);
    let rules = robots::binding_rules(rs);
    if rules.contains(rule) {
        let j = choose|j: int| 0 <= j < rules.len() && rules[j] == rule;
        assert(picked.contains(picked[j]));
        assert(binds(rs, picked[j]));
    }
}

/// Whether the place `at` is inside no run of agent lines: a rule or an unknown directive stands
/// between any agent line before it and any behind it.
#[verifier::opaque]
pub open spec fn outside_runs(rs: Seq<Record>, at: int) -> bool {
    forall|k: int, q: int|
        #![trigger rs[k], rs[q]]
        0 <= k < at <= q < rs.len() && rs[k] is Agent && rs[q] is Agent ==> exists|p: int|
            k < p < q && ((#[trigger] rs[p]) is Rule || rs[p] is Other)
}

proof fn lemma_rules_with_other(rs: Seq<Record>, at: int, n: int)
    requires
        0 <= at <= rs.len(),
        outside_runs(rs, at),
        0 <= n <= rs.len(),
    ensures
        ({
            let more = rs.insert(at, Record::Other);
            let (us, them) = (robots::named(rs), robots::named(more));
            &&& n <= at ==> robots::rules_for(more, n, them) == robots::rules_for(rs, n, us)
            &&& n >= at ==> robots::rules_for(more, n + 1, them) == robots::rules_for(rs, n, us)
        }),
    decreases n,
{
    let more = rs.insert(at, Record::Other);
    let (us, them) = (robots::named(rs), robots::named(more));
    if n > 0 {
        let i = n - 1;
        lemma_rules_with_other(rs, at, i);
        lemma_binds_with_other(rs, at, i);
        lemma_binds(rs, i);
        lemma_binds(more, place(at, i));
        assert(more[place(at, i)] == rs[i]);
        assert(robots::is_rule_for(more, place(at, i), them) == robots::is_rule_for(rs, i, us));
    }
    assert(more[at] == Record::Other);
    assert(!robots::is_rule_for(more, at, them));
    if n == at {
        assert(robots::rules_for(more, n, them) == robots::rules_for(rs, n, us));
        assert(robots::rules_for(more, n + 1, them) == robots::rules_for(more, n, them));
    }
}

/// A line of no known directive, put in outside a run of agent lines, changes no rule: those
/// before and behind it go on binding, or not, as they did.
pub proof fn law_unknown_directives_change_no_rule(rs: Seq<Record>, at: int)
    requires
        0 <= at <= rs.len(),
        outside_runs(rs, at),
    ensures
        robots::binding_rules(rs.insert(at, Record::Other)) == robots::binding_rules(rs),
{
    lemma_rules_with_other(rs, at, rs.len() as int);
}

/// Where the line `i` stands once a line has been put in at `at`.
spec fn place(at: int, i: int) -> int {
    if i < at {
        i
    } else {
        i + 1
    }
}

proof fn lemma_heads_with_other(rs: Seq<Record>, at: int, k: int, i: int)
    requires
        0 <= at <= rs.len(),
        0 <= k < rs.len(),
        0 <= i < rs.len(),
        outside_runs(rs, at),
    ensures
        robots::heads(rs.insert(at, Record::Other), place(at, k), place(at, i)) == robots::heads(
            rs,
            k,
            i,
        ),
{
    let more = rs.insert(at, Record::Other);
    reveal(outside_runs);
    assert forall|j: int| 0 <= j < rs.len() implies more[place(at, j)] == rs[j] by {}
    if robots::heads(rs, k, i) {
        assert forall|p: int, q: int|
            #![trigger more[p], more[q]]
            place(at, k) < p < q < place(at, i) implies !(robots::is_member(more[p])
            && more[q] is Agent) by {
            let q0 = if q < at {
                q
            } else {
                q - 1
            };
            if q != at && more[q] is Agent {
                assert(more[q] == rs[q0]);
                if p == at {
                    assert(rs[k] is Agent);
                    let m = choose|m: int|
                        k < m < q0 && ((#[trigger] rs[m]) is Rule || rs[m] is Other);
                    assert(!(robots::is_member(rs[m]) && rs[q0] is Agent));
                } else {
                    let p0 = if p < at {
                        p
                    } else {
                        p - 1
                    };
                    assert(more[p] == rs[p0]);
                    assert(k < p0 < q0 < i);
                }
            }
        }
    }
    if robots::heads(more, place(at, k), place(at, i)) {
        assert forall|p: int, q: int|
            #![trigger rs[p], rs[q]]
            k < p < q < i implies !(robots::is_member(rs[p]) && rs[q] is Agent) by {
            assert(more[place(at, p)] == rs[p] && more[place(at, q)] == rs[q]);
        }
    }
}

proof fn lemma_binds_with_other(rs: Seq<Record>, at: int, i: int)
    requires
        0 <= at <= rs.len(),
        0 <= i < rs.len(),
        outside_runs(rs, at),
    ensures
        binds(rs.insert(at, Record::Other), place(at, i)) == binds(rs, i),
{
    let more = rs.insert(at, Record::Other);
    let i2 = place(at, i);
    assert(more[i2] == rs[i]);
    assert((forall|j: int| 0 <= j < rs.len() ==> !is_us(#[trigger] rs[j])) == (forall|j: int|
        0 <= j < more.len() ==> !is_us(#[trigger] more[j]))) by {
        if forall|j: int| 0 <= j < rs.len() ==> !is_us(#[trigger] rs[j]) {
            assert forall|j: int| 0 <= j < more.len() implies !is_us(#[trigger] more[j]) by {
                if j < at {
                    assert(more[j] == rs[j]);
                } else if j > at {
                    assert(more[j] == rs[j - 1]);
                }
            }
        }
        if forall|j: int| 0 <= j < more.len() ==> !is_us(#[trigger] more[j]) {
            assert forall|j: int| 0 <= j < rs.len() implies !is_us(#[trigger] rs[j]) by {
                assert(more[place(at, j)] == rs[j]);
            }
        }
    }
    if binds(rs, i) {
        let k = choose|k: int|
            {
                &&& #[trigger] in_run_before(rs, k, i)
                &&& is_us(rs[k]) || (is_everyone(rs[k]) && forall|j: int|
                    0 <= j < rs.len() ==> !is_us(#[trigger] rs[j]))
            };
        lemma_heads_is_run(rs, k, i);
        lemma_heads_with_other(rs, at, k, i);
        lemma_heads_is_run(more, place(at, k), i2);
        assert(more[place(at, k)] == rs[k]);
        assert(in_run_before(more, place(at, k), i2));
    }
    if binds(more, i2) {
        let m = choose|m: int|
            {
                &&& #[trigger] in_run_before(more, m, i2)
                &&& is_us(more[m]) || (is_everyone(more[m]) && forall|j: int|
                    0 <= j < more.len() ==> !is_us(#[trigger] more[j]))
            };
        assert(m != at);
        let k = if m < at {
            m
        } else {
            m - 1
        };
        assert(more[m] == rs[k]);
        lemma_heads_is_run(more, m, i2);
        lemma_heads_with_other(rs, at, k, i);
        lemma_heads_is_run(rs, k, i);
        assert(in_run_before(rs, k, i));
    }
}

} // verus!
