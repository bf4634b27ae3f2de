//! robots.txt: parsing, the rules that bind this crawler, and the verdict on a path.

use vstd::prelude::*;
use vstd::slice::slice_subrange;
use vstd::string::StrSliceExecFns;

use crate::page_url::PageUrl;
use crate::pattern;
use crate::pattern::{effective_pattern_len, matches_pattern};
use crate::text;
use crate::text::{eq, eq_but_case, find, split_at_each, to_chars, to_text, trim, trim_range};

verus! {

/// The product token by which a robots.txt group addresses this crawler.
pub const ROBOTS_PRODUCT_TOKEN: &'static str = "crw";

/// One `Allow` or `Disallow` rule.
#[derive(Debug, Clone)]
struct Rule {
    pattern: String,
    allow: bool,
}

/// What a rule says: the pattern, and whether it allows.
pub struct RuleView {
    pub pattern: Seq<char>,
    pub allow: bool,
}

impl View for Rule {
    type V = RuleView;

    closed spec fn view(&self) -> RuleView {
        RuleView { pattern: self.pattern@, allow: self.allow }
    }
}

/// What one line of a robots.txt file is.
pub enum Record {
    /// Nothing, or a comment.
    Blank,
    /// `User-agent:` with its value.
    Agent(Seq<char>),
    /// `Sitemap:` with its value.
    Sitemap(Seq<char>),
    /// `Allow:` or `Disallow:` with its pattern.
    Rule(RuleView),
    /// Anything else.
    Other,
}

/// The value of a directive: `line` has to start with `prefix`, the case of ASCII letters aside;
/// the value is the rest up to an inline comment, without the white space around it.
pub open spec fn directive(line: Seq<char>, prefix: Seq<char>) -> Option<Seq<char>> {
    let n = prefix.len() as int;
    if n <= line.len() && text::same_but_case(line.take(n), prefix) {
        Some(text::trimmed(text::before(text::trimmed(line.skip(n)), '#')))
    } else {
        None
    }
}

/// What `line` is.
pub open spec fn record(line: Seq<char>) -> Record {
    let l = text::trimmed(line);
    if l.len() == 0 || l[0] == '#' {
        Record::Blank
    } else {
        match directive(l, "user-agent:"@) {
            Some(agent) => Record::Agent(agent),
            None => match directive(l, "sitemap:"@) {
                Some(url) => Record::Sitemap(url),
                None => match directive(l, "disallow:"@) {
                    Some(pattern) => Record::Rule(RuleView { pattern, allow: false }),
                    None => match directive(l, "allow:"@) {
                        Some(pattern) => Record::Rule(RuleView { pattern, allow: true }),
                        None => Record::Other,
                    },
                },
            },
        }
    }
}

/// The lines of a robots.txt file, one record each.
pub open spec fn records(text: Seq<char>) -> Seq<Record> {
    text::split(text, '\n').map_values(|line: Seq<char>| record(line))
}

/// Whether the record belongs to a group: it is neither an agent line nor one that may stand
/// anywhere.
pub open spec fn is_member(r: Record) -> bool {
    r is Rule || r is Other
}

/// Whether the agent line `k` is one of those that head the group to which line `i` belongs:
/// between the two, no group member is followed by another agent line.
pub open spec fn heads(rs: Seq<Record>, k: int, i: int) -> bool {
    &&& 0 <= k < i <= rs.len()
    &&& rs[k] is Agent
    &&& forall|p: int, q: int|
        #![trigger rs[p], rs[q]]
        k < p < q < i ==> !(is_member(rs[p]) && rs[q] is Agent)
}

/// Whether the record is an agent line that names this crawler (`us`), or everyone.
pub open spec fn names(r: Record, us: bool) -> bool {
    match r {
        Record::Agent(agent) => if us {
            text::same_but_case(agent, ROBOTS_PRODUCT_TOKEN@)
        } else {
            agent == "*"@
        },
        _ => false,
    }
}

/// Whether the group to which line `i` belongs addresses this crawler (`us`), or everyone.
pub open spec fn addressed(rs: Seq<Record>, i: int, us: bool) -> bool {
    exists|k: int| #[trigger] heads(rs, k, i) && names(rs[k], us)
}

/// Whether some agent line names this crawler.
pub open spec fn named(rs: Seq<Record>) -> bool {
    exists|k: int| 0 <= k < rs.len() && names(#[trigger] rs[k], true)
}

/// Whether line `i` is a rule of a group that addresses this crawler (`us`), or everyone but not
/// this crawler by name.
pub open spec fn is_rule_for(rs: Seq<Record>, i: int, us: bool) -> bool {
    &&& rs[i] matches Record::Rule(rule)
    &&& rule.pattern.len() > 0
    &&& if us {
        addressed(rs, i, true)
    } else {
        addressed(rs, i, false) && !addressed(rs, i, true)
    }
}

/// Those rules among the first `n` lines, in order.
pub open spec fn rules_for(rs: Seq<Record>, n: int, us: bool) -> Seq<RuleView>
    decreases n,
{
    if n <= 0 {
        Seq::empty()
    } else if is_rule_for(rs, n - 1, us) {
        rules_for(rs, n - 1, us).push(rs[n - 1]->Rule_0)
    } else {
        rules_for(rs, n - 1, us)
    }
}

/// The rules that bind this crawler: those of the groups that name it if any does, else those of
/// the groups for everyone.
pub open spec fn binding_rules(rs: Seq<Record>) -> Seq<RuleView> {
    rules_for(rs, rs.len() as int, named(rs))
}

/// The sitemaps that the first `n` lines give, in order.
pub open spec fn sitemaps_in(rs: Seq<Record>, n: int) -> Seq<Seq<char>>
    decreases n,
{
    if n <= 0 {
        Seq::empty()
    } else {
        let sofar = sitemaps_in(rs, n - 1);
        match rs[n - 1] {
            Record::Sitemap(url) => if url.len() > 0 {
                sofar.push(url)
            } else {
                sofar
            },
            _ => sofar,
        }
    }
}

/// What a robots.txt file comes to.
pub struct RobotsView {
    pub rules: Seq<RuleView>,
    pub sitemaps: Seq<Seq<char>>,
}

/// What the file `text` comes to.
pub open spec fn parsed(text: Seq<char>) -> RobotsView {
    let rs = records(text);
    RobotsView { rules: binding_rules(rs), sitemaps: sitemaps_in(rs, rs.len() as int) }
}

/// The texts of the strings in `v`.
pub open spec fn texts(v: Seq<String>) -> Seq<Seq<char>> {
    v.map_values(|s: String| s@)
}

/// The rules of a robots.txt file that bind this crawler, and the sitemaps it names.
#[derive(Debug, Clone)]
pub struct RobotsTxt {
    rules: Vec<Rule>,
    pub sitemaps: Vec<String>,
}

spec fn rule_views(rules: Seq<Rule>) -> Seq<RuleView> {
    rules.map_values(|r: Rule| r@)
}

impl View for RobotsTxt {
    type V = RobotsView;

    /// What the rules say, and the texts of the sitemaps.
    closed spec fn view(&self) -> RobotsView {
        RobotsView { rules: rule_views(self.rules@), sitemaps: texts(self.sitemaps@) }
    }
}

/// What a parsed file is taken to be is what it holds: every rule and every sitemap, in order.
proof fn law_view_is_what_is_held(robots: RobotsTxt)
    ensures
        robots@.rules.len() == robots.rules@.len(),
        forall|i: int|
            0 <= i < robots.rules@.len() ==> (#[trigger] robots@.rules[i]).pattern
                == robots.rules@[i].pattern@ && robots@.rules[i].allow == robots.rules@[i].allow,
        robots@.sitemaps.len() == robots.sitemaps@.len(),
        forall|i: int|
            0 <= i < robots.sitemaps@.len() ==> #[trigger] robots@.sitemaps[i]
                == robots.sitemaps@[i]@,
{
}

impl Default for RobotsTxt {
    /// No rules and no sitemaps.
    fn default() -> (r: Self)
        ensures
            r@ == (RobotsView { rules: Seq::empty(), sitemaps: Seq::empty() }),
    {
        let r = RobotsTxt { rules: Vec::new(), sitemaps: Vec::new() };
        assert(rule_views(r.rules@) =~= Seq::<RuleView>::empty());
        assert(texts(r.sitemaps@) =~= Seq::<Seq<char>>::empty());
        r
    }
}

/// One line of a file, its value still part of the text.
enum Line<'a> {
    Blank,
    Agent(&'a [char]),
    Sitemap(&'a [char]),
    Rule(&'a [char], bool),
    Other,
}

impl<'a> View for Line<'a> {
    type V = Record;

    closed spec fn view(&self) -> Record {
        match *self {
            Line::Blank => Record::Blank,
            Line::Agent(v) => Record::Agent(v@),
            Line::Sitemap(v) => Record::Sitemap(v@),
            Line::Rule(v, allow) => Record::Rule(RuleView { pattern: v@, allow }),
            Line::Other => Record::Other,
        }
    }
}

/// Where the value of the directive `prefix` stands on `line`.
fn directive_range(line: &[char], prefix: &str) -> (range: Option<(usize, usize)>)
    ensures
        match range {
            Some((from, to)) => {
                &&& from <= to <= line@.len()
                &&& directive(line@, prefix@) == Some(line@.subrange(from as int, to as int))
            },
            None => directive(line@, prefix@) is None,
        },
{
    let prefix = to_chars(prefix);
    if prefix.len() > line.len() {
        return None;
    }
    let head = slice_subrange(line, 0, prefix.len());
    assert(head@ =~= line@.take(prefix@.len() as int));
    if !eq_but_case(head, prefix.as_slice()) {
        return None;
    }
    let (from, to) = trim_range(line, prefix.len(), line.len());
    assert(line@.subrange(prefix@.len() as int, line@.len() as int) =~= line@.skip(
        prefix@.len() as int,
    ));
    // An inline comment is no part of the value.
    let value = slice_subrange(line, from, to);
    let comment: usize = find(value, '#');
    proof {
        text::lemma_first_index(value@, '#');
        assert(line@.subrange(from as int, from + comment) =~= value@.take(comment as int));
    }
    Some(trim_range(line, from, from + comment))
}

/// The value of the directive `prefix` on `line`, as a part of `line`.
fn directive_part<'a>(line: &'a [char], prefix: &str) -> (value: Option<&'a [char]>)
    ensures
        match value {
            Some(v) => directive(line@, prefix@) == Some(v@),
            None => directive(line@, prefix@) is None,
        },
{
    match directive_range(line, prefix) {
        Some((from, to)) => Some(slice_subrange(line, from, to)),
        None => None,
    }
}

/// Reads one line.
fn classify<'a>(line: &'a [char]) -> (r: Line<'a>)
    ensures
        r@ == record(line@),
{
    let line = trim(line);
    if line.len() == 0 || line[0] == '#' {
        return Line::Blank;
    }
    if let Some(agent) = directive_part(line, "user-agent:") {
        return Line::Agent(agent);
    }
    if let Some(url) = directive_part(line, "sitemap:") {
        return Line::Sitemap(url);
    }
    if let Some(pattern) = directive_part(line, "disallow:") {
        return Line::Rule(pattern, false);
    }
    if let Some(pattern) = directive_part(line, "allow:") {
        return Line::Rule(pattern, true);
    }
    Line::Other
}

/// Whether the lines before `i` end in a run of agent lines.
spec fn in_run(rs: Seq<Record>, i: int) -> bool {
    exists|p: int|
        0 <= p < i && (#[trigger] rs[p]) is Agent && forall|q: int|
            p < q < i ==> !is_member(#[trigger] rs[q])
}

/// How one more line changes the current group and the run of agent lines.
proof fn lemma_group_step(rs: Seq<Record>, i: int, us: bool)
    requires
        0 <= i < rs.len(),
    ensures
        rs[i] is Agent ==> in_run(rs, i + 1) && addressed(rs, i + 1, us) == (names(rs[i], us) || (
        in_run(rs, i) && addressed(rs, i, us))),
        !(rs[i] is Agent) ==> addressed(rs, i + 1, us) == addressed(rs, i, us),
        !(rs[i] is Agent) ==> in_run(rs, i + 1) == (in_run(rs, i) && !is_member(rs[i])),
{
    if rs[i] is Agent {
        assert(heads(rs, i, i + 1));
        if addressed(rs, i + 1, us) {
            let k = choose|k: int| #[trigger] heads(rs, k, i + 1) && names(rs[k], us);
            if k < i {
                assert(heads(rs, k, i));
                assert forall|q: int| k < q < i implies !is_member(#[trigger] rs[q]) by {
                    assert(rs[i] is Agent);
                }
            }
        }
        if in_run(rs, i) && addressed(rs, i, us) {
            let k = choose|k: int| #[trigger] heads(rs, k, i) && names(rs[k], us);
            let p = choose|p: int|
                0 <= p < i && (#[trigger] rs[p]) is Agent && forall|q: int|
                    p < q < i ==> !is_member(#[trigger] rs[q]);
            assert forall|a: int, b: int|
                #![trigger rs[a], rs[b]]
                k < a < b < i + 1 implies !(is_member(rs[a]) && rs[b] is Agent) by {
                if b == i && is_member(rs[a]) {
                    assert(a < p);
                }
            }
            assert(heads(rs, k, i + 1));
        }
    } else {
        if addressed(rs, i, us) {
            let k = choose|k: int| #[trigger] heads(rs, k, i) && names(rs[k], us);
            assert(heads(rs, k, i + 1));
        }
        if addressed(rs, i + 1, us) {
            let k = choose|k: int| #[trigger] heads(rs, k, i + 1) && names(rs[k], us);
            assert(heads(rs, k, i));
        }
        if in_run(rs, i + 1) {
            let p = choose|p: int|
                0 <= p < i + 1 && (#[trigger] rs[p]) is Agent && forall|q: int|
                    p < q < i + 1 ==> !is_member(#[trigger] rs[q]);
            assert(p < i);
            assert(!is_member(rs[i]));
        }
    }
}

impl RobotsTxt {
    /// Parse into the rules that bind us.
    ///
    /// A run of consecutive `User-agent:` lines heads one group, and the group applies if any of
    /// them matches. A group that names our product token suppresses the groups for `*`, even
    /// when it holds no rule. `Sitemap:` may stand anywhere and closes no run.
    pub fn parse(text: &str) -> (r: Self)
        ensures
            r@ == parsed(text@),
    {
        let mut exact: Vec<Rule> = Vec::new();
        let mut wildcard: Vec<Rule> = Vec::new();
        let mut sitemaps: Vec<String> = Vec::new();
        // Which bucket the group being read writes into, and whether any group named us: one
        // with no rules still suppresses `*`, so this cannot be told from `exact`.
        let mut group_exact = false;
        let mut group_wildcard = false;
        let mut saw_exact = false;
        let mut in_agent_run = false;

        let chars = to_chars(text);
        let token = to_chars(ROBOTS_PRODUCT_TOKEN);
        let everyone = to_chars("*");
        let lines = split_at_each(chars.as_slice(), '\n');
        let ghost rs = records(text@);
        for i in 0..lines.len()
            invariant
                rs == records(text@),
                token@ == ROBOTS_PRODUCT_TOKEN@,
                everyone@ == "*"@,
                text::pieces(lines@) == text::split(text@, '\n'),
                rs.len() == lines@.len(),
                in_agent_run == in_run(rs, i as int),
                group_exact == addressed(rs, i as int, true),
                group_wildcard == addressed(rs, i as int, false),
                saw_exact == exists|k: int| 0 <= k < i && names(#[trigger] rs[k], true),
                rule_views(exact@) == rules_for(rs, i as int, true),
                rule_views(wildcard@) == rules_for(rs, i as int, false),
                texts(sitemaps@) == sitemaps_in(rs, i as int),
        {
            let line = lines[i];
            assert(rs[i as int] == record(line@)) by {
                assert(text::pieces(lines@)[i as int] == line@);
            }
            let ghost (exact0, wildcard0, sitemaps0) = (exact@, wildcard@, sitemaps@);
            proof {
                lemma_group_step(rs, i as int, true);
                lemma_group_step(rs, i as int, false);
            }
            match classify(line) {
                Line::Blank => {},
                Line::Agent(agent) => {
                    if !in_agent_run {
                        group_exact = false;
                        group_wildcard = false;
                        in_agent_run = true;
                    }
                    if eq_but_case(agent, token.as_slice()) {
                        group_exact = true;
                        saw_exact = true;
                        assert(names(rs[i as int], true));
                    }
                    if eq(agent, everyone.as_slice()) {
                        group_wildcard = true;
                    }
                },
                Line::Sitemap(url) => {
                    if url.len() > 0 {
                        sitemaps.push(to_text(url));
                        assert(texts(sitemaps@) =~= texts(sitemaps0).push(url@));
                    }
                },
                Line::Rule(pattern, allow) => {
                    in_agent_run = false;
                    if pattern.len() > 0 {
                        let rule = Rule { pattern: to_text(pattern), allow };
                        let ghost rule_view = rule@;
                        // A group naming us wins outright, so one that also names `*` writes
                        // only to `exact`.
                        if group_exact {
                            exact.push(rule);
                            assert(rule_views(exact@) =~= rule_views(exact0).push(rule_view));
                        } else if group_wildcard {
                            wildcard.push(rule);
                            assert(rule_views(wildcard@) =~= rule_views(wildcard0).push(rule_view));
                        }
                    }
                },
                Line::Other => {
                    in_agent_run = false;
                },
            }
        }
        RobotsTxt { rules: if saw_exact { exact } else { wildcard }, sitemaps }
    }
}

/// Whether `rules` allow `path`: every rule against it that covers it is answered by one for it
/// that covers it too and is at least as specific.
pub open spec fn allowed(rules: Seq<RuleView>, path: Seq<char>) -> bool {
    forall|i: int|
        0 <= i < rules.len() && forbids(#[trigger] rules[i], path) ==> exists|j: int|
            0 <= j < rules.len() && permits(#[trigger] rules[j], path) && pattern::specificity(
                rules[j].pattern,
            ) >= pattern::specificity(rules[i].pattern)
}

/// Whether the rule is one against `path`.
pub open spec fn forbids(rule: RuleView, path: Seq<char>) -> bool {
    !rule.allow && pattern::covers(rule.pattern, path)
}

/// Whether the rule is one for `path`.
pub open spec fn permits(rule: RuleView, path: Seq<char>) -> bool {
    rule.allow && pattern::covers(rule.pattern, path)
}

/// What stands of the best rule among the first `n`: none covers the path, or the best has
/// specificity `len`, and allows if any that is as specific does.
spec fn best_rule(
    rules: Seq<RuleView>,
    path: Seq<char>,
    n: int,
    best: Option<(usize, bool)>,
) -> bool {
    match best {
        None => forall|i: int| 0 <= i < n ==> !pattern::covers(#[trigger] rules[i].pattern, path),
        Some((len, allow)) => {
            &&& exists|j: int|
                0 <= j < n && pattern::covers(#[trigger] rules[j].pattern, path)
                    && pattern::specificity(rules[j].pattern) == len && rules[j].allow == allow
            &&& forall|i: int|
                0 <= i < n && pattern::covers(#[trigger] rules[i].pattern, path) ==> {
                    ||| pattern::specificity(rules[i].pattern) < len
                    ||| pattern::specificity(rules[i].pattern) == len && (rules[i].allow ==> allow)
                }
        },
    }
}

/// One more rule takes the place of the best so far if it covers the path and is more specific,
/// or as specific and allows.
proof fn lemma_best_step(
    rules: Seq<RuleView>,
    path: Seq<char>,
    n: int,
    best: Option<(usize, bool)>,
    next: Option<(usize, bool)>,
)
    requires
        0 <= n < rules.len(),
        best_rule(rules, path, n, best),
        if pattern::covers(rules[n].pattern, path) {
            let len = pattern::specificity(rules[n].pattern);
            match best {
                Some((best_len, _)) if len < best_len || (len == best_len
                    && !rules[n].allow) => next == best,
                _ => next matches Some((l, a)) && l == len && a == rules[n].allow,
            }
        } else {
            next == best
        },
    ensures
        best_rule(rules, path, n + 1, next),
{
    if next == best {
        if let Some((len, allow)) = best {
            let j = choose|j: int|
                0 <= j < n && pattern::covers(#[trigger] rules[j].pattern, path)
                    && pattern::specificity(rules[j].pattern) == len && rules[j].allow == allow;
            assert(0 <= j < n + 1 && pattern::covers(rules[j].pattern, path));
        }
    } else {
        assert(pattern::covers(rules[n].pattern, path));
    }
}

/// The best rule decides.
proof fn lemma_best_rule(rules: Seq<RuleView>, path: Seq<char>, best: Option<(usize, bool)>)
    requires
        best_rule(rules, path, rules.len() as int, best),
    ensures
        allowed(rules, path) == match best {
            None => true,
            Some((_, allow)) => allow,
        },
{
    match best {
        None => {},
        Some((len, allow)) => {
            let n = rules.len() as int;
            let j = choose|j: int|
                0 <= j < n && pattern::covers(#[trigger] rules[j].pattern, path)
                    && pattern::specificity(rules[j].pattern) == len && rules[j].allow == allow;
            if allow {
                assert(permits(rules[j], path));
            } else {
                assert(forbids(rules[j], path));
                assert forall|i: int| 0 <= i < n && permits(#[trigger] rules[i], path) implies
                    pattern::specificity(rules[i].pattern) < pattern::specificity(
                    rules[j].pattern,
                ) by {
                    assert(pattern::covers(rules[i].pattern, path));
                }
            }
        },
    }
}

impl RobotsTxt {
    /// Check if a path is allowed.
    ///
    /// The most specific (longest) pattern that covers the path wins, `*` and `$` not counted;
    /// between two of equal length, Allow wins. A path that no pattern covers is allowed.
    pub fn is_allowed(&self, path: &str) -> (r: bool)
        ensures
            r == allowed(self@.rules, path@),
    {
        let mut best: Option<(usize, bool)> = None;
        for i in 0..self.rules.len()
            invariant
                best_rule(self@.rules, path@, i as int, best),
        {
            let rule = &self.rules[i];
            let ghost before = best;
            assert(self@.rules[i as int] == rule@);
            if matches_pattern(path, rule.pattern.as_str()) {
                let len: usize = effective_pattern_len(rule.pattern.as_str());
                let wins = match best {
                    None => true,
                    Some((best_len, _)) => len > best_len || (len == best_len && rule.allow),
                };
                if wins {
                    best = Some((len, rule.allow));
                }
            }
            proof {
                lemma_best_step(self@.rules, path@, i as int, before, best);
            }
        }
        proof {
            lemma_best_rule(self@.rules, path@, best);
        }
        match best {
            Some((_, allow)) => allow,
            None => true,
        }
    }

    /// Check whether a URL may be fetched, matching on path and query: rules routinely key on
    /// the query, and dropping it would allow what they forbid.
    pub fn is_url_allowed(&self, url: &PageUrl) -> (r: bool)
        ensures
            r == allowed(self@.rules, url.target()),
            match url.query {
                Some(q) => r == allowed(self@.rules, url.path@ + seq!['?'] + q@),
                None => r == allowed(self@.rules, url.path@),
            },
    {
        let path_and_query = url.path_and_query();
        self.is_allowed(path_and_query.as_str())
    }
}

/// Extract a directive value with an ASCII case-insensitive prefix.
pub fn directive_value<'a>(line: &'a str, prefix: &str) -> (value: Option<&'a str>)
    ensures
        match value {
            Some(v) => directive(line@, prefix@) == Some(v@),
            None => directive(line@, prefix@) is None,
        },
{
    let chars = to_chars(line);
    match directive_range(chars.as_slice(), prefix) {
        Some((from, to)) => Some(line.substring_char(from, to)),
        None => None,
    }
}

} // verus!
