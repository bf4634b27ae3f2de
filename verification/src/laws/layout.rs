//! Laws of how a robots.txt file is laid out: blank lines, comment lines, white space round a
//! line, CRLF line ends and the case of directive names mean nothing.

use vstd::prelude::*;

use crate::robots;
use crate::robots::Record;
use crate::text;

verus! {

/// Whether a line says nothing: there is only white space on it, or its first other character is a
/// `#`.
pub open spec fn is_idle(line: Seq<char>) -> bool {
    text::trimmed(line).len() == 0 || text::trimmed(line)[0] == '#'
}

/// Whether two texts are equal but for the case of the ASCII letters before the first colon.
pub open spec fn same_but_name_case(a: Seq<char>, b: Seq<char>) -> bool {
    &&& text::same_but_case(a, b)
    &&& forall|i: int| text::first_index(a, ':') <= i < a.len() ==> #[trigger] a[i] == b[i]
}

/// Whether two lines are equal but for the white space round them and the case of the directive
/// name.
pub open spec fn same_line(a: Seq<char>, b: Seq<char>) -> bool {
    same_but_name_case(text::trimmed(a), text::trimmed(b))
}

/// The lines that say something.
pub open spec fn telling(lines: Seq<Seq<char>>) -> Seq<Seq<char>>
    decreases lines.len(),
{
    if lines.len() == 0 {
        Seq::empty()
    } else if is_idle(lines.last()) {
        telling(lines.drop_last())
    } else {
        telling(lines.drop_last()).push(lines.last())
    }
}

/// Whether lines are the same, one by one.
pub open spec fn same_lines(a: Seq<Seq<char>>, b: Seq<Seq<char>>) -> bool {
    &&& a.len() == b.len()
    &&& forall|i: int| 0 <= i < a.len() ==> same_line(#[trigger] a[i], b[i])
}

/// Whether two files differ only in blank lines, comment lines, the white space round a line (the
/// carriage returns of CRLF line ends are such), and the case of directive names.
pub open spec fn same_but_layout(a: Seq<char>, b: Seq<char>) -> bool {
    same_lines(telling(text::split(a, '\n')), telling(text::split(b, '\n')))
}

/// The file with these lines.
pub open spec fn joined(lines: Seq<Seq<char>>) -> Seq<char>
    decreases lines.len(),
{
    if lines.len() == 0 {
        Seq::empty()
    } else if lines.len() == 1 {
        lines[0]
    } else {
        lines[0].push('\n') + joined(lines.skip(1))
    }
}

/// Whether these are the lines of a file: at least one, none with a line feed on it.
pub open spec fn are_lines(lines: Seq<Seq<char>>) -> bool {
    &&& lines.len() > 0
    &&& forall|i: int| 0 <= i < lines.len() ==> !(#[trigger] lines[i]).contains('\n')
}

/// The file with CRLF line ends in place of its line feeds.
pub open spec fn with_crlf(s: Seq<char>) -> Seq<char>
    decreases s.len(),
{
    if s.len() == 0 {
        s
    } else if s[0] == '\n' {
        seq!['\r', '\n'] + with_crlf(s.skip(1))
    } else {
        seq![s[0]] + with_crlf(s.skip(1))
    }
}

/// Whether there is nothing but white space.
pub open spec fn all_space(s: Seq<char>) -> bool {
    forall|i: int| 0 <= i < s.len() ==> text::white_space(#[trigger] s[i])
}

proof fn lemma_name_case_symmetric(a: Seq<char>, b: Seq<char>)
    requires
        same_but_name_case(a, b),
    ensures
        text::first_index(a, ':') == text::first_index(b, ':'),
        same_but_name_case(b, a),
{
    let n = text::first_index(a, ':');
    text::lemma_first_index(a, ':');
    assert forall|i: int| 0 <= i < n implies b[i] != ':' by {
        assert(text::same_letter(a[i], b[i]));
    }
    if n < a.len() {
        assert(a[n] == b[n]);
    }
    text::lemma_first_index_unique(b, ':', n);
    assert forall|i: int| 0 <= i < b.len() implies text::same_letter(#[trigger] b[i], a[i]) by {
        assert(text::same_letter(a[i], b[i]));
    }
    assert forall|i: int| n <= i < b.len() implies #[trigger] b[i] == a[i] by {
        assert(a[i] == b[i]);
    }
}

/// A directive name ends with its colon, so its case is all that may differ.
proof fn lemma_directive_of_same(a: Seq<char>, b: Seq<char>, prefix: Seq<char>)
    requires
        same_but_name_case(a, b),
        prefix.len() > 0,
        prefix.last() == ':',
        robots::directive(a, prefix) is Some,
    ensures
        robots::directive(b, prefix) == robots::directive(a, prefix),
{
    let n = prefix.len() as int;
    text::lemma_first_index(a, ':');
    assert(text::same_letter(a.take(n)[n - 1], prefix[n - 1]));
    assert(a[n - 1] == ':');
    assert forall|i: int| 0 <= i < n implies text::same_letter(
        #[trigger] b.take(n)[i],
        prefix[i],
    ) by {
        assert(text::same_letter(a.take(n)[i], prefix[i]));
        assert(text::same_letter(a[i], b[i]));
        text::lemma_same_letter(a[i], b[i], prefix[i]);
    }
    assert(a.skip(n) =~= b.skip(n));
}

proof fn lemma_directive_agrees(a: Seq<char>, b: Seq<char>, prefix: Seq<char>)
    requires
        same_but_name_case(a, b),
        prefix.len() > 0,
        prefix.last() == ':',
    ensures
        robots::directive(b, prefix) == robots::directive(a, prefix),
{
    lemma_name_case_symmetric(a, b);
    if robots::directive(a, prefix) is Some {
        lemma_directive_of_same(a, b, prefix);
    }
    if robots::directive(b, prefix) is Some {
        lemma_directive_of_same(b, a, prefix);
    }
}

/// A line is read without regard to the white space round it and the case of its directive name.
pub proof fn law_same_line_reads_the_same(a: Seq<char>, b: Seq<char>)
    requires
        same_line(a, b),
    ensures
        robots::record(a) == robots::record(b),
        is_idle(a) == is_idle(b),
{
    let (x, y) = (text::trimmed(a), text::trimmed(b));
    if x.len() > 0 {
        assert(text::same_letter(x[0], y[0]));
    }
    reveal_strlit("user-agent:");
    reveal_strlit("sitemap:");
    reveal_strlit("disallow:");
    reveal_strlit("allow:");
    lemma_directive_agrees(x, y, "user-agent:"@);
    lemma_directive_agrees(x, y, "sitemap:"@);
    lemma_directive_agrees(x, y, "disallow:"@);
    lemma_directive_agrees(x, y, "allow:"@);
}

/// The records that are not blank.
spec fn without_blank(rs: Seq<Record>) -> Seq<Record>
    decreases rs.len(),
{
    if rs.len() == 0 {
        Seq::empty()
    } else if rs.last() is Blank {
        without_blank(rs.drop_last())
    } else {
        without_blank(rs.drop_last()).push(rs.last())
    }
}

proof fn lemma_without_blank_add(a: Seq<Record>, b: Seq<Record>)
    ensures
        without_blank(a + b) == without_blank(a) + without_blank(b),
    decreases b.len(),
{
    if b.len() == 0 {
        assert(a + b =~= a);
    } else {
        assert((a + b).drop_last() =~= a + b.drop_last());
        lemma_without_blank_add(a, b.drop_last());
    }
}

proof fn lemma_sitemaps_with_blank(rs: Seq<Record>, at: int, n: int)
    requires
        0 <= at <= rs.len(),
        0 <= n <= rs.len(),
    ensures
        n <= at ==> robots::sitemaps_in(rs.insert(at, Record::Blank), n) == robots::sitemaps_in(
            rs,
            n,
        ),
        n >= at ==> robots::sitemaps_in(rs.insert(at, Record::Blank), n + 1)
            == robots::sitemaps_in(rs, n),
    decreases n,
{
    let more = rs.insert(at, Record::Blank);
    if n > 0 {
        lemma_sitemaps_with_blank(rs, at, n - 1);
        if n <= at {
            assert(more[n - 1] == rs[n - 1]);
        } else {
            assert(more[n] == rs[n - 1]);
        }
    }
    if n == at {
        assert(more[at] == Record::Blank);
        assert(robots::sitemaps_in(more, n + 1) == robots::sitemaps_in(more, n));
    }
}

proof fn lemma_blanks_count_for_nothing(rs: Seq<Record>)
    ensures
        robots::binding_rules(rs) == robots::binding_rules(without_blank(rs)),
        robots::sitemaps_in(rs, rs.len() as int) == robots::sitemaps_in(
            without_blank(rs),
            without_blank(rs).len() as int,
        ),
    decreases rs.len(),
{
    if exists|i: int| 0 <= i < rs.len() && #[trigger] rs[i] is Blank {
        let at = choose|i: int| 0 <= i < rs.len() && #[trigger] rs[i] is Blank;
        let (head, tail) = (rs.take(at), rs.skip(at + 1));
        let less = head + tail;
        let blank = seq![Record::Blank];
        assert(less.insert(at, Record::Blank) =~= rs);
        crate::laws::robots::law_neutral_lines_change_no_rule(less, at, Record::Blank);
        lemma_sitemaps_with_blank(less, at, less.len() as int);
        assert(without_blank(blank) =~= Seq::<Record>::empty()) by {
            assert(blank.drop_last() =~= Seq::<Record>::empty());
            reveal_with_fuel(without_blank, 2);
        }
        assert(rs =~= head + blank + tail);
        lemma_without_blank_add(head, blank);
        lemma_without_blank_add(head + blank, tail);
        lemma_without_blank_add(head, tail);
        assert(without_blank(head) + without_blank(blank) =~= without_blank(head));
        lemma_blanks_count_for_nothing(less);
    } else {
        lemma_nothing_blank(rs);
    }
}

proof fn lemma_nothing_blank(rs: Seq<Record>)
    requires
        forall|i: int| 0 <= i < rs.len() ==> !(#[trigger] rs[i] is Blank),
    ensures
        without_blank(rs) == rs,
    decreases rs.len(),
{
    if rs.len() > 0 {
        lemma_nothing_blank(rs.drop_last());
        assert(rs.drop_last().push(rs.last()) =~= rs);
    } else {
        assert(without_blank(rs) =~= rs);
    }
}

/// What the lines are, one record each.
spec fn read(lines: Seq<Seq<char>>) -> Seq<Record> {
    lines.map_values(|line: Seq<char>| robots::record(line))
}

proof fn lemma_telling_lines(lines: Seq<Seq<char>>)
    ensures
        without_blank(read(lines)) == read(telling(lines)),
    decreases lines.len(),
{
    if lines.len() == 0 {
        assert(read(lines) =~= Seq::<Record>::empty());
        assert(read(telling(lines)) =~= Seq::<Record>::empty());
    } else {
        lemma_telling_lines(lines.drop_last());
        assert(read(lines).drop_last() =~= read(lines.drop_last()));
        assert(read(lines).last() == robots::record(lines.last()));
        assert((robots::record(lines.last()) is Blank) == is_idle(lines.last()));
        if !is_idle(lines.last()) {
            assert(read(telling(lines)) =~= read(telling(lines.drop_last())).push(
                robots::record(lines.last()),
            ));
        }
    }
}

/// Blank lines, comment lines, white space round a line, CRLF line ends and the case of directive
/// names change nothing: two files that differ only so come to the same rules and sitemaps.
pub proof fn law_layout_changes_nothing(a: Seq<char>, b: Seq<char>)
    requires
        same_but_layout(a, b),
    ensures
        robots::parsed(a) == robots::parsed(b),
{
    let (x, y) = (text::split(a, '\n'), text::split(b, '\n'));
    let (s, t) = (telling(x), telling(y));
    lemma_telling_lines(x);
    lemma_telling_lines(y);
    assert forall|i: int| 0 <= i < s.len() implies robots::record(#[trigger] s[i])
        == robots::record(t[i]) by {
        law_same_line_reads_the_same(s[i], t[i]);
    }
    assert(read(s) =~= read(t));
    lemma_blanks_count_for_nothing(robots::records(a));
    lemma_blanks_count_for_nothing(robots::records(b));
    assert(robots::records(a) == read(x));
    assert(robots::records(b) == read(y));
}

proof fn lemma_telling_same(a: Seq<Seq<char>>, b: Seq<Seq<char>>)
    requires
        same_lines(a, b),
    ensures
        same_lines(telling(a), telling(b)),
    decreases a.len(),
{
    if a.len() > 0 {
        let (x, y) = (a.drop_last(), b.drop_last());
        assert forall|i: int| 0 <= i < x.len() implies same_line(#[trigger] x[i], y[i]) by {
            assert(same_line(a[i], b[i]));
        }
        lemma_telling_same(x, y);
        assert(same_line(a[a.len() - 1], b[a.len() - 1]));
        law_same_line_reads_the_same(a.last(), b.last());
        if !is_idle(a.last()) {
            assert forall|i: int| 0 <= i < telling(a).len() implies same_line(
                #[trigger] telling(a)[i],
                telling(b)[i],
            ) by {
                if i < telling(x).len() {
                    assert(same_line(telling(x)[i], telling(y)[i]));
                }
            }
        }
    }
}

proof fn lemma_same_line_reflexive(line: Seq<char>)
    ensures
        same_line(line, line),
{
}

proof fn lemma_no_separator(s: Seq<char>)
    requires
        !s.contains('\n'),
    ensures
        text::split(s, '\n') == seq![s],
{
    text::lemma_first_index_unique(s, '\n', s.len() as int);
}

/// The lines of a file are those that it is made of.
pub proof fn law_lines_come_back(lines: Seq<Seq<char>>)
    requires
        are_lines(lines),
    ensures
        text::split(joined(lines), '\n') == lines,
    decreases lines.len(),
{
    assert(!lines[0].contains('\n'));
    lemma_no_separator(lines[0]);
    if lines.len() == 1 {
        assert(seq![lines[0]] =~= lines);
    } else {
        let rest = lines.skip(1);
        assert forall|i: int| 0 <= i < rest.len() implies !(#[trigger] rest[i]).contains('\n') by {
            assert(!lines[i + 1].contains('\n'));
        }
        law_lines_come_back(rest);
        text::lemma_split_at_separator(lines[0], '\n', joined(rest));
        assert(seq![lines[0]] + rest =~= lines);
    }
}

/// Every file is made of its lines.
pub proof fn law_every_file_has_lines(s: Seq<char>)
    ensures
        are_lines(text::split(s, '\n')),
        joined(text::split(s, '\n')) == s,
    decreases s.len(),
{
    let i = text::first_index(s, '\n');
    text::lemma_first_index(s, '\n');
    let head = s.take(i);
    assert(!head.contains('\n')) by {
        if head.contains('\n') {
            let j = choose|j: int| 0 <= j < head.len() && head[j] == '\n';
            assert(s[j] == '\n');
        }
    }
    if i < s.len() {
        let rest = s.skip(i + 1);
        law_every_file_has_lines(rest);
        let lines = text::split(s, '\n');
        assert(lines.skip(1) =~= text::split(rest, '\n'));
        assert forall|k: int| 0 <= k < lines.len() implies !(#[trigger] lines[k]).contains(
            '\n',
        ) by {
            if k > 0 {
                assert(!text::split(rest, '\n')[k - 1].contains('\n'));
            }
        }
        assert(head.push('\n') + rest =~= s);
    } else {
        assert(head =~= s);
    }
}

/// A line may be written otherwise: with other white space round it, or its directive name in
/// another case.
pub proof fn law_line_may_be_rewritten(lines: Seq<Seq<char>>, at: int, line: Seq<char>)
    requires
        are_lines(lines),
        0 <= at < lines.len(),
        !line.contains('\n'),
        same_line(lines[at], line),
    ensures
        robots::parsed(joined(lines.update(at, line))) == robots::parsed(joined(lines)),
{
    let other = lines.update(at, line);
    assert forall|i: int| 0 <= i < other.len() implies !(#[trigger] other[i]).contains('\n') by {
        if i != at {
            assert(!lines[i].contains('\n'));
        }
    }
    law_lines_come_back(lines);
    law_lines_come_back(other);
    assert forall|i: int| 0 <= i < lines.len() implies same_line(#[trigger] lines[i], other[i]) by {
        lemma_same_line_reflexive(lines[i]);
    }
    lemma_telling_same(lines, other);
    law_layout_changes_nothing(joined(lines), joined(other));
}

proof fn lemma_telling_add(a: Seq<Seq<char>>, b: Seq<Seq<char>>)
    ensures
        telling(a + b) == telling(a) + telling(b),
    decreases b.len(),
{
    if b.len() == 0 {
        assert(a + b =~= a);
    } else {
        assert((a + b).drop_last() =~= a + b.drop_last());
        lemma_telling_add(a, b.drop_last());
    }
}

/// A blank line or a comment line may be put in anywhere.
pub proof fn law_idle_line_may_be_inserted(lines: Seq<Seq<char>>, at: int, line: Seq<char>)
    requires
        are_lines(lines),
        0 <= at <= lines.len(),
        !line.contains('\n'),
        is_idle(line),
    ensures
        robots::parsed(joined(lines.insert(at, line))) == robots::parsed(joined(lines)),
{
    let more = lines.insert(at, line);
    assert forall|i: int| 0 <= i < more.len() implies !(#[trigger] more[i]).contains('\n') by {
        if i < at {
            assert(!lines[i].contains('\n'));
        } else if i > at {
            assert(!lines[i - 1].contains('\n'));
        }
    }
    law_lines_come_back(lines);
    law_lines_come_back(more);
    let (head, one, tail) = (lines.take(at), seq![line], lines.skip(at));
    assert(more =~= head + one + tail);
    assert(lines =~= head + tail);
    assert(telling(one) =~= Seq::<Seq<char>>::empty()) by {
        assert(one.drop_last() =~= Seq::<Seq<char>>::empty());
        reveal_with_fuel(telling, 2);
    }
    lemma_telling_add(head, one);
    lemma_telling_add(head + one, tail);
    lemma_telling_add(head, tail);
    assert(telling(head) + telling(one) =~= telling(head));
    assert forall|i: int| 0 <= i < telling(lines).len() implies same_line(
        #[trigger] telling(lines)[i],
        telling(more)[i],
    ) by {
        lemma_same_line_reflexive(telling(lines)[i]);
    }
    law_layout_changes_nothing(joined(lines), joined(more));
}

/// Leading white space is trimmed away.
pub proof fn lemma_trim_leading(lead: Seq<char>, s: Seq<char>)
    requires
        all_space(lead),
    ensures
        text::trimmed_start(lead + s) == text::trimmed_start(s),
    decreases lead.len(),
{
    if lead.len() == 0 {
        assert(lead + s =~= s);
    } else {
        assert(text::white_space(lead[0]));
        let rest = lead.skip(1);
        assert forall|i: int| 0 <= i < rest.len() implies text::white_space(#[trigger] rest[i]) by {
            assert(text::white_space(lead[i + 1]));
        }
        assert((lead + s).skip(1) =~= rest + s);
        lemma_trim_leading(rest, s);
    }
}

/// Trailing white space is trimmed away.
pub proof fn lemma_trim_trailing(s: Seq<char>, trail: Seq<char>)
    requires
        all_space(trail),
    ensures
        text::trimmed(s + trail) == text::trimmed(s),
    decreases trail.len(),
{
    if trail.len() == 0 {
        assert(s + trail =~= s);
    } else {
        let rest = trail.drop_last();
        assert forall|i: int| 0 <= i < rest.len() implies text::white_space(#[trigger] rest[i]) by {
            assert(text::white_space(trail[i]));
        }
        assert(text::white_space(trail[trail.len() - 1]));
        assert(s + trail =~= (s + rest).push(trail.last()));
        text::lemma_trim_pushed_space(s + rest, trail.last());
        lemma_trim_trailing(s, rest);
    }
}

/// White space put before and behind a text that neither starts nor ends with any is trimmed away
/// again.
pub proof fn law_space_round_a_line_is_trimmed(lead: Seq<char>, core: Seq<char>, trail: Seq<char>)
    requires
        all_space(lead),
        all_space(trail),
        core.len() > 0 ==> !text::white_space(core[0]) && !text::white_space(core.last()),
    ensures
        text::trimmed(lead + core + trail) == core,
{
    lemma_trim_trailing(lead + core, trail);
    lemma_trim_leading(lead, core);
}

/// White space put before and behind a line leaves it the same line.
pub proof fn law_space_round_a_line_is_ignored(lead: Seq<char>, line: Seq<char>, trail: Seq<char>)
    requires
        all_space(lead),
        all_space(trail),
    ensures
        same_line(line, lead + line + trail),
{
    lemma_trim_trailing(lead + line, trail);
    lemma_trim_leading(lead, line);
    lemma_same_line_reflexive(line);
}

proof fn lemma_name_case_trim_start(a: Seq<char>, b: Seq<char>)
    requires
        same_but_name_case(a, b),
    ensures
        same_but_name_case(text::trimmed_start(a), text::trimmed_start(b)),
    decreases a.len(),
{
    if a.len() > 0 {
        assert(text::same_letter(a[0], b[0]));
        if text::white_space(a[0]) {
            let (x, y) = (a.skip(1), b.skip(1));
            assert forall|i: int| 0 <= i < x.len() implies text::same_letter(
                #[trigger] x[i],
                y[i],
            ) by {
                assert(text::same_letter(a[i + 1], b[i + 1]));
            }
            assert forall|i: int| text::first_index(x, ':') <= i < x.len() implies #[trigger] x[i]
                == y[i] by {
                text::lemma_first_index(x, ':');
                assert(a[i + 1] == b[i + 1]);
            }
            lemma_name_case_trim_start(x, y);
        }
    }
}

proof fn lemma_name_case_trim_end(a: Seq<char>, b: Seq<char>)
    requires
        same_but_name_case(a, b),
    ensures
        same_but_name_case(text::trimmed_end(a), text::trimmed_end(b)),
    decreases a.len(),
{
    if a.len() > 0 {
        let n = a.len() - 1;
        assert(text::same_letter(a[n], b[n]));
        if text::white_space(a.last()) {
            let (x, y) = (a.drop_last(), b.drop_last());
            let colon = text::first_index(a, ':');
            text::lemma_first_index(a, ':');
            text::lemma_first_index_unique(x, ':', if colon < n { colon } else { n });
            assert forall|i: int| 0 <= i < x.len() implies text::same_letter(
                #[trigger] x[i],
                y[i],
            ) by {
                assert(text::same_letter(a[i], b[i]));
            }
            assert forall|i: int| text::first_index(x, ':') <= i < x.len() implies #[trigger] x[i]
                == y[i] by {
                assert(a[i] == b[i]);
            }
            lemma_name_case_trim_end(x, y);
        }
    }
}

/// The case of the letters before the first colon leaves a line the same line.
pub proof fn law_case_of_a_name_is_ignored(a: Seq<char>, b: Seq<char>)
    requires
        same_but_name_case(a, b),
    ensures
        same_line(a, b),
{
    lemma_name_case_trim_start(a, b);
    lemma_name_case_trim_end(text::trimmed_start(a), text::trimmed_start(b));
}

proof fn lemma_crlf_behind(a: Seq<char>, s: Seq<char>)
    requires
        !a.contains('\n'),
    ensures
        with_crlf(a + s) == a + with_crlf(s),
    decreases a.len(),
{
    if a.len() == 0 {
        assert(a + s =~= s);
        assert(a + with_crlf(s) =~= with_crlf(s));
    } else {
        let rest = a.skip(1);
        assert(a[0] != '\n');
        assert(!rest.contains('\n')) by {
            if rest.contains('\n') {
                let j = choose|j: int| 0 <= j < rest.len() && rest[j] == '\n';
                assert(a[j + 1] == '\n');
            }
        }
        assert((a + s).skip(1) =~= rest + s);
        lemma_crlf_behind(rest, s);
        assert(seq![a[0]] + (rest + with_crlf(s)) =~= a + with_crlf(s));
    }
}

proof fn lemma_crlf_lines(s: Seq<char>)
    ensures
        same_lines(text::split(s, '\n'), text::split(with_crlf(s), '\n')),
    decreases s.len(),
{
    let i = text::first_index(s, '\n');
    text::lemma_first_index(s, '\n');
    let head = s.take(i);
    assert(!head.contains('\n')) by {
        if head.contains('\n') {
            let j = choose|j: int| 0 <= j < head.len() && head[j] == '\n';
            assert(s[j] == '\n');
        }
    }
    if i < s.len() {
        let rest = s.skip(i + 1);
        let end = s.skip(i);
        let line = head.push('\r');
        lemma_crlf_lines(rest);
        assert(s =~= head + end);
        lemma_crlf_behind(head, end);
        assert(end[0] == '\n');
        assert(end.skip(1) =~= rest);
        assert(with_crlf(s) =~= line.push('\n') + with_crlf(rest));
        text::lemma_split_at_separator(line, '\n', with_crlf(rest));
        assert(!line.contains('\n')) by {
            if line.contains('\n') {
                let j = choose|j: int| 0 <= j < line.len() && line[j] == '\n';
                assert(head[j] == '\n');
            }
        }
        lemma_no_separator(line);
        let (x, y) = (text::split(s, '\n'), text::split(with_crlf(s), '\n'));
        assert(x =~= seq![head] + text::split(rest, '\n'));
        assert(y =~= seq![line] + text::split(with_crlf(rest), '\n'));
        assert forall|k: int| 0 <= k < x.len() implies same_line(#[trigger] x[k], y[k]) by {
            if k == 0 {
                text::lemma_trim_pushed_space(head, '\r');
                lemma_same_line_reflexive(head);
            } else {
                assert(same_line(
                    text::split(rest, '\n')[k - 1],
                    text::split(with_crlf(rest), '\n')[k - 1],
                ));
            }
        }
    } else {
        assert(head =~= s);
        lemma_crlf_behind(s, Seq::empty());
        assert(s + Seq::<char>::empty() =~= s);
        assert(with_crlf(Seq::empty()) =~= Seq::<char>::empty());
        lemma_same_line_reflexive(s);
    }
}

/// A file may end its lines with CRLF.
pub proof fn law_crlf_changes_nothing(s: Seq<char>)
    ensures
        robots::parsed(with_crlf(s)) == robots::parsed(s),
{
    lemma_crlf_lines(s);
    lemma_telling_same(text::split(s, '\n'), text::split(with_crlf(s), '\n'));
    law_layout_changes_nothing(s, with_crlf(s));
}

} // verus!
