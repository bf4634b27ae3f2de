//! Laws of the lines of a robots.txt file: what a line says, from how it is written.

use vstd::prelude::*;

use crate::laws::layout;
use crate::laws::text as text_laws;
use crate::robots;
use crate::robots::{Record, RobotsView, RuleView};
use crate::text;

verus! {

proof fn lemma_trim_end_keeps(a: Seq<char>, b: Seq<char>)
    requires
        a.len() > 0,
        !text::white_space(a.last()),
    ensures
        text::trimmed_end(a + b) == a + text::trimmed_end(b),
    decreases b.len(),
{
    if b.len() == 0 {
        assert(a + b =~= a);
        assert(a + text::trimmed_end(b) =~= a);
    } else {
        assert((a + b).drop_last() =~= a + b.drop_last());
        lemma_trim_end_keeps(a, b.drop_last());
    }
}

proof fn lemma_trimmed_off(s: Seq<char>) -> (trail: Seq<char>)
    ensures
        s == text::trimmed_end(s) + trail,
        layout::all_space(trail),
    decreases s.len(),
{
    if s.len() > 0 && text::white_space(s.last()) {
        let inner = lemma_trimmed_off(s.drop_last());
        let trail = inner.push(s.last());
        assert(s =~= s.drop_last().push(s.last()));
        assert(text::trimmed_end(s) == text::trimmed_end(s.drop_last()));
        assert(s =~= text::trimmed_end(s) + trail);
        trail
    } else {
        assert(s =~= s + Seq::<char>::empty());
        Seq::empty()
    }
}

/// How a value and its surroundings are written behind a directive name: white space round the
/// value, and behind it an inline comment or nothing.
pub open spec fn is_value(
    gap: Seq<char>,
    value: Seq<char>,
    trail: Seq<char>,
    comment: Seq<char>,
) -> bool {
    &&& forall|i: int| 0 <= i < gap.len() ==> text::white_space(#[trigger] gap[i])
    &&& forall|i: int| 0 <= i < trail.len() ==> text::white_space(#[trigger] trail[i])
    &&& value.len() > 0 ==> !text::white_space(value[0]) && !text::white_space(value.last())
    &&& !value.contains('#')
    &&& comment.len() == 0 || comment[0] == '#'
}

proof fn lemma_value(gap: Seq<char>, value: Seq<char>, trail: Seq<char>, comment: Seq<char>)
    requires
        is_value(gap, value, trail, comment),
    ensures
        text::trimmed(text::before(text::trimmed(gap + value + trail + comment), '#')) == value,
{
    let none = Seq::<char>::empty();
    let tail = gap + value + trail + comment;
    text_laws::law_trimming_gives_the_core(none, value, none);
    assert(none + value + none =~= value);
    if comment.len() == 0 {
        assert(tail =~= gap + value + trail);
        text_laws::law_trimming_gives_the_core(gap, value, trail);
        text_laws::law_search_stops_at_the_first(value, '#', none);
        assert(value + none =~= value);
    } else {
        let held = if value.len() > 0 {
            value + trail
        } else {
            none
        };
        let lead = if value.len() > 0 {
            gap
        } else {
            gap + trail
        };
        let upto = held.push('#');
        let behind = comment.skip(1);
        assert(tail =~= lead + (upto + behind));
        layout::lemma_trim_leading(lead, upto + behind);
        assert((upto + behind)[0] == if value.len() > 0 {
            value[0]
        } else {
            '#'
        });
        assert(text::trimmed_start(upto + behind) == upto + behind);
        lemma_trim_end_keeps(upto, behind);
        let rest = seq!['#'] + text::trimmed_end(behind);
        assert(text::trimmed(tail) =~= held + rest);
        assert(!held.contains('#')) by {
            if held.contains('#') {
                let j = choose|j: int| 0 <= j < held.len() && held[j] == '#';
                if j < value.len() {
                    assert(value.contains(value[j]));
                } else {
                    assert(text::white_space(trail[j - value.len()]));
                }
            }
        }
        text_laws::law_search_stops_at_the_first(held, '#', rest);
        if value.len() > 0 {
            text_laws::law_trimming_gives_the_core(none, value, trail);
            assert(none + value + trail =~= held);
        }
    }
}

/// A line has a directive exactly if it starts with its name, the case of ASCII letters aside.
pub proof fn law_directive_starts_with_its_name(line: Seq<char>, prefix: Seq<char>)
    ensures
        robots::directive(line, prefix) is Some <==> prefix.len() <= line.len() && forall|i: int|
            0 <= i < prefix.len() ==> text_laws::small(#[trigger] line[i]) == text_laws::small(
                prefix[i],
            ),
{
    let n = prefix.len() as int;
    if n <= line.len() {
        text_laws::law_case_is_ignored_letter_by_letter(line.take(n), prefix);
        if robots::directive(line, prefix) is Some {
            assert forall|i: int| 0 <= i < n implies text_laws::small(#[trigger] line[i])
                == text_laws::small(prefix[i]) by {
                assert(line.take(n)[i] == line[i]);
            }
        }
    }
}

/// The value of a directive is what stands behind its name, without the white space round it and
/// without the inline comment behind it.
pub proof fn law_directive_value(
    name: Seq<char>,
    gap: Seq<char>,
    value: Seq<char>,
    trail: Seq<char>,
    comment: Seq<char>,
    prefix: Seq<char>,
)
    requires
        text::same_but_case(name, prefix),
        is_value(gap, value, trail, comment),
    ensures
        robots::directive(name + gap + value + trail + comment, prefix) == Some(value),
{
    let n = prefix.len() as int;
    let line = name + gap + value + trail + comment;
    assert(line.take(n) =~= name);
    assert(line.skip(n) =~= gap + value + trail + comment);
    lemma_value(gap, value, trail, comment);
}

proof fn lemma_no_directive(line: Seq<char>, name: Seq<char>, other: Seq<char>)
    requires
        line.len() > 0,
        name.len() > 0,
        other.len() > 0,
        text_laws::small(line[0]) == text_laws::small(name[0]),
        text_laws::small(name[0]) != text_laws::small(other[0]),
    ensures
        robots::directive(line, other) is None,
{
    law_directive_starts_with_its_name(line, other);
    if robots::directive(line, other) is Some {
        assert(text_laws::small(line[0]) == text_laws::small(other[0]));
    }
}

/// What a directive line says, whatever the white space before it, the case of its name, the white
/// space round its value and the comment behind it.
pub proof fn law_what_a_directive_line_says(
    lead: Seq<char>,
    name: Seq<char>,
    gap: Seq<char>,
    value: Seq<char>,
    trail: Seq<char>,
    comment: Seq<char>,
)
    requires
        forall|i: int| 0 <= i < lead.len() ==> text::white_space(#[trigger] lead[i]),
        is_value(gap, value, trail, comment),
    ensures
        ({
            let line = lead + name + gap + value + trail + comment;
            &&& text::same_but_case(name, "user-agent:"@) ==> robots::record(line)
                == Record::Agent(value)
            &&& text::same_but_case(name, "sitemap:"@) ==> robots::record(line)
                == Record::Sitemap(value)
            &&& text::same_but_case(name, "disallow:"@) ==> robots::record(line)
                == Record::Rule(RuleView { pattern: value, allow: false })
            &&& text::same_but_case(name, "allow:"@) ==> robots::record(line)
                == Record::Rule(RuleView { pattern: value, allow: true })
        }),
{
    let line = lead + name + gap + value + trail + comment;
    let tail = gap + value + trail + comment;
    reveal_strlit("user-agent:");
    reveal_strlit("sitemap:");
    reveal_strlit("disallow:");
    reveal_strlit("allow:");
    let agent = text::same_but_case(name, "user-agent:"@);
    let sitemap = text::same_but_case(name, "sitemap:"@);
    let disallow = text::same_but_case(name, "disallow:"@);
    let allow = text::same_but_case(name, "allow:"@);
    if agent || sitemap || disallow || allow {
        let prefix = if agent {
            "user-agent:"@
        } else if sitemap {
            "sitemap:"@
        } else if disallow {
            "disallow:"@
        } else {
            "allow:"@
        };
        let n = prefix.len() as int;
        assert(prefix[n - 1] == ':');
        assert(text::same_but_case(name, prefix));
        assert(text::same_letter(name[n - 1], prefix[n - 1]));
        assert(name.last() == ':');
        assert(text::same_letter(name[0], prefix[0]));
        text_laws::law_letters_by_code_point(name[0], prefix[0]);
        assert(!text::white_space(name[0]) && name[0] != '#') by {
            lemma_first_letter(name[0], prefix[0]);
        }
        let core = name + text::trimmed_end(tail);
        assert(line =~= lead + (name + tail));
        layout::lemma_trim_leading(lead, name + tail);
        assert((name + tail)[0] == name[0]);
        assert(text::trimmed_start(name + tail) == name + tail);
        lemma_trim_end_keeps(name, tail);
        assert(text::trimmed(line) == core);
        let off = lemma_trimmed_off(tail);
        layout::lemma_trim_trailing(text::trimmed_end(tail), off);
        lemma_value(gap, value, trail, comment);
        assert(core.take(n) =~= name);
        assert(core.skip(n) =~= text::trimmed_end(tail));
        assert(robots::directive(core, prefix) == Some(value));
        assert(core[0] == name[0]);
        if !agent {
            lemma_no_directive(core, prefix, "user-agent:"@);
        }
        if !agent && !sitemap {
            lemma_no_directive(core, prefix, "sitemap:"@);
        }
        if !agent && !sitemap && !disallow {
            lemma_no_directive(core, prefix, "disallow:"@);
        }
        lemma_one_name(name);
    }
}

/// A character that is a letter but for case is neither white space nor a `#`.
proof fn lemma_first_letter(c: char, letter: char)
    requires
        text::same_letter(c, letter),
        'a' <= letter <= 'z',
    ensures
        !text::white_space(c),
        c != '#',
{
}

/// A name is that of one directive at most.
proof fn lemma_one_name(name: Seq<char>)
    ensures
        text::same_but_case(name, "user-agent:"@) ==> !text::same_but_case(name, "sitemap:"@)
            && !text::same_but_case(name, "disallow:"@) && !text::same_but_case(name, "allow:"@),
        text::same_but_case(name, "sitemap:"@) ==> !text::same_but_case(name, "disallow:"@)
            && !text::same_but_case(name, "allow:"@),
        text::same_but_case(name, "disallow:"@) ==> !text::same_but_case(name, "allow:"@),
{
    reveal_strlit("user-agent:");
    reveal_strlit("sitemap:");
    reveal_strlit("disallow:");
    reveal_strlit("allow:");
    assert("user-agent:"@.len() == 11);
    assert("sitemap:"@.len() == 8);
    assert("disallow:"@.len() == 9);
    assert("allow:"@.len() == 6);
}

/// A line is blank exactly if nothing but white space is on it, or if a `#` is the first other
/// thing.
pub proof fn law_what_a_blank_line_is(line: Seq<char>)
    ensures
        robots::record(line) is Blank <==> text::trimmed(line).len() == 0 || text::trimmed(line)[0]
            == '#',
{
}

/// A line that is not blank and has none of the four directives is something else.
pub proof fn law_what_any_other_line_is(line: Seq<char>)
    ensures
        robots::record(line) is Other <==> ({
            let core = text::trimmed(line);
            &&& core.len() > 0
            &&& core[0] != '#'
            &&& robots::directive(core, "user-agent:"@) is None
            &&& robots::directive(core, "sitemap:"@) is None
            &&& robots::directive(core, "disallow:"@) is None
            &&& robots::directive(core, "allow:"@) is None
        }),
{
}

/// A file says what its lines say, one record for each, in their order.
pub proof fn law_a_file_says_what_its_lines_say(lines: Seq<Seq<char>>)
    requires
        layout::are_lines(lines),
    ensures
        robots::records(layout::joined(lines)).len() == lines.len(),
        forall|i: int|
            0 <= i < lines.len() ==> #[trigger] robots::records(layout::joined(lines))[i]
                == robots::record(lines[i]),
{
    layout::law_lines_come_back(lines);
}

proof fn lemma_sitemaps_add(a: Seq<Record>, b: Seq<Record>, n: int)
    requires
        0 <= n <= b.len(),
    ensures
        robots::sitemaps_in(a + b, a.len() + n) == robots::sitemaps_in(a, a.len() as int)
            + robots::sitemaps_in(b, n),
    decreases n,
{
    if n == 0 {
        lemma_sitemaps_of_head(a, b, a.len() as int);
        assert(robots::sitemaps_in(b, 0) =~= Seq::<Seq<char>>::empty());
    } else {
        lemma_sitemaps_add(a, b, n - 1);
        assert((a + b)[a.len() + n - 1] == b[n - 1]);
    }
}

proof fn lemma_sitemaps_of_head(a: Seq<Record>, b: Seq<Record>, n: int)
    requires
        0 <= n <= a.len(),
    ensures
        robots::sitemaps_in(a + b, n) == robots::sitemaps_in(a, n),
    decreases n,
{
    if n > 0 {
        lemma_sitemaps_of_head(a, b, n - 1);
        assert((a + b)[n - 1] == a[n - 1]);
    }
}

/// The sitemaps of a file are those of its parts, one after the other.
pub proof fn law_sitemaps_part_by_part(a: Seq<char>, b: Seq<char>)
    ensures
        robots::parsed(a.push('\n') + b).sitemaps == robots::parsed(a).sitemaps + robots::parsed(
            b,
        ).sitemaps,
{
    crate::laws::robots::law_records_line_by_line(a, b);
    lemma_sitemaps_add(robots::records(a), robots::records(b), robots::records(b).len() as int);
}

/// A single line names one sitemap if it is a `Sitemap:` line with a value, whatever the value, and
/// none otherwise.
pub proof fn law_sitemap_of_a_line(line: Seq<char>)
    requires
        !line.contains('\n'),
    ensures
        robots::parsed(line).sitemaps == match robots::record(line) {
            Record::Sitemap(url) => if url.len() > 0 {
                seq![url]
            } else {
                Seq::empty()
            },
            _ => Seq::empty(),
        },
{
    text_laws::law_splitting_cuts_at_each(line, '\n', Seq::empty());
    let rs = robots::records(line);
    assert(rs.len() == 1 && rs[0] == robots::record(line));
    assert(robots::sitemaps_in(rs, 0) =~= Seq::<Seq<char>>::empty());
    reveal_with_fuel(robots::sitemaps_in, 2);
    if let Record::Sitemap(url) = robots::record(line) {
        assert(Seq::<Seq<char>>::empty().push(url) =~= seq![url]);
    }
}

} // verus!
