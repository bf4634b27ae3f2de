//! Laws of text: white space, trimming, searching, splitting, ASCII case.

use vstd::prelude::*;

use crate::text;

verus! {

/// White space is what Unicode calls so, by code point.
pub proof fn law_white_space_by_code_point(c: char)
    ensures
        text::white_space(c) <==> ({
            let n = c as u32;
            ||| 0x9 <= n <= 0xd
            ||| n == 0x20
            ||| n == 0x85
            ||| n == 0xa0
            ||| n == 0x1680
            ||| 0x2000 <= n <= 0x200a
            ||| n == 0x2028
            ||| n == 0x2029
            ||| n == 0x202f
            ||| n == 0x205f
            ||| n == 0x3000
        }),
{
    let n = c as u32;
    assert(n == 0x20 ==> c == ' ');
    assert(n == 0x85 ==> c == '\u{85}');
    assert(n == 0xa0 ==> c == '\u{a0}');
    assert(n == 0x1680 ==> c == '\u{1680}');
    assert(n == 0x2028 ==> c == '\u{2028}');
    assert(n == 0x2029 ==> c == '\u{2029}');
    assert(n == 0x202f ==> c == '\u{202f}');
    assert(n == 0x205f ==> c == '\u{205f}');
    assert(n == 0x3000 ==> c == '\u{3000}');
}

/// Trimming gives back what stands between the white space: whatever white space is put before
/// and behind a text that neither starts nor ends with any, and nothing else, is taken away.
pub proof fn law_trimming_gives_the_core(lead: Seq<char>, core: Seq<char>, trail: Seq<char>)
    requires
        forall|i: int| 0 <= i < lead.len() ==> text::white_space(#[trigger] lead[i]),
        forall|i: int| 0 <= i < trail.len() ==> text::white_space(#[trigger] trail[i]),
        core.len() > 0 ==> !text::white_space(core[0]) && !text::white_space(core.last()),
    ensures
        text::trimmed(lead + core + trail) == core,
{
    crate::laws::layout::law_space_round_a_line_is_trimmed(lead, core, trail);
}

/// The code point of `c`, that of the small letter for an ASCII capital.
pub open spec fn small(c: char) -> int {
    if 65 <= c as u32 <= 90 {
        c as u32 + 32
    } else {
        c as u32 as int
    }
}

/// Characters are the same but for case exactly if their code points are equal once an ASCII
/// capital is moved to its small letter.
pub proof fn law_letters_by_code_point(a: char, b: char)
    ensures
        text::same_letter(a, b) <==> small(a) == small(b),
{
    let (x, y) = (a as u32, b as u32);
    assert(x == y ==> a == b);
}

/// Texts are the same but for case exactly if their characters are, one by one.
pub proof fn law_case_is_ignored_letter_by_letter(a: Seq<char>, b: Seq<char>)
    ensures
        text::same_but_case(a, b) <==> a.len() == b.len() && forall|i: int|
            0 <= i < a.len() ==> small(#[trigger] a[i]) == small(b[i]),
{
    if text::same_but_case(a, b) {
        assert forall|i: int| 0 <= i < a.len() implies small(#[trigger] a[i]) == small(b[i]) by {
            law_letters_by_code_point(a[i], b[i]);
        }
    }
    if a.len() == b.len() && forall|i: int|
        0 <= i < a.len() ==> small(#[trigger] a[i]) == small(b[i]) {
        assert forall|i: int| 0 <= i < a.len() implies text::same_letter(
            #[trigger] a[i],
            b[i],
        ) by {
            assert(small(a[i]) == small(b[i]));
            law_letters_by_code_point(a[i], b[i]);
        }
    }
}

/// A character is found behind the longest stretch without it, and what stands before it is that
/// stretch.
pub proof fn law_search_stops_at_the_first(a: Seq<char>, c: char, rest: Seq<char>)
    requires
        !a.contains(c),
        rest.len() == 0 || rest[0] == c,
    ensures
        text::first_index(a + rest, c) == a.len(),
        text::before(a + rest, c) == a,
{
    assert forall|i: int| 0 <= i < a.len() implies (a + rest)[i] != c by {
        assert(a.contains(a[i]));
    }
    text::lemma_first_index_unique(a + rest, c, a.len() as int);
    assert((a + rest).take(a.len() as int) =~= a);
}

/// Splitting cuts at every separator and nowhere else: a text without one is one piece, and a
/// separator ends the first piece of a longer text.
pub proof fn law_splitting_cuts_at_each(a: Seq<char>, c: char, b: Seq<char>)
    requires
        !a.contains(c),
    ensures
        text::split(a, c) == seq![a],
        text::split(a.push(c) + b, c) == seq![a] + text::split(b, c),
{
    law_search_stops_at_the_first(a, c, Seq::empty());
    assert(a + Seq::<char>::empty() =~= a);
    text::lemma_split_at_separator(a, c, b);
}

/// The pieces of a text are views of the slices, one by one.
pub proof fn law_pieces_one_by_one(v: Seq<&[char]>)
    ensures
        text::pieces(v).len() == v.len(),
        forall|i: int| 0 <= i < v.len() ==> #[trigger] text::pieces(v)[i] == v[i]@,
{
}

} // verus!
