//! Text as sequences of characters: white space, trimming, splitting, ASCII case.

use vstd::prelude::*;
use vstd::slice::slice_subrange;

verus! {

/// `String::push` appends one character to the string.
pub assume_specification[ std::string::String::push ](s: &mut std::string::String, c: char)
    ensures
        final(s)@ == old(s)@.push(c),
;

/// The characters with the Unicode property `White_Space`.
pub open spec fn white_space(c: char) -> bool {
    ||| '\u{9}' <= c <= '\u{d}'
    ||| c == ' '
    ||| c == '\u{85}'
    ||| c == '\u{a0}'
    ||| c == '\u{1680}'
    ||| '\u{2000}' <= c <= '\u{200a}'
    ||| c == '\u{2028}'
    ||| c == '\u{2029}'
    ||| c == '\u{202f}'
    ||| c == '\u{205f}'
    ||| c == '\u{3000}'
}

/// Whether `c` is Unicode white space.
pub fn is_white_space(c: char) -> (r: bool)
    ensures
        r == white_space(c),
{
    ('\u{9}' <= c && c <= '\u{d}') || c == ' ' || c == '\u{85}' || c == '\u{a0}' || c == '\u{1680}'
        || ('\u{2000}' <= c && c <= '\u{200a}') || c == '\u{2028}' || c == '\u{2029}' || c
        == '\u{202f}' || c == '\u{205f}' || c == '\u{3000}'
}

/// `s` without the white space it starts with.
pub open spec fn trimmed_start(s: Seq<char>) -> Seq<char>
    decreases s.len(),
{
    if s.len() > 0 && white_space(s[0]) {
        trimmed_start(s.skip(1))
    } else {
        s
    }
}

/// `s` without the white space it ends with.
pub open spec fn trimmed_end(s: Seq<char>) -> Seq<char>
    decreases s.len(),
{
    if s.len() > 0 && white_space(s.last()) {
        trimmed_end(s.drop_last())
    } else {
        s
    }
}

/// `s` without the white space around it.
pub open spec fn trimmed(s: Seq<char>) -> Seq<char> {
    trimmed_end(trimmed_start(s))
}

/// Where `c` first stands in `s`, or the length of `s` if it stands nowhere.
pub open spec fn first_index(s: Seq<char>, c: char) -> int
    decreases s.len(),
{
    if s.len() == 0 || s[0] == c {
        0
    } else {
        1 + first_index(s.skip(1), c)
    }
}

/// The part of `s` before the first `c`; all of it if there is none.
pub open spec fn before(s: Seq<char>, c: char) -> Seq<char> {
    s.take(first_index(s, c))
}

/// The pieces of `s` between the `c`s.
pub open spec fn split(s: Seq<char>, c: char) -> Seq<Seq<char>>
    decreases s.len(),
    via split_terminates
{
    let i = first_index(s, c);
    if i < s.len() {
        seq![s.take(i)] + split(s.skip(i + 1), c)
    } else {
        seq![s]
    }
}

#[via_fn]
proof fn split_terminates(s: Seq<char>, c: char) {
    lemma_first_index(s, c);
}

/// What `first_index` is: no `c` before it, and one there unless it is the end.
pub proof fn lemma_first_index(s: Seq<char>, c: char)
    ensures
        0 <= first_index(s, c) <= s.len(),
        forall|i: int| 0 <= i < first_index(s, c) ==> s[i] != c,
        first_index(s, c) < s.len() ==> s[first_index(s, c)] == c,
    decreases s.len(),
{
    if s.len() > 0 && s[0] != c {
        lemma_first_index(s.skip(1), c);
        assert forall|i: int| 0 <= i < first_index(s, c) implies s[i] != c by {
            if i > 0 {
                assert(s.skip(1)[i - 1] == s[i]);
            }
        }
    }
}

/// The position that `lemma_first_index` describes is the only one.
pub proof fn lemma_first_index_unique(s: Seq<char>, c: char, n: int)
    requires
        0 <= n <= s.len(),
        forall|i: int| 0 <= i < n ==> s[i] != c,
        n < s.len() ==> s[n] == c,
    ensures
        first_index(s, c) == n,
{
    lemma_first_index(s, c);
    if first_index(s, c) < n {
        assert(s[first_index(s, c)] != c);
    }
    if n < first_index(s, c) {
        assert(s[n] != c);
    }
}

/// Splitting goes piece by piece: a separator between two texts separates their pieces.
pub proof fn lemma_split_at_separator(a: Seq<char>, c: char, b: Seq<char>)
    ensures
        split(a.push(c) + b, c) == split(a, c) + split(b, c),
    decreases a.len(),
{
    let i = first_index(a, c);
    let whole = a.push(c) + b;
    lemma_first_index(a, c);
    lemma_first_index_unique(whole, c, i);
    if i < a.len() {
        lemma_split_at_separator(a.skip(i + 1), c, b);
        assert(whole.skip(i + 1) =~= a.skip(i + 1).push(c) + b);
        assert(whole.take(i) =~= a.take(i));
        assert(seq![a.take(i)] + (split(a.skip(i + 1), c) + split(b, c)) =~= (seq![
            a.take(i),
        ] + split(a.skip(i + 1), c)) + split(b, c));
    } else {
        assert(whole.skip(i + 1) =~= b);
        assert(whole.take(i) =~= a);
    }
}

/// Whether two characters are equal once ASCII letters are read as lower case.
pub open spec fn same_letter(a: char, b: char) -> bool {
    ||| a == b
    ||| 'A' <= a <= 'Z' && b as u32 == a as u32 + 32
    ||| 'A' <= b <= 'Z' && a as u32 == b as u32 + 32
}

/// Whether two texts are equal but for the case of ASCII letters.
pub open spec fn same_but_case(a: Seq<char>, b: Seq<char>) -> bool {
    &&& a.len() == b.len()
    &&& forall|i: int| 0 <= i < a.len() ==> same_letter(#[trigger] a[i], b[i])
}

/// Two characters that are the same but for case are so to the same third ones.
pub proof fn lemma_same_letter(a: char, b: char, c: char)
    requires
        same_letter(a, b),
    ensures
        same_letter(a, c) == same_letter(b, c),
{
    let (x, y, z) = (a as u32, b as u32, c as u32);
    assert(x == y ==> a == b);
    assert(x == z ==> a == c);
    assert(y == z ==> b == c);
}

/// White space added behind a text is trimmed away again.
pub proof fn lemma_trim_pushed_space(s: Seq<char>, c: char)
    requires
        white_space(c),
    ensures
        trimmed(s.push(c)) == trimmed(s),
    decreases s.len(),
{
    let pushed = s.push(c);
    if s.len() == 0 {
        assert(pushed.skip(1) =~= s);
        assert(trimmed_start(pushed) == trimmed_start(s));
    } else if white_space(s[0]) {
        assert(pushed.skip(1) =~= s.skip(1).push(c));
        lemma_trim_pushed_space(s.skip(1), c);
    } else {
        assert(pushed.drop_last() =~= s);
    }
}

/// The characters of `s`.
pub fn to_chars(s: &str) -> (r: Vec<char>)
    ensures
        r@ == s@,
{
    let mut r: Vec<char> = Vec::new();
    for c in it: s.chars()
        invariant
            r@ == it.seq().take(it.index()),
            it.seq() == s@,
    {
        r.push(c);
    }
    r
}

/// The string made of the characters `s`.
pub fn to_text(s: &[char]) -> (r: String)
    ensures
        r@ == s@,
{
    let mut r = String::new();
    for i in 0..s.len()
        invariant
            r@ == s@.take(i as int),
    {
        r.push(s[i]);
    }
    r
}

/// Where the part of `s` from `from` to `to` starts and ends once the white space around it is
/// left out.
pub fn trim_range(s: &[char], from: usize, to: usize) -> (r: (usize, usize))
    requires
        from <= to <= s@.len(),
    ensures
        from <= r.0 <= r.1 <= to,
        s@.subrange(r.0 as int, r.1 as int) == trimmed(s@.subrange(from as int, to as int)),
{
    let mut lo: usize = from;
    while lo < to && is_white_space(s[lo])
        invariant
            from <= lo <= to <= s@.len(),
            trimmed_start(s@.subrange(from as int, to as int)) == trimmed_start(
                s@.subrange(lo as int, to as int),
            ),
        decreases to - lo,
    {
        assert(s@.subrange(lo as int, to as int).skip(1) =~= s@.subrange(lo + 1, to as int));
        lo = lo + 1;
    }
    let mut hi: usize = to;
    while hi > lo && is_white_space(s[hi - 1])
        invariant
            from <= lo <= hi <= to <= s@.len(),
            trimmed(s@.subrange(from as int, to as int)) == trimmed_end(
                s@.subrange(lo as int, hi as int),
            ),
        decreases hi,
    {
        assert(s@.subrange(lo as int, hi as int).drop_last() =~= s@.subrange(lo as int, hi - 1));
        hi = hi - 1;
    }
    (lo, hi)
}

/// `s` without the white space around it.
pub fn trim(s: &[char]) -> (r: &[char])
    ensures
        r@ == trimmed(s@),
{
    let (from, to) = trim_range(s, 0, s.len());
    assert(s@.subrange(0, s@.len() as int) =~= s@);
    slice_subrange(s, from, to)
}

/// Where `c` first stands in `s`, or the length of `s`.
pub fn find(s: &[char], c: char) -> (r: usize)
    ensures
        r == first_index(s@, c),
{
    let mut i: usize = 0;
    while i < s.len() && s[i] != c
        invariant
            i <= s@.len(),
            forall|j: int| 0 <= j < i ==> s@[j] != c,
        decreases s@.len() - i,
    {
        i = i + 1;
    }
    proof {
        lemma_first_index_unique(s@, c, i as int);
    }
    i
}

/// Whether two texts are equal but for the case of ASCII letters.
pub fn eq_but_case(a: &[char], b: &[char]) -> (r: bool)
    ensures
        r == same_but_case(a@, b@),
{
    if a.len() != b.len() {
        return false;
    }
    for i in 0..a.len()
        invariant
            a@.len() == b@.len(),
            forall|j: int| 0 <= j < i ==> same_letter(#[trigger] a@[j], b@[j]),
    {
        let (x, y) = (a[i], b[i]);
        let same = x == y || ('A' <= x && x <= 'Z' && y as u32 == x as u32 + 32) || ('A' <= y && y
            <= 'Z' && x as u32 == y as u32 + 32);
        if !same {
            assert(!same_letter(a@[i as int], b@[i as int]));
            return false;
        }
    }
    true
}

/// Whether two texts are equal.
pub fn eq(a: &[char], b: &[char]) -> (r: bool)
    ensures
        r == (a@ == b@),
{
    if a.len() != b.len() {
        return false;
    }
    for i in 0..a.len()
        invariant
            a@.len() == b@.len(),
            forall|j: int| 0 <= j < i ==> a@[j] == b@[j],
    {
        if a[i] != b[i] {
            return false;
        }
    }
    assert(a@ =~= b@);
    true
}

/// The views of the pieces in `v`.
pub open spec fn pieces(v: Seq<&[char]>) -> Seq<Seq<char>> {
    v.map_values(|p: &[char]| p@)
}

/// The pieces of `s` between the `c`s.
pub fn split_at_each(s: &[char], c: char) -> (r: Vec<&[char]>)
    ensures
        pieces(r@) == split(s@, c),
{
    let mut r: Vec<&[char]> = Vec::new();
    let mut rest: &[char] = s;
    loop
        invariant
            split(s@, c) == pieces(r@) + split(rest@, c),
        decreases rest@.len(),
    {
        let i: usize = find(rest, c);
        proof {
            lemma_first_index(rest@, c);
        }
        if i < rest.len() {
            let ghost old_r = r@;
            let piece: &[char] = slice_subrange(rest, 0, i);
            r.push(piece);
            proof {
                assert(pieces(r@) =~= pieces(old_r).push(rest@.take(i as int)));
                assert(pieces(r@) + split(rest@.skip(i + 1), c) =~= pieces(old_r) + split(
                    rest@,
                    c,
                ));
                assert(rest@.subrange(i + 1, rest@.len() as int) =~= rest@.skip(i + 1));
            }
            rest = slice_subrange(rest, i + 1, rest.len());
        } else {
            let ghost old_r = r@;
            r.push(rest);
            assert(pieces(r@) =~= pieces(old_r) + seq![rest@]);
            return r;
        }
    }
}

} // verus!
