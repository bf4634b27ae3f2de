//! Patterns of `Allow` and `Disallow` lines: matching and specificity.

use vstd::prelude::*;
use vstd::slice::slice_subrange;

use crate::text::to_chars;

verus! {

/// Whether `text`, from its first character to its last, is an instance of `pattern`: a `*`
/// stands for any run of characters, the empty run included, and every other character for
/// itself.
pub open spec fn glob(pattern: Seq<char>, text: Seq<char>) -> bool
    decreases pattern.len() + text.len(),
{
    if pattern.len() == 0 {
        text.len() == 0
    } else if pattern[0] == '*' {
        glob(pattern.skip(1), text) || (text.len() > 0 && glob(pattern, text.skip(1)))
    } else {
        text.len() > 0 && text[0] == pattern[0] && glob(pattern.skip(1), text.skip(1))
    }
}

/// Whether no character of `s` is a `*`.
pub open spec fn literal(s: Seq<char>) -> bool {
    forall|i: int| 0 <= i < s.len() ==> s[i] != '*'
}

/// A `*` at the head may swallow any number of characters.
proof fn lemma_star_absorbs(pattern: Seq<char>, text: Seq<char>, j: int)
    requires
        pattern.len() > 0,
        pattern[0] == '*',
        0 <= j <= text.len(),
        glob(pattern, text.skip(j)),
    ensures
        glob(pattern, text),
    decreases j,
{
    if j == 0 {
        assert(text.skip(0) =~= text);
    } else {
        assert(text.skip(1).skip(j - 1) =~= text.skip(j));
        lemma_star_absorbs(pattern, text.skip(1), j - 1);
    }
}

/// A `*` at the head matches exactly if the rest of the pattern matches some suffix.
pub proof fn lemma_star_is_any_run(pattern: Seq<char>, text: Seq<char>)
    requires
        pattern.len() > 0,
        pattern[0] == '*',
    ensures
        glob(pattern, text) <==> exists|k: int|
            0 <= k <= text.len() && #[trigger] glob(pattern.skip(1), text.skip(k)),
    decreases text.len(),
{
    let tail = pattern.skip(1);
    if exists|k: int| 0 <= k <= text.len() && #[trigger] glob(tail, text.skip(k)) {
        let k = choose|k: int| 0 <= k <= text.len() && #[trigger] glob(tail, text.skip(k));
        assert(glob(pattern, text.skip(k)));
        lemma_star_absorbs(pattern, text, k);
    }
    if glob(pattern, text) {
        if glob(tail, text) {
            assert(text.skip(0) =~= text);
            assert(glob(tail, text.skip(0)));
        } else {
            lemma_star_is_any_run(pattern, text.skip(1));
            let k = choose|k: int|
                0 <= k <= text.skip(1).len() && #[trigger] glob(tail, text.skip(1).skip(k));
            assert(text.skip(1).skip(k) =~= text.skip(k + 1));
            assert(glob(tail, text.skip(k + 1)));
        }
    }
}

/// A literal stretch at the head of a pattern matches itself and leaves the rest.
pub proof fn lemma_literal_head(pattern: Seq<char>, n: int, text: Seq<char>)
    requires
        0 <= n <= pattern.len(),
        literal(pattern.take(n)),
    ensures
        glob(pattern, text) <==> n <= text.len() && text.take(n) == pattern.take(n) && glob(
            pattern.skip(n),
            text.skip(n),
        ),
    decreases n,
{
    if n == 0 {
        assert(pattern.skip(0) =~= pattern);
        assert(text.skip(0) =~= text);
        assert(text.take(0) =~= pattern.take(0));
    } else {
        assert(pattern.take(n)[0] == pattern[0]);
        if text.len() > 0 && text[0] == pattern[0] {
            let inner = pattern.skip(1).take(n - 1);
            assert forall|i: int| 0 <= i < inner.len() implies inner[i] != '*' by {
                assert(pattern.take(n)[i + 1] == inner[i]);
            }
            lemma_literal_head(pattern.skip(1), n - 1, text.skip(1));
            assert(pattern.skip(1).skip(n - 1) =~= pattern.skip(n));
            if n <= text.len() {
                assert(text.skip(1).skip(n - 1) =~= text.skip(n));
                assert(text.take(n) =~= seq![text[0]] + text.skip(1).take(n - 1));
                assert(pattern.take(n) =~= seq![pattern[0]] + pattern.skip(1).take(n - 1));
                if text.take(n) == pattern.take(n) {
                    assert(text.skip(1).take(n - 1) =~= text.take(n).skip(1));
                    assert(pattern.skip(1).take(n - 1) =~= pattern.take(n).skip(1));
                }
            }
        } else if n <= text.len() && text.take(n) == pattern.take(n) {
            assert(text.take(n)[0] == text[0]);
        }
    }
}

/// A `*` stands for the empty run or for a longer one.
proof fn lemma_star_splits(pattern: Seq<char>, text: Seq<char>, t: int)
    requires
        pattern.len() > 0,
        pattern[0] == '*',
        0 <= t <= text.len(),
    ensures
        glob(pattern, text.skip(t)) == (glob(pattern.skip(1), text.skip(t)) || exists|k: int|
            t < k <= text.len() && #[trigger] glob(pattern.skip(1), text.skip(k))),
{
    let rest = text.skip(t);
    let tail = pattern.skip(1);
    lemma_star_is_any_run(pattern, rest);
    if glob(pattern, rest) {
        let k = choose|k: int| 0 <= k <= rest.len() && #[trigger] glob(tail, rest.skip(k));
        assert(rest.skip(k) =~= text.skip(t + k));
        assert(glob(tail, text.skip(t + k)));
    }
    if glob(tail, rest) {
        assert(rest.skip(0) =~= rest);
        assert(glob(tail, rest.skip(0)));
    }
    if exists|k: int| t < k <= text.len() && #[trigger] glob(tail, text.skip(k)) {
        let k = choose|k: int| t < k <= text.len() && #[trigger] glob(tail, text.skip(k));
        assert(rest.skip(k - t) =~= text.skip(k));
        assert(glob(tail, rest.skip(k - t)));
    }
}

/// Where the search stands: `glob(pattern, text)` holds exactly if the rest of the pattern
/// matches the rest of the text, or does so once the last `*` is widened.
spec fn search_state(
    pattern: Seq<char>,
    text: Seq<char>,
    p: int,
    t: int,
    star: Option<(usize, usize)>,
) -> bool {
    &&& 0 <= p <= pattern.len()
    &&& 0 <= t <= text.len()
    &&& match star {
        None => glob(pattern, text) == glob(pattern.skip(p), text.skip(t)),
        Some((after, run_end)) => {
            &&& 0 < after <= p
            &&& run_end <= t
            &&& t - run_end == p - after
            &&& literal(pattern.subrange(after as int, p))
            &&& glob(pattern, text) == (glob(pattern.skip(p), text.skip(t)) || exists|k: int|
                run_end < k <= text.len() && #[trigger] glob(
                    pattern.skip(after as int),
                    text.skip(k),
                ))
        },
    }
}

/// On reaching a `*`, the earlier ones need no widening any more.
proof fn lemma_new_star(
    pattern: Seq<char>,
    text: Seq<char>,
    p: int,
    t: int,
    star: Option<(usize, usize)>,
)
    requires
        search_state(pattern, text, p, t, star),
        p < pattern.len(),
        pattern[p] == '*',
    ensures
        glob(pattern, text) == glob(pattern.skip(p), text.skip(t)),
{
    if let Some((after, run_end)) = star {
        let tail = pattern.skip(after as int);
        if exists|k: int| run_end < k <= text.len() && #[trigger] glob(tail, text.skip(k)) {
            let k = choose|k: int| run_end < k <= text.len() && #[trigger] glob(tail, text.skip(k));
            let n = p - after;
            assert(tail.take(n) =~= pattern.subrange(after as int, p));
            lemma_literal_head(tail, n, text.skip(k));
            assert(tail.skip(n) =~= pattern.skip(p));
            assert(text.skip(k).skip(n) =~= text.skip(t).skip(k + n - t));
            lemma_star_absorbs(pattern.skip(p), text.skip(t), k + n - t);
        }
    }
}

/// A `*` in the pattern becomes the one to widen.
proof fn lemma_step_star(
    pattern: Seq<char>,
    text: Seq<char>,
    p: usize,
    t: usize,
    star: Option<(usize, usize)>,
)
    requires
        search_state(pattern, text, p as int, t as int, star),
        p < pattern.len() <= usize::MAX,
        pattern[p as int] == '*',
    ensures
        search_state(pattern, text, p + 1, t as int, Some(((p + 1) as usize, t))),
{
    lemma_new_star(pattern, text, p as int, t as int, star);
    lemma_star_splits(pattern.skip(p as int), text, t as int);
    assert(pattern.skip(p as int).skip(1) =~= pattern.skip(p + 1));
    assert(pattern.subrange(p + 1, p + 1) =~= Seq::<char>::empty());
}

/// Two equal characters match each other.
proof fn lemma_step_char(
    pattern: Seq<char>,
    text: Seq<char>,
    p: int,
    t: int,
    star: Option<(usize, usize)>,
)
    requires
        search_state(pattern, text, p, t, star),
        p < pattern.len(),
        t < text.len(),
        pattern[p] != '*',
        pattern[p] == text[t],
    ensures
        search_state(pattern, text, p + 1, t + 1, star),
{
    assert(pattern.skip(p).skip(1) =~= pattern.skip(p + 1));
    assert(text.skip(t).skip(1) =~= text.skip(t + 1));
    if let Some((after, _)) = star {
        assert(pattern.subrange(after as int, p + 1) =~= pattern.subrange(after as int, p).push(
            pattern[p],
        ));
    }
}

/// Where the rests do not match, the last `*` has to stand for one character more.
proof fn lemma_step_widen(
    pattern: Seq<char>,
    text: Seq<char>,
    p: int,
    t: int,
    after: usize,
    run_end: usize,
)
    requires
        search_state(pattern, text, p, t, Some((after, run_end))),
        !glob(pattern.skip(p), text.skip(t)),
        run_end < text.len() <= usize::MAX,
    ensures
        search_state(
            pattern,
            text,
            after as int,
            run_end + 1,
            Some((after, (run_end + 1) as usize)),
        ),
{
    let tail = pattern.skip(after as int);
    let wider = run_end + 1;
    assert(pattern.subrange(after as int, after as int) =~= Seq::<char>::empty());
    if glob(pattern, text) && !glob(tail, text.skip(wider)) {
        let k = choose|k: int| run_end < k <= text.len() && #[trigger] glob(tail, text.skip(k));
        assert(wider < k && glob(tail, text.skip(k)));
    }
    if glob(tail, text.skip(wider)) {
        assert(run_end < wider <= text.len() && glob(tail, text.skip(wider)));
    }
}

/// Matches `text` against a glob, whole against whole.
///
/// On a mismatch only the last `*` seen is widened: whatever an earlier one could still reach,
/// the last one reaches too.
fn glob_match(pattern: &[char], text: &[char]) -> (matched: bool)
    ensures
        matched == glob(pattern@, text@),
{
    let mut p: usize = 0;
    let mut t: usize = 0;
    // Where the pattern goes on after the last `*`, and where the run it stands for ends.
    let mut star: Option<(usize, usize)> = None;
    proof {
        assert(pattern@.skip(0) =~= pattern@);
        assert(text@.skip(0) =~= text@);
    }
    loop
        invariant
            search_state(pattern@, text@, p as int, t as int, star),
        decreases
            pattern@.len() - (match star {
                None => 0int,
                Some((after, _)) => after as int,
            }),
            text@.len() - (match star {
                None => 0int,
                Some((_, run_end)) => run_end as int,
            }),
            text@.len() - t,
    {
        if p < pattern.len() && pattern[p] == '*' {
            proof {
                lemma_step_star(pattern@, text@, p, t, star);
            }
            p = p + 1;
            star = Some((p, t));
        } else if p < pattern.len() && t < text.len() && pattern[p] == text[t] {
            proof {
                lemma_step_char(pattern@, text@, p as int, t as int, star);
            }
            p = p + 1;
            t = t + 1;
        } else if p == pattern.len() && t == text.len() {
            return true;
        } else {
            assert(!glob(pattern@.skip(p as int), text@.skip(t as int)));
            match star {
                None => {
                    return false;
                },
                Some((after, run_end)) => {
                    if run_end >= text.len() {
                        return false;
                    }
                    proof {
                        lemma_step_widen(pattern@, text@, p as int, t as int, after, run_end);
                    }
                    p = after;
                    t = run_end + 1;
                    star = Some((after, t));
                },
            }
        }
    }
}

/// Whether `path` is covered by the robots.txt pattern `pattern`. A pattern that ends in `$` has
/// to cover the whole path; any other only a prefix of it, as if a `*` followed.
pub open spec fn covers(pattern: Seq<char>, path: Seq<char>) -> bool {
    if pattern.len() > 0 && pattern.last() == '$' {
        glob(pattern.drop_last(), path)
    } else {
        glob(pattern.push('*'), path)
    }
}

/// How many characters of `pattern` count towards its specificity: all but `*` and `$`.
pub open spec fn specificity(pattern: Seq<char>) -> nat
    decreases pattern.len(),
{
    if pattern.len() == 0 {
        0
    } else {
        specificity(pattern.drop_last()) + if pattern.last() != '*' && pattern.last() != '$' {
            1nat
        } else {
            0nat
        }
    }
}

/// Effective pattern length for specificity: `*` and `$` do not count, wherever they stand.
pub fn effective_pattern_len(pattern: &str) -> (len: usize)
    ensures
        len == specificity(pattern@),
{
    let chars = to_chars(pattern);
    let mut len: usize = 0;
    for i in 0..chars.len()
        invariant
            len == specificity(chars@.take(i as int)),
            len <= i,
    {
        assert(chars@.take(i + 1).drop_last() =~= chars@.take(i as int));
        if chars[i] != '*' && chars[i] != '$' {
            len = len + 1;
        }
    }
    assert(chars@.take(chars@.len() as int) =~= pattern@);
    len
}

/// Glob matching of a path against a robots.txt pattern: `*` is any sequence of characters, a
/// final `$` is the end of the path.
pub fn matches_pattern(path: &str, pattern: &str) -> (matched: bool)
    ensures
        matched == covers(pattern@, path@),
{
    let path = to_chars(path);
    let mut pattern = to_chars(pattern);
    if pattern.len() > 0 && pattern[pattern.len() - 1] == '$' {
        let whole = slice_subrange(pattern.as_slice(), 0, pattern.len() - 1);
        assert(whole@ =~= pattern@.drop_last());
        glob_match(whole, path.as_slice())
    } else {
        pattern.push('*');
        glob_match(pattern.as_slice(), path.as_slice())
    }
}

} // verus!
