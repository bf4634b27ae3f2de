//! Laws of robots.txt patterns.

use vstd::prelude::*;

use crate::pattern;

verus! {

/// The glob `*` matches any text.
pub proof fn law_star_matches_everything(text: Seq<char>)
    ensures
        pattern::glob(seq!['*'], text),
    decreases text.len(),
{
    assert(seq!['*'].skip(1) =~= Seq::<char>::empty());
    if text.len() > 0 {
        law_star_matches_everything(text.skip(1));
    } else {
        assert(pattern::glob(seq!['*'].skip(1), text));
    }
}

/// The pattern `*` covers every path.
pub proof fn law_star_covers_everything(path: Seq<char>)
    ensures
        pattern::covers(seq!['*'], path),
{
    let double = seq!['*'].push('*');
    assert(double.skip(1) =~= seq!['*']);
    law_star_matches_everything(path);
}

/// A pattern without `*` and without a final `$` covers exactly the paths that start with it.
pub proof fn law_literal_is_prefix(literal: Seq<char>, path: Seq<char>)
    requires
        pattern::literal(literal),
        literal.len() == 0 || literal.last() != '$',
    ensures
        pattern::covers(literal, path) <==> literal.is_prefix_of(path),
{
    let n = literal.len() as int;
    let open = literal.push('*');
    assert(open.take(n) =~= literal);
    pattern::lemma_literal_head(open, n, path);
    assert(open.skip(n) =~= seq!['*']);
    if n <= path.len() {
        law_star_matches_everything(path.skip(n));
        assert(path.take(n) == path.subrange(0, n));
    }
}

/// A pattern without `*` followed by `$` covers exactly itself.
pub proof fn law_anchored_literal_is_equality(literal: Seq<char>, path: Seq<char>)
    requires
        pattern::literal(literal),
    ensures
        pattern::covers(literal.push('$'), path) <==> path == literal,
{
    let n = literal.len() as int;
    assert(literal.push('$').drop_last() =~= literal);
    assert(literal.take(n) =~= literal);
    pattern::lemma_literal_head(literal, n, path);
    assert(literal.skip(n) =~= Seq::<char>::empty());
    if n <= path.len() && path.take(n) == literal && path.skip(n).len() == 0 {
        assert(path.take(n) =~= path);
    }
    if path == literal {
        assert(path.take(n) =~= path);
    }
}

/// A glob that ends in `*` goes on matching when characters are added behind the text.
proof fn lemma_open_end(open: Seq<char>, text: Seq<char>, more: Seq<char>)
    requires
        open.len() > 0,
        open.last() == '*',
        pattern::glob(open, text),
    ensures
        pattern::glob(open, text + more),
    decreases open.len() + text.len(),
{
    if open.len() == 1 {
        assert(open =~= seq!['*']);
        law_star_matches_everything(text + more);
    } else if open[0] == '*' {
        if pattern::glob(open.skip(1), text) {
            lemma_open_end(open.skip(1), text, more);
        } else {
            lemma_open_end(open, text.skip(1), more);
            assert((text + more).skip(1) =~= text.skip(1) + more);
        }
    } else {
        lemma_open_end(open.skip(1), text.skip(1), more);
        assert((text + more).skip(1) =~= text.skip(1) + more);
    }
}

/// What a pattern without a final `$` covers, it covers with anything behind it too.
pub proof fn law_unanchored_covers_extensions(p: Seq<char>, path: Seq<char>, more: Seq<char>)
    requires
        p.len() == 0 || p.last() != '$',
        pattern::covers(p, path),
    ensures
        pattern::covers(p, path + more),
{
    lemma_open_end(p.push('*'), path, more);
}

/// Two adjacent `*` are as good as one.
proof fn lemma_double_star(head: Seq<char>, text: Seq<char>)
    ensures
        pattern::glob(head.push('*').push('*'), text) == pattern::glob(head.push('*'), text),
    decreases head.len() + text.len(),
{
    let one = head.push('*');
    let two = one.push('*');
    if head.len() == 0 {
        assert(one =~= seq!['*']);
        assert(two.skip(1) =~= seq!['*']);
        law_star_matches_everything(text);
    } else {
        assert(one.skip(1) =~= head.skip(1).push('*'));
        assert(two.skip(1) =~= head.skip(1).push('*').push('*'));
        lemma_double_star(head.skip(1), text);
        if text.len() > 0 {
            lemma_double_star(head.skip(1), text.skip(1));
            if head[0] == '*' {
                lemma_double_star(head, text.skip(1));
            }
        }
    }
}

/// A final `*` changes nothing where no `$` comes before it.
pub proof fn law_final_star_is_implied(p: Seq<char>, path: Seq<char>)
    requires
        p.len() == 0 || p.last() != '$',
    ensures
        pattern::covers(p.push('*'), path) == pattern::covers(p, path),
{
    lemma_double_star(p, path);
}

/// `*` and `$` add nothing to the specificity of a pattern; every other character adds one.
pub proof fn law_specificity_counts_the_rest(p: Seq<char>, c: char)
    ensures
        pattern::specificity(p.push(c)) == pattern::specificity(p) + if c == '*' || c == '$' {
            0nat
        } else {
            1nat
        },
{
    assert(p.push(c).drop_last() =~= p);
}

/// The pattern with these literal pieces, a `*` between each two.
pub open spec fn starred(pieces: Seq<Seq<char>>) -> Seq<char>
    decreases pieces.len(),
{
    if pieces.len() == 0 {
        Seq::empty()
    } else if pieces.len() == 1 {
        pieces[0]
    } else {
        pieces[0].push('*') + starred(pieces.skip(1))
    }
}

/// The text with these pieces, one of the runs between each two.
pub open spec fn filled(pieces: Seq<Seq<char>>, runs: Seq<Seq<char>>) -> Seq<char>
    decreases pieces.len(),
{
    if pieces.len() == 0 {
        Seq::empty()
    } else if pieces.len() == 1 {
        pieces[0]
    } else {
        pieces[0] + runs[0] + filled(pieces.skip(1), runs.skip(1))
    }
}

/// Whether these are literal pieces of a pattern: at least one, none with a `*` in it.
pub open spec fn are_literal(pieces: Seq<Seq<char>>) -> bool {
    &&& pieces.len() > 0
    &&& forall|i: int| 0 <= i < pieces.len() ==> !(#[trigger] pieces[i]).contains('*')
}

proof fn lemma_literal(piece: Seq<char>)
    requires
        !piece.contains('*'),
    ensures
        pattern::literal(piece),
{
    assert forall|i: int| 0 <= i < piece.len() implies piece[i] != '*' by {
        assert(piece.contains(piece[i]));
    }
}

proof fn lemma_rest_is_literal(pieces: Seq<Seq<char>>)
    requires
        are_literal(pieces),
        pieces.len() > 1,
    ensures
        are_literal(pieces.skip(1)),
{
    assert forall|i: int| 0 <= i < pieces.skip(1).len() implies !(#[trigger] pieces.skip(
        1,
    )[i]).contains('*') by {
        assert(!pieces[i + 1].contains('*'));
    }
}

proof fn lemma_filled_matches(pieces: Seq<Seq<char>>, runs: Seq<Seq<char>>)
    requires
        are_literal(pieces),
        runs.len() == pieces.len() - 1,
    ensures
        pattern::glob(starred(pieces), filled(pieces, runs)),
    decreases pieces.len(),
{
    let whole = starred(pieces);
    let text = filled(pieces, runs);
    let first = pieces[0];
    let n = first.len() as int;
    assert(!pieces[0].contains('*'));
    lemma_literal(first);
    assert(whole.take(n) =~= first);
    assert(text.take(n) =~= first);
    pattern::lemma_literal_head(whole, n, text);
    if pieces.len() == 1 {
        assert(whole.skip(n) =~= Seq::<char>::empty());
        assert(text.skip(n) =~= Seq::<char>::empty());
    } else {
        let tail = starred(pieces.skip(1));
        let rest = filled(pieces.skip(1), runs.skip(1));
        lemma_rest_is_literal(pieces);
        lemma_filled_matches(pieces.skip(1), runs.skip(1));
        let star = whole.skip(n);
        let k = runs[0].len() as int;
        assert(star[0] == '*');
        assert(star.skip(1) =~= tail);
        assert(text.skip(n).skip(k) =~= rest);
        assert(pattern::glob(star.skip(1), text.skip(n).skip(k)));
        pattern::lemma_star_is_any_run(star, text.skip(n));
    }
}

proof fn lemma_match_is_filled(pieces: Seq<Seq<char>>, text: Seq<char>) -> (runs: Seq<Seq<char>>)
    requires
        are_literal(pieces),
        pattern::glob(starred(pieces), text),
    ensures
        runs.len() == pieces.len() - 1,
        text == filled(pieces, runs),
    decreases pieces.len(),
{
    let whole = starred(pieces);
    let first = pieces[0];
    let n = first.len() as int;
    assert(!pieces[0].contains('*'));
    lemma_literal(first);
    assert(whole.take(n) =~= first);
    pattern::lemma_literal_head(whole, n, text);
    let rest = text.skip(n);
    if pieces.len() == 1 {
        assert(whole.skip(n) =~= Seq::<char>::empty());
        assert(text.take(n) =~= text);
        Seq::empty()
    } else {
        let star = whole.skip(n);
        assert(star[0] == '*');
        assert(star.skip(1) =~= starred(pieces.skip(1)));
        pattern::lemma_star_is_any_run(star, rest);
        let k = choose|k: int|
            0 <= k <= rest.len() && #[trigger] pattern::glob(star.skip(1), rest.skip(k));
        lemma_rest_is_literal(pieces);
        let inner = lemma_match_is_filled(pieces.skip(1), rest.skip(k));
        let runs = seq![rest.take(k)] + inner;
        assert(runs.skip(1) =~= inner);
        assert(text =~= first + rest.take(k) + rest.skip(k));
        runs
    }
}

/// A pattern that ends in `$` covers exactly the paths that are its literal pieces, in order, with
/// any texts at all in place of the stars.
pub proof fn law_anchored_stars_are_any_runs(pieces: Seq<Seq<char>>, path: Seq<char>)
    requires
        are_literal(pieces),
    ensures
        pattern::covers(starred(pieces).push('$'), path) <==> exists|runs: Seq<Seq<char>>|
            runs.len() == pieces.len() - 1 && path == #[trigger] filled(pieces, runs),
{
    assert(starred(pieces).push('$').drop_last() =~= starred(pieces));
    if pattern::covers(starred(pieces).push('$'), path) {
        let runs = lemma_match_is_filled(pieces, path);
        assert(path == filled(pieces, runs));
    }
    if exists|runs: Seq<Seq<char>>|
        runs.len() == pieces.len() - 1 && path == #[trigger] filled(pieces, runs) {
        let runs = choose|runs: Seq<Seq<char>>|
            runs.len() == pieces.len() - 1 && path == #[trigger] filled(pieces, runs);
        lemma_filled_matches(pieces, runs);
    }
}

proof fn lemma_starred_push(pieces: Seq<Seq<char>>)
    requires
        pieces.len() > 0,
    ensures
        starred(pieces.push(Seq::empty())) == starred(pieces).push('*'),
    decreases pieces.len(),
{
    let more = pieces.push(Seq::empty());
    assert(more.skip(1) =~= pieces.skip(1).push(Seq::empty()));
    if pieces.len() == 1 {
        assert(more.skip(1).len() == 1);
        assert(starred(more.skip(1)) =~= Seq::<char>::empty());
        assert(pieces[0].push('*') + Seq::<char>::empty() =~= pieces[0].push('*'));
    } else {
        lemma_starred_push(pieces.skip(1));
        assert(pieces[0].push('*') + starred(pieces.skip(1)).push('*') =~= (pieces[0].push('*')
            + starred(pieces.skip(1))).push('*'));
    }
}

proof fn lemma_filled_push(pieces: Seq<Seq<char>>, runs: Seq<Seq<char>>, rest: Seq<char>)
    requires
        pieces.len() > 0,
        runs.len() == pieces.len() - 1,
    ensures
        filled(pieces.push(Seq::empty()), runs.push(rest)) == filled(pieces, runs) + rest,
    decreases pieces.len(),
{
    let more = pieces.push(Seq::empty());
    let longer = runs.push(rest);
    assert(more.skip(1) =~= pieces.skip(1).push(Seq::empty()));
    if pieces.len() == 1 {
        assert(more.skip(1).len() == 1);
        assert(filled(more.skip(1), longer.skip(1)) =~= Seq::<char>::empty());
        assert(longer[0] == rest);
        assert(pieces[0] + rest + Seq::<char>::empty() =~= pieces[0] + rest);
    } else {
        assert(longer.skip(1) =~= runs.skip(1).push(rest));
        assert(longer[0] == runs[0]);
        lemma_filled_push(pieces.skip(1), runs.skip(1), rest);
        let inner = filled(pieces.skip(1), runs.skip(1));
        assert(pieces[0] + runs[0] + (inner + rest) =~= (pieces[0] + runs[0] + inner) + rest);
    }
}

/// A pattern that does not end in `$` covers exactly the paths that start with its literal pieces,
/// in order, with any texts at all in place of the stars.
pub proof fn law_open_stars_are_any_runs(pieces: Seq<Seq<char>>, path: Seq<char>)
    requires
        are_literal(pieces),
        starred(pieces).len() == 0 || starred(pieces).last() != '$',
    ensures
        pattern::covers(starred(pieces), path) <==> exists|runs: Seq<Seq<char>>, rest: Seq<char>|
            runs.len() == pieces.len() - 1 && path == #[trigger] (filled(pieces, runs) + rest),
{
    let more = pieces.push(Seq::empty());
    assert forall|i: int| 0 <= i < more.len() implies !(#[trigger] more[i]).contains('*') by {
        if i < pieces.len() {
            assert(!pieces[i].contains('*'));
        }
    }
    lemma_starred_push(pieces);
    if pattern::covers(starred(pieces), path) {
        let longer = lemma_match_is_filled(more, path);
        let (runs, rest) = (longer.drop_last(), longer.last());
        assert(runs.push(rest) =~= longer);
        lemma_filled_push(pieces, runs, rest);
        assert(path == filled(pieces, runs) + rest);
    }
    if exists|runs: Seq<Seq<char>>, rest: Seq<char>|
        runs.len() == pieces.len() - 1 && path == #[trigger] (filled(pieces, runs) + rest) {
        let (runs, rest) = choose|runs: Seq<Seq<char>>, rest: Seq<char>|
            runs.len() == pieces.len() - 1 && path == #[trigger] (filled(pieces, runs) + rest);
        lemma_filled_push(pieces, runs, rest);
        lemma_filled_matches(more, runs.push(rest));
    }
}

/// Every pattern is made of literal pieces with a `*` between each two.
pub proof fn law_every_pattern_is_starred(p: Seq<char>) -> (pieces: Seq<Seq<char>>)
    ensures
        are_literal(pieces),
        starred(pieces) == p,
    decreases p.len(),
{
    if p.contains('*') {
        let i = p.index_of_first('*').unwrap();
        p.index_of_first_ensures('*');
        let first = p.take(i);
        let inner = law_every_pattern_is_starred(p.skip(i + 1));
        let pieces = seq![first] + inner;
        assert(pieces.skip(1) =~= inner);
        assert(p =~= first.push('*') + p.skip(i + 1));
        assert forall|k: int| 0 <= k < pieces.len() implies !(#[trigger] pieces[k]).contains(
            '*',
        ) by {
            if k == 0 {
                if first.contains('*') {
                    let j = choose|j: int| 0 <= j < first.len() && first[j] == '*';
                    assert(p[j] == '*');
                }
            } else {
                assert(!inner[k - 1].contains('*'));
            }
        }
        pieces
    } else {
        let pieces = seq![p];
        assert(starred(pieces) == p);
        pieces
    }
}

/// One `*` and a final `$`: what is covered starts with the one part and ends with the other, with
/// any text at all between them.
pub proof fn law_one_star_anchored(a: Seq<char>, b: Seq<char>, path: Seq<char>)
    requires
        !a.contains('*'),
        !b.contains('*'),
    ensures
        pattern::covers(a.push('*') + b.push('$'), path) <==> exists|run: Seq<char>|
            path == #[trigger] (a + run + b),
{
    let pieces = seq![a, b];
    assert(pieces.skip(1) =~= seq![b]);
    assert(starred(pieces) == a.push('*') + starred(seq![b]));
    assert(starred(seq![b]) == b);
    assert(starred(pieces).push('$') =~= a.push('*') + b.push('$'));
    law_anchored_stars_are_any_runs(pieces, path);
    assert forall|runs: Seq<Seq<char>>| runs.len() == 1 implies #[trigger] filled(pieces, runs) == a
        + runs[0] + b by {
        assert(filled(seq![b], runs.skip(1)) == b);
    }
    if pattern::covers(a.push('*') + b.push('$'), path) {
        let runs = choose|runs: Seq<Seq<char>>|
            runs.len() == pieces.len() - 1 && path == #[trigger] filled(pieces, runs);
        assert(path == a + runs[0] + b);
    }
    if exists|run: Seq<char>| path == #[trigger] (a + run + b) {
        let run = choose|run: Seq<char>| path == #[trigger] (a + run + b);
        assert(filled(pieces, seq![run]) == a + run + b);
    }
}

/// How specific a pattern is: the number of its characters, those left out that are `*` or `$`.
pub proof fn law_specificity_is_a_count(p: Seq<char>)
    ensures
        pattern::specificity(p) == p.filter(|c: char| c != '*' && c != '$').len(),
    decreases p.len(),
{
    reveal(Seq::filter);
    if p.len() > 0 {
        law_specificity_is_a_count(p.drop_last());
    }
}

} // verus!
