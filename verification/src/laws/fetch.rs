//! Laws of fetching a robots.txt.

use vstd::prelude::*;
use vstd::utf8::*;

use crate::error::{CrwError, ErrorView};
use crate::fetch;
use crate::fetch::Outcome;
use crate::robots;
use crate::robots::{Record, RobotsTxt, RobotsView};
use crate::text;

verus! {

/// A site that has no robots.txt forbids nothing: a 4xx status ends the fetch, and every path is
/// allowed.
pub proof fn law_missing_file_forbids_nothing(status: u16, path: Seq<char>)
    requires
        400 <= status < 500,
    ensures
        fetch::reply_outcome(Ok(status)) == Some(Outcome::Rules(fetch::no_rules())),
        robots::allowed(fetch::no_rules().rules, path),
{
}

/// A reply that never came and a status that is neither 2xx nor 4xx are failures.
pub proof fn law_unreachable_origin_is_a_failure(reply: Result<u16, String>)
    requires
        reply matches Ok(status) ==> !(200 <= status < 300) && !(400 <= status < 500),
    ensures
        fetch::reply_outcome(reply) matches Some(Outcome::Failed(_)),
{
}

proof fn lemma_after_ascii(bytes: Seq<u8>, i: int)
    requires
        valid_utf8(bytes),
        0 <= i < bytes.len(),
        bytes[i] <= 0x7f,
    ensures
        is_char_boundary(bytes, i),
        is_char_boundary(bytes, i + 1),
    decreases bytes.len(),
{
    let l = length_of_first_scalar(bytes);
    let rest = pop_first_scalar(bytes);
    if i < l {
        assert(i == 0 && l == 1);
        assert(is_char_boundary(rest, 0));
    } else {
        assert(rest[i - l] == bytes[i]);
        lemma_after_ascii(rest, i - l);
    }
}

proof fn lemma_complete_len(bytes: Seq<u8>)
    ensures
        0 <= fetch::complete_len(bytes) <= bytes.len(),
        fetch::complete_len(bytes) > 0 ==> bytes[fetch::complete_len(bytes) - 1] == 10,
    decreases bytes.len(),
{
    if bytes.len() > 0 && bytes.last() != 10 {
        lemma_complete_len(bytes.drop_last());
    }
}

/// What is kept of a body that the cap cut, wherever the cut fell, is a run of whole lines: the
/// text of the kept bytes is empty or ends with a line feed, and the text of the whole body goes
/// on behind it.
pub proof fn law_cut_body_keeps_whole_lines(full: Seq<u8>, n: int)
    requires
        valid_utf8(full),
        0 <= n <= full.len(),
    ensures
        ({
            let kept = fetch::kept(full.take(n), true);
            &&& kept.is_prefix_of(full)
            &&& valid_utf8(kept)
            &&& kept.len() == 0 || decode_utf8(kept).last() == '\n'
            &&& decode_utf8(full) == decode_utf8(kept) + decode_utf8(
                full.skip(kept.len() as int),
            )
        }),
{
    let bytes = full.take(n);
    let k = fetch::complete_len(bytes);
    lemma_complete_len(bytes);
    let kept = fetch::kept(bytes, true);
    assert(kept =~= full.subrange(0, k));
    assert(full.skip(k) =~= full.subrange(k, full.len() as int));
    if k > 0 {
        assert(full[k - 1] == 10);
        lemma_after_ascii(full, k - 1);
    } else {
        is_char_boundary_start_end_of_seq(full);
    }
    valid_utf8_split(full, k);
    decode_utf8_split(full, k);
    if k > 0 {
        lemma_after_ascii(kept, k - 1);
        decode_utf8_split(kept, k - 1);
        let last = kept.subrange(k - 1, k);
        assert(last =~= seq![10u8]);
        valid_utf8_split(kept, k - 1);
        assert(decode_utf8(last) =~= seq!['\n']) by {
            assert(pop_first_scalar(last) =~= Seq::<u8>::empty());
            assert(decode_utf8(pop_first_scalar(last)) =~= Seq::<char>::empty());
            assert(codepoint_width_1(10u8) == 10u32) by {
                assert(10u8 & 0x7F == 10u8) by (bit_vector);
            }
        }
    }
}

/// A body that the cap cut is read as the lines that are wholly there: the records that come out,
/// but for the blank one behind the last line feed, are the first records of the whole body.
pub proof fn law_cut_body_reads_as_its_first_lines(full: Seq<u8>, n: int)
    requires
        valid_utf8(full),
        0 <= n <= full.len(),
    ensures
        ({
            let cut = robots::records(decode_utf8(fetch::kept(full.take(n), true)));
            &&& cut.len() > 0
            &&& cut.last() == Record::Blank
            &&& cut.drop_last().is_prefix_of(robots::records(decode_utf8(full)))
        }),
{
    law_cut_body_keeps_whole_lines(full, n);
    let kept = fetch::kept(full.take(n), true);
    let head = decode_utf8(kept);
    let rest = decode_utf8(full.skip(kept.len() as int));
    let none = Seq::<char>::empty();
    assert(text::split(none, '\n') =~= seq![none]);
    assert(robots::records(none) =~= seq![Record::Blank]);
    if kept.len() == 0 {
        assert(head =~= none);
    } else {
        let lines = head.drop_last();
        assert(lines.push('\n') + none =~= head);
        assert(lines.push('\n') + rest =~= decode_utf8(full));
        crate::laws::robots::law_records_line_by_line(lines, none);
        crate::laws::robots::law_records_line_by_line(lines, rest);
        assert(robots::records(head).drop_last() =~= robots::records(lines));
        assert(robots::records(lines) =~= robots::records(decode_utf8(full)).subrange(
            0,
            robots::records(lines).len() as int,
        ));
    }
}

/// The slashes that an origin is written with at its end are dropped, all of them, and nothing
/// else is.
pub proof fn law_final_slashes_are_dropped(base: Seq<char>, slashes: Seq<char>)
    requires
        base.len() == 0 || base.last() != '/',
        forall|i: int| 0 <= i < slashes.len() ==> #[trigger] slashes[i] == '/',
    ensures
        fetch::without_final_slashes(base + slashes) == base,
    decreases slashes.len(),
{
    if slashes.len() == 0 {
        assert(base + slashes =~= base);
    } else {
        assert(slashes[slashes.len() - 1] == '/');
        assert((base + slashes).drop_last() =~= base + slashes.drop_last());
        law_final_slashes_are_dropped(base, slashes.drop_last());
    }
}

/// A cut body loses what stands behind its last line feed, and nothing else; a body that is whole
/// loses nothing.
pub proof fn law_only_the_half_read_line_is_dropped(lines: Seq<u8>, half: Seq<u8>, bytes: Seq<u8>)
    requires
        lines.len() == 0 || lines.last() == 10,
        !half.contains(10),
    ensures
        fetch::kept(lines + half, true) == lines,
        fetch::kept(bytes, false) == bytes,
{
    lemma_complete_len_behind(lines, half);
    assert((lines + half).take(lines.len() as int) =~= lines);
}

proof fn lemma_complete_len_behind(lines: Seq<u8>, half: Seq<u8>)
    requires
        lines.len() == 0 || lines.last() == 10,
        !half.contains(10),
    ensures
        fetch::complete_len(lines + half) == lines.len(),
    decreases half.len(),
{
    if half.len() == 0 {
        assert(lines + half =~= lines);
    } else {
        assert(half.contains(half.last()));
        let less = half.drop_last();
        if less.contains(10) {
            let j = choose|j: int| 0 <= j < less.len() && less[j] == 10;
            assert(half[j] == 10);
        }
        assert((lines + half).drop_last() =~= lines + less);
        lemma_complete_len_behind(lines, less);
    }
}

/// Numbers are written in decimal: a digit as itself, and one more digit behind a number as ten
/// times the number and the digit.
pub proof fn law_numbers_in_decimal(n: nat, d: nat)
    requires
        d < 10,
    ensures
        fetch::decimal(d) == seq![('0' as u32 + d) as char],
        n > 0 ==> fetch::decimal(10 * n + d) == fetch::decimal(n).push(('0' as u32 + d) as char),
{
    if n > 0 {
        assert((10 * n + d) / 10 == n);
        assert((10 * n + d) % 10 == d);
    }
}

/// How a fetch ends on the reply, for every reply: what the status classes and the failures come
/// to, message and all.
pub proof fn law_what_every_reply_comes_to(status: u16, message: String)
    ensures
        400 <= status <= 499 ==> fetch::reply_outcome(Ok(status)) == Some(
            Outcome::Rules(RobotsView { rules: Seq::empty(), sitemaps: Seq::empty() }),
        ),
        200 <= status <= 299 ==> fetch::reply_outcome(Ok(status)) is None,
        !(200 <= status <= 299) && !(400 <= status <= 499) ==> fetch::reply_outcome(Ok(status))
            == Some(
            Outcome::Failed(
                ErrorView::TargetUnreachable(
                    "robots.txt returned HTTP "@ + fetch::decimal(status as nat),
                ),
            ),
        ),
        fetch::reply_outcome(Err(message)) == Some(
            Outcome::Failed(
                ErrorView::TargetUnreachable("robots.txt request failed: "@ + message@),
            ),
        ),
{
}

/// How a fetch ends on the body: the rules and sitemaps of the text that its kept bytes make, or
/// the failure to read it, message and all.
pub proof fn law_what_every_body_comes_to(bytes: Seq<u8>, truncated: bool, message: String)
    ensures
        fetch::body_outcome(Ok((bytes, truncated))) == Outcome::Rules(
            robots::parsed(fetch::lossy_text(fetch::kept(bytes, truncated))),
        ),
        fetch::body_outcome(Err(message)) == Outcome::Failed(
            ErrorView::TargetUnreachable("robots.txt body failed: "@ + message@),
        ),
{
}

/// The outcome of a fetch is its result, seen as it is.
pub proof fn law_outcomes_are_results(
    robots: RobotsTxt,
    e: CrwError,
    bytes: Vec<u8>,
    truncated: bool,
    message: String,
)
    ensures
        fetch::outcome(Ok(robots)) == Outcome::Rules(robots@),
        fetch::outcome(Err(e)) == Outcome::Failed(e@),
        CrwError::TargetUnreachable(message)@ == ErrorView::TargetUnreachable(message@),
        CrwError::InvalidRequest(message)@ == ErrorView::InvalidRequest(message@),
        fetch::body_view(Ok((bytes, truncated))) == Ok::<(Seq<u8>, bool), String>(
            (bytes@, truncated),
        ),
        fetch::body_view(Err(message)) == Err::<(Seq<u8>, bool), String>(message),
{
}

/// A body that is valid UTF-8 comes to the rules and sitemaps of the text that it encodes.
pub proof fn law_what_a_utf8_body_comes_to(bytes: Seq<u8>, truncated: bool, message: String)
    ensures
        fetch::is_utf8_body(Ok((bytes, truncated))) == valid_utf8(fetch::kept(bytes, truncated)),
        !fetch::is_utf8_body(Err(message)),
        fetch::utf8_body_outcome(Ok((bytes, truncated))) == Outcome::Rules(
            robots::parsed(decode_utf8(fetch::kept(bytes, truncated))),
        ),
{
}

/// At most five hundred kibibytes of a file are read.
pub proof fn law_the_most_that_is_read()
    ensures
        fetch::MAX_ROBOTS_BYTES == 512_000,
{
}

} // verus!
