//! Fetching an origin's robots.txt: every decision, from what the wire gave.
//!
//! The caller sends a request to [`robots_url`], hands the reply to [`RobotsTxt::on_reply`], reads
//! the body if told to, and hands that to [`RobotsTxt::on_body`].

use vstd::prelude::*;
use vstd::string::StringExecFns;

use crate::body;
use crate::body::read_capped;
use crate::error::{CrwError, CrwResult, ErrorView};
use crate::robots;
use crate::robots::{RobotsTxt, RobotsView};
use crate::text::{to_chars, to_text};

verus! {

/// The most of a robots.txt that is read.
pub const MAX_ROBOTS_BYTES: usize = 500 * 1024;

/// What `String::from_utf8_lossy` makes of a byte sequence.
pub uninterp spec fn lossy_text(bytes: Seq<u8>) -> Seq<char>;

/// `String::from_utf8_lossy`. Claimed of it: the text depends on the bytes alone, and is what they
/// encode if they are valid UTF-8. What stands in for invalid bytes is left unsaid.
#[verifier::external_body]
fn utf8_lossy(bytes: &[u8]) -> (r: String)
    ensures
        r@ == lossy_text(bytes@),
        vstd::utf8::valid_utf8(bytes@) ==> r@ == vstd::utf8::decode_utf8(bytes@),
{
    String::from_utf8_lossy(bytes).into_owned()
}

/// `s` without the slashes it ends with.
pub open spec fn without_final_slashes(s: Seq<char>) -> Seq<char>
    decreases s.len(),
{
    if s.len() > 0 && s.last() == '/' {
        without_final_slashes(s.drop_last())
    } else {
        s
    }
}

/// Where the robots.txt of the origin `base_url` is.
pub fn robots_url(base_url: &str) -> (r: String)
    ensures
        r@ == without_final_slashes(base_url@) + "/robots.txt"@,
{
    let mut chars = to_chars(base_url);
    while chars.len() > 0 && chars[chars.len() - 1] == '/'
        invariant
            without_final_slashes(chars@) == without_final_slashes(base_url@),
        decreases chars@.len(),
    {
        let ghost before = chars@;
        chars.pop();
        assert(chars@ =~= before.drop_last());
    }
    to_text(chars.as_slice()).concat("/robots.txt")
}

/// How many of the bytes make up complete lines: up to and including the last line feed.
pub open spec fn complete_len(bytes: Seq<u8>) -> int
    decreases bytes.len(),
{
    if bytes.len() == 0 || bytes.last() == 10 {
        bytes.len() as int
    } else {
        complete_len(bytes.drop_last())
    }
}

/// The bytes to go by: all of them, but for a last line that the cap cut through.
pub open spec fn kept(bytes: Seq<u8>, truncated: bool) -> Seq<u8> {
    if truncated {
        bytes.take(complete_len(bytes))
    } else {
        bytes
    }
}

/// The decimal digits of `n`.
pub open spec fn decimal(n: nat) -> Seq<char>
    decreases n,
{
    if n < 10 {
        seq![(48 + n) as char]
    } else {
        decimal(n / 10).push((48 + n % 10) as char)
    }
}

/// Appends the decimal digits of `n`.
fn push_decimal(s: &mut String, n: u16)
    ensures
        final(s)@ == old(s)@ + decimal(n as nat),
    decreases n,
{
    if n >= 10 {
        push_decimal(s, n / 10);
    }
    let digit = (48 + (n % 10) as u8) as char;
    s.push(digit);
    assert(s@ =~= old(s)@ + decimal(n as nat));
}

/// What comes after a reply.
pub enum FetchStep {
    /// The fetch is over.
    Done(CrwResult<RobotsTxt>),
    /// The body has to be read, up to `MAX_ROBOTS_BYTES`.
    ReadBody,
}

/// How a fetch ends.
pub enum Outcome {
    Rules(RobotsView),
    Failed(ErrorView),
}

/// How the fetch that gave `r` ended.
pub open spec fn outcome(r: CrwResult<RobotsTxt>) -> Outcome {
    match r {
        Ok(robots) => Outcome::Rules(robots@),
        Err(e) => Outcome::Failed(e@),
    }
}

/// What no robots.txt comes to.
pub open spec fn no_rules() -> RobotsView {
    RobotsView { rules: Seq::empty(), sitemaps: Seq::empty() }
}

/// A failure with the message `prefix` followed by `detail`.
pub open spec fn unreachable_because(prefix: Seq<char>, detail: Seq<char>) -> Outcome {
    Outcome::Failed(ErrorView::TargetUnreachable(prefix + detail))
}

/// How a fetch ends on the reply alone, if it does: with a failure where no reply came, with no
/// rules on a 4xx status, with a failure on any other status but 2xx.
pub open spec fn reply_outcome(reply: Result<u16, String>) -> Option<Outcome> {
    match reply {
        Err(message) => Some(unreachable_because("robots.txt request failed: "@, message@)),
        Ok(status) => if 400 <= status < 500 {
            Some(Outcome::Rules(no_rules()))
        } else if 200 <= status < 300 {
            None
        } else {
            Some(unreachable_because("robots.txt returned HTTP "@, decimal(status as nat)))
        },
    }
}

/// How a fetch ends on the body: with a failure where it could not be read, else with the rules
/// of its complete lines.
pub open spec fn body_outcome(body: Result<(Seq<u8>, bool), String>) -> Outcome {
    match body {
        Err(message) => unreachable_because("robots.txt body failed: "@, message@),
        Ok((bytes, truncated)) => Outcome::Rules(
            robots::parsed(lossy_text(kept(bytes, truncated))),
        ),
    }
}

/// Whether a body was read whose bytes to go by are valid UTF-8.
pub open spec fn is_utf8_body(body: Result<(Seq<u8>, bool), String>) -> bool {
    match body {
        Ok((bytes, truncated)) => vstd::utf8::valid_utf8(kept(bytes, truncated)),
        Err(_) => false,
    }
}

/// How a fetch ends on such a body: with the rules of the text that the bytes encode.
pub open spec fn utf8_body_outcome(body: Result<(Seq<u8>, bool), String>) -> Outcome
    recommends
        is_utf8_body(body),
{
    let (bytes, truncated) = body->Ok_0;
    Outcome::Rules(robots::parsed(vstd::utf8::decode_utf8(kept(bytes, truncated))))
}

/// The bytes that were read and whether more remained, or the error.
pub open spec fn body_view(body: Result<(Vec<u8>, bool), String>) -> Result<
    (Seq<u8>, bool),
    String,
> {
    match body {
        Ok((bytes, truncated)) => Ok((bytes@, truncated)),
        Err(message) => Err(message),
    }
}

fn unreachable(prefix: &str, detail: &str) -> (r: CrwError)
    ensures
        r@ == ErrorView::TargetUnreachable(prefix@ + detail@),
{
    CrwError::TargetUnreachable(prefix.to_owned().concat(detail))
}

impl RobotsTxt {
    /// Decides on the reply to the request: its status, or why there is none.
    ///
    /// A 4xx is a site that simply has no robots.txt, which is no rules rather than a problem.
    pub fn on_reply(reply: Result<u16, String>) -> (r: FetchStep)
        ensures
            match r {
                FetchStep::Done(result) => reply_outcome(reply) == Some(outcome(result)),
                FetchStep::ReadBody => reply_outcome(reply) is None,
            },
    {
        match reply {
            Err(message) => FetchStep::Done(
                Err(unreachable("robots.txt request failed: ", message.as_str())),
            ),
            Ok(status) => {
                if 400 <= status && status < 500 {
                    FetchStep::Done(Ok(RobotsTxt::default()))
                } else if 200 <= status && status < 300 {
                    FetchStep::ReadBody
                } else {
                    let mut digits = String::new();
                    push_decimal(&mut digits, status);
                    assert(digits@ =~= decimal(status as nat));
                    FetchStep::Done(Err(unreachable("robots.txt returned HTTP ", digits.as_str())))
                }
            },
        }
    }

    /// Reads the rules off the bytes of a body. If the cap cut the body, its last line is only
    /// half there and is left out.
    pub fn from_body(bytes: Vec<u8>, truncated: bool) -> (r: RobotsTxt)
        ensures
            r@ == robots::parsed(lossy_text(kept(bytes@, truncated))),
            vstd::utf8::valid_utf8(kept(bytes@, truncated)) ==> r@ == robots::parsed(
                vstd::utf8::decode_utf8(kept(bytes@, truncated)),
            ),
    {
        let mut bytes = bytes;
        let ghost all = bytes@;
        if truncated {
            let mut end: usize = bytes.len();
            assert(all.take(end as int) =~= all);
            while end > 0 && bytes[end - 1] != 10
                invariant
                    bytes@ == all,
                    end <= all.len(),
                    complete_len(all) == complete_len(all.take(end as int)),
                decreases end,
            {
                assert(all.take(end as int).drop_last() =~= all.take(end - 1));
                end = end - 1;
            }
            bytes.truncate(end);
            assert(bytes@ =~= kept(all, true));
        }
        let text = utf8_lossy(bytes.as_slice());
        RobotsTxt::parse(text.as_str())
    }

    /// Decides on the body: what was read of it and whether more remained, or why it could not
    /// be read.
    pub fn on_body(body: Result<(Vec<u8>, bool), String>) -> (r: CrwResult<RobotsTxt>)
        ensures
            outcome(r) == body_outcome(body_view(body)),
            is_utf8_body(body_view(body)) ==> outcome(r) == utf8_body_outcome(body_view(body)),
    {
        match body {
            Ok((bytes, truncated)) => Ok(RobotsTxt::from_body(bytes, truncated)),
            Err(message) => Err(unreachable("robots.txt body failed: ", message.as_str())),
        }
    }

    /// The whole fetch, over what the wire gives: the reply, and the chunks of its body.
    ///
    /// A 4xx is no rules. Anything else but a 2xx, a reply that never came and a body that broke
    /// off are errors, but only so the caller can log which origin went dark.
    pub fn fetch(reply: Result<u16, String>, chunks: Vec<Result<Vec<u8>, String>>) -> (r: CrwResult<
        RobotsTxt,
    >)
        ensures
            outcome(r) == match reply_outcome(reply) {
                Some(end) => end,
                None => body_outcome(body::capped(chunks@, MAX_ROBOTS_BYTES as int)),
            },
            reply_outcome(reply) is None && is_utf8_body(
                body::capped(chunks@, MAX_ROBOTS_BYTES as int),
            ) ==> outcome(r) == utf8_body_outcome(body::capped(chunks@, MAX_ROBOTS_BYTES as int)),
    {
        match RobotsTxt::on_reply(reply) {
            FetchStep::Done(result) => result,
            FetchStep::ReadBody => RobotsTxt::on_body(read_capped(chunks, MAX_ROBOTS_BYTES)),
        }
    }
}

} // verus!
