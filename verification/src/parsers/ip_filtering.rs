//! Replaces what has the shape of an IPv4 address.

use crate::pattern::{pattern_compiles, pattern_matches, replaced, Matcher};
use std::borrow::Cow;
use vstd::prelude::*;

verus! {

/// Four numbers from 0 to 255 with dots between them.
pub const IP_PATTERN: &'static str =
    r"(?:(?:25[0-5]|2[0-4][0-9]|1[0-9][0-9]|[1-9][0-9]|[0-9])\.){3}(?:25[0-5]|2[0-4][0-9]|1[0-9][0-9]|[1-9][0-9]?|[0-9])";

/// What stands in place of an address.
pub const CENSORED: &'static str = "-censored-";

/// `text` with every match of `IP_PATTERN` replaced by `CENSORED`. Should the
/// pattern not compile, nothing of the text is let through.
pub open spec fn redacted(text: Seq<char>) -> Seq<char> {
    match replaced(IP_PATTERN@, text, 0, CENSORED@) {
        Some(r) => r,
        None => CENSORED@,
    }
}

/// `contents` with every address-shaped part replaced by `-censored-`. A
/// text in which the pattern matches nowhere comes back unchanged.
pub fn filter_ips<'a>(contents: &'a str) -> (r: Cow<'a, str>)
    ensures
        r@ == redacted(contents@),
        pattern_compiles(IP_PATTERN@) && !pattern_matches(IP_PATTERN@, contents@) ==> r@
            == contents@,
{
    let matcher = Matcher::new(IP_PATTERN);
    match matcher.replacen(contents, 0, CENSORED) {
        Some(r) => r,
        None => Cow::Borrowed(CENSORED),
    }
}

} // verus!
