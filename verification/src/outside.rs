//! The two calls the engine makes into outside crates, each behind a trusted
//! wrapper with a named result.

use vstd::prelude::*;

verus! {

/// Whether the regular expression `pattern` matches somewhere in `text`;
/// false where `pattern` is not a valid pattern. A function of the two
/// character sequences alone.
pub uninterp spec fn regex_match_of(pattern: Seq<char>, text: Seq<char>) -> bool;

/// Relies on `regex::Regex::new` and `regex::Regex::is_match`: whether the
/// compiled pattern matches somewhere in the text, matching nothing when the
/// pattern does not compile. Both depend on the two strings alone.
#[verifier::external_body]
pub(crate) fn regex_is_match(pattern: &String, text: &String) -> (r: bool)
    ensures
        r == regex_match_of(pattern@, text@),
{
    match regex::Regex::new(pattern.as_str()) {
        Ok(re) => re.is_match(text.as_str()),
        Err(_) => false,
    }
}

/// The timestamp string read as whole seconds since the Unix epoch; nothing
/// where it is not a well-formed RFC 3339 timestamp. A function of the
/// character sequence alone.
pub uninterp spec fn rfc3339_epoch_of(s: Seq<char>) -> Option<i64>;

/// Relies on `chrono::DateTime::parse_from_rfc3339` and
/// `chrono::DateTime::timestamp`: the parsed moment in whole seconds since
/// the Unix epoch. Both depend on the string alone.
#[verifier::external_body]
pub(crate) fn rfc3339_epoch(s: &String) -> (r: Option<i64>)
    ensures
        r == rfc3339_epoch_of(s@),
{
    match chrono::DateTime::parse_from_rfc3339(s.as_str()) {
        Ok(dt) => Some(dt.timestamp()),
        Err(_) => None,
    }
}

} // verus!
