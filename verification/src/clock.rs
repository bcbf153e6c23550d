//! The wall clock, as text.

use vstd::prelude::*;
use vstd::utf8::is_ascii_chars;

verus! {

/// The fewest characters of a timestamp: two each for month, day, hour,
/// minute and second, four for the year, and five separators.
pub const TIMESTAMP_CHARS_MIN: usize = 19;

/// The most characters of a timestamp: a year outside 0 to 9999 is written
/// with a sign and as many digits as it has, at most ten.
pub const TIMESTAMP_CHARS_MAX: usize = 26;

/// The pattern of a timestamp: month, day and year with hyphens between
/// them, a space, then hour, minute and second with colons between them.
pub open spec fn timestamp_pattern() -> Seq<char> {
    "%m-%d-%Y %H:%M:%S"@
}

/// What holds of every timestamp, whenever it is taken: it is ASCII text of
/// 19 to 26 characters.
pub open spec fn timestamp_shaped(text: Seq<char>) -> bool {
    &&& is_ascii_chars(text)
    &&& TIMESTAMP_CHARS_MIN <= text.len() <= TIMESTAMP_CHARS_MAX
}

/// Calls `chrono::Local::now` and formats the moment by `pattern`. Which
/// text comes back depends on when and where the call is made. Trusted, of
/// every such text: it is made of digits, hyphens, a space, colons and at
/// most a sign; month, day, hour, minute and second take two characters
/// each, and the year, a 32-bit number, four to eleven. Formatting fails on
/// a pattern that chrono cannot read, so only the timestamp pattern is
/// admitted.
#[verifier::external_body]
fn local_time_text(pattern: &str) -> (text: String)
    requires
        pattern@ == timestamp_pattern(),
    ensures
        timestamp_shaped(text@),
{
    chrono::Local::now().format(pattern).to_string()
}

/// The current local time as `MM-DD-YYYY HH:MM:SS`.
pub(crate) fn local_timestamp() -> (text: String)
    ensures
        timestamp_shaped(text@),
{
    local_time_text("%m-%d-%Y %H:%M:%S")
}

} // verus!
