//! The one place where the library reads the clock: today's local date.

use vstd::prelude::*;

verus! {

/// Holds of every string that the clock wrapper can hand back: at least
/// ten characters (`YYYY-MM-DD`, with more digits for far-away years),
/// each an ASCII digit, `-` or `+`.
pub open spec fn date_shape(s: Seq<char>) -> bool {
    &&& s.len() >= 10
    &&& forall|i: int|
        0 <= i < s.len() ==> ('0' <= #[trigger] s[i] <= '9' || s[i] == '-' || s[i] == '+')
}

/// Relies on chrono's Local::now formatted with `%Y-%m-%d`: a year of at
/// least four digits (a sign for years outside 0..=9999), then `-`, a
/// two-digit month, `-`, and a two-digit day.
#[verifier::external_body]
pub fn today() -> (r: String)
    ensures
        date_shape(r@),
{
    chrono::Local::now().format("%Y-%m-%d").to_string()
}

} // verus!
