//! Input validators for the text fields the command line supplies.

use vstd::prelude::*;

verus! {

/// Accepts `value` when its length in characters lies within
/// `low ..= high`, returning a copy of it.
pub fn string_len_parser(low: usize, high: usize, value: &str) -> (r: Option<String>)
    ensures
        low <= value@.len() <= high ==> (r matches Some(s) && s@ == value@),
        !(low <= value@.len() <= high) ==> r is None,
{
    let len = value.unicode_len();
    if len < low || len > high {
        None
    } else {
        Some(value.to_owned())
    }
}

/// Validates a task title: 1 to 1000 characters.
pub fn title_parser(value: &str) -> (r: Option<String>)
    ensures
        1 <= value@.len() <= 1000 ==> (r matches Some(s) && s@ == value@),
        !(1 <= value@.len() <= 1000) ==> r is None,
{
    string_len_parser(1, 1000, value)
}

/// Validates a category name: 1 to 200 characters.
pub fn category_parser(value: &str) -> (r: Option<String>)
    ensures
        1 <= value@.len() <= 200 ==> (r matches Some(s) && s@ == value@),
        !(1 <= value@.len() <= 200) ==> r is None,
{
    string_len_parser(1, 200, value)
}

/// Validates a task info text: at most 10000 characters.
pub fn info_parser(value: &str) -> (r: Option<String>)
    ensures
        value@.len() <= 10000 ==> (r matches Some(s) && s@ == value@),
        value@.len() > 10000 ==> r is None,
{
    string_len_parser(0, 10000, value)
}

} // verus!
