//! The JSON text of a register array: a compact JSON array of decimal strings,
//! written and read through serde_json.

use crate::decimal::all_digits;
use vstd::prelude::*;

verus! {

/// serde_json's error type, carried through unopened.
#[verifier::external_type_specification]
#[verifier::external_body]
pub struct ExJsonError(serde_json::Error);

/// The views of a list of strings.
pub open spec fn string_views(values: Seq<String>) -> Seq<Seq<char>> {
    values.map_values(|v: String| v@)
}

/// Every item is a run of ASCII digits.
pub open spec fn digit_items(items: Seq<Seq<char>>) -> bool {
    forall|i: int| 0 <= i < items.len() ==> all_digits(#[trigger] items[i])
}

/// The items, each in double quotes, separated by commas.
pub open spec fn quoted_items(items: Seq<Seq<char>>) -> Seq<char>
    decreases items.len(),
{
    if items.len() == 0 {
        Seq::empty()
    } else if items.len() == 1 {
        seq!['"'] + items[0] + seq!['"']
    } else {
        quoted_items(items.drop_last()) + seq![','] + seq!['"'] + items.last() + seq!['"']
    }
}

/// The compact JSON array text of a list of strings that need no escapes.
pub open spec fn list_text(items: Seq<Seq<char>>) -> Seq<char> {
    seq!['['] + quoted_items(items) + seq![']']
}

/// What serde_json reads from `text` as a list of strings, if it is one.
pub uninterp spec fn json_string_list(text: Seq<char>) -> Option<Seq<Seq<char>>>;

/// Relies on `serde_json::to_string` for a `Vec<String>`: the compact writer puts
/// `[`, the quoted strings separated by `,`, then `]`; ASCII digits take no
/// escape, and writing into memory cannot fail.
#[verifier::external_body]
pub(crate) fn write_string_list(values: &Vec<String>) -> (r: Result<String, serde_json::Error>)
    requires
        digit_items(string_views(values@)),
    ensures
        r is Ok,
        r is Ok ==> r->Ok_0@ == list_text(string_views(values@)),
{
    serde_json::to_string(values)
}

/// Relies on `serde_json::from_str::<Vec<String>>`: it succeeds exactly on a
/// JSON array of strings, and reads the compact array of digit strings that the
/// writer above produces back as the same list.
#[verifier::external_body]
pub(crate) fn read_string_list(text: &str) -> (r: Result<Vec<String>, serde_json::Error>)
    ensures
        r is Ok <==> json_string_list(text@) is Some,
        r is Ok ==> json_string_list(text@) == Some(string_views(r->Ok_0@)),
        forall|items: Seq<Seq<char>>|
            digit_items(items) && text@ == #[trigger] list_text(items) ==> r is Ok && string_views(
                r->Ok_0@,
            ) == items,
{
    serde_json::from_str::<Vec<String>>(text)
}

} // verus!
