//! The names that the application-info cache holds.

use vstd::prelude::*;
use crate::steam::bin_vdf::{key_texts, names_in, parse_names_from_bin_vdf};
use crate::steam::names::AppNames;
use crate::steam::AppId;

verus! {

/// The key under which the cache holds an application's name.
pub open spec fn app_info_keys() -> Seq<Seq<char>> {
    seq!["name"@]
}

/// Looks in the bytes of the application-info cache for the names of the
/// applications of `app_ids`.
pub fn parse_names(file_contents: &[u8], app_ids: &[AppId]) -> (names: AppNames)
    ensures
        names@ == names_in(file_contents@, app_info_keys(), app_ids@),
{
    let possible_keys: [&str; 1] = ["name"];
    assert(key_texts(possible_keys@) =~= app_info_keys());
    parse_names_from_bin_vdf(file_contents, &possible_keys, app_ids)
}

} // verus!
