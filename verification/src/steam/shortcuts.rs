//! The names that the accounts' shortcut files hold: those of the
//! applications that an account added by hand.

use vstd::prelude::*;
use crate::steam::bin_vdf::{key_texts, names_in, parse_names_from_bin_vdf};
use crate::steam::names::{restricted, AppNames};
use crate::steam::AppId;

verus! {

/// The keys under which a shortcut file holds an application's name: the
/// first of them that the file has behind the application's id decides.
pub open spec fn shortcut_keys() -> Seq<Seq<char>> {
    seq!["appname"@, "AppName"@]
}

/// The names that the first `n` of the shortcut files `files` hold for the
/// applications of `ids`: of two files that name one application, the later
/// one stays.
pub open spec fn shortcut_names(files: Seq<Seq<u8>>, ids: Seq<AppId>, n: int) -> Map<
    AppId,
    Seq<char>,
>
    decreases n,
{
    if n <= 0 || n > files.len() {
        Map::empty()
    } else {
        shortcut_names(files, ids, n - 1).union_prefer_right(
            names_in(files[n - 1], shortcut_keys(), ids),
        )
    }
}

/// The bytes of the files.
pub open spec fn contents(files: Seq<Vec<u8>>) -> Seq<Seq<u8>> {
    Seq::new(files.len(), |i: int| files[i]@)
}

/// Looks in the bytes of the accounts' shortcut files for the names of the
/// applications of `app_ids`.
pub fn parse_names(files: &Vec<Vec<u8>>, app_ids: &[AppId]) -> (names: AppNames)
    ensures
        names@ == shortcut_names(contents(files@), app_ids@, files.len() as int),
{
    let possible_keys: [&str; 2] = ["appname", "AppName"];
    assert(key_texts(possible_keys@) =~= shortcut_keys());
    let mut names = AppNames::new();
    let mut i: usize = 0;
    while i < files.len()
        invariant
            i <= files.len(),
            key_texts(possible_keys@) == shortcut_keys(),
            names@ == shortcut_names(contents(files@), app_ids@, i as int),
        decreases files.len() - i,
    {
        let found = parse_names_from_bin_vdf(files[i].as_slice(), &possible_keys, app_ids);
        assert(restricted(found@, app_ids@) =~= found@);
        names.extend(&found, app_ids);
        i += 1;
    }
    names
}

} // verus!
