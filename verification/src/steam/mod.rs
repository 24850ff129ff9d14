//! Steam's identifiers and the parsers of its configuration files.

pub mod app_info;
pub mod bin_vdf;
pub mod compat_tool;
pub mod local_config;
pub mod login_users;
pub mod names;
pub mod registry;
pub mod shortcuts;
pub mod text_vdf;

pub use self::bin_vdf::parse_names_from_bin_vdf;
pub use self::compat_tool::{parse_compat_tool_mapping, CompatToolMapping};
pub use self::local_config::parse_launch_options_mapping;
pub use self::login_users::parse_display_name;
pub use self::names::{AppNames, AppStates};
pub use self::registry::{parse_registry, Registry};
pub use self::text_vdf::{parse_vdf_keys, KeyParser};
use vstd::prelude::*;
use vstd::std_specs::convert::FromSpecImpl;
use crate::decimal::{decimal, numeral_value, parse_u64, u64_to_string};
use crate::text::chars_of;

verus! {

/// Identifies an application. Id 0 stands for "no compatibility tool of its
/// own" and never reaches a report.
#[derive(Clone, Copy, Debug, PartialEq, Eq, Hash, Structural)]
pub struct AppId(pub u64);

/// The number of the id under which Steam files the tool that applies where
/// an application names none.
pub const DEFAULT_PROTON_APP_ID: u64 = 0;

impl AppId {
    pub fn new(id: u64) -> (r: AppId)
        ensures
            r == AppId(id),
    {
        AppId(id)
    }

    /// Whether this is the id that stands for no application.
    pub open spec fn is_default(self) -> bool {
        self.0 == DEFAULT_PROTON_APP_ID
    }

    /// The id that `text` writes as a numeral, if it writes one.
    pub fn from_text(text: &str) -> (r: Option<AppId>)
        ensures
            r == match numeral_value(text@) {
                Some(id) => Some(AppId(id)),
                None => None,
            },
    {
        let chars = chars_of(text);
        match parse_u64(&chars) {
            Some(id) => Some(AppId(id)),
            None => None,
        }
    }

    /// The id as a decimal numeral.
    pub fn to_string(&self) -> (s: String)
        ensures
            s@ == decimal(self.0 as nat),
    {
        u64_to_string(self.0)
    }
}

/// Whether `id` is among `ids`.
pub fn contains_id(ids: &Vec<AppId>, id: AppId) -> (found: bool)
    ensures
        found == ids@.contains(id),
{
    let mut i: usize = 0;
    while i < ids.len()
        invariant
            i <= ids.len(),
            forall|k: int| 0 <= k < i ==> ids@[k] != id,
        decreases ids.len() - i,
    {
        if ids[i] == id {
            return true;
        }
        i += 1;
    }
    false
}

/// Takes `id` in among `ids` unless it is among them.
pub fn add_id(ids: &mut Vec<AppId>, id: AppId)
    ensures
        old(ids)@.no_duplicates() ==> final(ids)@.no_duplicates(),
        final(ids)@ == if old(ids)@.contains(id) {
            old(ids)@
        } else {
            old(ids)@.push(id)
        },
        forall|other: AppId| #[trigger]
            final(ids)@.contains(other) <==> old(ids)@.contains(other) || other == id,
{
    let ghost before = ids@;
    if !contains_id(ids, id) {
        ids.push(id);
        assert forall|other: AppId| #[trigger]
            ids@.contains(other) <==> before.contains(other) || other == id by {
            if before.contains(other) {
                let k = choose|k: int| 0 <= k < before.len() && before[k] == other;
                assert(ids@[k] == other);
            }
            if other == id {
                assert(ids@[before.len() as int] == id);
            }
        }
    }
}

/// Identifies a local account: the name of its directory. 0 is no account.
#[derive(Clone, Copy, Debug, PartialEq, Eq, PartialOrd, Ord, Hash, Structural)]
pub struct UserId(pub u32);

impl UserId {
    /// The account that the directory `name` belongs to: the number that the
    /// name writes, where it writes one from 1 to the greatest 32-bit
    /// number. Any other directory belongs to no account.
    pub open spec fn of_dir_name(name: Seq<char>) -> Option<UserId> {
        match numeral_value(name) {
            Some(n) => if 0 < n <= u32::MAX {
                Some(UserId(n as u32))
            } else {
                None
            },
            None => None,
        }
    }

    /// The account that the directory `name` belongs to.
    pub fn from_dir_name(name: &str) -> (id: Option<UserId>)
        ensures
            id == UserId::of_dir_name(name@),
    {
        match parse_u64(&chars_of(name)) {
            Some(n) => if 0 < n && n <= 0xFFFF_FFFF {
                Some(UserId(n as u32))
            } else {
                None
            },
            None => None,
        }
    }

    /// The id as a decimal numeral.
    pub fn to_string(&self) -> (s: String)
        ensures
            s@ == decimal(self.0 as nat),
    {
        u64_to_string(self.0 as u64)
    }
}

/// Identifies an account across Steam: the 64-bit form of a `UserId`.
#[derive(Clone, Copy, Debug, PartialEq, Eq, PartialOrd, Ord, Structural)]
pub struct SteamId64(pub u64);

/// The part of a `SteamId64` that says "an individual account in the public
/// universe".
pub const INDIVIDUAL_ACCOUNT: u64 = 0x0110_0001_0000_0000;

/// The 64-bit id of a local account: the account's number above the
/// constant part.
pub open spec fn steam_id64_of(id: UserId) -> SteamId64 {
    SteamId64((INDIVIDUAL_ACCOUNT + id.0) as u64)
}

impl From<UserId> for SteamId64 {
    fn from(id: UserId) -> (r: SteamId64) {
        let id: u64 = id.0 as u64;
        let (y, z): (u64, u64) = if id % 2 == 0 {
            (0, id / 2)
        } else {
            (1, (id - 1) / 2)
        };
        SteamId64(z * 2 + INDIVIDUAL_ACCOUNT + y)
    }
}

impl FromSpecImpl<UserId> for SteamId64 {
    open spec fn obeys_from_spec() -> bool {
        true
    }

    open spec fn from_spec(id: UserId) -> SteamId64 {
        steam_id64_of(id)
    }
}

impl SteamId64 {
    /// The id as a decimal numeral.
    pub fn to_string(&self) -> (s: String)
        ensures
            s@ == decimal(self.0 as nat),
    {
        u64_to_string(self.0)
    }
}

} // verus!
