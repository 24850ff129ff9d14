//! Reads Valve's text and binary VDF files to tell which compatibility tool
//! and which launch options are assigned to each application.

pub mod decimal;
pub mod order;
pub mod report;
pub mod resolve;
pub mod steam;
pub mod text;

pub use crate::report::{
    install_state, parse_launch_options, parse_tool_mapping, to_app, App, CompatToolConfig,
    LaunchOptions, LaunchOptionsConfig,
};
pub use crate::resolve::{get_app_names, Lookup, Resolution, Source, Tier};
use vstd::prelude::*;

verus! {

/// Whether an application is installed, as far as the files say.
#[derive(Clone, Copy, Debug, PartialEq, Eq, Structural)]
pub enum InstallState {
    NotInstalled,
    Installed,
    Shortcut,
    Unknown,
}

impl InstallState {
    /// How a report words the state.
    pub open spec fn text(self) -> Seq<char> {
        match self {
            InstallState::NotInstalled => "Not Installed"@,
            InstallState::Installed => "Installed"@,
            InstallState::Shortcut => "Shortcut"@,
            InstallState::Unknown => "Unknown Install State"@,
        }
    }

    /// The state that the registry's value `raw` stands for: `1` for an
    /// installed application, `0` for one that is not, and no knowledge for
    /// any other value.
    pub open spec fn of_raw(raw: Seq<char>) -> InstallState {
        if raw == seq!['0'] {
            InstallState::NotInstalled
        } else if raw == seq!['1'] {
            InstallState::Installed
        } else {
            InstallState::Unknown
        }
    }

    /// The state that the registry's value `raw` stands for.
    pub fn from_raw(raw: &str) -> (state: InstallState)
        ensures
            state == InstallState::of_raw(raw@),
    {
        let chars = crate::text::chars_of(raw);
        if chars.len() == 1 && chars[0] == '0' {
            assert(chars@ =~= seq!['0']);
            InstallState::NotInstalled
        } else if chars.len() == 1 && chars[0] == '1' {
            assert(chars@ =~= seq!['1']);
            InstallState::Installed
        } else {
            assert(seq!['0'].len() == 1 && seq!['0'][0] == '0');
            assert(seq!['1'].len() == 1 && seq!['1'][0] == '1');
            InstallState::Unknown
        }
    }

    /// How a report words the state.
    pub fn to_string(&self) -> (s: String)
        ensures
            s@ == self.text(),
    {
        match self {
            InstallState::NotInstalled => "Not Installed".to_owned(),
            InstallState::Installed => "Installed".to_owned(),
            InstallState::Shortcut => "Shortcut".to_owned(),
            InstallState::Unknown => "Unknown Install State".to_owned(),
        }
    }
}

} // verus!
