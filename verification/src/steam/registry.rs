//! What the registry file says of each application: its name and whether it
//! is installed.

use vstd::prelude::*;
use crate::steam::names::{AppNames, AppStates};
use crate::steam::text_vdf::{
    is_sound, key_names, key_values, lemma_key_values_sound, parse_vdf_keys, parses_all,
    parses_one, texts, KeyParser, KeyValue,
};
use crate::steam::AppId;
use crate::InstallState;

verus! {

/// What a registry holds.
pub struct Entries {
    /// The name of each application that the file names.
    pub names: Map<AppId, Seq<char>>,
    /// The state of each application of which the file says one.
    pub states: Map<AppId, InstallState>,
}

impl Entries {
    /// The state of `id`: the one the file gave it, and no knowledge where
    /// it gave none.
    pub open spec fn state(self, id: AppId) -> InstallState {
        if self.states.contains_key(id) {
            self.states[id]
        } else {
            InstallState::Unknown
        }
    }

    /// Nothing known of any application.
    pub open spec fn empty() -> Entries {
        Entries { names: Map::empty(), states: Map::empty() }
    }

    /// The entries after the file's value `value` for whether `id` is
    /// installed: the last value read decides.
    pub open spec fn with_installed(self, value: Seq<char>, id: AppId) -> Entries {
        Entries { names: self.names, states: self.states.insert(id, InstallState::of_raw(value)) }
    }

    /// The entries after the file's name `name` for `id`: the last name read
    /// stays.
    pub open spec fn with_name(self, name: Seq<char>, id: AppId) -> Entries {
        Entries { names: self.names.insert(id, name), states: self.states }
    }
}

/// The registry: names and install states of applications.
pub struct Registry {
    pub app_names: AppNames,
    pub app_states: AppStates,
}

impl View for Registry {
    type V = Entries;

    open spec fn view(&self) -> Entries {
        Entries { names: self.app_names@, states: self.app_states@ }
    }
}

impl Default for Registry {
    fn default() -> (registry: Registry)
        ensures
            registry@ == Entries::empty(),
    {
        Registry { app_names: AppNames::new(), app_states: AppStates::new() }
    }
}

impl Registry {
    /// Whether the registry says that `app_id` is installed.
    pub fn app_is_installed(&self, app_id: &AppId) -> (installed: bool)
        ensures
            installed == (self@.state(*app_id) == InstallState::Installed),
    {
        self.app_state(app_id) == InstallState::Installed
    }

    /// What the registry says of whether `app_id` is installed.
    pub fn app_state(&self, app_id: &AppId) -> (state: InstallState)
        ensures
            state == self@.state(*app_id),
    {
        match self.app_states.get(app_id) {
            Some(state) => state,
            None => InstallState::Unknown,
        }
    }
}

/// Takes in what the file says of whether `app_id` is installed.
pub fn parse_installed(value: &str, app_id: &AppId, registry: &mut Registry)
    ensures
        final(registry)@ == old(registry)@.with_installed(value@, *app_id),
{
    registry.app_states.insert(*app_id, InstallState::from_raw(value));
}

/// Takes in the name that the file gives `app_id`.
pub fn parse_name(name: &str, app_id: &AppId, registry: &mut Registry)
    ensures
        final(registry)@ == old(registry)@.with_name(name@, *app_id),
{
    registry.app_names.insert(*app_id, name.to_owned());
}

/// The keys of the registry that are read.
pub enum RegistryKey {
    Installed,
    Name,
}

impl KeyParser<Registry> for RegistryKey {
    fn parse(&self, value: &str, app_id: &AppId, acc: Registry) -> (registry: Registry)
        ensures
            registry@ == match self {
                RegistryKey::Installed => acc@.with_installed(value@, *app_id),
                RegistryKey::Name => acc@.with_name(value@, *app_id),
            },
    {
        let mut registry = acc;
        match self {
            RegistryKey::Installed => parse_installed(value, app_id, &mut registry),
            RegistryKey::Name => parse_name(value, app_id, &mut registry),
        }
        registry
    }
}

/// The section of the registry file that holds the applications.
pub open spec fn registry_section() -> Seq<char> {
    "apps"@
}

/// The keys of the registry that are read: first `installed`, then `name`.
pub open spec fn registry_keys() -> Seq<Seq<char>> {
    seq!["installed"@, "name"@]
}

/// The entries that the values `found` for `registry_keys` give, each value
/// taken in after those before it.
pub open spec fn entries_of(found: Seq<KeyValue>) -> Entries
    decreases found.len(),
{
    if found.len() == 0 {
        Entries::empty()
    } else {
        let before = entries_of(found.drop_last());
        let last = found.last();
        if last.key == 0 {
            before.with_installed(last.value, last.app_id)
        } else {
            before.with_name(last.value, last.app_id)
        }
    }
}

/// A run of the registry's parsers over `found` takes each value in.
proof fn lemma_parses_entries(
    parsers: Seq<(&str, RegistryKey)>,
    found: Seq<KeyValue>,
    start: Registry,
    end: Registry,
)
    requires
        parsers.len() == 2,
        parsers[0].1 == RegistryKey::Installed,
        parsers[1].1 == RegistryKey::Name,
        forall|i: int| 0 <= i < found.len() ==> 0 <= (#[trigger] found[i]).key < 2,
        parses_all(parsers, found, start, end),
        start@ == Entries::empty(),
    ensures
        end@ == entries_of(found),
    decreases found.len(),
{
    if found.len() > 0 {
        let mid = choose|mid: Registry|
            parses_all(parsers, found.drop_last(), start, mid) && #[trigger] parses_one(
                parsers,
                found.last(),
                mid,
                end,
            );
        assert forall|i: int| 0 <= i < found.drop_last().len() implies 0 <= (
        #[trigger] found.drop_last()[i]).key < 2 by {
            assert(found.drop_last()[i] == found[i]);
        }
        lemma_parses_entries(parsers, found.drop_last(), start, mid);
        assert(0 <= found[found.len() - 1].key < 2);
    }
}

/// Of the values that a file gives for whether an application is installed,
/// the last one decides its state.
pub proof fn lemma_last_installed_wins(found: Seq<KeyValue>, last: int)
    requires
        0 <= last < found.len(),
        found[last].key == 0,
        forall|later: int|
            last < later < found.len() ==> !((#[trigger] found[later]).key == 0
                && found[later].app_id == found[last].app_id),
    ensures
        entries_of(found).state(found[last].app_id) == InstallState::of_raw(found[last].value),
    decreases found.len(),
{
    if last < found.len() - 1 {
        let rest = found.drop_last();
        assert forall|later: int| last < later < rest.len() implies !((
        #[trigger] rest[later]).key == 0 && rest[later].app_id == rest[last].app_id) by {
            assert(rest[later] == found[later]);
        }
        lemma_last_installed_wins(rest, last);
        assert(found[found.len() - 1] == found.last());
    }
}

/// An application for which a file gives no value for whether it is
/// installed has no known state.
pub proof fn lemma_unseen_is_unknown(found: Seq<KeyValue>, id: AppId)
    requires
        forall|i: int| 0 <= i < found.len() ==> !((#[trigger] found[i]).key == 0 && found[i].app_id == id),
    ensures
        entries_of(found).state(id) == InstallState::Unknown,
    decreases found.len(),
{
    if found.len() > 0 {
        let rest = found.drop_last();
        assert forall|i: int| 0 <= i < rest.len() implies !((#[trigger] rest[i]).key == 0
            && rest[i].app_id == id) by {
            assert(rest[i] == found[i]);
        }
        lemma_unseen_is_unknown(rest, id);
        assert(found[found.len() - 1] == found.last());
    }
}

/// The applications of the entries are those of the values they come from.
pub proof fn lemma_entries_of_apps(found: Seq<KeyValue>)
    ensures
        forall|id: AppId| #[trigger]
            entries_of(found).names.contains_key(id) ==> exists|i: int|
                0 <= i < found.len() && (#[trigger] found[i]).app_id == id,
        forall|id: AppId| #[trigger]
            entries_of(found).states.contains_key(id) ==> exists|i: int|
                0 <= i < found.len() && (#[trigger] found[i]).app_id == id,
    decreases found.len(),
{
    if found.len() > 0 {
        let rest = found.drop_last();
        lemma_entries_of_apps(rest);
        let n = found.len() - 1;
        assert forall|id: AppId| #[trigger]
            entries_of(found).names.contains_key(id) implies exists|i: int|
            0 <= i < found.len() && (#[trigger] found[i]).app_id == id by {
            if entries_of(rest).names.contains_key(id) {
                let i = choose|i: int| 0 <= i < rest.len() && (#[trigger] rest[i]).app_id == id;
                assert(found[i].app_id == id);
            } else {
                assert(found[n].app_id == id);
            }
        }
        assert forall|id: AppId| #[trigger]
            entries_of(found).states.contains_key(id) implies exists|i: int|
            0 <= i < found.len() && (#[trigger] found[i]).app_id == id by {
            if entries_of(rest).states.contains_key(id) {
                let i = choose|i: int| 0 <= i < rest.len() && (#[trigger] rest[i]).app_id == id;
                assert(found[i].app_id == id);
            } else {
                assert(found[n].app_id == id);
            }
        }
    }
}

/// Reads the registry off the lines of its file, for the applications of
/// `whitelist` and no others.
pub fn parse_registry(config_lines: &Vec<String>, whitelist: &Vec<AppId>) -> (registry: Registry)
    ensures
        registry@ == entries_of(
            key_values(
                registry_section(),
                texts(config_lines@),
                registry_keys(),
                Some(whitelist@),
            ),
        ),
        forall|id: AppId| #[trigger]
            registry@.names.contains_key(id) ==> whitelist@.contains(id),
        forall|id: AppId| #[trigger]
            registry@.states.contains_key(id) ==> whitelist@.contains(id),
{
    let mut parsers: Vec<(&str, RegistryKey)> = Vec::new();
    parsers.push(("installed", RegistryKey::Installed));
    parsers.push(("name", RegistryKey::Name));
    assert(key_names(parsers@) =~= registry_keys());
    let registry: Registry = parse_vdf_keys("apps", config_lines, &parsers, Some(whitelist));
    proof {
        let found = key_values(
            registry_section(),
            texts(config_lines@),
            registry_keys(),
            Some(whitelist@),
        );
        let start = choose|start: Registry| #[trigger]
            call_ensures(Registry::default, (), start) && parses_all(
                parsers@,
                found,
                start,
                registry,
            );
        lemma_key_values_sound(
            registry_section(),
            texts(config_lines@),
            registry_keys(),
            Some(whitelist@),
        );
        lemma_parses_entries(parsers@, found, start, registry);
        lemma_entries_of_apps(found);
        assert forall|id: AppId| #[trigger]
            registry@.names.contains_key(id) implies whitelist@.contains(id) by {
            let i = choose|i: int| 0 <= i < found.len() && (#[trigger] found[i]).app_id == id;
            assert(is_sound(found[i], registry_keys(), Some(whitelist@)));
        }
        assert forall|id: AppId| #[trigger]
            registry@.states.contains_key(id) implies whitelist@.contains(id) by {
            let i = choose|i: int| 0 <= i < found.len() && (#[trigger] found[i]).app_id == id;
            assert(is_sound(found[i], registry_keys(), Some(whitelist@)));
        }
    }
    registry
}

} // verus!
