//! The rows of a report and how they are worded.

use vstd::prelude::*;
use vstd::string::StringExecFns;
use crate::decimal::{decimal, push_decimal};
use crate::order::{ascending, find_place, group_keys, lemma_put_ascending, put};
use crate::resolve::{lemma_unnamed_everywhere, Resolution, Search};
use crate::steam::app_info::app_info_keys;
use crate::steam::bin_vdf::name_in;
use crate::steam::shortcuts::shortcut_keys;
use crate::steam::compat_tool::{CompatToolMapping, Tools};
use crate::steam::local_config;
use crate::steam::local_config::{mapping_view, Options, UserOptions};
use crate::steam::login_users::{display_name, parse_display_name};
use crate::steam::text_vdf::texts;
use crate::text::chars_of;
use crate::steam::names::AppNames;
use crate::steam::registry::{Entries, Registry};
use crate::steam::AppId;
use crate::InstallState;

verus! {

/// An application as a report shows it.
pub struct App {
    pub name: String,
    pub install_state: InstallState,
}

/// The model of an application of a report.
pub struct Row {
    pub name: Seq<char>,
    pub install_state: InstallState,
}

impl View for App {
    type V = Row;

    open spec fn view(&self) -> Row {
        Row { name: self.name@, install_state: self.install_state }
    }
}

/// The state under which a report shows `id`: installed where the registry
/// says so; else a shortcut where a shortcut file names it; else what the
/// registry says, which is no knowledge where it says nothing.
pub open spec fn state_of(id: AppId, registry: Entries, shortcuts: Map<AppId, Seq<char>>) -> InstallState {
    if registry.state(id) == InstallState::Installed {
        InstallState::Installed
    } else if shortcuts.contains_key(id) {
        InstallState::Shortcut
    } else {
        registry.state(id)
    }
}

/// The name that stands in for the name of an application that no source
/// names.
pub open spec fn placeholder(id: AppId) -> Seq<char> {
    "Unknown (Id: "@ + decimal(id.0 as nat) + seq![')']
}

/// The name under which a report shows `id`: the one found for it, or the
/// placeholder.
pub open spec fn name_of(id: AppId, names: Map<AppId, Seq<char>>) -> Seq<char> {
    if names.contains_key(id) {
        names[id]
    } else {
        placeholder(id)
    }
}

/// The row of `id`.
pub open spec fn row_of(
    id: AppId,
    names: Map<AppId, Seq<char>>,
    registry: Entries,
    shortcuts: Map<AppId, Seq<char>>,
) -> Row {
    Row { name: name_of(id, names), install_state: state_of(id, registry, shortcuts) }
}

/// The rows of `ids`, in their order.
pub open spec fn rows_of(
    ids: Seq<AppId>,
    names: Map<AppId, Seq<char>>,
    registry: Entries,
    shortcuts: Map<AppId, Seq<char>>,
) -> Seq<Row> {
    Seq::new(ids.len(), |i: int| row_of(ids[i], names, registry, shortcuts))
}

/// An application that neither the registry nor the application-info cache
/// nor any shortcut file names shows under the placeholder, in the state
/// that the registry gives it.
pub proof fn lemma_unnamed_shows_placeholder(
    wanted: Seq<AppId>,
    registry: Entries,
    cache: Option<Seq<u8>>,
    files: Seq<Seq<u8>>,
    id: AppId,
)
    requires
        !registry.names.contains_key(id),
        match cache {
            Some(buf) => name_in(buf, app_info_keys(), id) is None,
            None => true,
        },
        forall|i: int|
            0 <= i < files.len() ==> name_in(#[trigger] files[i], shortcut_keys(), id) is None,
    ensures
        ({
            let end = Search::finished(wanted, registry, cache, files);
            let row = row_of(id, end.names, registry, end.shortcuts);
            &&& row.name == placeholder(id)
            &&& row.install_state == registry.state(id)
        }),
{
    lemma_unnamed_everywhere(wanted, registry, cache, files, id);
}

/// The state under which a report shows `app_id`.
pub fn install_state(app_id: &AppId, registry: &Registry, shortcuts: &AppNames) -> (state:
    InstallState)
    ensures
        state == state_of(*app_id, registry@, shortcuts@),
{
    let known = registry.app_state(app_id);
    if known == InstallState::Installed {
        InstallState::Installed
    } else if shortcuts.contains_key(app_id) {
        InstallState::Shortcut
    } else {
        known
    }
}

/// The row of `id`: its name, or the placeholder where `app_names` has
/// none, and its state.
pub fn to_app(id: &AppId, app_names: &AppNames, registry: &Registry, shortcuts: &AppNames) -> (app:
    App)
    ensures
        app@ == row_of(*id, app_names@, registry@, shortcuts@),
{
    let name = match app_names.get(id) {
        Some(name) => name.clone(),
        None => {
            let mut name = "Unknown (Id: ".to_owned();
            push_decimal(&mut name, id.0);
            name.push(')');
            assert(name@ =~= placeholder(*id));
            name
        },
    };
    App { name, install_state: install_state(id, registry, shortcuts) }
}

/// The rows of `ids`, in their order.
pub fn to_apps(ids: &Vec<AppId>, app_names: &AppNames, registry: &Registry, shortcuts: &AppNames) -> (apps:
    Vec<App>)
    ensures
        rows(apps@) == rows_of(ids@, app_names@, registry@, shortcuts@),
{
    let mut apps: Vec<App> = Vec::new();
    let mut i: usize = 0;
    while i < ids.len()
        invariant
            i <= ids.len(),
            apps.len() == i,
            forall|k: int|
                0 <= k < i ==> (#[trigger] apps[k])@ == row_of(
                    ids@[k],
                    app_names@,
                    registry@,
                    shortcuts@,
                ),
        decreases ids.len() - i,
    {
        apps.push(to_app(&ids[i], app_names, registry, shortcuts));
        i += 1;
    }
    assert(rows(apps@) =~= rows_of(ids@, app_names@, registry@, shortcuts@));
    apps
}

/// The models of the applications.
pub open spec fn rows(apps: Seq<App>) -> Seq<Row> {
    Seq::new(apps.len(), |i: int| apps[i]@)
}

/// The line of an application: its name, with its state in parentheses
/// where it is not installed.
pub open spec fn app_line(app: Row) -> Seq<char> {
    if app.install_state != InstallState::Installed {
        app.name + seq![' ', '('] + app.install_state.text() + seq![')', '\n']
    } else {
        app.name.push('\n')
    }
}

/// `n` spaces.
pub open spec fn spaces(n: nat) -> Seq<char> {
    Seq::new(n, |i: int| ' ')
}

/// How many spaces one level of a report is indented by.
pub const INDENT_WIDTH: usize = 4;

impl App {
    /// Appends the application's line to `out`.
    pub fn write_to(&self, out: &mut String)
        ensures
            final(out)@ == old(out)@ + app_line(self@),
    {
        out.append(self.name.as_str());
        if self.install_state != InstallState::Installed {
            out.push(' ');
            out.push('(');
            out.append(self.install_state.to_string().as_str());
            out.push(')');
            out.push('\n');
            assert(out@ =~= old(out)@ + app_line(self@));
        } else {
            out.push('\n');
            assert(out@ =~= old(out)@ + app_line(self@));
        }
    }

    /// The application's line.
    pub fn to_string(&self) -> (line: String)
        ensures
            line@ == app_line(self@),
    {
        let mut line = String::new();
        self.write_to(&mut line);
        assert(line@ =~= app_line(self@));
        line
    }
}

/// Appends `n` spaces to `out`.
pub fn push_spaces(out: &mut String, n: usize)
    ensures
        final(out)@ == old(out)@ + spaces(n as nat),
{
    let mut i: usize = 0;
    assert(out@ =~= old(out)@ + spaces(0));
    while i < n
        invariant
            i <= n,
            out@ == old(out)@ + spaces(i as nat),
        decreases n - i,
    {
        out.push(' ');
        assert(out@ =~= old(out)@ + spaces((i + 1) as nat));
        i += 1;
    }
}

/// Tools with the rows of their applications, as a report of them is
/// modelled.
pub type ToolGroups = Seq<(Seq<char>, Seq<Row>)>;

/// The applications of each compatibility tool, the tools in the order of
/// their names.
pub struct CompatToolConfig(pub Vec<(String, Vec<App>)>);

impl View for CompatToolConfig {
    type V = ToolGroups;

    open spec fn view(&self) -> ToolGroups {
        Seq::new(self.0@.len(), |i: int| (self.0@[i].0@, rows(self.0@[i].1@)))
    }
}

/// The applications of `ids` that a report may show: all but the id that
/// stands for no application.
pub open spec fn shown(ids: Seq<AppId>) -> Seq<AppId> {
    ids.filter(|id: AppId| !id.is_default())
}

/// The report of the first `n` tools of `tools`: each tool is put under its
/// name with the rows of its applications.
pub open spec fn tool_groups(
    tools: Tools,
    n: int,
    names: Map<AppId, Seq<char>>,
    registry: Entries,
    shortcuts: Map<AppId, Seq<char>>,
) -> ToolGroups
    decreases n,
{
    if n <= 0 || n > tools.len() {
        Seq::empty()
    } else {
        put(
            tool_groups(tools, n - 1, names, registry, shortcuts),
            tools[n - 1].0,
            rows_of(shown(tools[n - 1].1), names, registry, shortcuts),
        )
    }
}

/// The tools of a report stand in ascending order of their names, each
/// once.
pub proof fn lemma_tool_groups_ascending(
    tools: Tools,
    n: int,
    names: Map<AppId, Seq<char>>,
    registry: Entries,
    shortcuts: Map<AppId, Seq<char>>,
)
    ensures
        ascending(group_keys(tool_groups(tools, n, names, registry, shortcuts))),
    decreases n,
{
    if 0 < n <= tools.len() {
        lemma_tool_groups_ascending(tools, n - 1, names, registry, shortcuts);
        lemma_put_ascending(
            tool_groups(tools, n - 1, names, registry, shortcuts),
            tools[n - 1].0,
            rows_of(shown(tools[n - 1].1), names, registry, shortcuts),
        );
    }
}

/// The applications of `ids` that a report may show.
fn shown_ids(ids: &Vec<AppId>) -> (rest: Vec<AppId>)
    ensures
        rest@ == shown(ids@),
{
    let mut rest: Vec<AppId> = Vec::new();
    let ghost keep = |id: AppId| !id.is_default();
    let mut i: usize = 0;
    assert(ids@.take(0).filter(keep) =~= Seq::<AppId>::empty());
    while i < ids.len()
        invariant
            i <= ids.len(),
            keep == |id: AppId| !id.is_default(),
            rest@ == ids@.take(i as int).filter(keep),
        decreases ids.len() - i,
    {
        let id = ids[i];
        proof {
            assert(ids@.take(i + 1) =~= ids@.take(i as int).push(id));
            ids@.take(i as int).lemma_filter_push(id, keep);
        }
        if id.0 != crate::steam::DEFAULT_PROTON_APP_ID {
            rest.push(id);
        }
        i += 1;
    }
    assert(ids@.take(i as int) =~= ids@);
    rest
}

/// Makes the report of the compatibility tools: each tool of `tool_mapping`
/// with the rows of its applications, named and rated by what the search
/// `resolution` and the registry found. The id that stands for no
/// application is shown under no tool.
pub fn parse_tool_mapping(
    tool_mapping: &CompatToolMapping,
    resolution: &Resolution,
    registry: &Registry,
) -> (config: CompatToolConfig)
    ensures
        config@ == tool_groups(
            tool_mapping@,
            tool_mapping@.len() as int,
            resolution@.names,
            registry@,
            resolution@.shortcuts,
        ),
        ascending(group_keys(config@)),
{
    let tools = tool_mapping.keys();
    let lists = tool_mapping.values();
    let mut config = CompatToolConfig(Vec::new());
    let mut i: usize = 0;
    assert(config@ =~= Seq::empty());
    while i < tools.len()
        invariant
            i <= tools.len() == lists.len(),
            tools.len() == tool_mapping@.len(),
            forall|k: int| 0 <= k < tools.len() ==> (#[trigger] tools[k])@ == tool_mapping@[k].0,
            forall|k: int| 0 <= k < lists.len() ==> (#[trigger] lists[k])@ == tool_mapping@[k].1,
            config@ == tool_groups(
                tool_mapping@,
                i as int,
                resolution@.names,
                registry@,
                resolution@.shortcuts,
            ),
        decreases tools.len() - i,
    {
        let ids = shown_ids(lists[i]);
        let apps = to_apps(&ids, &resolution.app_names, registry, &resolution.shortcuts);
        let tool: String = tools[i].clone();
        let ghost before = config@;
        let (at, found) = find_place(&config.0, &tool);
        assert(crate::order::key_texts(config.0@) =~= group_keys(before));
        if found {
            config.0.set(at, (tool, apps));
        } else {
            config.0.insert(at, (tool, apps));
        }
        assert(config@ =~= put(before, tools[i as int]@, rows(apps@)));
        i += 1;
    }
    proof {
        lemma_tool_groups_ascending(
            tool_mapping@,
            tool_mapping@.len() as int,
            resolution@.names,
            registry@,
            resolution@.shortcuts,
        );
    }
    config
}

/// The lines of the first `n` applications of a group, each behind `indent`
/// spaces.
pub open spec fn app_lines(apps: Seq<Row>, n: int, indent: nat) -> Seq<char>
    decreases n,
{
    if n <= 0 || n > apps.len() {
        Seq::empty()
    } else {
        app_lines(apps, n - 1, indent) + spaces(indent) + app_line(apps[n - 1])
    }
}

/// The text of the first `n` groups of a report of tools: for each group the
/// tool's name on a line of its own and the lines of its applications, one
/// level in; an empty line between two groups.
pub open spec fn tools_text(groups: ToolGroups, n: int) -> Seq<char>
    decreases n,
{
    if n <= 0 || n > groups.len() {
        Seq::empty()
    } else {
        tools_text(groups, n - 1) + groups[n - 1].0.push('\n') + app_lines(
            groups[n - 1].1,
            groups[n - 1].1.len() as int,
            INDENT_WIDTH as nat,
        ) + (if n < groups.len() {
            seq!['\n']
        } else {
            Seq::empty()
        })
    }
}

impl CompatToolConfig {
    /// The text of the report.
    pub fn to_string(&self) -> (text: String)
        ensures
            text@ == tools_text(self@, self@.len() as int),
    {
        let mut text = String::new();
        let mut i: usize = 0;
        assert(text@ =~= tools_text(self@, 0));
        while i < self.0.len()
            invariant
                i <= self.0.len() == self@.len(),
                text@ == tools_text(self@, i as int),
            decreases self.0.len() - i,
        {
            let ghost before = text@;
            text.append(self.0[i].0.as_str());
            text.push('\n');
            let apps = &self.0[i].1;
            let ghost head = text@;
            let mut j: usize = 0;
            assert(text@ =~= head + app_lines(rows(apps@), 0, INDENT_WIDTH as nat));
            while j < apps.len()
                invariant
                    j <= apps.len(),
                    text@ == head + app_lines(rows(apps@), j as int, INDENT_WIDTH as nat),
                decreases apps.len() - j,
            {
                push_spaces(&mut text, INDENT_WIDTH);
                apps[j].write_to(&mut text);
                assert(text@ =~= head + app_lines(rows(apps@), j + 1, INDENT_WIDTH as nat));
                j += 1;
            }
            if i < self.0.len() - 1 {
                text.push('\n');
            }
            assert(text@ =~= tools_text(self@, i + 1));
            i += 1;
        }
        text
    }
}

/// The launch options of an application as a report shows them.
pub struct LaunchOptions {
    pub app: App,
    /// The options as the file writes them, escapes included.
    pub value: String,
}

/// The model of the launch options of a report.
pub struct OptionRow {
    pub app: Row,
    pub value: Seq<char>,
}

impl View for LaunchOptions {
    type V = OptionRow;

    open spec fn view(&self) -> OptionRow {
        OptionRow { app: self.app@, value: self.value@ }
    }
}

/// The models of the launch options.
pub open spec fn option_rows(list: Seq<LaunchOptions>) -> Seq<OptionRow> {
    Seq::new(list.len(), |i: int| list[i]@)
}

/// Accounts with the launch options of their applications, as a report of
/// them is modelled.
pub type UserGroups = Seq<(Seq<char>, Seq<OptionRow>)>;

/// The launch options of each account, the accounts in the order of the
/// names under which they show.
pub struct LaunchOptionsConfig(pub Vec<(String, Vec<LaunchOptions>)>);

impl View for LaunchOptionsConfig {
    type V = UserGroups;

    open spec fn view(&self) -> UserGroups {
        Seq::new(self.0@.len(), |i: int| (self.0@[i].0@, option_rows(self.0@[i].1@)))
    }
}

/// The rows of the launch options `options`, in their order. The id that
/// stands for no application has no row.
pub open spec fn option_rows_of(
    options: Options,
    names: Map<AppId, Seq<char>>,
    registry: Entries,
    shortcuts: Map<AppId, Seq<char>>,
) -> Seq<OptionRow> {
    let kept = options.filter(|o: (AppId, Seq<char>)| !o.0.is_default());
    Seq::new(
        kept.len(),
        |i: int| OptionRow { app: row_of(kept[i].0, names, registry, shortcuts), value: kept[i].1 },
    )
}

/// The report of the first `n` accounts of `users`: each account is put
/// under the name under which it shows, so that of two accounts that show
/// under one name the later one stays.
pub open spec fn user_groups(
    users: UserOptions,
    n: int,
    login_users: Seq<Seq<char>>,
    names: Map<AppId, Seq<char>>,
    registry: Entries,
    shortcuts: Map<AppId, Seq<char>>,
) -> UserGroups
    decreases n,
{
    if n <= 0 || n > users.len() {
        Seq::empty()
    } else {
        put(
            user_groups(users, n - 1, login_users, names, registry, shortcuts),
            display_name(users[n - 1].0, login_users),
            option_rows_of(users[n - 1].1, names, registry, shortcuts),
        )
    }
}

/// The accounts of a report stand in ascending order of their names, each
/// once.
pub proof fn lemma_user_groups_ascending(
    users: UserOptions,
    n: int,
    login_users: Seq<Seq<char>>,
    names: Map<AppId, Seq<char>>,
    registry: Entries,
    shortcuts: Map<AppId, Seq<char>>,
)
    ensures
        ascending(group_keys(user_groups(users, n, login_users, names, registry, shortcuts))),
    decreases n,
{
    if 0 < n <= users.len() {
        lemma_user_groups_ascending(users, n - 1, login_users, names, registry, shortcuts);
        lemma_put_ascending(
            user_groups(users, n - 1, login_users, names, registry, shortcuts),
            display_name(users[n - 1].0, login_users),
            option_rows_of(users[n - 1].1, names, registry, shortcuts),
        );
    }
}

/// The rows of the launch options `options`.
fn to_option_rows(
    options: &Vec<local_config::LaunchOptions>,
    app_names: &AppNames,
    registry: &Registry,
    shortcuts: &AppNames,
) -> (list: Vec<LaunchOptions>)
    ensures
        option_rows(list@) == option_rows_of(
            local_config::options_view(options@),
            app_names@,
            registry@,
            shortcuts@,
        ),
{
    let ghost all = local_config::options_view(options@);
    let ghost keep = |o: (AppId, Seq<char>)| !o.0.is_default();
    let mut list: Vec<LaunchOptions> = Vec::new();
    let mut i: usize = 0;
    assert(all.take(0).filter(keep) =~= Seq::<(AppId, Seq<char>)>::empty());
    while i < options.len()
        invariant
            i <= options.len(),
            all == local_config::options_view(options@),
            keep == |o: (AppId, Seq<char>)| !o.0.is_default(),
            list.len() == all.take(i as int).filter(keep).len(),
            forall|k: int|
                0 <= k < list.len() ==> (#[trigger] list[k])@ == (OptionRow {
                    app: row_of(
                        all.take(i as int).filter(keep)[k].0,
                        app_names@,
                        registry@,
                        shortcuts@,
                    ),
                    value: all.take(i as int).filter(keep)[k].1,
                }),
        decreases options.len() - i,
    {
        let entry = &options[i];
        proof {
            assert(all.take(i + 1) =~= all.take(i as int).push((entry.app_id, entry.options@)));
            all.take(i as int).lemma_filter_push((entry.app_id, entry.options@), keep);
        }
        if entry.app_id.0 != crate::steam::DEFAULT_PROTON_APP_ID {
            list.push(
                LaunchOptions {
                    app: to_app(&entry.app_id, app_names, registry, shortcuts),
                    value: entry.options.clone(),
                },
            );
        }
        i += 1;
    }
    assert(all.take(i as int) =~= all);
    assert(option_rows(list@) =~= option_rows_of(all, app_names@, registry@, shortcuts@));
    list
}

/// Makes the report of the launch options: each account of `launch_options`
/// under the name that `login_users`, the lines of the file of the logged-in
/// users, gives it, with the rows of its applications, named and rated by
/// what the search `resolution` and the registry found.
pub fn parse_launch_options(
    launch_options: &Vec<(crate::steam::SteamId64, Vec<local_config::LaunchOptions>)>,
    login_users: &Vec<String>,
    resolution: &Resolution,
    registry: &Registry,
) -> (config: LaunchOptionsConfig)
    ensures
        config@ == user_groups(
            mapping_view(launch_options@),
            launch_options.len() as int,
            texts(login_users@),
            resolution@.names,
            registry@,
            resolution@.shortcuts,
        ),
        ascending(group_keys(config@)),
{
    let ghost users = mapping_view(launch_options@);
    let mut config = LaunchOptionsConfig(Vec::new());
    let mut i: usize = 0;
    assert(config@ =~= Seq::empty());
    while i < launch_options.len()
        invariant
            i <= launch_options.len(),
            users == mapping_view(launch_options@),
            config@ == user_groups(
                users,
                i as int,
                texts(login_users@),
                resolution@.names,
                registry@,
                resolution@.shortcuts,
            ),
        decreases launch_options.len() - i,
    {
        let list = to_option_rows(
            &launch_options[i].1,
            &resolution.app_names,
            registry,
            &resolution.shortcuts,
        );
        let user = parse_display_name(&launch_options[i].0, login_users);
        let ghost before = config@;
        let ghost name = user@;
        let (at, found) = find_place(&config.0, &user);
        assert(crate::order::key_texts(config.0@) =~= group_keys(before));
        if found {
            config.0.set(at, (user, list));
        } else {
            config.0.insert(at, (user, list));
        }
        assert(config@ =~= put(before, name, option_rows(list@)));
        i += 1;
    }
    proof {
        lemma_user_groups_ascending(
            users,
            users.len() as int,
            texts(login_users@),
            resolution@.names,
            registry@,
            resolution@.shortcuts,
        );
    }
    config
}

/// `value` with each double quote that a backslash escapes in place of the
/// two characters, read from the left.
pub open spec fn unescaped(value: Seq<char>) -> Seq<char>
    decreases value.len(),
{
    if value.len() == 0 {
        Seq::empty()
    } else if value.len() >= 2 && value[0] == '\\' && value[1] == '"' {
        seq!['"'] + unescaped(value.skip(2))
    } else {
        seq![value[0]] + unescaped(value.skip(1))
    }
}

/// Appends `value`, unescaped, to `out`.
pub fn push_unescaped(out: &mut String, value: &str)
    ensures
        final(out)@ == old(out)@ + unescaped(value@),
{
    let chars = chars_of(value);
    let mut i: usize = 0;
    assert(chars@.skip(0) =~= chars@);
    while i < chars.len()
        invariant
            i <= chars.len(),
            chars@ == value@,
            out@ + unescaped(chars@.skip(i as int)) == old(out)@ + unescaped(value@),
        decreases chars.len() - i,
    {
        let ghost rest = chars@.skip(i as int);
        let ghost before = out@;
        if chars[i] == '\\' && i + 1 < chars.len() && chars[i + 1] == '"' {
            out.push('"');
            assert(rest.skip(2) =~= chars@.skip(i + 2));
            assert(out@ + unescaped(chars@.skip(i + 2)) =~= before + unescaped(rest));
            i += 2;
        } else {
            out.push(chars[i]);
            assert(rest.skip(1) =~= chars@.skip(i + 1));
            assert(out@ + unescaped(chars@.skip(i + 1)) =~= before + unescaped(rest));
            i += 1;
        }
    }
    assert(out@ + unescaped(chars@.skip(i as int)) =~= out@);
}

/// The lines of the first `n` launch options of an account: for each the
/// line of the application behind `indent` levels and, one level further in,
/// its options, unescaped; an empty line between two of them.
pub open spec fn option_lines(list: Seq<OptionRow>, n: int, indent: nat) -> Seq<char>
    decreases n,
{
    if n <= 0 || n > list.len() {
        Seq::empty()
    } else {
        option_lines(list, n - 1, indent) + spaces(indent * INDENT_WIDTH as nat) + app_line(
            list[n - 1].app,
        ) + spaces((indent + 1) * INDENT_WIDTH as nat) + unescaped(list[n - 1].value).push('\n')
            + (if n < list.len() {
            seq!['\n']
        } else {
            Seq::empty()
        })
    }
}

/// The text of the first `n` groups of a report of launch options. A report
/// of one account holds its launch options only; a report of several holds,
/// for each, the account's name on a line of its own and the launch options
/// one level in.
pub open spec fn options_text(groups: UserGroups, n: int) -> Seq<char>
    decreases n,
{
    if n <= 0 || n > groups.len() {
        Seq::empty()
    } else if groups.len() == 1 {
        option_lines(groups[0].1, groups[0].1.len() as int, 0)
    } else {
        options_text(groups, n - 1) + groups[n - 1].0.push('\n') + option_lines(
            groups[n - 1].1,
            groups[n - 1].1.len() as int,
            1,
        )
    }
}

impl LaunchOptionsConfig {
    /// The text of the report.
    pub fn to_string(&self) -> (text: String)
        ensures
            text@ == options_text(self@, self@.len() as int),
    {
        let mut text = String::new();
        let single = self.0.len() == 1;
        let indent: usize = if single {
            0
        } else {
            1
        };
        let mut i: usize = 0;
        while i < self.0.len()
            invariant
                i <= self.0.len() == self@.len(),
                single == (self@.len() == 1),
                indent == (if single {
                    0usize
                } else {
                    1usize
                }),
                text@ == options_text(self@, i as int),
            decreases self.0.len() - i,
        {
            let ghost before = text@;
            if !single {
                text.append(self.0[i].0.as_str());
                text.push('\n');
            }
            let list = &self.0[i].1;
            let ghost head = text@;
            let mut j: usize = 0;
            assert(text@ =~= head + option_lines(option_rows(list@), 0, indent as nat));
            while j < list.len()
                invariant
                    j <= list.len(),
                    indent <= 1,
                    text@ == head + option_lines(option_rows(list@), j as int, indent as nat),
                decreases list.len() - j,
            {
                push_spaces(&mut text, indent * INDENT_WIDTH);
                list[j].app.write_to(&mut text);
                push_spaces(&mut text, (indent + 1) * INDENT_WIDTH);
                push_unescaped(&mut text, list[j].value.as_str());
                text.push('\n');
                if j < list.len() - 1 {
                    text.push('\n');
                }
                assert(text@ =~= head + option_lines(
                    option_rows(list@),
                    j + 1,
                    indent as nat,
                ));
                j += 1;
            }
            assert(self@[i as int].0 == self.0[i as int].0@);
            assert(self@[i as int].1 == option_rows(list@));
            assert(before =~= Seq::<char>::empty() || !single);
            assert(text@ =~= options_text(self@, i + 1));
            i += 1;
        }
        text
    }
}

} // verus!
