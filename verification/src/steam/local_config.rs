//! The launch options that each account gives its applications, as the
//! accounts' local configuration files say them.

use vstd::prelude::*;
use crate::steam::text_vdf::{
    is_sound, key_names, key_values, lemma_key_values_sound, parse_vdf_keys, parses_all,
    parses_one, texts, KeyParser, KeyValue,
};
use crate::steam::{add_id, steam_id64_of, AppId, SteamId64, UserId, DEFAULT_PROTON_APP_ID};

verus! {

/// The launch options of one application.
pub struct LaunchOptions {
    pub app_id: AppId,
    /// The options as the file writes them, escapes included.
    pub options: String,
}

/// Applications with their launch options, as a list of them is modelled.
pub type Options = Seq<(AppId, Seq<char>)>;

/// The model of a list of launch options.
pub open spec fn options_view(list: Seq<LaunchOptions>) -> Options {
    Seq::new(list.len(), |i: int| (list[i].app_id, list[i].options@))
}

/// `list` with the options `options` of the application `id` at its end.
/// The id that stands for no application is not taken.
pub open spec fn with_options(list: Options, options: Seq<char>, id: AppId) -> Options {
    if id.is_default() {
        list
    } else {
        list.push((id, options))
    }
}

/// The launch options that the values `found` give, in their order.
pub open spec fn options_of(found: Seq<KeyValue>) -> Options
    decreases found.len(),
{
    if found.len() == 0 {
        Seq::empty()
    } else {
        with_options(options_of(found.drop_last()), found.last().value, found.last().app_id)
    }
}

/// Whether `list` holds launch options that are not empty, and none for the
/// id that stands for no application.
pub open spec fn retained(list: Options) -> bool {
    forall|i: int|
        0 <= i < list.len() ==> !(#[trigger] list[i]).0.is_default() && list[i].1.len() > 0
}

/// Launch options that come from values that are not empty are retained.
pub proof fn lemma_options_of_retained(found: Seq<KeyValue>)
    requires
        forall|i: int| 0 <= i < found.len() ==> (#[trigger] found[i]).value.len() > 0,
    ensures
        retained(options_of(found)),
    decreases found.len(),
{
    if found.len() > 0 {
        let rest = found.drop_last();
        assert forall|i: int| 0 <= i < rest.len() implies (#[trigger] rest[i]).value.len() > 0 by {
            assert(rest[i] == found[i]);
        }
        lemma_options_of_retained(rest);
        let before = options_of(rest);
        let all = options_of(found);
        assert(found[found.len() - 1].value.len() > 0);
        assert forall|i: int| 0 <= i < all.len() implies !(#[trigger] all[i]).0.is_default()
            && all[i].1.len() > 0 by {
            if i < before.len() {
                assert(all[i] == before[i]);
            }
        }
    }
}

/// Takes the launch options `options` of `app_id` in, but for the id that
/// stands for no application.
pub fn parse_launch_options(options: &str, app_id: &AppId, map: &mut Vec<LaunchOptions>)
    ensures
        options_view(final(map)@) == with_options(options_view(old(map)@), options@, *app_id),
{
    if app_id.0 != DEFAULT_PROTON_APP_ID {
        map.push(LaunchOptions { app_id: *app_id, options: options.to_owned() });
        assert(options_view(map@) =~= options_view(old(map)@).push((*app_id, options@)));
    }
}

/// The parser of the key that holds an application's launch options.
pub struct LaunchOptionsKey;

impl KeyParser<Vec<LaunchOptions>> for LaunchOptionsKey {
    fn parse(&self, value: &str, app_id: &AppId, acc: Vec<LaunchOptions>) -> (list: Vec<
        LaunchOptions,
    >)
        ensures
            options_view(list@) == with_options(options_view(acc@), value@, *app_id),
    {
        let mut list = acc;
        parse_launch_options(value, app_id, &mut list);
        list
    }
}

/// A run of the launch options' parser over `found` takes each value in.
proof fn lemma_parses_options(
    parsers: Seq<(&str, LaunchOptionsKey)>,
    found: Seq<KeyValue>,
    start: Vec<LaunchOptions>,
    end: Vec<LaunchOptions>,
)
    requires
        parses_all(parsers, found, start, end),
        start@.len() == 0,
    ensures
        options_view(end@) == options_of(found),
    decreases found.len(),
{
    if found.len() == 0 {
        assert(options_view(end@) =~= Seq::empty());
    } else {
        let mid = choose|mid: Vec<LaunchOptions>|
            parses_all(parsers, found.drop_last(), start, mid) && #[trigger] parses_one(
                parsers,
                found.last(),
                mid,
                end,
            );
        lemma_parses_options(parsers, found.drop_last(), start, mid);
    }
}

/// The section of a local configuration file that holds the applications.
pub open spec fn options_section() -> Seq<char> {
    "apps"@
}

/// The key under which an application's block holds its launch options.
pub open spec fn options_keys() -> Seq<Seq<char>> {
    seq!["LaunchOptions"@]
}

/// The launch options that the lines of one account's file give.
pub open spec fn user_options(lines: Seq<Seq<char>>) -> Options {
    options_of(key_values(options_section(), lines, options_keys(), None))
}

/// Reads the launch options off the lines of one account's local
/// configuration file, in file order.
pub fn parse_user_launch_options(config_lines: &Vec<String>) -> (list: Vec<LaunchOptions>)
    ensures
        options_view(list@) == user_options(texts(config_lines@)),
        retained(options_view(list@)),
{
    let mut parsers: Vec<(&str, LaunchOptionsKey)> = Vec::new();
    parsers.push(("LaunchOptions", LaunchOptionsKey));
    assert(key_names(parsers@) =~= options_keys());
    let list: Vec<LaunchOptions> = parse_vdf_keys("apps", config_lines, &parsers, None);
    proof {
        let found = key_values(options_section(), texts(config_lines@), options_keys(), None);
        let start = choose|start: Vec<LaunchOptions>| #[trigger]
            call_ensures(Vec::<LaunchOptions>::default, (), start) && parses_all(
                parsers@,
                found,
                start,
                list,
            );
        lemma_parses_options(parsers@, found, start, list);
        lemma_key_values_sound(options_section(), texts(config_lines@), options_keys(), None);
        assert forall|i: int| 0 <= i < found.len() implies (#[trigger] found[i]).value.len()
            > 0 by {
            assert(is_sound(found[i], options_keys(), None));
        }
        lemma_options_of_retained(found);
    }
    list
}

/// Accounts with the launch options of their applications, as a mapping of
/// them is modelled.
pub type UserOptions = Seq<(SteamId64, Options)>;

/// The model of a mapping of launch options.
pub open spec fn mapping_view(mapping: Seq<(SteamId64, Vec<LaunchOptions>)>) -> UserOptions {
    Seq::new(mapping.len(), |i: int| (mapping[i].0, options_view(mapping[i].1@)))
}

/// The model of the accounts' files.
pub open spec fn configs_view(configs: Seq<(UserId, Vec<String>)>) -> Seq<
    (UserId, Seq<Seq<char>>),
> {
    Seq::new(configs.len(), |i: int| (configs[i].0, texts(configs[i].1@)))
}

/// Whether the accounts of `mapping` stand in ascending order of their ids,
/// each once.
pub open spec fn ascending(mapping: UserOptions) -> bool {
    forall|i: int, j: int|
        0 <= i < j < mapping.len() ==> (#[trigger] mapping[i]).0.0 < (#[trigger] mapping[j]).0.0
}

/// The first index at or after `i` whose account has the id `id` or a
/// greater one, or the length of `mapping`.
pub open spec fn place(mapping: UserOptions, id: SteamId64, i: int) -> int
    decreases mapping.len() - i,
{
    if 0 <= i < mapping.len() && mapping[i].0.0 < id.0 {
        place(mapping, id, i + 1)
    } else {
        i
    }
}

/// `mapping` with `options` for the account `id`: in place of what the
/// account had, or at the account's place in the order.
pub open spec fn put(mapping: UserOptions, id: SteamId64, options: Options) -> UserOptions {
    let at = place(mapping, id, 0);
    if at < mapping.len() && mapping[at].0 == id {
        mapping.update(at, (id, options))
    } else {
        mapping.insert(at, (id, options))
    }
}

/// The launch options of the accounts whose files are `configs`: each file
/// is taken in after those before it, so that of two files of one account
/// the later one stays. Account 0 is no account and is passed over.
pub open spec fn mapping_of(configs: Seq<(UserId, Seq<Seq<char>>)>) -> UserOptions
    decreases configs.len(),
{
    if configs.len() == 0 {
        Seq::empty()
    } else {
        let before = mapping_of(configs.drop_last());
        let (user, lines) = configs.last();
        if user.0 == 0 {
            before
        } else {
            put(before, steam_id64_of(user), user_options(lines))
        }
    }
}

/// `place` stops between the accounts below `id` and the others.
pub proof fn lemma_place(mapping: UserOptions, id: SteamId64, i: int)
    requires
        0 <= i <= mapping.len(),
        ascending(mapping),
    ensures
        i <= place(mapping, id, i) <= mapping.len(),
        forall|k: int| i <= k < place(mapping, id, i) ==> (#[trigger] mapping[k]).0.0 < id.0,
        forall|k: int|
            place(mapping, id, i) <= k < mapping.len() ==> (#[trigger] mapping[k]).0.0 >= id.0,
    decreases mapping.len() - i,
{
    if i < mapping.len() && mapping[i].0.0 < id.0 {
        lemma_place(mapping, id, i + 1);
    }
}

/// Putting an account into its place keeps the order.
pub proof fn lemma_put_ascending(mapping: UserOptions, id: SteamId64, options: Options)
    requires
        ascending(mapping),
    ensures
        ascending(put(mapping, id, options)),
{
    lemma_place(mapping, id, 0);
    let at = place(mapping, id, 0);
    let after = put(mapping, id, options);
    assert forall|i: int, j: int| 0 <= i < j < after.len() implies (#[trigger] after[i]).0.0 < (
    #[trigger] after[j]).0.0 by {
        if at < mapping.len() && mapping[at].0 == id {
            assert(after[i].0 == mapping[i].0);
            assert(after[j].0 == mapping[j].0);
        } else {
            let a = if i < at {
                i
            } else {
                i - 1
            };
            let b = if j < at {
                j
            } else {
                j - 1
            };
            if i != at {
                assert(after[i] == mapping[a]);
            }
            if j != at {
                assert(after[j] == mapping[b]);
            }
        }
    }
}

/// The accounts of a mapping stand in ascending order, each once.
pub proof fn lemma_mapping_of_ascending(configs: Seq<(UserId, Seq<Seq<char>>)>)
    ensures
        ascending(mapping_of(configs)),
    decreases configs.len(),
{
    if configs.len() > 0 {
        lemma_mapping_of_ascending(configs.drop_last());
        let (user, lines) = configs.last();
        if user.0 != 0 {
            lemma_put_ascending(
                mapping_of(configs.drop_last()),
                steam_id64_of(user),
                user_options(lines),
            );
        }
    }
}

/// Whether the launch options of every account of `mapping` are retained
/// ones, and no account is account 0.
pub open spec fn all_retained(mapping: UserOptions) -> bool {
    forall|i: int|
        0 <= i < mapping.len() ==> retained((#[trigger] mapping[i]).1) && mapping[i].0
            != steam_id64_of(UserId(0))
}

/// A mapping holds retained launch options only, and nothing for account 0.
pub proof fn lemma_mapping_of_retained(configs: Seq<(UserId, Seq<Seq<char>>)>)
    ensures
        all_retained(mapping_of(configs)),
    decreases configs.len(),
{
    if configs.len() > 0 {
        lemma_mapping_of_retained(configs.drop_last());
        let before = mapping_of(configs.drop_last());
        let (user, lines) = configs.last();
        if user.0 != 0 {
            let found = key_values(options_section(), lines, options_keys(), None);
            lemma_key_values_sound(options_section(), lines, options_keys(), None);
            assert forall|i: int| 0 <= i < found.len() implies (#[trigger] found[i]).value.len()
                > 0 by {
                assert(is_sound(found[i], options_keys(), None));
            }
            lemma_options_of_retained(found);
            let id = steam_id64_of(user);
            let at = place(before, id, 0);
            lemma_mapping_of_ascending(configs.drop_last());
            lemma_place(before, id, 0);
            let after = put(before, id, user_options(lines));
            assert forall|i: int| 0 <= i < after.len() implies retained((#[trigger] after[i]).1)
                && after[i].0 != steam_id64_of(UserId(0)) by {
                if at < before.len() && before[at].0 == id {
                    if i != at {
                        assert(after[i] == before[i]);
                    }
                } else {
                    if i < at {
                        assert(after[i] == before[i]);
                    } else if i > at {
                        assert(after[i] == before[i - 1]);
                    }
                }
            }
        }
    }
}

/// Puts `options` for the account `id` into `mapping`.
fn put_options(
    mapping: &mut Vec<(SteamId64, Vec<LaunchOptions>)>,
    id: SteamId64,
    options: Vec<LaunchOptions>,
)
    ensures
        mapping_view(final(mapping)@) == put(mapping_view(old(mapping)@), id, options_view(options@)),
{
    let ghost before = mapping_view(mapping@);
    let mut at: usize = 0;
    while at < mapping.len() && mapping[at].0.0 < id.0
        invariant
            at <= mapping.len(),
            before == mapping_view(mapping@),
            place(before, id, 0) == place(before, id, at as int),
        decreases mapping.len() - at,
    {
        at += 1;
    }
    if at < mapping.len() && mapping[at].0.0 == id.0 {
        mapping.set(at, (id, options));
        assert(mapping_view(mapping@) =~= before.update(at as int, (id, options_view(options@))));
    } else {
        mapping.insert(at, (id, options));
        assert(mapping_view(mapping@) =~= before.insert(at as int, (id, options_view(options@))));
    }
}

/// Reads the launch options of every account off the lines of the
/// accounts' local configuration files. The result names each account,
/// but account 0, by its 64-bit id, in ascending order.
pub fn parse_launch_options_mapping(user_configs: &Vec<(UserId, Vec<String>)>) -> (mapping: Vec<
    (SteamId64, Vec<LaunchOptions>),
>)
    ensures
        mapping_view(mapping@) == mapping_of(configs_view(user_configs@)),
        ascending(mapping_view(mapping@)),
        all_retained(mapping_view(mapping@)),
{
    let ghost configs = configs_view(user_configs@);
    let mut mapping: Vec<(SteamId64, Vec<LaunchOptions>)> = Vec::new();
    let mut i: usize = 0;
    assert(mapping_view(mapping@) =~= mapping_of(configs.take(0)));
    while i < user_configs.len()
        invariant
            i <= user_configs.len(),
            configs == configs_view(user_configs@),
            mapping_view(mapping@) == mapping_of(configs.take(i as int)),
        decreases user_configs.len() - i,
    {
        let user = user_configs[i].0;
        assert(configs.take(i + 1).drop_last() =~= configs.take(i as int));
        assert(configs.take(i + 1).last() == (user, texts(user_configs[i as int].1@)));
        if user.0 != 0 {
            let options = parse_user_launch_options(&user_configs[i].1);
            put_options(&mut mapping, SteamId64::from(user), options);
        }
        i += 1;
    }
    assert(configs.take(i as int) =~= configs);
    proof {
        lemma_mapping_of_ascending(configs);
        lemma_mapping_of_retained(configs);
    }
    mapping
}

/// Whether some account of `mapping` has launch options for `id`.
pub open spec fn has_options(mapping: UserOptions, id: AppId) -> bool {
    exists|i: int, j: int|
        0 <= i < mapping.len() && 0 <= j < mapping[i].1.len() && (#[trigger] mapping[i].1[j]).0
            == id
}

/// The applications that have launch options under some account, each once,
/// in the order in which the mapping first has them.
pub fn apps(mapping: &Vec<(SteamId64, Vec<LaunchOptions>)>) -> (ids: Vec<AppId>)
    ensures
        ids@.no_duplicates(),
        forall|id: AppId| #[trigger] ids@.contains(id) <==> has_options(mapping_view(mapping@), id),
{
    let ghost all = mapping_view(mapping@);
    let mut ids: Vec<AppId> = Vec::new();
    let mut i: usize = 0;
    while i < mapping.len()
        invariant
            i <= mapping.len(),
            all == mapping_view(mapping@),
            ids@.no_duplicates(),
            forall|id: AppId| #[trigger] ids@.contains(id) <==> has_options(all.take(i as int), id),
        decreases mapping.len() - i,
    {
        let list = &mapping[i].1;
        let ghost done = all.take(i as int);
        let ghost next = all.take(i + 1);
        let ghost options = options_view(list@);
        assert(next[i as int].1 == options);
        let mut j: usize = 0;
        while j < list.len()
            invariant
                j <= list.len(),
                options == options_view(list@),
                ids@.no_duplicates(),
                forall|id: AppId| #[trigger]
                    ids@.contains(id) <==> has_options(done, id) || exists|k: int|
                        0 <= k < j && (#[trigger] options[k]).0 == id,
            decreases list.len() - j,
        {
            let ghost before = ids@;
            add_id(&mut ids, list[j].app_id);
            assert forall|id: AppId| #[trigger]
                ids@.contains(id) <==> has_options(done, id) || exists|k: int|
                    0 <= k < j + 1 && (#[trigger] options[k]).0 == id by {
                assert(ids@.contains(id) <==> before.contains(id) || id == list[j as int].app_id);
                if id == list[j as int].app_id {
                    assert(options[j as int].0 == id);
                }
                if before.contains(id) && !has_options(done, id) {
                    let k = choose|k: int| 0 <= k < j && (#[trigger] options[k]).0 == id;
                    assert(options[k].0 == id);
                }
            }
            j += 1;
        }
        assert forall|id: AppId| #[trigger] ids@.contains(id) <==> has_options(next, id) by {
            if has_options(done, id) {
                let (a, b) = choose|a: int, b: int|
                    0 <= a < done.len() && 0 <= b < done[a].1.len() && (#[trigger] done[a].1[b]).0
                        == id;
                assert(next[a].1[b].0 == id);
            }
            if exists|k: int| 0 <= k < j && (#[trigger] options[k]).0 == id {
                let k = choose|k: int| 0 <= k < j && (#[trigger] options[k]).0 == id;
                assert(next[i as int].1[k].0 == id);
            }
            if has_options(next, id) {
                let (a, b) = choose|a: int, b: int|
                    0 <= a < next.len() && 0 <= b < next[a].1.len() && (#[trigger] next[a].1[b]).0
                        == id;
                if a < i {
                    assert(done[a].1[b].0 == id);
                } else {
                    assert(options[b].0 == id);
                }
            }
        }
        i += 1;
    }
    assert(all.take(i as int) =~= all);
    ids
}

} // verus!
