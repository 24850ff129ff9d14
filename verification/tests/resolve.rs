use proton_usage::steam::registry::{parse_installed, parse_name};
use proton_usage::steam::{AppId, Registry};
use proton_usage::resolve::{in_batches, MAX_LOOKUPS_IN_FLIGHT};
use proton_usage::{get_app_names, install_state, to_app, InstallState, Lookup, Source, Tier};

fn record(id: u32, key: &str, name: &[u8]) -> Vec<u8> {
    let mut bytes = b"\x02appid\0".to_vec();
    bytes.extend_from_slice(&id.to_le_bytes());
    bytes.push(0x01);
    bytes.extend_from_slice(key.as_bytes());
    bytes.push(0);
    bytes.extend_from_slice(name);
    bytes.push(0);
    bytes
}

fn registry_naming(named: &[(u64, &str)]) -> Registry {
    let mut registry = Registry::default();
    for (id, name) in named {
        parse_name(name, &AppId::new(*id), &mut registry);
    }
    registry
}

fn ids(numbers: &[u64]) -> Vec<AppId> {
    numbers.iter().map(|n| AppId::new(*n)).collect()
}

#[test]
fn registry_that_names_all_ends_the_search() {
    let registry = registry_naming(&[(1, "One"), (2, "Two"), (3, "Three")]);
    let resolution = get_app_names(&ids(&[1, 2]), &registry);
    assert_eq!(resolution.next, Tier::Done);
    assert!(matches!(resolution.lookup(), Lookup::Finished));
    assert_eq!(resolution.app_names.len(), 2);
    assert!(!resolution.app_names.contains_key(&AppId::new(3)));
}

#[test]
fn each_source_is_asked_only_for_what_is_still_unnamed() {
    let registry = registry_naming(&[(1, "One")]);
    let mut resolution = get_app_names(&ids(&[1, 2, 3, 4]), &registry);
    let mut app_info_reads = 0;
    let mut shortcut_reads = 0;
    let mut asked_of_app_info = Vec::new();
    let mut asked_of_shortcuts = Vec::new();
    loop {
        match resolution.lookup() {
            Lookup::AppInfo(unnamed) => {
                app_info_reads += 1;
                asked_of_app_info = unnamed;
                let mut cache = record(1, "name", b"Not One");
                cache.extend(record(2, "name", b"Two"));
                resolution.supply(Source::AppInfo(Some(cache)));
            }
            Lookup::Shortcuts(unnamed) => {
                shortcut_reads += 1;
                asked_of_shortcuts = unnamed;
                let mut file = record(2, "appname", b"Not Two");
                file.extend(record(3, "AppName", b"Three"));
                resolution.supply(Source::Shortcuts(vec![file]));
            }
            Lookup::Remote(_) => panic!("the remote service was not allowed"),
            Lookup::Finished => break,
        }
    }
    assert_eq!(app_info_reads, 1);
    assert_eq!(shortcut_reads, 1);
    assert_eq!(asked_of_app_info, ids(&[2, 3, 4]));
    assert_eq!(asked_of_shortcuts, ids(&[3, 4]));
    assert_eq!(resolution.app_names.len(), 3);
    assert_eq!(resolution.app_names.get(&AppId::new(1)).unwrap(), "One");
    assert_eq!(resolution.app_names.get(&AppId::new(2)).unwrap(), "Two");
    assert_eq!(resolution.app_names.get(&AppId::new(3)).unwrap(), "Three");
    assert_eq!(resolution.shortcuts.len(), 1);
    assert!(resolution.shortcuts.contains_key(&AppId::new(3)));
}

#[test]
fn cache_that_names_the_rest_spares_the_shortcuts() {
    let registry = registry_naming(&[(1, "One")]);
    let mut resolution = get_app_names(&ids(&[1, 2]), &registry);
    assert_eq!(resolution.next, Tier::AppInfo);
    resolution.supply(Source::AppInfo(Some(record(2, "name", b"Two"))));
    assert_eq!(resolution.next, Tier::Done);
    assert!(matches!(resolution.lookup(), Lookup::Finished));
    assert_eq!(resolution.shortcuts.len(), 0);
}

#[test]
fn unreadable_cache_gives_no_names() {
    let registry = Registry::default();
    let mut resolution = get_app_names(&ids(&[2]), &registry);
    resolution.supply(Source::AppInfo(None));
    assert_eq!(resolution.next, Tier::Shortcuts);
    assert_eq!(resolution.app_names.len(), 0);
    resolution.supply(Source::Shortcuts(Vec::new()));
    assert_eq!(resolution.next, Tier::Done);
    assert_eq!(resolution.app_names.len(), 0);
}

#[test]
fn source_that_was_not_asked_for_is_not_looked_at() {
    let registry = Registry::default();
    let mut resolution = get_app_names(&ids(&[2]), &registry);
    resolution.supply(Source::Shortcuts(vec![record(2, "appname", b"Two")]));
    assert_eq!(resolution.next, Tier::AppInfo);
    assert_eq!(resolution.app_names.len(), 0);
    resolution.supply(Source::AppInfo(Some(record(2, "name", b"Two"))));
    resolution.supply(Source::AppInfo(Some(record(2, "name", b"Again"))));
    assert_eq!(resolution.app_names.get(&AppId::new(2)).unwrap(), "Two");
}

#[test]
fn id_that_no_source_names_gets_the_placeholder() {
    let registry = registry_naming(&[(1, "One")]);
    let mut resolution = get_app_names(&ids(&[1, 4000000000]), &registry);
    resolution.supply(Source::AppInfo(Some(record(2, "name", b"Two"))));
    resolution.supply(Source::Shortcuts(vec![record(3, "appname", b"Three")]));
    assert!(matches!(resolution.lookup(), Lookup::Finished));
    let app = to_app(
        &AppId::new(4000000000),
        &resolution.app_names,
        &registry,
        &resolution.shortcuts,
    );
    assert_eq!(app.name, "Unknown (Id: 4000000000)");
    assert_eq!(app.install_state, InstallState::Unknown);
    let app = to_app(&AppId::new(1), &resolution.app_names, &registry, &resolution.shortcuts);
    assert_eq!(app.name, "One");
}

#[test]
fn install_state_goes_by_registry_then_shortcuts() {
    let mut registry = Registry::default();
    parse_installed("1", &AppId::new(1), &mut registry);
    parse_installed("0", &AppId::new(2), &mut registry);
    parse_installed("0", &AppId::new(3), &mut registry);
    parse_installed("1", &AppId::new(5), &mut registry);
    let mut resolution = get_app_names(&ids(&[1, 2, 3, 4, 5, 6]), &registry);
    resolution.supply(Source::AppInfo(None));
    let mut file = record(3, "appname", b"Three");
    file.extend(record(5, "appname", b"Five"));
    file.extend(record(6, "appname", b"Six"));
    resolution.supply(Source::Shortcuts(vec![file]));
    let state = |n: u64| install_state(&AppId::new(n), &registry, &resolution.shortcuts);
    assert_eq!(state(1), InstallState::Installed);
    assert_eq!(state(2), InstallState::NotInstalled);
    assert_eq!(state(3), InstallState::Shortcut);
    assert_eq!(state(4), InstallState::Unknown);
    assert_eq!(state(5), InstallState::Installed);
    assert_eq!(state(6), InstallState::Shortcut);
}

#[test]
fn remote_service_is_asked_last_and_only_if_allowed() {
    let registry = registry_naming(&[(1, "One")]);
    let mut resolution = get_app_names(&ids(&[1, 2, 3, 4]), &registry);
    resolution.allow_remote();
    resolution.supply(Source::AppInfo(None));
    resolution.supply(Source::Shortcuts(vec![record(2, "appname", b"Two")]));
    assert_eq!(resolution.next, Tier::Remote);
    match resolution.lookup() {
        Lookup::Remote(unnamed) => assert_eq!(unnamed, ids(&[3, 4])),
        _ => panic!("the remote service should be asked"),
    }
    resolution.supply(Source::Remote(vec![
        (AppId::new(3), Some("Three".to_string())),
        (AppId::new(4), None),
        (AppId::new(2), Some("Not Two".to_string())),
        (AppId::new(9), Some("Nine".to_string())),
    ]));
    assert!(matches!(resolution.lookup(), Lookup::Finished));
    assert_eq!(resolution.app_names.len(), 3);
    assert_eq!(resolution.app_names.get(&AppId::new(2)).unwrap(), "Two");
    assert_eq!(resolution.app_names.get(&AppId::new(3)).unwrap(), "Three");
    assert!(!resolution.app_names.contains_key(&AppId::new(4)));
    assert!(!resolution.app_names.contains_key(&AppId::new(9)));
    assert_eq!(resolution.shortcuts.len(), 1);

    let mut resolution = get_app_names(&ids(&[1, 2]), &registry);
    resolution.supply(Source::AppInfo(None));
    resolution.supply(Source::Shortcuts(Vec::new()));
    assert_eq!(resolution.next, Tier::Done);
}

#[test]
fn remote_service_is_spared_where_the_files_name_all() {
    let registry = Registry::default();
    let mut resolution = get_app_names(&ids(&[2]), &registry);
    resolution.allow_remote();
    resolution.supply(Source::AppInfo(None));
    resolution.supply(Source::Shortcuts(vec![record(2, "appname", b"Two")]));
    assert_eq!(resolution.next, Tier::Done);
}

#[test]
fn remote_lookups_go_out_ten_at_a_time() {
    assert_eq!(MAX_LOOKUPS_IN_FLIGHT, 10);
    assert!(in_batches(&Vec::new()).is_empty());
    let numbers: Vec<u64> = (1..=25).collect();
    let batches = in_batches(&ids(&numbers));
    assert_eq!(batches.len(), 3);
    assert_eq!(batches[0], ids(&numbers[..10]));
    assert_eq!(batches[1], ids(&numbers[10..20]));
    assert_eq!(batches[2], ids(&numbers[20..]));
    assert_eq!(in_batches(&ids(&numbers[..10])).len(), 1);
    assert_eq!(in_batches(&ids(&numbers[..11])).len(), 2);
}
