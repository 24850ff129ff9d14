use proton_usage::steam::registry::{parse_installed, parse_name};
use proton_usage::steam::{parse_registry, AppId, Registry};
use proton_usage::InstallState;

fn lines_of(text: &str) -> Vec<String> {
    text.lines().map(|s| s.to_string()).collect()
}

#[test]
fn treats_0_as_not_installed() {
    let app_id = AppId::new(12345);
    let filter = vec![app_id];
    let lines = lines_of(
        r#"
            "apps"
            {
                "12345"
                {
                    "installed"		"0"
                    "Updating"		"0"
                    "Running"		"0"
                }
            }"#,
    );

    let registry = parse_registry(&lines, &filter);
    let installed = registry.app_is_installed(&app_id);
    let state = registry.app_states.get(&app_id);

    assert!(!installed);
    assert_eq!(state, Some(InstallState::NotInstalled));
}

#[test]
fn treats_1_as_installed() {
    let app_id = AppId::new(12345);
    let filter = vec![app_id];
    let lines = lines_of(
        r#"
            "apps"
            {
                "12345"
                {
                    "installed"		"1"
                    "Updating"		"0"
                    "Running"		"0"
                }
            }"#,
    );

    let registry = parse_registry(&lines, &filter);
    let installed = registry.app_is_installed(&app_id);
    let state = registry.app_states.get(&app_id);

    assert!(installed);
    assert_eq!(state, Some(InstallState::Installed));
}

#[test]
fn name_is_some_if_kvp_present() {
    let app_id = AppId::new(12345);
    let filter = vec![app_id];
    let lines = lines_of(
        r#"
            "apps"
            {
                "12345"
                {
                    "installed"		"1"
                    "Updating"		"0"
                    "Running"		"0"
                    "name"  	"asdf"
                }
            }"#,
    );

    let registry = parse_registry(&lines, &filter);
    let entry = registry.app_names.get(&app_id);

    assert!(entry.is_some());
    assert_eq!(entry.unwrap(), "asdf");
}

#[test]
fn name_is_none_if_kvp_not_present() {
    let app_id = AppId::new(12345);
    let filter = vec![app_id];
    let lines = lines_of(
        r#"
            "apps"
            {
                "12345"
                {
                    "installed"		"1"
                    "Updating"		"0"
                    "Running"		"0"
                }
            }"#,
    );

    let registry = parse_registry(&lines, &filter);
    let entry = registry.app_names.get(&app_id);

    assert!(entry.is_none());
}

#[test]
fn raw_install_values_are_classified() {
    assert_eq!(InstallState::from_raw("0"), InstallState::NotInstalled);
    assert_eq!(InstallState::from_raw("1"), InstallState::Installed);
    assert_eq!(InstallState::from_raw("2"), InstallState::Unknown);
    assert_eq!(InstallState::from_raw(""), InstallState::Unknown);
    assert_eq!(InstallState::from_raw("01"), InstallState::Unknown);
    assert_eq!(InstallState::from_raw("yes"), InstallState::Unknown);
}

#[test]
fn last_installed_value_wins() {
    let app_id = AppId::new(7);
    let mut registry = Registry::default();
    assert_eq!(registry.app_state(&app_id), InstallState::Unknown);
    parse_installed("1", &app_id, &mut registry);
    assert!(registry.app_is_installed(&app_id));
    parse_installed("0", &app_id, &mut registry);
    assert_eq!(registry.app_state(&app_id), InstallState::NotInstalled);
    parse_installed("x", &app_id, &mut registry);
    assert_eq!(registry.app_state(&app_id), InstallState::Unknown);
    assert!(!registry.app_is_installed(&app_id));
    parse_installed("1", &app_id, &mut registry);
    assert!(registry.app_is_installed(&app_id));
}

#[test]
fn last_name_wins() {
    let app_id = AppId::new(7);
    let mut registry = Registry::default();
    parse_name("first", &app_id, &mut registry);
    parse_name("second", &app_id, &mut registry);
    assert_eq!(registry.app_names.get(&app_id).unwrap(), "second");
    assert_eq!(registry.app_names.len(), 1);
}

#[test]
fn registry_passes_over_applications_outside_the_whitelist() {
    let lines = lines_of(
        "\"apps\"\n{\n\"1\"\n{\n\"installed\" \"1\"\n\"name\" \"One\"\n}\n\"2\"\n{\n\"Installed\" \"1\"\n\"NAME\" \"Two\"\n}\n}",
    );
    let registry = parse_registry(&lines, &vec![AppId::new(2)]);
    assert_eq!(registry.app_names.len(), 1);
    assert_eq!(registry.app_names.get(&AppId::new(2)).unwrap(), "Two");
    assert!(registry.app_is_installed(&AppId::new(2)));
    assert!(!registry.app_is_installed(&AppId::new(1)));
    assert_eq!(registry.app_state(&AppId::new(1)), InstallState::Unknown);
}
