use proton_usage::report::push_unescaped;
use proton_usage::steam::local_config::{apps, parse_user_launch_options};
use proton_usage::steam::{
    parse_compat_tool_mapping, parse_launch_options_mapping, parse_registry, AppId,
    CompatToolMapping, Registry, UserId,
};
use proton_usage::{
    get_app_names, parse_launch_options, parse_tool_mapping, App, InstallState, Lookup, Source,
};

fn lines_of(text: &str) -> Vec<String> {
    text.lines().map(|s| s.to_string()).collect()
}

fn unescaped(value: &str) -> String {
    let mut out = String::new();
    push_unescaped(&mut out, value);
    out
}

#[test]
fn sentinel_is_shown_under_no_tool() {
    let mut mapping = CompatToolMapping::new();
    mapping.entry("Proton 7.0".to_string()).push(AppId::new(100));
    mapping.entry("Proton 7.0".to_string()).push(AppId::new(0));
    mapping.entry("Proton Experimental".to_string()).push(AppId::new(200));
    let registry = parse_registry(
        &lines_of("\"apps\"\n{\n\"100\"\n{\n\"name\" \"Hundred\"\n\"installed\" \"1\"\n}\n\"200\"\n{\n\"name\" \"Two Hundred\"\n\"installed\" \"1\"\n}\n}"),
        &mapping.apps(),
    );
    let resolution = get_app_names(&vec![AppId::new(100), AppId::new(200)], &registry);
    assert!(matches!(resolution.lookup(), Lookup::Finished));

    let config = parse_tool_mapping(&mapping, &resolution, &registry);

    assert_eq!(config.0.len(), 2);
    assert_eq!(config.0[0].0, "Proton 7.0");
    assert_eq!(config.0[0].1.len(), 1);
    assert_eq!(config.0[0].1[0].name, "Hundred");
    assert_eq!(config.0[1].0, "Proton Experimental");
    assert_eq!(config.0[1].1.len(), 1);
    assert_eq!(config.0[1].1[0].name, "Two Hundred");
    assert_eq!(
        config.to_string(),
        "Proton 7.0\n    Hundred\n\nProton Experimental\n    Two Hundred\n"
    );
}

#[test]
fn tool_report_from_files() {
    let config_lines = lines_of(
        "\"CompatToolMapping\"\n{\n\"0\"\n{\n\"name\" \"proton_b\"\n}\n\"30\"\n{\n\"name\" \"proton_b\"\n}\n\"10\"\n{\n\"name\" \"proton_a\"\n}\n\"20\"\n{\n\"name\" \"proton_b\"\n}\n\"40\"\n{\n\"name\" \"Proton\"\n}\n}",
    );
    let registry_lines = lines_of(
        "\"apps\"\n{\n\"10\"\n{\n\"name\" \"Ten\"\n\"installed\" \"1\"\n}\n\"20\"\n{\n\"name\" \"Twenty\"\n\"installed\" \"0\"\n}\n\"30\"\n{\n\"installed\" \"7\"\n}\n\"99\"\n{\n\"name\" \"Other\"\n}\n}",
    );
    let mapping = parse_compat_tool_mapping(&config_lines);
    let wanted = mapping.apps();
    assert_eq!(wanted, vec![AppId::new(30), AppId::new(20), AppId::new(10), AppId::new(40)]);
    let registry = parse_registry(&registry_lines, &wanted);
    let mut resolution = get_app_names(&wanted, &registry);
    resolution.supply(Source::AppInfo(None));
    let mut shortcut = b"\x02appid\0\x28\0\0\0\x01AppName\0Forty\0".to_vec();
    shortcut.extend_from_slice(b"\x02appid\0\x63\0\0\0\x01AppName\0Other\0");
    resolution.supply(Source::Shortcuts(vec![shortcut]));

    let config = parse_tool_mapping(&mapping, &resolution, &registry);

    assert_eq!(
        config.to_string(),
        "Proton\n    Forty (Shortcut)\n\nproton_a\n    Ten\n\nproton_b\n    Unknown (Id: 30) (Unknown Install State)\n    Twenty (Not Installed)\n"
    );
}

#[test]
fn app_line_names_the_state_unless_installed() {
    let app = |state| App { name: "Name".to_string(), install_state: state };
    assert_eq!(app(InstallState::Installed).to_string(), "Name\n");
    assert_eq!(app(InstallState::NotInstalled).to_string(), "Name (Not Installed)\n");
    assert_eq!(app(InstallState::Shortcut).to_string(), "Name (Shortcut)\n");
    assert_eq!(app(InstallState::Unknown).to_string(), "Name (Unknown Install State)\n");
    assert_eq!(InstallState::Installed.to_string(), "Installed");
}

#[test]
fn escaped_quotes_are_unescaped_only_when_rendered() {
    let lines = lines_of(
        "\"UserLocalConfigStore\"\n{\n\"apps\"\n{\n\"12345\"\n{\n\"LaunchOptions\"\t\t\"\\\"0\\\"\"\n}\n}\n}",
    );
    let options = parse_user_launch_options(&lines);
    assert_eq!(options.len(), 1);
    assert_eq!(options[0].app_id, AppId::new(12345));
    assert_eq!(options[0].options, "\\\"0\\\"");
    assert_eq!(unescaped(&options[0].options), "\"0\"");
}

#[test]
fn unescaping_reads_from_the_left() {
    assert_eq!(unescaped(""), "");
    assert_eq!(unescaped("plain"), "plain");
    assert_eq!(unescaped("\\"), "\\");
    assert_eq!(unescaped("\""), "\"");
    assert_eq!(unescaped("\\\\\""), "\\\"");
    assert_eq!(unescaped("a\\\"b\\\"\\n"), "a\"b\"\\n");
    assert_eq!(unescaped("\\\"\\\""), "\"\"");
}

fn user_config(entries: &[(u64, &str)]) -> Vec<String> {
    let mut text = String::from("\"apps\"\n{\n");
    for (id, options) in entries {
        text.push_str(&format!("\"{}\"\n{{\n\"LaunchOptions\"\t\t\"{}\"\n}}\n", id, options));
    }
    text.push_str("}\n");
    lines_of(&text)
}

#[test]
fn launch_options_of_each_account_in_id_order() {
    let configs = vec![
        (UserId(30), user_config(&[(1, "a"), (0, "zero"), (2, "b")])),
        (UserId(10), user_config(&[(3, "c")])),
        (UserId(0), user_config(&[(4, "d")])),
        (UserId(30), user_config(&[(5, "e")])),
        (UserId(20), user_config(&[])),
    ];
    let mapping = parse_launch_options_mapping(&configs);
    let base = 0x0110_0001_0000_0000u64;
    let users: Vec<u64> = mapping.iter().map(|(id, _)| id.0).collect();
    assert_eq!(users, vec![base + 10, base + 20, base + 30]);
    let of_30: Vec<(u64, String)> =
        mapping[2].1.iter().map(|o| (o.app_id.0, o.options.clone())).collect();
    assert_eq!(of_30, vec![(5, "e".to_string())]);
    assert!(mapping[1].1.is_empty());
    assert_eq!(apps(&mapping), vec![AppId::new(3), AppId::new(5)]);
}

#[test]
fn launch_option_report_of_several_accounts() {
    let configs = vec![
        (UserId(2), user_config(&[(1, "-novid \\\"x y\\\""), (2, "%command%")])),
        (UserId(1), user_config(&[(1, "-windowed")])),
    ];
    let mapping = parse_launch_options_mapping(&configs);
    let login_users = lines_of(
        "\"users\"\n{\n\"76561197960265729\"\n{\n\"PersonaName\"\t\t\"Zed\"\n}\n\"76561197960265730\"\n{\n\"PersonaName\"\t\t\"Amy\"\n}\n}",
    );
    let mut registry = Registry::default();
    proton_usage::steam::registry::parse_name("One", &AppId::new(1), &mut registry);
    proton_usage::steam::registry::parse_installed("1", &AppId::new(1), &mut registry);
    let mut resolution = get_app_names(&apps(&mapping), &registry);
    resolution.supply(Source::AppInfo(None));
    resolution.supply(Source::Shortcuts(Vec::new()));

    let config = parse_launch_options(&mapping, &login_users, &resolution, &registry);

    assert_eq!(config.0.len(), 2);
    assert_eq!(config.0[0].0, "Amy");
    assert_eq!(config.0[1].0, "Zed");
    assert_eq!(config.0[0].1[0].value, "-novid \\\"x y\\\"");
    assert_eq!(
        config.to_string(),
        "Amy\n    One\n        -novid \"x y\"\n\n    Unknown (Id: 2) (Unknown Install State)\n        %command%\nZed\n    One\n        -windowed\n"
    );
}

#[test]
fn launch_option_report_of_one_account_has_no_heading() {
    let configs = vec![(UserId(1), user_config(&[(1, "-a"), (2, "-b")]))];
    let mapping = parse_launch_options_mapping(&configs);
    let registry = Registry::default();
    let resolution = get_app_names(&apps(&mapping), &registry);
    let config = parse_launch_options(&mapping, &Vec::new(), &resolution, &registry);
    assert_eq!(config.0[0].0, "76561197960265729");
    assert_eq!(
        config.to_string(),
        "Unknown (Id: 1) (Unknown Install State)\n    -a\n\nUnknown (Id: 2) (Unknown Install State)\n    -b\n"
    );
}

#[test]
fn accounts_that_show_under_one_name_share_a_group() {
    let configs = vec![
        (UserId(1), user_config(&[(1, "-a")])),
        (UserId(2), user_config(&[(2, "-b")])),
    ];
    let mapping = parse_launch_options_mapping(&configs);
    let login_users = lines_of(
        "\"76561197960265729\"\n\"PersonaName\" \"Same\"\n\"76561197960265730\"\n\"PersonaName\" \"Same\"",
    );
    let registry = Registry::default();
    let resolution = get_app_names(&apps(&mapping), &registry);
    let config = parse_launch_options(&mapping, &login_users, &resolution, &registry);
    assert_eq!(config.0.len(), 1);
    assert_eq!(config.0[0].0, "Same");
    assert_eq!(config.0[0].1.len(), 1);
    assert_eq!(config.0[0].1[0].value, "-b");
}
