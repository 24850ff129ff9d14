use proton_usage::steam::{parse_display_name, SteamId64};

const ID: SteamId64 = SteamId64(12345678901234567);

fn lines_of(text: &str) -> Vec<String> {
    text.lines().map(|s| s.to_string()).collect()
}

#[test]
fn can_parse_display_name() {
    let lines = lines_of(
        r#"
            "users"
            {
                "123"
                {
                    "AccountName"		"Account Name1"
                    "PersonaName"		"Display Name1"
                    "RememberPassword"		"1"
                    "WantsOfflineMode"		"0"
                    "SkipOfflineModeWarning"		"0"
                    "AllowAutoLogin"		"1"
                    "mostrecent"		"1"
                    "Timestamp"		"123456789"
                }
                "12345678901234567"
                {
                    "AccountName"		"Account Name1"
                    "PersonaName"		"Display Name1"
                    "RememberPassword"		"1"
                    "WantsOfflineMode"		"0"
                    "SkipOfflineModeWarning"		"0"
                    "AllowAutoLogin"		"1"
                    "mostrecent"		"1"
                    "Timestamp"		"123456789"
                }
            }
            "#,
    );

    let display_name = parse_display_name(&ID, &lines);

    assert_eq!(display_name, "Display Name1", "")
}

#[test]
fn defaults_to_id_if_no_persona_name() {
    let lines = lines_of(
        r#"
            "users"
            {
                "12345678901234567"
                {
                    "AccountName"		"Account Name"
                    "RememberPassword"		"1"
                    "WantsOfflineMode"		"0"
                    "SkipOfflineModeWarning"		"0"
                    "AllowAutoLogin"		"1"
                    "mostrecent"		"1"
                    "Timestamp"		"123456789"
                }
            }
            "#,
    );

    let display_name = parse_display_name(&ID, &lines);

    assert_eq!(display_name, ID.to_string(), "")
}

#[test]
fn defaults_to_id_if_no_id_match() {
    let lines = lines_of(
        r#"
            "users"
            {
                "123"
                {
                    "AccountName"		"Account Name"
                    "PersonaName"		"Display Name"
                    "RememberPassword"		"1"
                    "WantsOfflineMode"		"0"
                    "SkipOfflineModeWarning"		"0"
                    "AllowAutoLogin"		"1"
                    "mostrecent"		"1"
                    "Timestamp"		"123456789"
                }
            }
            "#,
    );

    let display_name = parse_display_name(&ID, &lines);

    assert_eq!(display_name, ID.to_string(), "")
}

#[test]
fn display_name_is_the_second_account_s_own() {
    let lines = lines_of(
        "\"users\"\n{\n\t\"1\"\n\t{\n\t\t\"PersonaName\"\t\t\"First\"\n\t}\n\t\"12345678901234567\"\n\t{\n\t\t\"PersonaName\"\t\t\"Second\"\n\t}\n}",
    );
    assert_eq!(parse_display_name(&ID, &lines), "Second");
    assert_eq!(parse_display_name(&SteamId64(1), &lines), "First");
}

#[test]
fn display_name_is_the_last_field_of_the_line() {
    let id = SteamId64(5);
    let open = "\"5\"".to_string();
    let name = |line: &str| parse_display_name(&id, &vec![open.clone(), line.to_string()]);
    assert_eq!(name("\"PersonaName\" \"a\" \"b\""), "b");
    assert_eq!(name("\"PersonaName\" \"a\" tail"), " tail");
    assert_eq!(name("\"PersonaName\""), "PersonaName");
    assert_eq!(name("\"PersonaName"), "PersonaName");
    assert_eq!(name("   \"PersonaName\" \"\""), "");
    assert_eq!(name("\"personaname\" \"a\""), "5");
}
