use proton_usage::steam::compat_tool::parse_tool_name;
use proton_usage::steam::{parse_compat_tool_mapping, AppId, CompatToolMapping};

fn lines_of(text: &str) -> Vec<String> {
    text.lines().map(|s| s.to_string()).collect()
}

#[test]
fn parse_tool_name_excludes_app_zero() {
    let mut map = CompatToolMapping::new();

    parse_tool_name("name1", &AppId(0), &mut map);
    parse_tool_name("name2", &AppId(1), &mut map);

    assert_eq!(map.keys().len(), 1);
    assert!(map.keys().contains(&&"name2".to_string()));
}

#[test]
fn tools_keep_their_applications_in_file_order() {
    let lines = lines_of(
        r#"
"InstallConfigStore"
{
    "Software"
    {
        "Valve"
        {
            "Steam"
            {
                "CompatToolMapping"
                {
                    "0"
                    {
                        "name"		"proton_experimental"
                        "config"		""
                        "priority"		"75"
                    }
                    "300"
                    {
                        "name"		"proton_7"
                        "config"		""
                        "priority"		"250"
                    }
                    "100"
                    {
                        "name"		"proton_experimental"
                        "config"		""
                        "priority"		"250"
                    }
                    "200"
                    {
                        "Name"		"Proton_7"
                    }
                    "400"
                    {
                        "name"		"proton_7"
                    }
                }
                "Other"
                {
                    "500"
                    {
                        "name"		"proton_7"
                    }
                }
            }
        }
    }
}"#,
    );

    let mapping = parse_compat_tool_mapping(&lines);

    let tools: Vec<String> = mapping.keys().into_iter().cloned().collect();
    assert_eq!(tools, vec!["proton_7", "proton_experimental", "Proton_7"]);
    let lists: Vec<Vec<AppId>> = mapping.values().into_iter().cloned().collect();
    assert_eq!(
        lists,
        vec![
            vec![AppId::new(300), AppId::new(400)],
            vec![AppId::new(100)],
            vec![AppId::new(200)]
        ]
    );
    assert_eq!(
        mapping.apps(),
        vec![AppId::new(300), AppId::new(400), AppId::new(100), AppId::new(200)]
    );
}

#[test]
fn entry_opens_a_tool_once() {
    let mut map = CompatToolMapping::new();
    map.entry("a".to_string()).push(AppId::new(1));
    map.entry("b".to_string());
    map.entry("a".to_string()).push(AppId::new(2));
    map.entry("a".to_string()).push(AppId::new(1));
    assert_eq!(map.keys(), vec!["a", "b"]);
    assert_eq!(map.values()[0], &vec![AppId::new(1), AppId::new(2), AppId::new(1)]);
    assert!(map.values()[1].is_empty());
    assert_eq!(map.apps(), vec![AppId::new(1), AppId::new(2)]);
}

#[test]
fn file_without_the_section_gives_no_tools() {
    let mapping = parse_compat_tool_mapping(&lines_of("\"apps\"\n{\n\"1\"\n{\n\"name\" \"x\"\n}\n}"));
    assert!(mapping.keys().is_empty());
    assert!(mapping.apps().is_empty());
}
