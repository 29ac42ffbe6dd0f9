use settupper::config::{
    assemble_config, default_version, parse_action_map, parse_app, parse_string_list, slug_text, AppConfig,
    ConfigError, GroupConfig,
};
use settupper::manager::{action_requires_reboot, select_commands, Distro};
use settupper::yaml::YamlValue;

fn s(t: &str) -> YamlValue {
    YamlValue::String(t.to_string())
}

fn seq(items: Vec<YamlValue>) -> YamlValue {
    YamlValue::Sequence(items)
}

fn map(entries: Vec<(&str, YamlValue)>) -> YamlValue {
    YamlValue::Mapping(entries.into_iter().map(|(k, v)| (s(k), v)).collect())
}

fn commands(app_map: &settupper::config::CommandMap, key: &str) -> Option<Vec<String>> {
    app_map.get(key).cloned()
}

#[test]
fn parse_app_reads_the_fields_of_a_mapping() {
    let val = map(vec![
        ("id", s("git")),
        ("name", s("Git")),
        ("description", s("Version control")),
        ("group", s("dev-tools")),
        ("depends_on", seq(vec![s("curl"), YamlValue::Number, s("make")])),
        ("reboot_on", map(vec![("install", YamlValue::Bool(true)), ("update", s("no"))])),
        ("check", map(vec![("default", seq(vec![s("command -v git")]))])),
        (
            "actions",
            map(vec![
                ("install", map(vec![("ubuntu", seq(vec![s("sudo apt-get install -y git")]))])),
                ("update", s("brew upgrade git")),
            ]),
        ),
    ]);
    let app = parse_app(val, 0).unwrap();
    assert_eq!(app.id, "git");
    assert_eq!(app.name, "Git");
    assert_eq!(app.description, "Version control");
    assert_eq!(app.group, "dev-tools");
    assert_eq!(app.depends_on, vec!["curl".to_string(), "make".to_string()]);
    assert!(action_requires_reboot(&app, "install"));
    assert!(!action_requires_reboot(&app, "update"));
    assert!(!action_requires_reboot(&app, "uninstall"));
    assert_eq!(commands(&app.check, "default"), Some(vec!["command -v git".to_string()]));
    assert_eq!(
        commands(&app.install, "ubuntu"),
        Some(vec!["sudo apt-get install -y git".to_string()])
    );
    assert_eq!(commands(&app.update, "default"), Some(vec!["brew upgrade git".to_string()]));
    assert!(app.uninstall.is_empty());
}

#[test]
fn parse_app_makes_an_id_from_the_name() {
    let app = parse_app(map(vec![("name", s("My Cool_App 2"))]), 3).unwrap();
    assert_eq!(app.id, "my-cool-app-2");

    let app = parse_app(map(vec![("name", s("Éditeur Ñ"))]), 0).unwrap();
    assert_eq!(app.id, "éditeur-ñ");
}

#[test]
fn parse_app_prefers_top_level_actions() {
    let val = map(vec![
        ("name", s("Tool")),
        ("install", s("top")),
        ("actions", map(vec![("install", s("nested")), ("uninstall", s("nested-rm"))])),
    ]);
    let app = parse_app(val, 0).unwrap();
    assert_eq!(commands(&app.install, "default"), Some(vec!["top".to_string()]));
    assert_eq!(commands(&app.uninstall, "default"), Some(vec!["nested-rm".to_string()]));
}

#[test]
fn parse_app_rejects_a_value_that_is_not_a_mapping() {
    assert_eq!(parse_app(s("git"), 4).err(), Some(ConfigError::NotMapping { index: 4 }));
    let e = ConfigError::NotMapping { index: 4 };
    assert_eq!(e.message(), "App must be a mapping");
    assert_eq!(e.index(), 4);
}

#[test]
fn parse_app_rejects_an_app_without_a_name() {
    let err = parse_app(map(vec![("id", s("x"))]), 12).err().unwrap();
    assert_eq!(err, ConfigError::MissingName { index: 12 });
    assert_eq!(err.message(), "App #12 is missing required 'name' field");

    let err = parse_app(map(vec![("name", s(""))]), 0).err().unwrap();
    assert_eq!(err, ConfigError::MissingName { index: 0 });
}

#[test]
fn parse_action_map_reads_strings_lists_and_mappings() {
    assert!(parse_action_map(None).is_empty());
    assert!(parse_action_map(Some(&YamlValue::Null)).is_empty());

    let m = parse_action_map(Some(&seq(vec![s("a"), YamlValue::Bool(true), s("b")])));
    assert_eq!(commands(&m, "default"), Some(vec!["a".to_string(), "b".to_string()]));

    let m = parse_action_map(Some(&map(vec![
        ("installed", s("old")),
        ("fedora", seq(vec![])),
        ("macos", seq(vec![s("brew install x")])),
    ])));
    assert_eq!(commands(&m, "default"), Some(vec!["old".to_string()]));
    assert_eq!(commands(&m, "fedora"), None);
    assert_eq!(commands(&m, "macos"), Some(vec!["brew install x".to_string()]));
}

#[test]
fn parse_string_list_reads_one_string_or_a_sequence() {
    assert_eq!(parse_string_list(&s("one")), vec!["one".to_string()]);
    assert_eq!(
        parse_string_list(&seq(vec![s("a"), YamlValue::Tagged(Box::new(s("b")))])),
        vec!["a".to_string(), "b".to_string()]
    );
    assert!(parse_string_list(&YamlValue::Bool(false)).is_empty());
}

#[test]
fn assemble_config_keeps_the_apps_in_order_or_fails_on_the_first_bad_one() {
    let groups = vec![GroupConfig { id: "g".to_string(), name: "G".to_string() }];
    let cfg = assemble_config(
        default_version(),
        vec![map(vec![("name", s("A"))]), map(vec![("name", s("B"))])],
        groups,
    )
    .unwrap();
    assert_eq!(cfg.version, 1);
    assert_eq!(cfg.apps.len(), 2);
    assert_eq!(cfg.apps[0].id, "a");
    assert_eq!(cfg.apps[1].id, "b");
    assert_eq!(cfg.groups[0].name, "G");

    let err = assemble_config(
        2,
        vec![map(vec![("name", s("A"))]), s("bad"), map(vec![])],
        vec![],
    )
    .err();
    assert_eq!(err, Some(ConfigError::NotMapping { index: 1 }));
}

#[test]
fn select_commands_falls_back_to_default_all_and_star() {
    let mut app = AppConfig::default();
    app.install.insert("*".to_string(), vec!["star".to_string()]);
    assert_eq!(select_commands(&app.install, &Distro::Fedora), Some(&vec!["star".to_string()]));
    app.install.insert("all".to_string(), vec!["all".to_string()]);
    assert_eq!(select_commands(&app.install, &Distro::Fedora), Some(&vec!["all".to_string()]));
    app.install.insert("default".to_string(), vec!["def".to_string()]);
    assert_eq!(select_commands(&app.install, &Distro::Fedora), Some(&vec!["def".to_string()]));
    app.install.insert("fedora".to_string(), vec!["dnf".to_string()]);
    assert_eq!(select_commands(&app.install, &Distro::Fedora), Some(&vec!["dnf".to_string()]));
    assert_eq!(select_commands(&app.update, &Distro::Fedora), None);
}

#[test]
fn distro_and_action_names() {
    assert_eq!(Distro::Ubuntu.as_str(), "ubuntu");
    assert_eq!(Distro::Fedora.as_str(), "fedora");
    assert_eq!(Distro::Macos.as_str(), "macos");
    assert_eq!(Distro::Windows.as_str(), "windows");
    assert_eq!(Distro::Unknown.as_str(), "unknown");
    assert_eq!(settupper::app::Action::Uninstall.as_str(), "uninstall");
    let app = parse_app(map(vec![("name", s("N")), ("id", s("nid"))]), 0).unwrap();
    assert_eq!(app.effective_id(), "nid");
}

#[test]
fn slug_text_replaces_other_characters() {
    assert_eq!(slug_text("my app_2"), "my-app-2");
    assert_eq!(slug_text("a-b.c"), "a-b-c");
    assert_eq!(slug_text("ñ"), "ñ");
    assert_eq!(slug_text(""), "");
}
