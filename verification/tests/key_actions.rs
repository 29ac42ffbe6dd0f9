use settupper::app::{Action, ActionPlan, AppEvent, AppState, Screen};
use settupper::config::{AppConfig, GroupConfig, PackageConfig};
use settupper::events::{
    build_snapshot, cycle_group, handle_app_event, handle_key_event, launch_plans, record_export,
    replace_status, start_refresh, Effect, Key,
};
use settupper::manager::{AppStatus, Distro};
use settupper::selection::IndexSet;
use settupper::strmap::StrMap;

fn app(id: &str, group: &str) -> AppConfig {
    AppConfig { id: id.to_string(), name: id.to_uppercase(), group: group.to_string(), ..AppConfig::default() }
}

fn installable(id: &str, group: &str) -> AppConfig {
    let mut a = app(id, group);
    a.install.insert("ubuntu".to_string(), vec![format!("install {}", id)]);
    a.update.insert("ubuntu".to_string(), vec![format!("update {}", id)]);
    a
}

fn status(app: AppConfig, supported: bool, installed: bool) -> AppStatus {
    AppStatus { app, supported, installed, message: String::new() }
}

fn state(apps: Vec<AppConfig>, groups: Vec<GroupConfig>) -> AppState {
    AppState::new(
        PackageConfig { version: 1, apps, groups },
        "/home/u/packages.yaml".to_string(),
        Distro::Ubuntu,
        false,
    )
}

fn loaded(apps: Vec<AppConfig>, installed: &[bool]) -> AppState {
    let mut st = state(apps.clone(), vec![]);
    st.statuses = apps.into_iter().zip(installed.iter()).map(|(a, i)| status(a, true, *i)).collect();
    st
}

fn plans_of(effect: &Effect) -> Vec<(usize, Action)> {
    match effect {
        Effect::Execute { plans, .. } => plans.iter().map(|p| (p.app_index, p.action)).collect(),
        _ => vec![],
    }
}

#[test]
fn tab_cycles_through_the_groups_and_back() {
    let groups = vec![
        GroupConfig { id: "dev".to_string(), name: "Dev".to_string() },
        GroupConfig { id: "ops".to_string(), name: "Ops".to_string() },
    ];
    let mut st = state(vec![app("a", "dev"), app("b", "ops")], groups);
    cycle_group(&mut st);
    assert_eq!(st.active_group, "dev");
    assert_eq!(st.visible_indices, vec![0]);
    handle_key_event(&mut st, Key::Tab);
    assert_eq!(st.active_group, "ops");
    assert_eq!(st.visible_indices, vec![1]);
    handle_key_event(&mut st, Key::Tab);
    assert_eq!(st.active_group, "");
    assert_eq!(st.visible_indices, vec![0, 1]);
    assert!(st.rows_valid());
    assert!(st.is_well_formed());

    let mut plain = state(vec![app("a", "")], vec![]);
    cycle_group(&mut plain);
    assert_eq!(plain.active_group, "");
}

#[test]
fn install_key_queues_the_apps_that_can_install() {
    let mut st = loaded(vec![installable("a", ""), app("b", ""), installable("c", "")], &[false, false, false]);
    st.selected_indices.insert(2);
    st.selected_indices.insert(1);
    st.selected_indices.insert(0);
    let effect = handle_key_event(&mut st, Key::Char('i'));
    assert_eq!(plans_of(&effect), vec![(0, Action::Install), (2, Action::Install)]);
    match &effect {
        Effect::Execute { groups, .. } => {
            assert_eq!(groups.len(), 2);
            assert_eq!(groups[0].group_id, 0);
            assert_eq!(groups[0].label, "A (install)");
            assert_eq!(groups[1].commands, vec!["install c".to_string()]);
        }
        _ => panic!("expected plans to run"),
    }
    assert!(st.busy);
    assert!(!effect.is_quit());

    assert!(matches!(handle_key_event(&mut st, Key::Char('i')), Effect::Nothing));
}

#[test]
fn actions_without_commands_are_logged() {
    let mut st = loaded(vec![app("a", "")], &[false]);
    assert!(matches!(handle_key_event(&mut st, Key::Char('d')), Effect::Nothing));
    assert_eq!(st.log_lines.last().unwrap(), "# No app with uninstall available");
    assert!(matches!(handle_key_event(&mut st, Key::Char('a')), Effect::Nothing));
    assert_eq!(st.log_lines.last().unwrap(), "# No smart action available");
    assert!(matches!(handle_key_event(&mut st, Key::Char('A')), Effect::Nothing));
    assert_eq!(st.log_lines.last().unwrap(), "# No smart-all action available");

    let mut empty = state(vec![], vec![]);
    assert!(matches!(handle_key_event(&mut empty, Key::Char('i')), Effect::Nothing));
    assert!(empty.log_lines.is_empty());

    let mut st = loaded(vec![app("a", "")], &[false]);
    let effect = launch_plans(&mut st, vec![ActionPlan { app_index: 0, action: Action::Install }]);
    assert!(matches!(effect, Effect::Nothing));
    assert_eq!(st.log_lines.last().unwrap(), "# No commands to execute.");
    assert!(!st.busy);
}

#[test]
fn smart_keys_choose_install_or_update() {
    let mut st = loaded(vec![installable("a", ""), installable("b", "")], &[true, false]);
    let effect = handle_key_event(&mut st, Key::Char('a'));
    assert_eq!(plans_of(&effect), vec![(0, Action::Update)]);
}

#[test]
fn smart_all_follows_dependencies_among_visible_apps() {
    let mut nvm = installable("nvm", "dev");
    nvm.depends_on = vec!["git".to_string()];
    let git = installable("git", "dev");
    let other = installable("other", "ops");
    let mut st = loaded(vec![nvm, other, git], &[false, false, true]);
    st.apply_group_filter("dev");
    let effect = handle_key_event(&mut st, Key::Char('A'));
    assert_eq!(plans_of(&effect), vec![(2, Action::Update), (0, Action::Install)]);
}

#[test]
fn keys_while_busy_do_nothing_but_quit_and_clear() {
    let mut st = loaded(vec![installable("a", ""), installable("b", "")], &[false, false]);
    st.busy = true;
    st.selected_indices.insert(1);
    assert!(matches!(handle_key_event(&mut st, Key::Down), Effect::Nothing));
    assert_eq!(st.table_cursor, 0);
    assert!(matches!(handle_key_event(&mut st, Key::Char('i')), Effect::Nothing));
    assert!(matches!(handle_key_event(&mut st, Key::Esc), Effect::Nothing));
    assert!(st.selected_indices.is_empty());
    assert!(handle_key_event(&mut st, Key::Char('q')).is_quit());
}

#[test]
fn page_keys_move_ten_rows() {
    let apps: Vec<AppConfig> = (0..25).map(|i| app(&format!("a{}", i), "")).collect();
    let mut st = state(apps, vec![]);
    handle_key_event(&mut st, Key::PageDown);
    assert_eq!(st.table_cursor, 10);
    handle_key_event(&mut st, Key::PageDown);
    handle_key_event(&mut st, Key::PageDown);
    assert_eq!(st.table_cursor, 24);
    handle_key_event(&mut st, Key::Char('k'));
    assert_eq!(st.table_cursor, 23);
    handle_key_event(&mut st, Key::PageUp);
    handle_key_event(&mut st, Key::PageUp);
    handle_key_event(&mut st, Key::PageUp);
    assert_eq!(st.table_cursor, 0);
    handle_key_event(&mut st, Key::Char('j'));
    assert_eq!(st.table_cursor, 1);
}

#[test]
fn reboot_screen_ignores_other_keys() {
    let mut st = loaded(vec![installable("a", "")], &[false]);
    st.screen = Screen::RebootRequired { app_name: "A".to_string(), pending: vec![] };
    assert!(!handle_key_event(&mut st, Key::Char('q')).is_quit());
    assert!(!st.screen.is_main());
    handle_key_event(&mut st, Key::Esc);
    assert!(st.screen.is_main());
}

#[test]
fn refresh_and_export_keys() {
    let mut st = loaded(vec![installable("a", "")], &[false]);
    assert!(matches!(handle_key_event(&mut st, Key::Char('r')), Effect::Refresh));
    assert!(st.busy);
    assert!(st.statuses.is_empty());
    assert_eq!(st.log_lines.last().unwrap(), "# Updating status...");
    st.busy = false;
    assert!(matches!(handle_key_event(&mut st, Key::Char('e')), Effect::Export));
    assert!(matches!(start_refresh(&mut st), Effect::Refresh));
}

#[test]
fn reports_update_the_state() {
    let mut st = loaded(vec![installable("a", ""), installable("b", "")], &[false, false]);
    assert_eq!(handle_app_event(&mut st, AppEvent::CommandOutput("$ ls".to_string())), None);
    assert_eq!(st.log_lines.last().unwrap(), "$ ls");
    st.busy = true;
    handle_app_event(&mut st, AppEvent::Error("disk full".to_string()));
    assert_eq!(st.log_lines.last().unwrap(), "# ERROR: disk full");
    assert!(!st.busy);
    let recheck = handle_app_event(&mut st, AppEvent::ActionFinished { index: 1, success: true, reboot: false });
    assert_eq!(recheck, Some(1));
    assert!(st.screen.is_main());
    assert_eq!(handle_app_event(&mut st, AppEvent::ActionFinished { index: 9, success: false, reboot: true }), None);

    replace_status(&mut st, 1, status(installable("b", ""), true, true));
    assert!(st.statuses[1].installed);
    replace_status(&mut st, 5, status(installable("b", ""), true, true));
    assert_eq!(st.statuses.len(), 2);
}

#[test]
fn export_results_are_logged() {
    let mut st = state(vec![], vec![]);
    record_export(&mut st, Ok("/tmp/snapshot.json".to_string()));
    assert_eq!(st.log_lines.last().unwrap(), "# Exported: /tmp/snapshot.json");
    record_export(&mut st, Err("denied".to_string()));
    assert_eq!(st.log_lines.last().unwrap(), "# Error exporting: denied");
}

#[test]
fn snapshot_lists_every_status() {
    let st = loaded(vec![installable("a", "dev"), installable("b", "")], &[true, false]);
    let snap = build_snapshot(&st, "2024-01-01T00:00:00+00:00".to_string());
    assert_eq!(snap.distro, "ubuntu");
    assert_eq!(snap.config, "/home/u/packages.yaml");
    assert_eq!(snap.timestamp, "2024-01-01T00:00:00+00:00");
    assert_eq!(snap.apps.len(), 2);
    assert_eq!(snap.apps[0].id, "a");
    assert_eq!(snap.apps[0].name, "A");
    assert_eq!(snap.apps[0].group, "dev");
    assert!(snap.apps[0].installed && snap.apps[0].supported);
    assert!(!snap.apps[1].installed);
}

#[test]
fn toggling_twice_restores_the_selection() {
    let mut st = state(vec![app("a", ""), app("b", "")], vec![]);
    st.toggle_selection();
    assert!(st.selected_indices.contains(&0));
    st.toggle_selection();
    assert!(st.selected_indices.is_empty());
    st.clear_selection();
    assert_eq!(st.current_real_index(), Some(0));
    st.move_cursor_up();
    assert_eq!(st.table_cursor, 0);
    assert_eq!(st.groups().len(), 0);
}

#[test]
fn index_set_keeps_its_items_sorted_and_unique() {
    let mut s = IndexSet::new();
    assert!(s.insert(5));
    assert!(s.insert(1));
    assert!(!s.insert(5));
    assert!(s.insert(3));
    assert_eq!(s.sorted(), vec![1, 3, 5]);
    assert_eq!(s.len(), 3);
    assert!(s.remove(&3));
    assert!(!s.remove(&3));
    assert_eq!(s.sorted(), vec![1, 5]);
    s.clear();
    assert!(s.is_empty());
}

#[test]
fn string_map_insert_replaces_and_get_finds() {
    let mut m: StrMap<bool> = StrMap::new();
    assert!(m.is_empty());
    m.insert("install".to_string(), true);
    m.insert("update".to_string(), false);
    m.insert("install".to_string(), false);
    assert_eq!(m.get("install"), Some(&false));
    assert_eq!(m.get("update"), Some(&false));
    assert_eq!(m.get("uninstall"), None);
    assert!(m.contains_key("update"));
    assert!(!m.is_empty());
}

#[test]
fn log_keeps_the_last_lines_only() {
    let mut st = state(vec![], vec![]);
    for i in 0..1000 {
        st.push_log(i.to_string());
    }
    assert_eq!(st.log_lines.len(), 500);
    assert_eq!(st.log_lines[0], "500");
    assert_eq!(st.log_lines[499], "999");
}
