use settupper::app::AppState;
use settupper::config::{AppConfig, GroupConfig, PackageConfig};
use settupper::manager::{AppStatus, Distro};
use settupper::ui::{
    centered_rect, details, group_filter_text, header_text, log_tone, log_window, pane_widths,
    reboot_dialog_height, smart_action_label, status_label, summary_text, table_rows, LogTone, Rect,
    Tone,
};

fn app(id: &str, group: &str) -> AppConfig {
    AppConfig { id: id.to_string(), name: id.to_uppercase(), group: group.to_string(), ..AppConfig::default() }
}

fn with_install(mut a: AppConfig) -> AppConfig {
    a.install.insert("ubuntu".to_string(), vec!["apt install".to_string()]);
    a
}

fn with_update(mut a: AppConfig) -> AppConfig {
    a.update.insert("default".to_string(), vec!["upgrade".to_string()]);
    a
}

fn status(app: AppConfig, supported: bool, installed: bool, message: &str) -> AppStatus {
    AppStatus { app, supported, installed, message: message.to_string() }
}

fn state(apps: Vec<AppConfig>) -> AppState {
    AppState::new(
        PackageConfig {
            version: 1,
            apps,
            groups: vec![
                GroupConfig { id: "dev".to_string(), name: "Dev Tools".to_string() },
                GroupConfig { id: "ops".to_string(), name: "Ops".to_string() },
            ],
        },
        "packages.yaml".to_string(),
        Distro::Ubuntu,
        false,
    )
}

#[test]
fn status_label_for_each_kind_of_status() {
    let l = status_label(&status(app("a", ""), false, false, ""));
    assert_eq!((l.text, l.color, l.bold), ("SKIP", Tone::DarkGray, false));
    let l = status_label(&status(with_update(app("a", "")), true, true, ""));
    assert_eq!((l.text, l.color, l.bold), ("OK  ", Tone::Green, true));
    let l = status_label(&status(app("a", ""), true, true, ""));
    assert_eq!((l.text, l.color, l.bold), ("OK ~", Tone::Yellow, true));
    let l = status_label(&status(with_install(app("a", "")), true, false, ""));
    assert_eq!((l.text, l.color, l.bold), ("MISS", Tone::Red, false));
    let l = status_label(&status(app("a", ""), true, false, ""));
    assert_eq!((l.text, l.color, l.bold), ("MISS!", Tone::Red, true));
}

#[test]
fn centered_rect_centres_and_clamps() {
    let area = Rect { x: 2, y: 1, width: 80, height: 24 };
    assert_eq!(centered_rect(55, 10, area), Rect { x: 14, y: 8, width: 55, height: 10 });
    assert_eq!(centered_rect(100, 30, area), Rect { x: 2, y: 1, width: 80, height: 24 });
}

#[test]
fn pane_widths_keep_the_app_pane_between_limits() {
    assert_eq!(pane_widths(55, 100), (55, 44));
    assert_eq!(pane_widths(5, 100), (20, 79));
    assert_eq!(pane_widths(99, 100), (98, 1));
    assert_eq!(pane_widths(30, 10), (8, 1));
    assert_eq!(pane_widths(30, 0), (0, 0));
}

#[test]
fn reboot_dialog_height_grows_with_pending_items() {
    assert_eq!(reboot_dialog_height(0), 6);
    assert_eq!(reboot_dialog_height(3), 9);
    assert_eq!(reboot_dialog_height(14), 20);
    assert_eq!(reboot_dialog_height(400), 20);
}

#[test]
fn header_summary_and_group_lines() {
    let mut st = state(vec![app("a", "dev"), app("b", "ops"), app("c", "")]);
    assert_eq!(header_text(&st), " Settupper — ubuntu ");
    st.dry_run = true;
    st.busy = true;
    assert_eq!(header_text(&st), " Settupper — ubuntu  [DRY-RUN] ⟳");

    st.statuses = vec![
        status(app("a", "dev"), true, true, ""),
        status(app("b", "ops"), true, false, ""),
        status(app("c", ""), false, false, ""),
    ];
    assert_eq!(summary_text(&st), " OK:1 MISS:1 SKIP:1");
    st.selected_indices.insert(2);
    st.selected_indices.insert(0);
    assert_eq!(summary_text(&st), " OK:1 MISS:1 SKIP:1  sel:2");

    assert_eq!(group_filter_text(&st), " Grupo: [Todos] (tab)");
    st.apply_group_filter("dev");
    assert_eq!(group_filter_text(&st), " Grupo: [Dev Tools] (tab)");
    st.apply_group_filter("other");
    assert_eq!(group_filter_text(&st), " Grupo: [other] (tab)");
}

#[test]
fn log_tones_and_window() {
    assert_eq!(log_tone("$ apt install"), LogTone::Command);
    assert_eq!(log_tone("exit=0"), LogTone::Success);
    assert_eq!(log_tone("all OK here"), LogTone::Success);
    assert_eq!(log_tone("exit=1"), LogTone::Failure);
    assert_eq!(log_tone("ERRO: x"), LogTone::Failure);
    assert_eq!(log_tone("an error"), LogTone::Failure);
    assert_eq!(log_tone("exit=127"), LogTone::Failure);
    assert_eq!(log_tone("plain"), LogTone::Plain);
    assert_eq!(log_tone(""), LogTone::Plain);

    let mut st = state(vec![]);
    for l in ["# Updating status...", "$ ls", "exit=0", "done"] {
        st.push_log(l.to_string());
    }
    let w = log_window(&st, 2);
    assert_eq!(w.len(), 2);
    assert_eq!(w[0].text, "exit=0");
    assert_eq!(w[0].tone, LogTone::Success);
    assert_eq!(w[1].text, "done");
    assert_eq!(w[1].tone, LogTone::Plain);
    assert_eq!(log_window(&st, 10).len(), 4);
    assert_eq!(log_window(&st, 0).len(), 0);
}

#[test]
fn table_rows_show_each_visible_app() {
    let mut b = app("b", "ops");
    b.depends_on = vec!["a".to_string(), "c".to_string()];
    b.description = "Bee".to_string();
    let mut st = state(vec![app("a", "dev"), b.clone(), app("c", "")]);
    st.statuses = vec![status(app("a", "dev"), false, false, "")];
    st.selected_indices.insert(1);
    st.table_cursor = 2;
    assert!(st.rows_valid());
    let rows = table_rows(&st);
    assert_eq!(rows.len(), 3);
    assert!(rows[0].status.is_some());
    assert_eq!(rows[0].status.unwrap().text, "SKIP");
    assert_eq!(rows[0].group, "dev");
    assert_eq!(rows[0].deps, "-");
    assert!(!rows[0].striped);
    assert!(rows[1].selected);
    assert!(rows[1].status.is_none());
    assert_eq!(rows[1].name, "B");
    assert_eq!(rows[1].description, "Bee");
    assert_eq!(rows[1].deps, "a, c");
    assert!(rows[1].striped);
    assert_eq!(rows[2].group, "-");
    assert!(rows[2].under_cursor);
    assert!(!rows[1].under_cursor);
}

#[test]
fn details_of_the_app_under_the_cursor() {
    let mut a = with_install(app("a", ""));
    a.reboot_on.insert("install".to_string(), true);
    a.depends_on = vec!["git".to_string()];
    let mut st = state(vec![a.clone(), app("b", "ops")]);
    let d = details(&st).unwrap();
    assert_eq!(d.name, "A");
    assert_eq!(d.group, "-");
    assert_eq!(d.description, "-");
    assert_eq!(d.deps, "git");
    assert_eq!(d.installed, None);
    assert_eq!(d.smart, "...");
    assert!(d.can_install && !d.can_update && !d.can_uninstall);
    assert!(d.reboot_install && !d.reboot_update);
    assert!(!d.warn_install && !d.warn_update);
    assert!(d.note.is_none());

    st.statuses = vec![status(a, true, false, "  $ which a\nnot found \n"), status(app("b", "ops"), true, true, "")];
    let d = details(&st).unwrap();
    assert_eq!(d.installed, Some(false));
    assert_eq!(d.supported, Some(true));
    assert_eq!(d.smart, "install");
    assert!(!d.warn_install && d.warn_update);
    assert_eq!(d.note, Some("$ which a\nnot found".to_string()));

    st.table_cursor = 1;
    let d = details(&st).unwrap();
    assert_eq!(d.deps, "nenhum");
    assert_eq!(d.group, "ops");
    assert_eq!(d.smart, "nenhuma");
    assert!(d.warn_install && d.warn_update);

    st.apply_group_filter("none");
    assert!(details(&st).is_none());
    assert_eq!(smart_action_label(&st, 0), "install");
    assert_eq!(smart_action_label(&st, 7), "nenhuma");
}
