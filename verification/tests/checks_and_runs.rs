use settupper::app::{Action, ActionPlan, AppEvent};
use settupper::config::AppConfig;
use settupper::exec::PlanRun;
use settupper::manager::{topological_sort, AppStatus, Distro};
use settupper::status::{resolve_status, CommandResult, StatusCheck};
use settupper::system::{distro_from_os_release, parse_os_release, strip_ansi};

fn cmds(items: &[&str]) -> Vec<String> {
    items.iter().map(|s| s.to_string()).collect()
}

fn app_with(id: &str, install: &[&str], check: &[&str]) -> AppConfig {
    let mut app = AppConfig { id: id.to_string(), name: id.to_uppercase(), ..AppConfig::default() };
    if !install.is_empty() {
        app.install.insert("default".to_string(), cmds(install));
    }
    if !check.is_empty() {
        app.check.insert("ubuntu".to_string(), cmds(check));
    }
    app
}

fn ok(command: &str, code: i32, output: &str) -> Result<CommandResult, String> {
    Ok(CommandResult { command: command.to_string(), exit_code: code, output: output.to_string() })
}

fn status(app: AppConfig, supported: bool, installed: bool) -> AppStatus {
    AppStatus { app, supported, installed, message: String::new() }
}

fn lines(events: &[AppEvent]) -> Vec<String> {
    events
        .iter()
        .map(|e| match e {
            AppEvent::CommandOutput(l) => l.clone(),
            AppEvent::ActionFinished { index, success, reboot } => {
                format!("finished {} {} {}", index, success, reboot)
            }
            AppEvent::AllPlansFinished => "all finished".to_string(),
            AppEvent::StatusesLoaded(_) => "loaded".to_string(),
            AppEvent::Error(m) => format!("error {}", m),
        })
        .collect()
}

/// Runs a plan to its end, answering each command with `answer`.
fn run_all(run: &mut PlanRun, answer: &dyn Fn(&str) -> Result<CommandResult, String>) -> Vec<String> {
    let mut out = Vec::new();
    let mut outcome = None;
    for _ in 0..100 {
        if run.is_finished() {
            break;
        }
        let (events, command) = run.step(false, outcome.take());
        out.extend(lines(&events));
        if let Some(c) = command {
            outcome = Some(answer(&c));
        }
    }
    out
}

#[test]
fn status_of_an_app_without_commands_for_the_distro() {
    let app = AppConfig { id: "x".to_string(), name: "X".to_string(), ..AppConfig::default() };
    let check = StatusCheck::start(&app, &Distro::Fedora);
    assert!(check.next_command().is_none());
    let s = resolve_status(&app, &check);
    assert!(!s.supported);
    assert!(!s.installed);
    assert_eq!(s.message, "Sem comandos para fedora.");
}

#[test]
fn status_without_check_commands_follows_the_install_commands() {
    let app = app_with("x", &["install x"], &[]);
    let s = resolve_status(&app, &StatusCheck::start(&app, &Distro::Ubuntu));
    assert!(s.supported);
    assert!(!s.installed);
    assert_eq!(s.message, "");

    let mut app = AppConfig { id: "y".to_string(), name: "Y".to_string(), ..AppConfig::default() };
    app.update.insert("ubuntu".to_string(), cmds(&["update y"]));
    let s = resolve_status(&app, &StatusCheck::start(&app, &Distro::Ubuntu));
    assert!(s.supported);
    assert!(s.installed);
}

#[test]
fn status_check_runs_each_command_and_logs_its_output() {
    let app = app_with("x", &["install x"], &["which x", "x --version"]);
    let mut check = StatusCheck::start(&app, &Distro::Ubuntu);
    assert_eq!(check.next_command().unwrap(), "which x");
    check.record(ok("which x", 0, "  /usr/bin/x \n"));
    assert_eq!(check.next_command().unwrap(), "x --version");
    check.record(ok("x --version", 0, "   "));
    assert!(check.next_command().is_none());
    let s = resolve_status(&app, &check);
    assert!(s.installed);
    assert_eq!(s.message, "$ which x\n/usr/bin/x");
}

#[test]
fn status_check_stops_at_the_first_failure() {
    let app = app_with("x", &["install x"], &["a", "b", "c"]);
    let mut check = StatusCheck::start(&app, &Distro::Ubuntu);
    check.record(ok("a", 0, "one"));
    check.record(ok("b", 1, "two"));
    assert!(check.next_command().is_none());
    let s = resolve_status(&app, &check);
    assert!(!s.installed);
    assert_eq!(s.message, "$ a\none\n$ b\ntwo");

    let mut check = StatusCheck::start(&app, &Distro::Ubuntu);
    check.record(Err("Failed to spawn command".to_string()));
    let s = resolve_status(&app, &check);
    assert!(!s.installed);
    assert_eq!(s.message, "Failed to spawn command");
}

#[test]
fn plan_run_reports_commands_and_exit_codes() {
    let app = app_with("git", &["first", "second"], &[]);
    let statuses = vec![status(app, true, false)];
    let plans = vec![ActionPlan { app_index: 0, action: Action::Install }];
    let mut run = PlanRun::new(plans, statuses, Distro::Ubuntu, false);
    let out = run_all(&mut run, &|c: &str| ok(c, 0, ""));
    assert_eq!(
        out,
        vec![
            "\n==> GIT (install)",
            "$ first",
            "exit=0",
            "$ second",
            "exit=0",
            "finished 0 true false",
            "all finished",
        ]
    );
}

#[test]
fn plan_run_stops_a_plan_at_a_failing_command() {
    let a = app_with("a", &["bad", "never"], &[]);
    let b = app_with("b", &["fine"], &[]);
    let statuses = vec![status(a, true, false), status(b, true, false)];
    let plans = vec![
        ActionPlan { app_index: 0, action: Action::Install },
        ActionPlan { app_index: 1, action: Action::Install },
        ActionPlan { app_index: 1, action: Action::Update },
    ];
    let mut run = PlanRun::new(plans, statuses, Distro::Ubuntu, false);
    let out = run_all(&mut run, &|c: &str| if c == "bad" { ok(c, 2, "") } else { Err("boom".to_string()) });
    assert_eq!(
        out,
        vec![
            "\n==> A (install)",
            "$ bad",
            "exit=2",
            "finished 0 false false",
            "\n==> B (install)",
            "$ fine",
            "ERRO: boom",
            "finished 1 false false",
            "# B (update): sem comandos para esta distro",
            "all finished",
        ]
    );
}

#[test]
fn plan_run_stops_the_queue_after_a_reboot() {
    let mut a = app_with("a", &["inst"], &[]);
    a.reboot_on.insert("install".to_string(), true);
    let b = app_with("b", &["inst-b"], &[]);
    let statuses = vec![status(a, true, false), status(b, true, false)];
    let plans = vec![
        ActionPlan { app_index: 0, action: Action::Install },
        ActionPlan { app_index: 1, action: Action::Install },
    ];
    let mut run = PlanRun::new(plans, statuses, Distro::Ubuntu, false);
    let out = run_all(&mut run, &|c: &str| ok(c, 0, ""));
    assert_eq!(out, vec!["\n==> A (install)", "$ inst", "exit=0", "finished 0 true true", "all finished"]);
}

#[test]
fn plan_run_in_dry_run_runs_nothing() {
    let a = app_with("a", &["inst", "more"], &[]);
    let statuses = vec![status(a, true, false)];
    let plans = vec![ActionPlan { app_index: 0, action: Action::Install }, ActionPlan { app_index: 9, action: Action::Install }];
    let mut run = PlanRun::new(plans, statuses, Distro::Ubuntu, true);
    let out = run_all(&mut run, &|_c: &str| panic!("no command runs in a dry run"));
    assert_eq!(
        out,
        vec!["\n==> A (install)", "$ inst", "[dry-run]", "$ more", "[dry-run]", "finished 0 true false", "all finished"]
    );
}

#[test]
fn plan_run_cancelled_before_a_plan_ends_the_run() {
    let a = app_with("a", &["inst"], &[]);
    let statuses = vec![status(a, true, false)];
    let plans = vec![ActionPlan { app_index: 0, action: Action::Install }];
    let mut run = PlanRun::new(plans, statuses, Distro::Ubuntu, false);
    let (events, command) = run.step(true, None);
    assert!(command.is_none());
    assert_eq!(lines(&events), vec!["all finished"]);
    assert!(run.is_finished());
}

#[test]
fn plan_run_cancelled_inside_a_plan_fails_it() {
    let a = app_with("a", &["one", "two"], &[]);
    let statuses = vec![status(a, true, false)];
    let plans = vec![ActionPlan { app_index: 0, action: Action::Install }];
    let mut run = PlanRun::new(plans, statuses, Distro::Ubuntu, false);
    let (_, command) = run.step(false, None);
    assert!(command.is_none());
    let (_, command) = run.step(false, None);
    assert_eq!(command.unwrap(), "one");
    assert!(run.is_awaiting());
    let (events, _) = run.step(false, Some(ok("one", 0, "")));
    assert_eq!(lines(&events), vec!["exit=0"]);
    let (events, command) = run.step(true, None);
    assert!(command.is_none());
    assert_eq!(lines(&events), vec!["finished 0 false false"]);
}

#[test]
fn topological_sort_puts_dependencies_first() {
    let mut nvm = app_with("nvm", &[], &[]);
    nvm.depends_on = cmds(&["git", "curl", "missing"]);
    let mut git = app_with("git", &[], &[]);
    git.depends_on = cmds(&["curl"]);
    let curl = app_with("curl", &[], &[]);
    let statuses = vec![status(nvm, true, false), status(git, true, false), status(curl, true, false)];
    assert_eq!(topological_sort(&statuses), vec![2, 1, 0]);
}

#[test]
fn topological_sort_breaks_cycles() {
    let mut a = app_with("a", &[], &[]);
    a.depends_on = cmds(&["b"]);
    let mut b = app_with("b", &[], &[]);
    b.depends_on = cmds(&["a"]);
    let statuses = vec![status(a, true, false), status(b, true, false)];
    assert_eq!(topological_sort(&statuses), vec![1, 0]);
    assert!(topological_sort(&[]).is_empty());
}

#[test]
fn os_release_fields_and_distro() {
    let content = "# comment\nNAME=\"Linux Mint\"\nID=linuxmint\nID_LIKE=\"ubuntu debian\"\n\nBROKEN\nVERSION_ID=\"\"21\"\"\n";
    let fields = parse_os_release(content);
    assert_eq!(fields.get("NAME"), Some(&"Linux Mint".to_string()));
    assert_eq!(fields.get("ID"), Some(&"linuxmint".to_string()));
    assert_eq!(fields.get("VERSION_ID"), Some(&"21".to_string()));
    assert_eq!(fields.get("BROKEN"), None);
    assert_eq!(distro_from_os_release(content), Distro::Ubuntu);

    assert_eq!(distro_from_os_release("ID=rhel\n"), Distro::Fedora);
    assert_eq!(distro_from_os_release("ID=\"centos\"\nID_LIKE=\"rhel fedora\"\n"), Distro::Fedora);
    assert_eq!(distro_from_os_release("ID=arch\n"), Distro::Unknown);
    assert_eq!(distro_from_os_release("ID=ubuntus\n"), Distro::Unknown);
    assert_eq!(distro_from_os_release(""), Distro::Unknown);
}

#[test]
fn strip_ansi_removes_escape_sequences() {
    assert_eq!(strip_ansi("\x1b[32mfoo\x1b[m bar"), "foo bar");
    assert_eq!(strip_ansi("plain\ntext\n"), "plain\ntext\n");
    assert_eq!(strip_ansi(""), "");
}
