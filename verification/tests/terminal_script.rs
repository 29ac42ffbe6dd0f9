use settupper::manager::CommandGroup;
use settupper::terminal::{
    build_launcher_argv, build_terminal_script, find_terminal_command, known_terminals, opening_note,
    parse_result_content, poll_note, poll_terminal, run_result, shell_quote, Poll, RunStage,
    TerminalRunResult,
};
use std::collections::HashMap;

fn strings(items: &[&str]) -> Vec<String> {
    items.iter().map(|s| s.to_string()).collect()
}

#[test]
fn shell_quote_escapes_single_quotes() {
    assert_eq!(shell_quote("plain"), "'plain'");
    assert_eq!(shell_quote("it's"), "'it'\\''s'");
    assert_eq!(shell_quote(""), "''");
}

#[test]
fn build_terminal_script_writes_each_group() {
    let groups = vec![
        CommandGroup {
            group_id: 3,
            label: "Git (install)".to_string(),
            commands: strings(&["apt-get update", "apt-get install -y git"]),
        },
        CommandGroup { group_id: 7, label: "O'Neil (update)".to_string(), commands: strings(&["x"]) },
    ];
    let script = build_terminal_script(&groups, "/tmp/r.tsv", "/tmp/done");
    let expected = [
        "#!/usr/bin/env bash".to_string(),
        "set -u".to_string(),
        "RESULT='/tmp/r.tsv'".to_string(),
        "DONE='/tmp/done'".to_string(),
        r#": > "$RESULT""#.to_string(),
        String::new(),
        "printf '\\n\\033[1;36m==> %s\\033[0m\\n' 'Git (install)'".to_string(),
        "if apt-get update && \\\n  apt-get install -y git; then rc=0; else rc=$?; fi".to_string(),
        "printf '%s\\t%s\\n' 3 \"$rc\" >> \"$RESULT\"".to_string(),
        r#"if [ "$rc" -ne 0 ]; then"#.to_string(),
        r#"  printf '\033[1;31m[falhou] rc=%s\033[0m\n' "$rc""#.to_string(),
        "else".to_string(),
        r#"  printf '\033[1;32m[ok]\033[0m\n'"#.to_string(),
        "fi".to_string(),
        String::new(),
        "printf '\\n\\033[1;36m==> %s\\033[0m\\n' 'O'\\''Neil (update)'".to_string(),
        "if x; then rc=0; else rc=$?; fi".to_string(),
        "printf '%s\\t%s\\n' 7 \"$rc\" >> \"$RESULT\"".to_string(),
        r#"if [ "$rc" -ne 0 ]; then"#.to_string(),
        r#"  printf '\033[1;31m[falhou] rc=%s\033[0m\n' "$rc""#.to_string(),
        "else".to_string(),
        r#"  printf '\033[1;32m[ok]\033[0m\n'"#.to_string(),
        "fi".to_string(),
        String::new(),
        r#": > "$DONE""#.to_string(),
        r#"printf '\n\033[1mConcluido. Pressione ENTER para fechar...\033[0m'"#.to_string(),
        "read -r _".to_string(),
    ]
    .join("\n");
    assert_eq!(script, expected);
}

#[test]
fn build_terminal_script_without_groups() {
    let script = build_terminal_script(&[], "r", "d");
    assert!(script.starts_with("#!/usr/bin/env bash\nset -u\nRESULT='r'\nDONE='d'\n"));
    assert!(script.ends_with("\n\n: > \"$DONE\"\nprintf '\\n\\033[1mConcluido. Pressione ENTER para fechar...\\033[0m'\nread -r _"));
}

#[test]
fn build_launcher_argv_starts_each_terminal_as_it_expects() {
    assert_eq!(build_launcher_argv("/bin/gt", "s.sh", "gnome-terminal"), strings(&["/bin/gt", "--", "bash", "s.sh"]));
    assert_eq!(build_launcher_argv("k", "s.sh", "konsole"), strings(&["k", "-e", "bash", "s.sh"]));
    assert_eq!(build_launcher_argv("x", "s.sh", "xfce4-terminal"), strings(&["x", "--command", "bash s.sh"]));
    assert_eq!(build_launcher_argv("t", "s.sh", "tilix"), strings(&["t", "-e", "bash s.sh"]));
    assert_eq!(build_launcher_argv("f", "s.sh", "foot"), strings(&["f", "bash", "s.sh"]));
    assert_eq!(build_launcher_argv("w", "s.sh", "wezterm"), strings(&["w", "start", "--", "bash", "s.sh"]));
    assert_eq!(build_launcher_argv("c", "s.sh", "cmd"), strings(&["c", "-e", "s.sh"]));
    assert_eq!(build_launcher_argv("a", "s.sh", "alacritty"), strings(&["a", "-e", "bash", "s.sh"]));
}

#[test]
fn find_terminal_command_prefers_the_environment() {
    let env = vec![("".to_string(), true), ("myterm".to_string(), false), ("otherterm".to_string(), true)];
    let found = vec![Some("/usr/bin/gnome-terminal".to_string())];
    assert_eq!(
        find_terminal_command(&env, &found, "/tmp/run.sh"),
        Some(strings(&["otherterm", "-e", "bash", "/tmp/run.sh"]))
    );
}

#[test]
fn find_terminal_command_takes_the_first_known_terminal_found() {
    let names = known_terminals();
    assert_eq!(names.len(), 15);
    assert_eq!(names[0], "gnome-terminal");
    assert_eq!(names[5], "kitty");
    let mut found: Vec<Option<String>> = vec![None; names.len()];
    found[5] = Some("/usr/bin/kitty".to_string());
    found[10] = Some("/usr/bin/xterm".to_string());
    assert_eq!(
        find_terminal_command(&vec![], &found, "run.sh"),
        Some(strings(&["/usr/bin/kitty", "bash", "run.sh"]))
    );
    let none: Vec<Option<String>> = vec![None; names.len()];
    assert_eq!(find_terminal_command(&vec![], &none, "run.sh"), None);
}

#[test]
fn parse_result_content_reads_tab_separated_codes() {
    let codes = parse_result_content("0\t0\n3\t 2 \nbad line\n4\tx\n3\t-1\n 5 \t+7\r\n");
    assert_eq!(codes.len(), 3);
    assert_eq!(codes.get(&0), Some(&0));
    assert_eq!(codes.get(&3), Some(&-1));
    assert_eq!(codes.get(&5), Some(&7));
    assert!(parse_result_content("").is_empty());
}

#[test]
fn poll_terminal_decides_when_to_stop() {
    assert_eq!(poll_terminal(true, true, true, false), Poll::Stop);
    assert_eq!(poll_terminal(false, true, true, false), Poll::StopCancelled);
    assert_eq!(poll_terminal(false, false, true, true), Poll::Stop);
    assert_eq!(poll_terminal(false, false, true, false), Poll::StopClosedEarly);
    assert_eq!(poll_terminal(false, false, false, false), Poll::Wait);
}

#[test]
fn terminal_run_result_starts_empty() {
    let r = TerminalRunResult::new();
    assert!(r.exit_codes.is_empty());
    assert!(!r.launched);
    assert!(r.terminal.is_empty());
    assert!(r.error.is_empty());
}

#[test]
fn run_result_records_each_stage() {

    let r = run_result(RunStage::NothingToRun, HashMap::new());
    assert!(r.launched && r.error.is_empty() && r.terminal.is_empty());

    let r = run_result(RunStage::NoTempDir("denied".to_string()), HashMap::new());
    assert!(!r.launched);
    assert_eq!(r.error, "Falha ao criar diretório temporário: denied");

    let r = run_result(RunStage::NoScript("full".to_string()), HashMap::new());
    assert_eq!(r.error, "Falha ao escrever script: full");

    let r = run_result(RunStage::NoTerminal, HashMap::new());
    assert_eq!(r.error, "Nenhum emulador de terminal encontrado.");
    assert!(r.terminal.is_empty());

    let r = run_result(RunStage::NotStarted(strings(&["/usr/bin/kitty", "bash"]), "gone".to_string()), HashMap::new());
    assert!(!r.launched);
    assert_eq!(r.terminal, "/usr/bin/kitty");
    assert_eq!(r.error, "Falha ao abrir terminal: gone");

    let mut codes = HashMap::new();
    codes.insert(3usize, 0i32);
    let r = run_result(RunStage::Ran(strings(&["xterm", "-e", "bash", "s"])), codes);
    assert!(r.launched && r.error.is_empty());
    assert_eq!(r.terminal, "xterm");
    assert_eq!(r.exit_codes.get(&3), Some(&0));

    assert_eq!(opening_note("kitty"), "Abrindo terminal externo (kitty)...");
    assert_eq!(poll_note(Poll::StopCancelled).unwrap(), "Cancelando: feche o terminal externo para encerrar.");
    assert_eq!(poll_note(Poll::StopClosedEarly).unwrap(), "Terminal fechado antes de concluir.");
    assert!(poll_note(Poll::Wait).is_none());
    assert!(poll_note(Poll::Stop).is_none());
}

#[test]
fn shell_quote_of_several_quotes() {
    assert_eq!(shell_quote("a'b'c"), "'a'\\''b'\\''c'");
    assert_eq!(shell_quote("'"), "''\\'''");
}
