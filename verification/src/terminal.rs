//! Running command groups in an external terminal: the script it runs, the
//! terminal chosen and how it is started, and the result file it leaves.
use vstd::prelude::*;
use std::collections::HashMap;
use crate::manager::{CommandGroup, CommandGroupView};
use crate::status::{join_lines, joined, push_string};
use crate::text::{
    append, chars_of, decimal, owned, parse_i32, parse_usize, push_char, push_decimal,
    signed_text, split_lines, str_eq, string_of, text_lines, trim_chars, trimmed, unsigned_text,
};

verus! {

// ---------------------------------------------------------------------------
// The script.
// ---------------------------------------------------------------------------

/// The text with every `'` written as `'\''`.
pub open spec fn quote_escaped(s: Seq<char>) -> Seq<char>
    decreases s.len(),
{
    if s.len() == 0 {
        Seq::empty()
    } else if s.last() == '\'' {
        quote_escaped(s.drop_last()) + seq!['\'', '\\', '\'', '\'']
    } else {
        quote_escaped(s.drop_last()).push(s.last())
    }
}

/// The text as one single-quoted shell word.
pub open spec fn quoted(s: Seq<char>) -> Seq<char> {
    seq!['\''] + quote_escaped(s) + seq!['\'']
}

/// Quotes a text as one shell word.
pub fn shell_quote(s: &str) -> (r: String)
    ensures
        r@ == quoted(s@),
{
    let cs = chars_of(s);
    let mut r = String::new();
    push_char(&mut r, '\'');
    let mut i: usize = 0;
    while i < cs.len()
        invariant
            i <= cs@.len(),
            cs@ == s@,
            r@ == seq!['\''] + quote_escaped(cs@.take(i as int)),
        decreases cs.len() - i,
    {
        assert(cs@.take(i + 1).drop_last() =~= cs@.take(i as int));
        let c = cs[i];
        if c == '\'' {
            push_char(&mut r, '\'');
            push_char(&mut r, '\\');
            push_char(&mut r, '\'');
            push_char(&mut r, '\'');
        } else {
            push_char(&mut r, c);
        }
        i = i + 1;
        assert(r@ =~= seq!['\''] + quote_escaped(cs@.take(i as int)));
    }
    push_char(&mut r, '\'');
    assert(cs@.take(i as int) =~= s@);
    assert(r@ =~= quoted(s@));
    r
}

/// Characters that a POSIX shell takes literally outside quotes (a
/// conservative choice: letters, digits and `-_./,:@%+=`).
pub open spec fn shell_plain(c: char) -> bool {
    ('a' <= c && c <= 'z') || ('A' <= c && c <= 'Z') || ('0' <= c && c <= '9') || c == '-' || c == '_'
        || c == '.' || c == '/' || c == ',' || c == ':' || c == '@' || c == '%' || c == '+' || c == '='
}

/// A character before what a shell reads of the rest.
pub open spec fn read_before(c: char, r: Option<Seq<char>>) -> Option<Seq<char>> {
    match r {
        Some(t) => Some(seq![c] + t),
        None => None,
    }
}

/// What a POSIX shell reads from the characters of one word, inside single
/// quotes or not: inside them every character is literal up to the closing
/// quote; outside, a quote opens them, a backslash takes the next character
/// literally (a backslash before a newline joins lines), and plain characters
/// are literal. `None` for a word this reading does not cover (an unclosed
/// quote, a lone backslash, another character outside quotes).
pub open spec fn shell_read(w: Seq<char>, in_quotes: bool) -> Option<Seq<char>>
    decreases w.len(),
{
    if w.len() == 0 {
        if in_quotes {
            None
        } else {
            Some(Seq::empty())
        }
    } else if in_quotes {
        if w[0] == '\'' {
            shell_read(w.drop_first(), false)
        } else {
            read_before(w[0], shell_read(w.drop_first(), true))
        }
    } else if w[0] == '\'' {
        shell_read(w.drop_first(), true)
    } else if w[0] == '\\' {
        if w.len() < 2 {
            None
        } else if w[1] == '\n' {
            shell_read(w.skip(2), false)
        } else {
            read_before(w[1], shell_read(w.skip(2), false))
        }
    } else if shell_plain(w[0]) {
        read_before(w[0], shell_read(w.drop_first(), false))
    } else {
        None
    }
}

/// The text a shell reads from a word.
pub open spec fn shell_word(w: Seq<char>) -> Option<Seq<char>> {
    shell_read(w, false)
}

proof fn lemma_quote_escaped_add(a: Seq<char>, b: Seq<char>)
    ensures
        quote_escaped(a + b) == quote_escaped(a) + quote_escaped(b),
    decreases b.len(),
{
    if b.len() == 0 {
        assert(a + b =~= a);
        assert(quote_escaped(b) =~= Seq::<char>::empty());
        assert(quote_escaped(a) + quote_escaped(b) =~= quote_escaped(a));
    } else {
        lemma_quote_escaped_add(a, b.drop_last());
        assert((a + b).drop_last() =~= a + b.drop_last());
        assert((a + b).last() == b.last());
        if b.last() == '\'' {
            assert(quote_escaped(a) + (quote_escaped(b.drop_last()) + seq!['\'', '\\', '\'', '\''])
                =~= (quote_escaped(a) + quote_escaped(b.drop_last())) + seq!['\'', '\\', '\'', '\'']);
        } else {
            assert(quote_escaped(a) + quote_escaped(b.drop_last()).push(b.last()) =~= (quote_escaped(a)
                + quote_escaped(b.drop_last())).push(b.last()));
        }
    }
}

/// Inside quotes, the escaped text reads back as the text itself.
proof fn lemma_read_escaped(s: Seq<char>, t: Seq<char>)
    ensures
        shell_read(quote_escaped(s) + t, true) == match shell_read(t, true) {
            Some(r) => Some(s + r),
            None => None,
        },
    decreases s.len(),
{
    if s.len() == 0 {
        assert(quote_escaped(s) =~= Seq::<char>::empty());
        assert(quote_escaped(s) + t =~= t);
        match shell_read(t, true) {
            Some(r) => {
                assert(s + r =~= r);
            },
            None => {},
        }
    } else {
        let c = s[0];
        let rest = s.drop_first();
        lemma_read_escaped(rest, t);
        assert(s =~= seq![c] + rest);
        lemma_quote_escaped_add(seq![c], rest);
        assert(seq![c].drop_last() =~= Seq::<char>::empty());
        assert(quote_escaped(Seq::<char>::empty()) =~= Seq::<char>::empty());
        let x = quote_escaped(rest) + t;
        let w = quote_escaped(s) + t;
        if c == '\'' {
            assert(quote_escaped(seq![c]) =~= seq!['\'', '\\', '\'', '\'']);
            assert(w =~= seq!['\'', '\\', '\'', '\''] + x);
            let w1 = w.drop_first();
            assert(w1 =~= seq!['\\', '\'', '\''] + x);
            let w2 = w1.skip(2);
            assert(w2 =~= seq!['\''] + x);
            assert(w2.drop_first() =~= x);
            assert(w[0] == '\'');
            assert(w1[0] == '\\' && w1[1] == '\'' && w1.len() >= 2);
            assert(w2[0] == '\'');
            assert(shell_read(w2, false) == shell_read(x, true));
            assert(shell_read(w1, false) == read_before('\'', shell_read(x, true)));
            assert(shell_read(w, true) == shell_read(w1, false));
        } else {
            assert(quote_escaped(seq![c]) =~= seq![c]);
            assert(w =~= seq![c] + x);
            assert(w.drop_first() =~= x);
            assert(w[0] == c);
            assert(shell_read(w, true) == read_before(c, shell_read(x, true)));
        }
        match shell_read(t, true) {
            Some(r) => {
                assert(seq![c] + (rest + r) =~= s + r);
            },
            None => {},
        }
    }
}

/// A shell reads the word that `shell_quote` writes back as exactly the
/// text that was quoted.
pub proof fn lemma_shell_reads_quoted(s: Seq<char>)
    ensures
        shell_word(quoted(s)) == Some(s),
{
    let w = quoted(s);
    assert(w[0] == '\'');
    assert(w.drop_first() =~= quote_escaped(s) + seq!['\'']);
    lemma_read_escaped(s, seq!['\'']);
    let q = seq!['\''];
    assert(q[0] == '\'');
    assert(q.drop_first() =~= Seq::<char>::empty());
    assert(shell_read(Seq::<char>::empty(), false) == Some(Seq::<char>::empty()));
    assert(shell_read(q, true) == Some(Seq::<char>::empty()));
    assert(s + Seq::<char>::empty() =~= s);
    assert(shell_read(w, false) == shell_read(w.drop_first(), true));
}

/// Commands chained with `&&`, each after the first on a continued line.
pub open spec fn chained(cmds: Seq<Seq<char>>) -> Seq<char>
    decreases cmds.len(),
{
    if cmds.len() == 0 {
        Seq::empty()
    } else if cmds.len() == 1 {
        cmds[0]
    } else {
        chained(cmds.drop_last()) + " && \\\n  "@ + cmds.last()
    }
}

/// The first lines of the script: the result and done files are set, the
/// result file emptied.
pub open spec fn script_head(result_path: Seq<char>, done_path: Seq<char>) -> Seq<Seq<char>> {
    seq![
        "#!/usr/bin/env bash"@,
        "set -u"@,
        "RESULT="@ + quoted(result_path),
        "DONE="@ + quoted(done_path),
        ": > \"$RESULT\""@,
        Seq::empty(),
    ]
}

/// The lines of one group: a heading, the chained commands, the exit code
/// written to the result file under the group id, and a verdict.
pub open spec fn group_lines(g: CommandGroupView) -> Seq<Seq<char>> {
    seq![
        "printf '\\n\\033[1;36m==> %s\\033[0m\\n' "@ + quoted(g.label),
        "if "@ + chained(g.commands) + "; then rc=0; else rc=$?; fi"@,
        "printf '%s\\t%s\\n' "@ + decimal(g.group_id as nat) + " \"$rc\" >> \"$RESULT\""@,
        "if [ \"$rc\" -ne 0 ]; then"@,
        "  printf '\\033[1;31m[falhou] rc=%s\\033[0m\\n' \"$rc\""@,
        "else"@,
        "  printf '\\033[1;32m[ok]\\033[0m\\n'"@,
        "fi"@,
        Seq::empty(),
    ]
}

/// The lines of all groups, in order.
pub open spec fn groups_lines(gs: Seq<CommandGroupView>) -> Seq<Seq<char>>
    decreases gs.len(),
{
    if gs.len() == 0 {
        Seq::empty()
    } else {
        groups_lines(gs.drop_last()) + group_lines(gs.last())
    }
}

/// The last lines: the done file is written and the terminal waits for Enter.
pub open spec fn script_tail() -> Seq<Seq<char>> {
    seq![
        ": > \"$DONE\""@,
        "printf '\\n\\033[1mConcluido. Pressione ENTER para fechar...\\033[0m'"@,
        "read -r _"@,
    ]
}

/// The script that runs the groups in a terminal.
pub open spec fn terminal_script(gs: Seq<CommandGroupView>, result_path: Seq<char>, done_path: Seq<char>) -> Seq<char> {
    joined(script_head(result_path, done_path) + groups_lines(gs) + script_tail())
}

/// Concatenation of two texts.
fn concat(a: &str, b: &str) -> (r: String)
    ensures
        r@ == a@ + b@,
{
    let mut r = owned(a);
    append(&mut r, b);
    r
}

/// The commands of a group chained with `&&`.
fn chain_commands(cmds: &Vec<String>) -> (r: String)
    ensures
        r@ == chained(cmds.deep_view()),
{
    let mut r = String::new();
    let mut i: usize = 0;
    while i < cmds.len()
        invariant
            i <= cmds@.len(),
            r@ == chained(cmds.deep_view().take(i as int)),
        decreases cmds.len() - i,
    {
        assert(cmds.deep_view().take(i + 1).drop_last() =~= cmds.deep_view().take(i as int));
        if i > 0 {
            append(&mut r, " && \\\n  ");
        }
        append(&mut r, cmds[i].as_str());
        i = i + 1;
        assert(r@ =~= chained(cmds.deep_view().take(i as int)));
    }
    assert(cmds.deep_view().take(i as int) =~= cmds.deep_view());
    r
}

/// Appends the lines of one group.
fn push_group_lines(lines: &mut Vec<String>, g: &CommandGroup)
    ensures
        final(lines).deep_view() == old(lines).deep_view() + group_lines(g@),
{
    let ghost l0 = lines.deep_view();
    push_string(lines, concat("printf '\\n\\033[1;36m==> %s\\033[0m\\n' ", shell_quote(g.label.as_str()).as_str()));
    let mut run = owned("if ");
    append(&mut run, chain_commands(&g.commands).as_str());
    append(&mut run, "; then rc=0; else rc=$?; fi");
    push_string(lines, run);
    let mut rec = owned("printf '%s\\t%s\\n' ");
    push_decimal(&mut rec, g.group_id as u64);
    append(&mut rec, " \"$rc\" >> \"$RESULT\"");
    push_string(lines, rec);
    push_string(lines, owned("if [ \"$rc\" -ne 0 ]; then"));
    push_string(lines, owned("  printf '\\033[1;31m[falhou] rc=%s\\033[0m\\n' \"$rc\""));
    push_string(lines, owned("else"));
    push_string(lines, owned("  printf '\\033[1;32m[ok]\\033[0m\\n'"));
    push_string(lines, owned("fi"));
    push_string(lines, String::new());
    assert(lines.deep_view() =~= l0 + group_lines(g@));
}

/// The script that runs the groups in a terminal, writing each group's exit
/// code to `result_path` and creating `done_path` at the end.
pub fn build_terminal_script(groups: &[CommandGroup], result_path: &str, done_path: &str) -> (r: String)
    ensures
        r@ == terminal_script(Seq::new(groups@.len(), |i: int| groups@[i]@), result_path@, done_path@),
{
    let ghost gs = Seq::new(groups@.len(), |i: int| groups@[i]@);
    let mut lines: Vec<String> = Vec::new();
    push_string(&mut lines, owned("#!/usr/bin/env bash"));
    push_string(&mut lines, owned("set -u"));
    push_string(&mut lines, concat("RESULT=", shell_quote(result_path).as_str()));
    push_string(&mut lines, concat("DONE=", shell_quote(done_path).as_str()));
    push_string(&mut lines, owned(": > \"$RESULT\""));
    push_string(&mut lines, String::new());
    assert(lines.deep_view() =~= script_head(result_path@, done_path@));
    let mut i: usize = 0;
    while i < groups.len()
        invariant
            i <= groups@.len(),
            gs == Seq::new(groups@.len(), |i: int| groups@[i]@),
            lines.deep_view() == script_head(result_path@, done_path@) + groups_lines(gs.take(i as int)),
        decreases groups.len() - i,
    {
        assert(gs.take(i + 1).drop_last() =~= gs.take(i as int));
        push_group_lines(&mut lines, &groups[i]);
        i = i + 1;
        assert(lines.deep_view() =~= script_head(result_path@, done_path@) + groups_lines(gs.take(i as int)));
    }
    assert(gs.take(i as int) =~= gs);
    let ghost mid = lines.deep_view();
    push_string(&mut lines, owned(": > \"$DONE\""));
    push_string(&mut lines, owned("printf '\\n\\033[1mConcluido. Pressione ENTER para fechar...\\033[0m'"));
    push_string(&mut lines, owned("read -r _"));
    assert(lines.deep_view() =~= mid + script_tail());
    join_lines(&lines)
}


// ---------------------------------------------------------------------------
// The terminal.
// ---------------------------------------------------------------------------

/// The terminals looked for, in order of preference.
pub open spec fn known_terminal_names() -> Seq<Seq<char>> {
    seq![
        "gnome-terminal"@,
        "ptyxis"@,
        "konsole"@,
        "xfce4-terminal"@,
        "tilix"@,
        "kitty"@,
        "alacritty"@,
        "wezterm"@,
        "foot"@,
        "kgx"@,
        "xterm"@,
        "x-terminal-emulator"@,
        "cmd"@,
        "powershell"@,
        "git-bash"@,
    ]
}

/// The terminals looked for, in order of preference.
pub fn known_terminals() -> (v: Vec<&'static str>)
    ensures
        v@.len() == known_terminal_names().len(),
        forall|i: int| 0 <= i < v@.len() ==> #[trigger] v@[i]@ == known_terminal_names()[i],
{
    let mut v: Vec<&'static str> = Vec::new();
    v.push("gnome-terminal");
    v.push("ptyxis");
    v.push("konsole");
    v.push("xfce4-terminal");
    v.push("tilix");
    v.push("kitty");
    v.push("alacritty");
    v.push("wezterm");
    v.push("foot");
    v.push("kgx");
    v.push("xterm");
    v.push("x-terminal-emulator");
    v.push("cmd");
    v.push("powershell");
    v.push("git-bash");
    v
}

/// The command line that starts terminal `name` (found at `exe`) on the script.
pub open spec fn launcher_argv(exe: Seq<char>, script: Seq<char>, name: Seq<char>) -> Seq<Seq<char>> {
    if name == "gnome-terminal"@ || name == "ptyxis"@ || name == "kgx"@ {
        seq![exe, "--"@, "bash"@, script]
    } else if name == "konsole"@ {
        seq![exe, "-e"@, "bash"@, script]
    } else if name == "xfce4-terminal"@ {
        seq![exe, "--command"@, "bash "@ + script]
    } else if name == "tilix"@ {
        seq![exe, "-e"@, "bash "@ + script]
    } else if name == "kitty"@ || name == "foot"@ {
        seq![exe, "bash"@, script]
    } else if name == "wezterm"@ {
        seq![exe, "start"@, "--"@, "bash"@, script]
    } else if name == "cmd"@ || name == "powershell"@ {
        seq![exe, "-e"@, script]
    } else {
        seq![exe, "-e"@, "bash"@, script]
    }
}

/// The command line that starts terminal `name` (found at `exe`) on the script.
pub fn build_launcher_argv(exe: &str, script: &str, name: &str) -> (v: Vec<String>)
    ensures
        v.deep_view() == launcher_argv(exe@, script@, name@),
{
    let mut v: Vec<String> = Vec::new();
    push_string(&mut v, owned(exe));
    if str_eq(name, "gnome-terminal") || str_eq(name, "ptyxis") || str_eq(name, "kgx") {
        push_string(&mut v, owned("--"));
        push_string(&mut v, owned("bash"));
        push_string(&mut v, owned(script));
    } else if str_eq(name, "konsole") {
        push_string(&mut v, owned("-e"));
        push_string(&mut v, owned("bash"));
        push_string(&mut v, owned(script));
    } else if str_eq(name, "xfce4-terminal") {
        push_string(&mut v, owned("--command"));
        push_string(&mut v, concat("bash ", script));
    } else if str_eq(name, "tilix") {
        push_string(&mut v, owned("-e"));
        push_string(&mut v, concat("bash ", script));
    } else if str_eq(name, "kitty") || str_eq(name, "foot") {
        push_string(&mut v, owned("bash"));
        push_string(&mut v, owned(script));
    } else if str_eq(name, "wezterm") {
        push_string(&mut v, owned("start"));
        push_string(&mut v, owned("--"));
        push_string(&mut v, owned("bash"));
        push_string(&mut v, owned(script));
    } else if str_eq(name, "cmd") || str_eq(name, "powershell") {
        push_string(&mut v, owned("-e"));
        push_string(&mut v, owned(script));
    } else {
        push_string(&mut v, owned("-e"));
        push_string(&mut v, owned("bash"));
        push_string(&mut v, owned(script));
    }
    assert(v.deep_view() =~= launcher_argv(exe@, script@, name@));
    v
}

/// The first terminal named by the environment that is on the path.
pub open spec fn env_choice(env: Seq<(Seq<char>, bool)>) -> Option<Seq<char>>
    decreases env.len(),
{
    if env.len() == 0 {
        None
    } else if env[0].0.len() > 0 && env[0].1 {
        Some(env[0].0)
    } else {
        env_choice(env.drop_first())
    }
}

/// The first known terminal found on the path, with where it was found.
pub open spec fn known_choice(names: Seq<Seq<char>>, found: Seq<Option<Seq<char>>>) -> Option<(Seq<char>, Seq<char>)>
    decreases found.len(),
{
    if found.len() == 0 || names.len() == 0 {
        None
    } else {
        match found[0] {
            Some(exe) => Some((names[0], exe)),
            None => known_choice(names.drop_first(), found.drop_first()),
        }
    }
}

/// The command line of the terminal to use: a terminal named by the
/// environment (`SETTUPPER_TERMINAL`, then `TERMINAL`; set, non-empty and on
/// the path) runs `bash` on the script with `-e`; otherwise the first known
/// terminal on the path, started as it expects; otherwise none.
pub open spec fn terminal_choice(
    env: Seq<(Seq<char>, bool)>,
    found: Seq<Option<Seq<char>>>,
    script: Seq<char>,
) -> Option<Seq<Seq<char>>> {
    match env_choice(env) {
        Some(t) => Some(seq![t, "-e"@, "bash"@, script]),
        None => match known_choice(known_terminal_names(), found) {
            Some((name, exe)) => Some(launcher_argv(exe, script, name)),
            None => None,
        },
    }
}

/// The view of a list of optional paths.
pub open spec fn found_view(v: Seq<Option<String>>) -> Seq<Option<Seq<char>>> {
    Seq::new(v.len(), |i: int| match v[i] {
        Some(p) => Some(p@),
        None => None,
    })
}

/// Chooses the terminal command line. `env` holds the terminals that the
/// environment names, in order, each with whether it is on the path;
/// `found` holds, for each known terminal in order, where it was found on
/// the path, if it was.
pub fn find_terminal_command(env: &Vec<(String, bool)>, found: &Vec<Option<String>>, script_path: &str) -> (r: Option<Vec<String>>)
    ensures
        match r {
            Some(v) => terminal_choice(env.deep_view(), found_view(found@), script_path@) == Some(v.deep_view()),
            None => terminal_choice(env.deep_view(), found_view(found@), script_path@) is None,
        },
{
    let ghost ev = env.deep_view();
    let mut i: usize = 0;
    assert(ev.skip(0) =~= ev);
    while i < env.len()
        invariant
            i <= env@.len(),
            ev == env.deep_view(),
            env_choice(ev) == env_choice(ev.skip(i as int)),
        decreases env.len() - i,
    {
        let ghost rest = ev.skip(i as int);
        assert(rest[0] == ev[i as int]);
        assert(rest.drop_first() =~= ev.skip(i + 1));
        if !env[i].0.as_str().is_empty() && env[i].1 {
            let mut v: Vec<String> = Vec::new();
            push_string(&mut v, env[i].0.clone());
            push_string(&mut v, owned("-e"));
            push_string(&mut v, owned("bash"));
            push_string(&mut v, owned(script_path));
            assert(v.deep_view() =~= seq![ev[i as int].0, "-e"@, "bash"@, script_path@]);
            return Some(v);
        }
        i = i + 1;
    }
    assert(ev.skip(i as int).len() == 0);
    let names = known_terminals();
    let ghost fv = found_view(found@);
    let ghost nv = known_terminal_names();
    let mut k: usize = 0;
    assert(fv.skip(0) =~= fv);
    assert(nv.skip(0) =~= nv);
    while k < found.len() && k < names.len()
        invariant
            k <= found@.len(),
            k <= names@.len(),
            names@.len() == nv.len(),
            nv == known_terminal_names(),
            ev == env.deep_view(),
            forall|j: int| 0 <= j < names@.len() ==> #[trigger] names@[j]@ == nv[j],
            fv == found_view(found@),
            env_choice(ev) is None,
            known_choice(nv, fv) == known_choice(nv.skip(k as int), fv.skip(k as int)),
        decreases found.len() - k,
    {
        assert(nv.skip(k as int).drop_first() =~= nv.skip(k + 1));
        assert(fv.skip(k as int).drop_first() =~= fv.skip(k + 1));
        assert(nv.skip(k as int)[0] == nv[k as int]);
        assert(fv.skip(k as int)[0] == fv[k as int]);
        match &found[k] {
            Some(exe) => {
                assert(fv[k as int] == Some(exe@));
                assert(names@[k as int]@ == nv[k as int]);
                assert(known_choice(nv.skip(k as int), fv.skip(k as int)) == Some((nv[k as int], exe@)));
                let v = build_launcher_argv(exe.as_str(), script_path, names[k]);
                assert(known_choice(known_terminal_names(), found_view(found@)) == Some((nv[k as int], exe@)));
                assert(terminal_choice(env.deep_view(), found_view(found@), script_path@) == Some(launcher_argv(exe@, script_path@, nv[k as int])));
                return Some(v);
            },
            None => {},
        }
        k = k + 1;
    }
    assert(fv.skip(k as int).len() == 0 || nv.skip(k as int).len() == 0);
    None
}

// ---------------------------------------------------------------------------
// The result file.
// ---------------------------------------------------------------------------

/// The group id and exit code that a result line records: the text before
/// its first tab and the text after it, each trimmed, read as numbers.
pub open spec fn result_entry(line: Seq<char>) -> Option<(usize, i32)> {
    if exists|t: int| 0 <= t < line.len() && line[t] == '\t' {
        let t = choose|t: int| 0 <= t < line.len() && line[t] == '\t' && forall|u: int| 0 <= u < t ==> line[u] != '\t';
        match (unsigned_text(trimmed(line.take(t))), signed_text(trimmed(line.skip(t + 1)))) {
            (Some(id), Some(rc)) => if id <= usize::MAX && i32::MIN <= rc <= i32::MAX {
                Some((id as usize, rc as i32))
            } else {
                None
            },
            _ => None,
        }
    } else {
        None
    }
}

/// The exit codes that result lines record; a later line for a group wins.
pub open spec fn result_codes(lines: Seq<Seq<char>>) -> Map<usize, i32>
    decreases lines.len(),
{
    if lines.len() == 0 {
        Map::empty()
    } else {
        let m = result_codes(lines.drop_last());
        match result_entry(lines.last()) {
            Some((id, rc)) => m.insert(id, rc),
            None => m,
        }
    }
}

/// The group id and exit code a result line records.
fn parse_result_line(line: &Vec<char>) -> (r: Option<(usize, i32)>)
    ensures
        r == result_entry(line@),
{
    let mut t: usize = 0;
    while t < line.len() && line[t] != '\t'
        invariant
            t <= line@.len(),
            forall|u: int| 0 <= u < t ==> line@[u] != '\t',
        decreases line.len() - t,
    {
        t = t + 1;
    }
    if t == line.len() {
        return None;
    }
    let ghost c = choose|c: int| 0 <= c < line@.len() && line@[c] == '\t' && forall|u: int| 0 <= u < c ==> line@[u] != '\t';
    assert(c == t as int) by {
        if c < t {
        } else if c > t {
        }
    }
    let mut id_part: Vec<char> = Vec::new();
    let mut k: usize = 0;
    while k < t
        invariant
            k <= t < line@.len(),
            id_part@ == line@.take(k as int),
        decreases t - k,
    {
        id_part.push(line[k]);
        k = k + 1;
        assert(id_part@ =~= line@.take(k as int));
    }
    let mut rc_part: Vec<char> = Vec::new();
    let mut k: usize = t + 1;
    while k < line.len()
        invariant
            t < k <= line@.len(),
            rc_part@ == line@.subrange(t + 1, k as int),
        decreases line.len() - k,
    {
        rc_part.push(line[k]);
        k = k + 1;
        assert(rc_part@ =~= line@.subrange(t + 1, k as int));
    }
    assert(rc_part@ =~= line@.skip(t + 1));
    let id_t = trim_chars(&id_part);
    let rc_t = trim_chars(&rc_part);
    match (parse_usize(&id_t), parse_i32(&rc_t)) {
        (Some(id), Some(rc)) => Some((id, rc)),
        _ => None,
    }
}

/// The exit codes that the result file's content records, by group id.
pub fn parse_result_content(content: &str) -> (codes: HashMap<usize, i32>)
    ensures
        codes@ == result_codes(text_lines(content@)),
{
    let cs = chars_of(content);
    let lines = split_lines(&cs);
    let ghost lv = lines.deep_view();
    let mut codes: HashMap<usize, i32> = HashMap::new();
    let mut i: usize = 0;
    while i < lines.len()
        invariant
            i <= lines@.len(),
            lv == lines.deep_view(),
            codes@ == result_codes(lv.take(i as int)),
        decreases lines.len() - i,
    {
        assert(lv.take(i + 1).drop_last() =~= lv.take(i as int));
        assert(lines@[i as int]@ =~= lv[i as int]);
        match parse_result_line(&lines[i]) {
            Some((id, rc)) => {
                codes.insert(id, rc);
            },
            None => {},
        }
        i = i + 1;
    }
    assert(lv.take(i as int) =~= lv);
    codes
}

/// What a run in an external terminal gave.
pub struct TerminalRunResult {
    /// Exit code per group id; a missing entry means the group was not reached.
    pub exit_codes: HashMap<usize, i32>,
    pub launched: bool,
    pub terminal: String,
    pub error: String,
}

impl TerminalRunResult {
    /// Nothing launched, no codes, no error yet.
    pub fn new() -> (r: TerminalRunResult)
        ensures
            r.exit_codes@ == Map::<usize, i32>::empty(),
            !r.launched,
            r.terminal@.len() == 0,
            r.error@.len() == 0,
    {
        TerminalRunResult {
            exit_codes: HashMap::new(),
            launched: false,
            terminal: String::new(),
            error: String::new(),
        }
    }
}

/// How far a run in an external terminal got.
pub enum RunStage {
    /// There was nothing to run.
    NothingToRun,
    /// The temporary directory could not be made, for this reason.
    NoTempDir(String),
    /// The script could not be written, for this reason.
    NoScript(String),
    /// No terminal emulator was found.
    NoTerminal,
    /// The terminal of this command line could not be started, for this reason.
    NotStarted(Vec<String>, String),
    /// The terminal of this command line was started and the run ended.
    Ran(Vec<String>),
}

/// The error text of a run that stopped at a stage, empty where it did not fail.
pub open spec fn stage_error(stage: RunStage) -> Seq<char> {
    match stage {
        RunStage::NoTempDir(e) => "Falha ao criar diretório temporário: "@ + e@,
        RunStage::NoScript(e) => "Falha ao escrever script: "@ + e@,
        RunStage::NoTerminal => "Nenhum emulador de terminal encontrado."@,
        RunStage::NotStarted(_, e) => "Falha ao abrir terminal: "@ + e@,
        _ => Seq::empty(),
    }
}

/// What a run records: with nothing to run it counts as launched; a started
/// terminal counts as launched and its exit codes are kept; the terminal is
/// the first word of the chosen command line once one was chosen; a failed
/// stage leaves its error text.
pub fn run_result(stage: RunStage, exit_codes: HashMap<usize, i32>) -> (r: TerminalRunResult)
    requires
        stage matches RunStage::NotStarted(argv, _) ==> argv@.len() > 0,
        stage matches RunStage::Ran(argv) ==> argv@.len() > 0,
    ensures
        r.launched == (stage is NothingToRun || stage is Ran),
        r.exit_codes@ == if stage is Ran { exit_codes@ } else { Map::<usize, i32>::empty() },
        r.terminal@ == match stage {
            RunStage::NotStarted(argv, _) => argv@[0]@,
            RunStage::Ran(argv) => argv@[0]@,
            _ => Seq::<char>::empty(),
        },
        r.error@ == stage_error(stage),
{
    let mut r = TerminalRunResult::new();
    match stage {
        RunStage::NothingToRun => {
            r.launched = true;
        },
        RunStage::NoTempDir(e) => {
            r.error = owned("Falha ao criar diretório temporário: ");
            append(&mut r.error, e.as_str());
        },
        RunStage::NoScript(e) => {
            r.error = owned("Falha ao escrever script: ");
            append(&mut r.error, e.as_str());
        },
        RunStage::NoTerminal => {
            r.error = owned("Nenhum emulador de terminal encontrado.");
        },
        RunStage::NotStarted(argv, e) => {
            r.terminal = argv[0].clone();
            r.error = owned("Falha ao abrir terminal: ");
            append(&mut r.error, e.as_str());
        },
        RunStage::Ran(argv) => {
            r.terminal = argv[0].clone();
            r.launched = true;
            r.exit_codes = exit_codes;
        },
    }
    r
}

/// The status line shown when the terminal named `name` is being opened.
pub fn opening_note(name: &str) -> (r: String)
    ensures
        r@ == "Abrindo terminal externo ("@ + name@ + ")..."@,
{
    let mut r = owned("Abrindo terminal externo (");
    append(&mut r, name);
    append(&mut r, ")...");
    r
}

/// What to do while the terminal runs.
#[derive(Clone, Copy, Debug, PartialEq, Eq, Structural)]
pub enum Poll {
    /// Wait and look again.
    Wait,
    /// Stop waiting.
    Stop,
    /// Stop waiting: the run is being cancelled.
    StopCancelled,
    /// Stop waiting: the terminal closed before the script was done.
    StopClosedEarly,
}

/// What to do while the terminal runs: stop once the done file exists; on
/// cancel, stop (the terminal is left to the user); when the terminal
/// process has exited, stop, and tell whether it closed before the script
/// was done; otherwise wait.
pub fn poll_terminal(done: bool, cancelled: bool, exited: bool, done_after_exit: bool) -> (p: Poll)
    ensures
        p == if done {
            Poll::Stop
        } else if cancelled {
            Poll::StopCancelled
        } else if exited {
            if done_after_exit {
                Poll::Stop
            } else {
                Poll::StopClosedEarly
            }
        } else {
            Poll::Wait
        },
{
    if done {
        Poll::Stop
    } else if cancelled {
        Poll::StopCancelled
    } else if exited {
        if done_after_exit {
            Poll::Stop
        } else {
            Poll::StopClosedEarly
        }
    } else {
        Poll::Wait
    }
}


/// The status line for how waiting stopped: on cancel, that the terminal is
/// to be closed by hand; when it closed early, that it closed before the end.
pub open spec fn poll_note_of(p: Poll) -> Option<Seq<char>> {
    match p {
        Poll::StopCancelled => Some("Cancelando: feche o terminal externo para encerrar."@),
        Poll::StopClosedEarly => Some("Terminal fechado antes de concluir."@),
        _ => None,
    }
}

/// The status line for how waiting stopped, if any.
pub fn poll_note(p: Poll) -> (r: Option<String>)
    ensures
        match r {
            Some(t) => poll_note_of(p) == Some(t@),
            None => poll_note_of(p) is None,
        },
{
    match p {
        Poll::StopCancelled => Some(owned("Cancelando: feche o terminal externo para encerrar.")),
        Poll::StopClosedEarly => Some(owned("Terminal fechado antes de concluir.")),
        _ => None,
    }
}

} // verus!
