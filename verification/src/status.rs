//! How the status of an app is found: which check commands run, and what
//! their outcomes make of the status. Running the commands is left to the
//! caller, which feeds each outcome back.
use vstd::prelude::*;
use crate::config::{AppConfig, AppView};
use crate::manager::{distro_key, select_commands, selected, AppStatus, AppStatusView, Distro};
use crate::strmap::DeepCopy;
use crate::text::{append, owned, trim, trimmed};

verus! {

/// What running one command gave: its exit code and its (cleaned) output.
pub struct CommandResult {
    pub command: String,
    pub exit_code: i32,
    pub output: String,
}

/// Lines joined by line breaks.
pub open spec fn joined(s: Seq<Seq<char>>) -> Seq<char>
    decreases s.len(),
{
    if s.len() == 0 {
        Seq::empty()
    } else if s.len() == 1 {
        s[0]
    } else {
        joined(s.drop_last()) + seq!['\n'] + s.last()
    }
}

/// Lines joined by line breaks.
pub fn join_lines(v: &Vec<String>) -> (r: String)
    ensures
        r@ == joined(v.deep_view()),
{
    let mut r = String::new();
    let mut i: usize = 0;
    while i < v.len()
        invariant
            i <= v.len(),
            r@ == joined(v.deep_view().take(i as int)),
        decreases v.len() - i,
    {
        assert(v.deep_view().take(i + 1).drop_last() =~= v.deep_view().take(i as int));
        if i > 0 {
            append(&mut r, "\n");
        }
        append(&mut r, v[i].as_str());
        i = i + 1;
        proof {
            reveal_strlit("\n");
            assert(r@ =~= joined(v.deep_view().take(i as int)));
        }
    }
    assert(v.deep_view().take(i as int) =~= v.deep_view());
    r
}

/// The message of an app that has no commands for the distro.
pub open spec fn unsupported_message(d: Distro) -> Seq<char> {
    "Sem comandos para "@ + distro_key(d) + "."@
}

/// An app is supported when it has install or update commands for the distro.
pub open spec fn is_supported(app: AppView, d: Distro) -> bool {
    selected(app.install, d) is Some || selected(app.update, d) is Some
}

/// The log entry of a check command with output.
pub open spec fn check_entry(cmd: Seq<char>, out: Seq<char>) -> Seq<char> {
    "$ "@ + cmd + seq!['\n'] + out
}

/// Appends a string to a list of strings.
pub fn push_string(v: &mut Vec<String>, s: String)
    ensures
        final(v).deep_view() == old(v).deep_view().push(s@),
{
    let ghost sv = s@;
    v.push(s);
    assert(v.deep_view() =~= old(v).deep_view().push(sv)) by {
        assert(v@ == old(v)@.push(s));
        assert forall|j: int| 0 <= j < v@.len() implies #[trigger] v.deep_view()[j] == old(v).deep_view().push(sv)[j] by {
            if j < old(v)@.len() {
                assert(v@[j] == old(v)@[j]);
            }
        }
    }
}

/// Logs the output of a check command, unless it is blank.
fn log_output(lines: &mut Vec<String>, cmd: &String, output: &String)
    ensures
        final(lines).deep_view() == if trimmed(output@).len() > 0 {
            old(lines).deep_view().push(check_entry(cmd@, trimmed(output@)))
        } else {
            old(lines).deep_view()
        },
{
    let out = trim(output.as_str());
    if !out.as_str().is_empty() {
        let mut entry = owned("$ ");
        append(&mut entry, cmd.as_str());
        append(&mut entry, "\n");
        append(&mut entry, out.as_str());
        proof {
            reveal_strlit("\n");
            assert(entry@ =~= check_entry(cmd@, out@));
        }
        push_string(lines, entry);
    } else {
        assert(lines.deep_view() =~= old(lines).deep_view());
    }
}

/// The progress of a status check.
pub struct StatusCheck {
    /// The app has install or update commands for the distro.
    pub supported: bool,
    /// The check commands to run, in order.
    pub commands: Vec<String>,
    /// How many of them ran successfully.
    pub next: usize,
    /// The log entries of the commands that ran.
    pub lines: Vec<String>,
    /// Once decided: whether the app is installed, and the status message.
    pub verdict: Option<(bool, String)>,
}

impl StatusCheck {
    /// The check is consistent: while undecided, a command remains to run.
    pub open spec fn wf(&self) -> bool {
        &&& self.next <= self.commands@.len()
        &&& self.verdict is None ==> self.next < self.commands@.len()
    }

    /// The decision, by its view.
    pub open spec fn verdict_view(&self) -> Option<(bool, Seq<char>)> {
        match self.verdict {
            Some((b, m)) => Some((b, m@)),
            None => None,
        }
    }

    /// Starts the check of an app on a distro: an unsupported app is not
    /// installed; with no check commands an app is installed exactly when
    /// it has no install commands; otherwise its check commands are run.
    pub fn start(app: &AppConfig, distro: &Distro) -> (c: StatusCheck)
        ensures
            c.wf(),
            c.next == 0,
            c.lines@.len() == 0,
            c.supported == is_supported(app@, *distro),
            !c.supported ==> c.verdict_view() == Some((false, unsupported_message(*distro))),
            c.supported ==> match selected(app@.check, *distro) {
                None => c.verdict_view() == Some(
                    (selected(app@.install, *distro) is None, Seq::<char>::empty()),
                ),
                Some(cmds) => c.commands.deep_view() == cmds && if cmds.len() == 0 {
                    c.verdict_view() == Some((true, Seq::<char>::empty()))
                } else {
                    c.verdict is None
                },
            },
    {
        let supported = select_commands(&app.install, distro).is_some() || select_commands(
            &app.update,
            distro,
        ).is_some();
        if !supported {
            let mut m = owned("Sem comandos para ");
            append(&mut m, distro.as_str());
            append(&mut m, ".");
            return StatusCheck {
                supported: false,
                commands: Vec::new(),
                next: 0,
                lines: Vec::new(),
                verdict: Some((false, m)),
            };
        }
        match select_commands(&app.check, distro) {
            None => {
                let installed = select_commands(&app.install, distro).is_none();
                StatusCheck {
                    supported: true,
                    commands: Vec::new(),
                    next: 0,
                    lines: Vec::new(),
                    verdict: Some((installed, String::new())),
                }
            },
            Some(cmds) => {
                let commands = cmds.deep_copy();
                let verdict = if commands.len() == 0 {
                    Some((true, String::new()))
                } else {
                    None
                };
                StatusCheck { supported: true, commands, next: 0, lines: Vec::new(), verdict }
            },
        }
    }

    /// The command to run next, while the check is undecided.
    pub fn next_command(&self) -> (r: Option<&String>)
        requires
            self.wf(),
        ensures
            match r {
                Some(c) => self.verdict is None && c@ == self.commands@[self.next as int]@,
                None => self.verdict is Some,
            },
    {
        if self.verdict.is_none() {
            Some(&self.commands[self.next])
        } else {
            None
        }
    }

    /// Takes the outcome of the command that `next_command` gave: an error
    /// decides "not installed" with the error as message; an output that is
    /// not blank is logged; a non-zero exit code decides "not installed", and
    /// the last command exiting with zero decides "installed", both with the
    /// log as message.
    pub fn record(&mut self, outcome: Result<CommandResult, String>)
        requires
            old(self).wf(),
            old(self).verdict is None,
        ensures
            final(self).wf(),
            final(self).supported == old(self).supported,
            final(self).commands.deep_view() == old(self).commands.deep_view(),
            match outcome {
                Err(e) => final(self).verdict_view() == Some((false, e@))
                    && final(self).lines.deep_view() == old(self).lines.deep_view()
                    && final(self).next == old(self).next,
                Ok(r) => {
                    let cmd = old(self).commands@[old(self).next as int]@;
                    let out = trimmed(r.output@);
                    let lines = if out.len() > 0 {
                        old(self).lines.deep_view().push(check_entry(cmd, out))
                    } else {
                        old(self).lines.deep_view()
                    };
                    &&& final(self).lines.deep_view() == lines
                    &&& if r.exit_code != 0 {
                        final(self).verdict_view() == Some((false, joined(lines)))
                            && final(self).next == old(self).next
                    } else {
                        &&& final(self).next == old(self).next + 1
                        &&& final(self).verdict_view() == if final(self).next
                            == old(self).commands@.len() {
                            Some((true, joined(lines)))
                        } else {
                            None
                        }
                    }
                },
            },
    {
        match outcome {
            Err(e) => {
                self.verdict = Some((false, e));
            },
            Ok(r) => {
                assert(self.next < self.commands.len());
                log_output(&mut self.lines, &self.commands[self.next], &r.output);
                assert(self.next < self.commands.len());
                if r.exit_code != 0 {
                    let log = crate::status::join_lines(&self.lines);
                    self.verdict = Some((false, log));
                } else {
                    self.next = self.next + 1;
                    if self.next == self.commands.len() {
                        let log = crate::status::join_lines(&self.lines);
                        self.verdict = Some((true, log));
                    }
                }
            },
        }
    }
}

/// The status of an app once its check is decided.
pub fn resolve_status(app: &AppConfig, check: &StatusCheck) -> (s: AppStatus)
    requires
        check.verdict is Some,
    ensures
        s@ == (AppStatusView {
            app: app@,
            supported: check.supported,
            installed: (check.verdict_view()->0).0,
            message: (check.verdict_view()->0).1,
        }),
{
    match &check.verdict {
        Some((installed, message)) => AppStatus {
            app: app.clone(),
            supported: check.supported,
            installed: *installed,
            message: message.clone(),
        },
        None => AppStatus {
            app: app.clone(),
            supported: check.supported,
            installed: false,
            message: String::new(),
        },
    }
}

} // verus!
