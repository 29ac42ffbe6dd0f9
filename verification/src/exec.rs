//! Running plans: the decisions between commands. Each step decides what
//! to report and whether a command is to run; the caller runs the command
//! and hands its outcome to the next step.
use vstd::prelude::*;
use crate::app::{action_commands, action_name, Action, ActionPlan, AppEvent, AppEventView};
use crate::manager::{action_requires_reboot, needs_reboot, select_commands, selected, AppStatus, AppStatusView, Distro};
use crate::status::CommandResult;
use crate::strmap::{DeepCopy, push_deep};
use crate::text::{append, i32_to_string, owned, signed_decimal};

verus! {

/// Where a run stands.
#[derive(Clone, Copy, Debug, PartialEq, Eq, Structural)]
pub enum Phase {
    /// Before the plan at `plan_pos`.
    Between,
    /// Inside the plan at `plan_pos`, before the command at `cmd_pos`.
    InPlan,
    /// Waiting for the outcome of the command at `cmd_pos`.
    Awaiting,
    /// Done; everything is reported.
    Finished,
}

/// A run of plans over the statuses they were made from.
pub struct PlanRun {
    pub plans: Vec<ActionPlan>,
    pub statuses: Vec<AppStatus>,
    pub distro: Distro,
    pub dry_run: bool,
    pub plan_pos: usize,
    pub commands: Vec<String>,
    pub cmd_pos: usize,
    pub phase: Phase,
}

/// What a run is.
pub struct RunView {
    pub plans: Seq<ActionPlan>,
    pub statuses: Seq<AppStatusView>,
    pub distro: Distro,
    pub dry_run: bool,
    pub plan_pos: nat,
    pub commands: Seq<Seq<char>>,
    pub cmd_pos: nat,
    pub phase: Phase,
}

impl View for PlanRun {
    type V = RunView;

    open spec fn view(&self) -> RunView {
        RunView {
            plans: self.plans@,
            statuses: self.statuses.deep_view(),
            distro: self.distro,
            dry_run: self.dry_run,
            plan_pos: self.plan_pos as nat,
            commands: self.commands.deep_view(),
            cmd_pos: self.cmd_pos as nat,
            phase: self.phase,
        }
    }
}

/// "name (action)".
pub open spec fn app_action(name: Seq<char>, a: Action) -> Seq<char> {
    name + " ("@ + action_name(a) + ")"@
}

/// A log line report.
pub open spec fn out(line: Seq<char>) -> AppEventView {
    AppEventView::CommandOutput(line)
}

impl RunView {
    /// The run is consistent: positions within their lists.
    pub open spec fn wf(self) -> bool {
        &&& self.plan_pos <= self.plans.len()
        &&& (self.phase == Phase::InPlan || self.phase == Phase::Awaiting) ==> self.plan_pos
            < self.plans.len() && self.plans[self.plan_pos as int].app_index < self.statuses.len()
            && self.cmd_pos <= self.commands.len()
        &&& self.phase == Phase::Awaiting ==> self.cmd_pos < self.commands.len()
    }

    /// The status of the current plan's app.
    pub open spec fn current_status(self) -> AppStatusView {
        self.statuses[self.plans[self.plan_pos as int].app_index as int]
    }

    /// Ending the current plan: report it, then stop when it succeeded and
    /// asks for a reboot, else go on with the next plan.
    pub open spec fn end_plan(self, success: bool) -> (RunView, Seq<AppEventView>) {
        let p = self.plans[self.plan_pos as int];
        let reboot = needs_reboot(self.current_status().app, action_name(p.action));
        let done = AppEventView::ActionFinished { index: p.app_index, success, reboot };
        if reboot && success {
            (RunView { phase: Phase::Finished, ..self }, seq![done, AppEventView::AllPlansFinished])
        } else {
            (
                RunView { phase: Phase::Between, plan_pos: self.plan_pos + 1, ..self },
                seq![done],
            )
        }
    }

    /// One step of the run: its new state, its reports, and the command to
    /// run, if any. `cancelled` is the cancel flag as read at this step;
    /// `outcome` is the outcome of the awaited command.
    pub open spec fn step(self, cancelled: bool, outcome: Option<Result<i32, Seq<char>>>) -> (
        RunView,
        Seq<AppEventView>,
        Option<Seq<char>>,
    ) {
        match self.phase {
            Phase::Finished => (self, Seq::empty(), None),
            Phase::Between => if self.plan_pos >= self.plans.len() || cancelled {
                (RunView { phase: Phase::Finished, ..self }, seq![AppEventView::AllPlansFinished], None)
            } else {
                let p = self.plans[self.plan_pos as int];
                if p.app_index >= self.statuses.len() {
                    (RunView { plan_pos: self.plan_pos + 1, ..self }, Seq::empty(), None)
                } else {
                    let st = self.statuses[p.app_index as int];
                    let label = app_action(st.app.name, p.action);
                    match selected(action_commands(st.app, p.action), self.distro) {
                        None => (
                            RunView { plan_pos: self.plan_pos + 1, ..self },
                            seq![out("# "@ + label + ": sem comandos para esta distro"@)],
                            None,
                        ),
                        Some(cmds) => (
                            RunView { phase: Phase::InPlan, commands: cmds, cmd_pos: 0, ..self },
                            seq![out(seq!['\n'] + "==> "@ + label)],
                            None,
                        ),
                    }
                }
            },
            Phase::InPlan => if self.cmd_pos >= self.commands.len() {
                let (r, ev) = self.end_plan(true);
                (r, ev, None)
            } else if cancelled {
                let (r, ev) = self.end_plan(false);
                (r, ev, None)
            } else {
                let cmd = self.commands[self.cmd_pos as int];
                if self.dry_run {
                    (
                        RunView { cmd_pos: self.cmd_pos + 1, ..self },
                        seq![out("$ "@ + cmd), out("[dry-run]"@)],
                        None,
                    )
                } else {
                    (RunView { phase: Phase::Awaiting, ..self }, seq![out("$ "@ + cmd)], Some(cmd))
                }
            },
            Phase::Awaiting => match outcome {
                Some(Ok(code)) => if code != 0 {
                    let (r, ev) = self.end_plan(false);
                    (r, seq![out("exit="@ + signed_decimal(code as int))] + ev, None)
                } else {
                    (
                        RunView { phase: Phase::InPlan, cmd_pos: self.cmd_pos + 1, ..self },
                        seq![out("exit="@ + signed_decimal(code as int))],
                        None,
                    )
                },
                Some(Err(e)) => {
                    let (r, ev) = self.end_plan(false);
                    (r, seq![out("ERRO: "@ + e)] + ev, None)
                },
                None => (self, Seq::empty(), None),
            },
        }
    }

    /// How much of the run is left: plans to go, whether the next plan is
    /// still to start, and the commands of the current plan to go.
    pub open spec fn remaining(self) -> (nat, nat, nat) {
        (
            (self.plans.len() - self.plan_pos) as nat,
            if self.phase == Phase::Between {
                1nat
            } else {
                0nat
            },
            match self.phase {
                Phase::InPlan => (2 * (self.commands.len() - self.cmd_pos) + 1) as nat,
                Phase::Awaiting => (2 * (self.commands.len() - self.cmd_pos)) as nat,
                _ => 0nat,
            },
        )
    }
}

/// `a` is below `b` in lexicographic order.
pub open spec fn lex_below(a: (nat, nat, nat), b: (nat, nat, nat)) -> bool {
    a.0 < b.0 || (a.0 == b.0 && (a.1 < b.1 || (a.1 == b.1 && a.2 < b.2)))
}

/// The reports of a step, by their views.
pub open spec fn events_view(v: Seq<AppEvent>) -> Seq<AppEventView> {
    Seq::new(v.len(), |i: int| v[i]@)
}

/// The outcome of a command, as a step reads it.
pub open spec fn outcome_view(o: Option<Result<CommandResult, String>>) -> Option<Result<i32, Seq<char>>> {
    match o {
        Some(Ok(r)) => Some(Ok(r.exit_code)),
        Some(Err(e)) => Some(Err(e@)),
        None => None,
    }
}

/// Appends a report.
fn report(events: &mut Vec<AppEvent>, e: AppEvent)
    ensures
        events_view(final(events)@) == events_view(old(events)@).push(e@),
{
    let ghost ev = e@;
    events.push(e);
    assert(events_view(events@) =~= events_view(old(events)@).push(ev));
}

/// Appends a log line report.
fn report_line(events: &mut Vec<AppEvent>, line: String)
    ensures
        events_view(final(events)@) == events_view(old(events)@).push(out(line@)),
{
    report(events, AppEvent::CommandOutput(line));
}

impl PlanRun {
    /// A run of `plans` over `statuses`, before the first plan.
    pub fn new(plans: Vec<ActionPlan>, statuses: Vec<AppStatus>, distro: Distro, dry_run: bool) -> (r: PlanRun)
        ensures
            r@.wf(),
            r@.plans == plans@,
            r@.statuses == statuses.deep_view(),
            r@.distro == distro,
            r@.dry_run == dry_run,
            r@.plan_pos == 0,
            r@.phase == Phase::Between,
    {
        PlanRun {
            plans,
            statuses,
            distro,
            dry_run,
            plan_pos: 0,
            commands: Vec::new(),
            cmd_pos: 0,
            phase: Phase::Between,
        }
    }

    /// Whether everything is reported.
    pub fn is_finished(&self) -> (r: bool)
        ensures
            r == (self@.phase == Phase::Finished),
    {
        self.phase == Phase::Finished
    }

    /// Whether a command outcome is awaited.
    pub fn is_awaiting(&self) -> (r: bool)
        ensures
            r == (self@.phase == Phase::Awaiting),
    {
        self.phase == Phase::Awaiting
    }

    fn end_plan(&mut self, success: bool, events: &mut Vec<AppEvent>)
        requires
            old(self)@.wf(),
            old(self)@.phase == Phase::InPlan || old(self)@.phase == Phase::Awaiting,
        ensures
            final(self)@ == old(self)@.end_plan(success).0,
            events_view(final(events)@) == events_view(old(events)@) + old(self)@.end_plan(success).1,
    {
        assert(self.plan_pos < self.plans.len());
        let p = self.plans[self.plan_pos];
        let status = &self.statuses[p.app_index];
        assert(self@.current_status() == status@);
        let reboot = action_requires_reboot(&status.app, p.action.as_str());
        report(events, AppEvent::ActionFinished { index: p.app_index, success, reboot });
        if reboot && success {
            self.phase = Phase::Finished;
            report(events, AppEvent::AllPlansFinished);
        } else {
            self.phase = Phase::Between;
            self.plan_pos = self.plan_pos + 1;
        }
        assert(events_view(events@) =~= events_view(old(events)@) + old(self)@.end_plan(success).1);
    }

    /// One step of the run: reports what happened and gives the command to
    /// run, if any; `cancelled` is the cancel flag now; `outcome` is the
    /// outcome of the awaited command, given exactly when one is awaited.
    pub fn step(&mut self, cancelled: bool, outcome: Option<Result<CommandResult, String>>) -> (r: (
        Vec<AppEvent>,
        Option<String>,
    ))
        requires
            old(self)@.wf(),
            (old(self)@.phase == Phase::Awaiting) == outcome is Some,
        ensures
            final(self)@.wf(),
            ({
                let (s, ev, cmd) = old(self)@.step(cancelled, outcome_view(outcome));
                &&& final(self)@ == s
                &&& events_view(r.0@) == ev
                &&& match r.1 {
                    Some(c) => cmd == Some(c@),
                    None => cmd is None,
                }
            }),
    {
        let mut events: Vec<AppEvent> = Vec::new();
        assert(events_view(events@) =~= Seq::<AppEventView>::empty());
        match self.phase {
            Phase::Finished => (events, None),
            Phase::Between => {
                if self.plan_pos >= self.plans.len() || cancelled {
                    self.phase = Phase::Finished;
                    report(&mut events, AppEvent::AllPlansFinished);
                    return (events, None);
                }
                let p = self.plans[self.plan_pos];
                if p.app_index >= self.statuses.len() {
                    self.plan_pos = self.plan_pos + 1;
                    return (events, None);
                }
                let status = &self.statuses[p.app_index];
                assert(self@.statuses[p.app_index as int] == status@);
                let mut label = status.app.name.clone();
                append(&mut label, " (");
                append(&mut label, p.action.as_str());
                append(&mut label, ")");
                let map = match p.action {
                    Action::Install => &status.app.install,
                    Action::Update => &status.app.update,
                    Action::Uninstall => &status.app.uninstall,
                };
                match select_commands(map, &self.distro) {
                    None => {
                        let mut line = owned("# ");
                        append(&mut line, label.as_str());
                        append(&mut line, ": sem comandos para esta distro");
                        report_line(&mut events, line);
                        self.plan_pos = self.plan_pos + 1;
                        (events, None)
                    },
                    Some(cmds) => {
                        let commands = cmds.deep_copy();
                        let mut line = owned("\n==> ");
                        append(&mut line, label.as_str());
                        proof {
                            reveal_strlit("\n==> ");
                            reveal_strlit("==> ");
                            assert(line@ =~= seq!['\n'] + "==> "@ + label@);
                        }
                        report_line(&mut events, line);
                        self.commands = commands;
                        self.cmd_pos = 0;
                        self.phase = Phase::InPlan;
                        (events, None)
                    },
                }
            },
            Phase::InPlan => {
                if self.cmd_pos >= self.commands.len() {
                    self.end_plan(true, &mut events);
                    return (events, None);
                }
                if cancelled {
                    self.end_plan(false, &mut events);
                    return (events, None);
                }
                let cmd = self.commands[self.cmd_pos].clone();
                let mut line = owned("$ ");
                append(&mut line, cmd.as_str());
                report_line(&mut events, line);
                if self.dry_run {
                    report_line(&mut events, owned("[dry-run]"));
                    self.cmd_pos = self.cmd_pos + 1;
                    (events, None)
                } else {
                    self.phase = Phase::Awaiting;
                    (events, Some(cmd))
                }
            },
            Phase::Awaiting => {
                match outcome {
                    Some(Ok(res)) => {
                        let mut line = owned("exit=");
                        append(&mut line, i32_to_string(res.exit_code).as_str());
                        report_line(&mut events, line);
                        if res.exit_code != 0 {
                            self.end_plan(false, &mut events);
                        } else {
                            assert(self.cmd_pos < self.commands.len());
                            self.phase = Phase::InPlan;
                            self.cmd_pos = self.cmd_pos + 1;
                        }
                        (events, None)
                    },
                    Some(Err(e)) => {
                        let mut line = owned("ERRO: ");
                        append(&mut line, e.as_str());
                        report_line(&mut events, line);
                        self.end_plan(false, &mut events);
                        (events, None)
                    },
                    None => (events, None),
                }
            },
        }
    }
}

/// Every step of an unfinished run keeps it consistent and either finishes
/// it or lowers what is left of it: a run always comes to its end.
pub proof fn lemma_step_progress(r: RunView, cancelled: bool, outcome: Option<Result<i32, Seq<char>>>)
    requires
        r.wf(),
        r.phase != Phase::Finished,
        r.phase == Phase::Awaiting ==> outcome is Some,
    ensures
        r.step(cancelled, outcome).0.wf(),
        r.step(cancelled, outcome).0.phase == Phase::Finished || lex_below(
            r.step(cancelled, outcome).0.remaining(),
            r.remaining(),
        ),
{
    match r.phase {
        Phase::Between => {},
        Phase::InPlan => {
            if r.cmd_pos >= r.commands.len() {
                assert(r.end_plan(true).0.phase == Phase::Finished || r.end_plan(true).0.plan_pos == r.plan_pos + 1);
            } else if cancelled {
                assert(r.end_plan(false).0.phase == Phase::Finished || r.end_plan(false).0.plan_pos == r.plan_pos + 1);
            }
        },
        Phase::Awaiting => {
            assert(r.end_plan(false).0.phase == Phase::Finished || r.end_plan(false).0.plan_pos == r.plan_pos + 1);
        },
        Phase::Finished => {},
    }
}

/// A dry run never runs a command.
pub proof fn lemma_dry_run_runs_nothing(r: RunView, cancelled: bool, outcome: Option<Result<i32, Seq<char>>>)
    requires
        r.dry_run,
        r.phase != Phase::Awaiting,
    ensures
        r.step(cancelled, outcome).2 is None,
        r.step(cancelled, outcome).0.phase != Phase::Awaiting,
{
}

/// A plan that succeeds and asks for a reboot ends the run: the step that
/// reports it also reports, last, that all plans are finished, and no later
/// plan starts.
pub proof fn lemma_reboot_stops_queue(
    r: RunView,
    cancelled: bool,
    outcome: Option<Result<i32, Seq<char>>>,
    k: int,
)
    requires
        r.wf(),
        0 <= k < r.step(cancelled, outcome).1.len(),
        r.step(cancelled, outcome).1[k] matches AppEventView::ActionFinished { success: true, reboot: true, .. },
    ensures
        r.step(cancelled, outcome).0.phase == Phase::Finished,
        r.step(cancelled, outcome).1.last() == AppEventView::AllPlansFinished,
{
    let ev = r.step(cancelled, outcome).1;
    match r.phase {
        Phase::InPlan => {
            if r.cmd_pos >= r.commands.len() || cancelled {
                let success = r.cmd_pos >= r.commands.len();
                assert(ev == r.end_plan(success).1);
            } else {
                assert(ev[k] is CommandOutput);
            }
        },
        Phase::Awaiting => {
            match outcome {
                Some(Ok(code)) => {
                    if code != 0 {
                        assert(ev == seq![out("exit="@ + signed_decimal(code as int))] + r.end_plan(false).1);
                        assert(ev[k] == r.end_plan(false).1[k - 1]);
                    }
                },
                Some(Err(e)) => {
                    assert(ev == seq![out("ERRO: "@ + e)] + r.end_plan(false).1);
                    assert(ev[k] == r.end_plan(false).1[k - 1]);
                },
                None => {},
            }
        },
        _ => {},
    }
}

// ---------------------------------------------------------------------------
// Whole runs.
// ---------------------------------------------------------------------------

/// A report that a plan has finished.
pub open spec fn is_finish_report(e: AppEventView) -> bool {
    e is ActionFinished
}

/// The reports of finished plans among reports, in order.
pub open spec fn finish_reports(ev: Seq<AppEventView>) -> Seq<AppEventView>
    decreases ev.len(),
{
    if ev.len() == 0 {
        Seq::empty()
    } else if is_finish_report(ev.last()) {
        finish_reports(ev.drop_last()).push(ev.last())
    } else {
        finish_reports(ev.drop_last())
    }
}

/// `e` reports the end of the plan at position `p` of the run: it names that
/// plan's app, and whether its action asks for a reboot.
pub open spec fn reports_finish_of(e: AppEventView, r: RunView, p: nat) -> bool {
    &&& e matches AppEventView::ActionFinished { index, reboot, .. }
    &&& p < r.plans.len()
    &&& index == r.plans[p as int].app_index
    &&& reboot == needs_reboot(r.statuses[index as int].app, action_name(r.plans[p as int].action))
}

/// The finish reports `fr` are those of the plans at the strictly
/// increasing positions `ps`, none before the run's starting position.
pub open spec fn finish_order(r: RunView, fr: Seq<AppEventView>, ps: Seq<nat>) -> bool {
    &&& fr.len() == ps.len()
    &&& forall|k: int| 0 <= k < ps.len() ==> r.plan_pos <= #[trigger] ps[k] && reports_finish_of(fr[k], r, ps[k])
    &&& forall|a: int, b: int| 0 <= a < b < ps.len() ==> ps[a] < ps[b]
}

/// The state and the reports after a run of steps, each step taking the
/// cancel flag and the command outcome it is given.
pub open spec fn run_steps(r: RunView, inputs: Seq<(bool, Option<Result<i32, Seq<char>>>)>) -> (
    RunView,
    Seq<AppEventView>,
)
    decreases inputs.len(),
{
    if inputs.len() == 0 {
        (r, Seq::empty())
    } else {
        let prev = run_steps(r, inputs.drop_last());
        let next = prev.0.step(inputs.last().0, inputs.last().1);
        (next.0, prev.1 + next.1)
    }
}

proof fn lemma_finish_reports_add(a: Seq<AppEventView>, b: Seq<AppEventView>)
    ensures
        finish_reports(a + b) == finish_reports(a) + finish_reports(b),
    decreases b.len(),
{
    if b.len() == 0 {
        assert(a + b =~= a);
        assert(finish_reports(a) + finish_reports(b) =~= finish_reports(a));
    } else {
        lemma_finish_reports_add(a, b.drop_last());
        assert((a + b).drop_last() =~= a + b.drop_last());
        assert((a + b).last() == b.last());
        if is_finish_report(b.last()) {
            assert(finish_reports(a) + finish_reports(b.drop_last()).push(b.last()) =~= (finish_reports(a)
                + finish_reports(b.drop_last())).push(b.last()));
        }
    }
}

proof fn lemma_finish_reports_one(x: AppEventView)
    ensures
        finish_reports(seq![x]) == if is_finish_report(x) { seq![x] } else { Seq::<AppEventView>::empty() },
{
    assert(seq![x].drop_last() =~= Seq::<AppEventView>::empty());
    assert(seq![x].last() == x);
    assert(finish_reports(Seq::<AppEventView>::empty()) == Seq::<AppEventView>::empty());
    assert(Seq::<AppEventView>::empty().push(x) =~= seq![x]);
}

proof fn lemma_finish_reports_two(x: AppEventView, y: AppEventView)
    ensures
        finish_reports(seq![x, y]) == finish_reports(seq![x]) + finish_reports(seq![y]),
{
    assert(seq![x, y] =~= seq![x] + seq![y]);
    lemma_finish_reports_add(seq![x], seq![y]);
}

/// What ending a plan reports: its finish report, and the final report
/// exactly when the run stops there.
proof fn lemma_end_plan_reports(r: RunView, success: bool)
    requires
        r.wf(),
        r.phase == Phase::InPlan || r.phase == Phase::Awaiting,
    ensures
        ({
            let (s, ev) = r.end_plan(success);
            &&& s.wf()
            &&& s.plans == r.plans && s.statuses == r.statuses
            &&& ev.len() > 0
            &&& forall|k: int| 0 <= k < ev.len() && ev[k] == AppEventView::AllPlansFinished ==> k == ev.len() - 1
            &&& (s.phase == Phase::Finished <==> ev.last() == AppEventView::AllPlansFinished)
            &&& finish_reports(ev).len() == 1 && reports_finish_of(finish_reports(ev)[0], r, r.plan_pos)
            &&& (s.phase == Phase::Finished && s.plan_pos == r.plan_pos || s.phase == Phase::Between && s.plan_pos
                == r.plan_pos + 1)
        }),
{
    let p = r.plans[r.plan_pos as int];
    let reboot = needs_reboot(r.current_status().app, action_name(p.action));
    let done = AppEventView::ActionFinished { index: p.app_index, success, reboot };
    lemma_finish_reports_one(done);
    lemma_finish_reports_one(AppEventView::AllPlansFinished);
    lemma_finish_reports_two(done, AppEventView::AllPlansFinished);
    assert(finish_reports(seq![done]) + finish_reports(seq![AppEventView::AllPlansFinished]) =~= seq![done]);
}

/// What one step reports: the final report comes last and exactly when the
/// run finishes; at most one plan finishes, the one at the current position;
/// positions never go back; with the cancel flag set, no plan starts.
proof fn lemma_step_reports(r: RunView, cancelled: bool, outcome: Option<Result<i32, Seq<char>>>)
    requires
        r.wf(),
    ensures
        ({
            let (s, ev, _c) = r.step(cancelled, outcome);
            &&& s.wf()
            &&& s.plans == r.plans && s.statuses == r.statuses
            &&& r.plan_pos <= s.plan_pos
            &&& r.phase == Phase::Finished ==> s == r && ev.len() == 0
            &&& forall|k: int| 0 <= k < ev.len() && ev[k] == AppEventView::AllPlansFinished ==> k == ev.len() - 1
            &&& r.phase != Phase::Finished ==> (s.phase == Phase::Finished <==> (ev.len() > 0 && ev.last()
                == AppEventView::AllPlansFinished))
            &&& (finish_reports(ev).len() == 0 || (finish_reports(ev).len() == 1 && reports_finish_of(
                finish_reports(ev)[0],
                r,
                r.plan_pos,
            ) && (s.phase == Phase::Finished || s.plan_pos == r.plan_pos + 1)))
            &&& cancelled && (s.phase == Phase::InPlan || s.phase == Phase::Awaiting) ==> (r.phase == Phase::InPlan
                || r.phase == Phase::Awaiting) && s.plan_pos == r.plan_pos
        }),
{
    let ev = r.step(cancelled, outcome).1;
    lemma_finish_reports_one(AppEventView::AllPlansFinished);
    assert(finish_reports(Seq::<AppEventView>::empty()) =~= Seq::<AppEventView>::empty());
    match r.phase {
        Phase::Finished => {},
        Phase::Between => {
            if !(r.plan_pos >= r.plans.len() || cancelled) {
                let p = r.plans[r.plan_pos as int];
                if p.app_index < r.statuses.len() {
                    let st = r.statuses[p.app_index as int];
                    let label = app_action(st.app.name, p.action);
                    match selected(action_commands(st.app, p.action), r.distro) {
                        None => lemma_finish_reports_one(out("# "@ + label + ": sem comandos para esta distro"@)),
                        Some(cmds) => lemma_finish_reports_one(out(seq!['\n'] + "==> "@ + label)),
                    }
                }
            }
        },
        Phase::InPlan => {
            if r.cmd_pos >= r.commands.len() || cancelled {
                lemma_end_plan_reports(r, r.cmd_pos >= r.commands.len());
            } else {
                let cmd = r.commands[r.cmd_pos as int];
                lemma_finish_reports_one(out("$ "@ + cmd));
                lemma_finish_reports_one(out("[dry-run]"@));
                lemma_finish_reports_two(out("$ "@ + cmd), out("[dry-run]"@));
            }
        },
        Phase::Awaiting => {
            match outcome {
                Some(Ok(code)) => {
                    let line = out("exit="@ + signed_decimal(code as int));
                    lemma_finish_reports_one(line);
                    if code != 0 {
                        lemma_end_plan_reports(r, false);
                        lemma_finish_reports_add(seq![line], r.end_plan(false).1);
                        assert(ev == seq![line] + r.end_plan(false).1);
                        assert forall|k: int| 0 <= k < ev.len() && ev[k] == AppEventView::AllPlansFinished implies k
                            == ev.len() - 1 by {
                            assert(k > 0);
                            assert(ev[k] == r.end_plan(false).1[k - 1]);
                        }
                        assert(finish_reports(seq![line]) + finish_reports(r.end_plan(false).1) =~= finish_reports(
                            r.end_plan(false).1,
                        ));
                    }
                },
                Some(Err(e)) => {
                    let line = out("ERRO: "@ + e);
                    lemma_finish_reports_one(line);
                    lemma_end_plan_reports(r, false);
                    lemma_finish_reports_add(seq![line], r.end_plan(false).1);
                    assert(ev == seq![line] + r.end_plan(false).1);
                    assert forall|k: int| 0 <= k < ev.len() && ev[k] == AppEventView::AllPlansFinished implies k
                        == ev.len() - 1 by {
                        assert(k > 0);
                        assert(ev[k] == r.end_plan(false).1[k - 1]);
                    }
                    assert(finish_reports(seq![line]) + finish_reports(r.end_plan(false).1) =~= finish_reports(
                        r.end_plan(false).1,
                    ));
                },
                None => {},
            }
        },
    }
    if r.phase != Phase::Finished {
        lemma_step_progress(r, cancelled, if r.phase == Phase::Awaiting && outcome is None {
            Some(Ok(0i32))
        } else {
            outcome
        });
    }
}

/// A whole run, over any cancel flags and command outcomes: the final report
/// "all plans finished" comes at most once and last, and exactly when the run
/// is finished; the plans finish in order, each at most once, every finish
/// report naming its plan's app and whether its action asks for a reboot.
pub proof fn lemma_run_reports(r: RunView, inputs: Seq<(bool, Option<Result<i32, Seq<char>>>)>)
    requires
        r.wf(),
    ensures
        ({
            let (s, ev) = run_steps(r, inputs);
            &&& s.wf()
            &&& s.plans == r.plans && s.statuses == r.statuses
            &&& r.phase == Phase::Finished ==> s == r && ev.len() == 0
            &&& forall|k: int| 0 <= k < ev.len() && ev[k] == AppEventView::AllPlansFinished ==> k == ev.len() - 1
            &&& r.phase != Phase::Finished ==> (s.phase == Phase::Finished <==> (ev.len() > 0 && ev.last()
                == AppEventView::AllPlansFinished))
            &&& exists|ps: Seq<nat>|
                finish_order(r, finish_reports(ev), ps) && (s.phase != Phase::Finished ==> forall|k: int|
                    0 <= k < ps.len() ==> #[trigger] ps[k] < s.plan_pos)
        }),
    decreases inputs.len(),
{
    if inputs.len() == 0 {
        let ps = Seq::<nat>::empty();
        assert(run_steps(r, inputs).1 =~= Seq::<AppEventView>::empty());
        assert(finish_reports(Seq::<AppEventView>::empty()) =~= Seq::<AppEventView>::empty());
        assert(finish_order(r, finish_reports(run_steps(r, inputs).1), ps));
    } else {
        let pre = inputs.drop_last();
        lemma_run_reports(r, pre);
        let (s0, e0) = run_steps(r, pre);
        let (c, o) = inputs.last();
        let (s, ev, _cmd) = s0.step(c, o);
        lemma_step_reports(s0, c, o);
        let e = e0 + ev;
        assert(run_steps(r, inputs) == (s, e));
        lemma_finish_reports_add(e0, ev);
        let ps0 = choose|ps: Seq<nat>|
            finish_order(r, finish_reports(e0), ps) && (s0.phase != Phase::Finished ==> forall|k: int|
                0 <= k < ps.len() ==> #[trigger] ps[k] < s0.plan_pos);
        if s0.phase == Phase::Finished {
            assert(ev.len() == 0);
            assert(e =~= e0);
            assert(finish_reports(ev) =~= Seq::<AppEventView>::empty());
            assert(finish_reports(e) =~= finish_reports(e0));
        } else {
            assert(r.phase != Phase::Finished);
            assert forall|k: int| 0 <= k < e0.len() implies e0[k] != AppEventView::AllPlansFinished by {
                if e0[k] == AppEventView::AllPlansFinished {
                    assert(k == e0.len() - 1);
                    assert(e0.last() == e0[k]);
                }
            }
            assert forall|k: int| 0 <= k < e.len() && e[k] == AppEventView::AllPlansFinished implies k == e.len()
                - 1 by {
                if k >= e0.len() {
                    assert(e[k] == ev[k - e0.len()]);
                } else {
                    assert(e[k] == e0[k]);
                }
            }
            if ev.len() > 0 {
                assert(e.last() == ev.last());
            } else {
                assert(e =~= e0);
            }
            if finish_reports(ev).len() == 0 {
                assert(finish_reports(e) =~= finish_reports(e0));
                assert(finish_order(r, finish_reports(e), ps0));
            } else {
                let ps = ps0.push(s0.plan_pos);
                let fr = finish_reports(e);
                assert(fr == finish_reports(e0) + finish_reports(ev));
                assert forall|k: int| 0 <= k < ps.len() implies r.plan_pos <= #[trigger] ps[k] && reports_finish_of(
                    fr[k],
                    r,
                    ps[k],
                ) by {
                    if k < ps0.len() {
                        assert(fr[k] == finish_reports(e0)[k]);
                        assert(ps[k] == ps0[k]);
                    } else {
                        assert(fr[k] == finish_reports(ev)[0]);
                        lemma_run_start_pos(r, pre);
                    }
                }
                assert(finish_order(r, fr, ps));
                assert(s.phase != Phase::Finished ==> forall|k: int| 0 <= k < ps.len() ==> #[trigger] ps[k]
                    < s.plan_pos);
            }
        }
    }
}

/// Positions never go back over a run.
proof fn lemma_run_start_pos(r: RunView, inputs: Seq<(bool, Option<Result<i32, Seq<char>>>)>)
    requires
        r.wf(),
    ensures
        r.plan_pos <= run_steps(r, inputs).0.plan_pos,
    decreases inputs.len(),
{
    if inputs.len() > 0 {
        lemma_run_start_pos(r, inputs.drop_last());
        lemma_run_reports(r, inputs.drop_last());
        let s0 = run_steps(r, inputs.drop_last()).0;
        lemma_step_reports(s0, inputs.last().0, inputs.last().1);
    }
}

/// Once the cancel flag is set and stays set, no plan starts: a plan that
/// runs later is the one that was running when the flag was set.
pub proof fn lemma_cancel_starts_no_plan(r: RunView, inputs: Seq<(bool, Option<Result<i32, Seq<char>>>)>, k: int, j: int)
    requires
        r.wf(),
        0 <= k <= j <= inputs.len(),
        forall|t: int| k <= t < inputs.len() ==> (#[trigger] inputs[t]).0,
    ensures
        ({
            let s = run_steps(r, inputs.take(j)).0;
            let sk = run_steps(r, inputs.take(k)).0;
            (s.phase == Phase::InPlan || s.phase == Phase::Awaiting) ==> (sk.phase == Phase::InPlan || sk.phase
                == Phase::Awaiting) && s.plan_pos == sk.plan_pos
        }),
    decreases j - k,
{
    if j > k {
        lemma_cancel_starts_no_plan(r, inputs, k, j - 1);
        let pre = inputs.take(j - 1);
        assert(inputs.take(j).drop_last() =~= pre);
        assert(inputs.take(j).last() == inputs[j - 1]);
        lemma_run_reports(r, pre);
        let s0 = run_steps(r, pre).0;
        lemma_step_reports(s0, inputs[j - 1].0, inputs[j - 1].1);
    }
}


/// A plan that fails never ends the run: its step reports it finished without
/// success, and the run goes on to the next plan; it does not report that all
/// plans are finished.
pub proof fn lemma_failed_plan_goes_on(r: RunView, cancelled: bool, outcome: Option<Result<i32, Seq<char>>>, k: int)
    requires
        r.wf(),
        0 <= k < r.step(cancelled, outcome).1.len(),
        r.step(cancelled, outcome).1[k] matches AppEventView::ActionFinished { success: false, .. },
    ensures
        r.step(cancelled, outcome).0.phase == Phase::Between,
        r.step(cancelled, outcome).0.plan_pos == r.plan_pos + 1,
        !r.step(cancelled, outcome).1.contains(AppEventView::AllPlansFinished),
{
    let ev = r.step(cancelled, outcome).1;
    match r.phase {
        Phase::InPlan => {
            if r.cmd_pos >= r.commands.len() {
                assert(ev == r.end_plan(true).1);
            } else if cancelled {
                assert(ev == r.end_plan(false).1);
            } else {
                assert(ev[k] is CommandOutput);
            }
        },
        Phase::Awaiting => {
            match outcome {
                Some(Ok(code)) => {
                    if code != 0 {
                        assert(ev == seq![out("exit="@ + signed_decimal(code as int))] + r.end_plan(false).1);
                        assert(ev[k] == r.end_plan(false).1[k - 1]);
                    }
                },
                Some(Err(e)) => {
                    assert(ev == seq![out("ERRO: "@ + e)] + r.end_plan(false).1);
                    assert(ev[k] == r.end_plan(false).1[k - 1]);
                },
                None => {},
            }
        },
        _ => {},
    }
    if ev.contains(AppEventView::AllPlansFinished) {
        let j = choose|j: int| 0 <= j < ev.len() && ev[j] == AppEventView::AllPlansFinished;
        assert(r.phase == Phase::InPlan || r.phase == Phase::Awaiting);
    }
}

/// A plan that starts runs the commands of its action's own command map for
/// the distro: install, update or uninstall.
pub proof fn lemma_plan_runs_its_commands(r: RunView, cancelled: bool, outcome: Option<Result<i32, Seq<char>>>)
    requires
        r.wf(),
        r.phase == Phase::Between,
        r.step(cancelled, outcome).0.phase == Phase::InPlan,
    ensures
        ({
            let s = r.step(cancelled, outcome).0;
            let p = r.plans[r.plan_pos as int];
            let app = r.statuses[p.app_index as int].app;
            &&& s.plan_pos == r.plan_pos && s.cmd_pos == 0
            &&& p.action == Action::Install ==> selected(app.install, r.distro) == Some(s.commands)
            &&& p.action == Action::Update ==> selected(app.update, r.distro) == Some(s.commands)
            &&& p.action == Action::Uninstall ==> selected(app.uninstall, r.distro) == Some(s.commands)
        }),
{
}

} // verus!
