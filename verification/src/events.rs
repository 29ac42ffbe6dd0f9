//! What keys and background events do to the interface state, and which
//! outside work they call for.
use vstd::prelude::*;
use crate::app::{
    action_commands, action_name, lemma_group_rows_in_range, pushed_log, AppEventView, group_rows, toggled, Action, ActionPlan, AppEvent,
    AppState, Screen, ScreenView, StateView,
};
use crate::config::{AppView, GroupView};
use crate::manager::{
    acyclic, dependency_order, dep_graph, dfs_order, depends, before, is_walk, reaches, select_commands, selected, status_views, topological_sort, AppStatus,
    AppStatusView, CommandGroup, CommandGroupView,
};
use crate::strmap::{DeepCopy, push_deep};
use crate::text::{append, owned, str_eq};

verus! {

/// A key press, by what the interface reads of it.
#[derive(Clone, Copy, Debug, PartialEq, Eq, Structural)]
pub enum Key {
    Char(char),
    Up,
    Down,
    Enter,
    Esc,
    Tab,
    PageUp,
    PageDown,
    Other,
}

/// Outside work that handling a key calls for.
pub enum Effect {
    /// Nothing to do.
    Nothing,
    /// Leave the program.
    Quit,
    /// Run these command groups, for these plans.
    Execute { groups: Vec<CommandGroup>, plans: Vec<ActionPlan> },
    /// Find the status of every app again.
    Refresh,
    /// Write a snapshot of the statuses.
    Export,
}

/// What an effect is.
pub enum EffectView {
    Nothing,
    Quit,
    Execute { groups: Seq<CommandGroupView>, plans: Seq<ActionPlan> },
    Refresh,
    Export,
}

impl View for Effect {
    type V = EffectView;

    open spec fn view(&self) -> EffectView {
        match self {
            Effect::Nothing => EffectView::Nothing,
            Effect::Quit => EffectView::Quit,
            Effect::Execute { groups, plans } => EffectView::Execute {
                groups: groups.deep_view(),
                plans: plans@,
            },
            Effect::Refresh => EffectView::Refresh,
            Effect::Export => EffectView::Export,
        }
    }
}

impl Effect {
    /// Whether the effect is to leave the program.
    pub fn is_quit(&self) -> (r: bool)
        ensures
            r == (self@ == EffectView::Quit),
    {
        match self {
            Effect::Quit => true,
            _ => false,
        }
    }
}

// ---------------------------------------------------------------------------
// The state changes, as functions of the state.
// ---------------------------------------------------------------------------

/// The state with one more log line.
pub open spec fn with_log(s: StateView, line: Seq<char>) -> StateView {
    StateView { log: pushed_log(s.log, line), ..s }
}

/// The cursor one row up.
pub open spec fn cursor_up(s: StateView) -> StateView {
    StateView { cursor: if s.cursor > 0 { (s.cursor - 1) as usize } else { 0 }, ..s }
}

/// The cursor one row down.
pub open spec fn cursor_down(s: StateView) -> StateView {
    StateView {
        cursor: if s.visible.len() > 0 && s.cursor + 1 < s.visible.len() {
            (s.cursor + 1) as usize
        } else {
            s.cursor
        },
        ..s
    }
}

/// The cursor `n` rows up, stopping at the first row.
pub open spec fn cursor_up_by(s: StateView, n: nat) -> StateView
    decreases n,
{
    if n == 0 {
        s
    } else {
        cursor_up(cursor_up_by(s, (n - 1) as nat))
    }
}

/// The cursor `n` rows down, stopping at the last row.
pub open spec fn cursor_down_by(s: StateView, n: nat) -> StateView
    decreases n,
{
    if n == 0 {
        s
    } else {
        cursor_down(cursor_down_by(s, (n - 1) as nat))
    }
}

/// The selection with the app under the cursor toggled.
pub open spec fn toggle(s: StateView) -> StateView {
    StateView {
        selected: match s.current() {
            Some(i) => toggled(s.selected, i),
            None => s.selected,
        },
        ..s
    }
}

/// Only the apps of `g` visible, cursor at the top, nothing selected.
pub open spec fn filtered(s: StateView, g: Seq<char>) -> StateView {
    StateView {
        active_group: g,
        visible: group_rows(s.config.apps, g),
        cursor: 0,
        selected: Set::empty(),
        ..s
    }
}

/// Position of the first group with id `id`.
pub open spec fn group_position(groups: Seq<GroupView>, id: Seq<char>) -> Option<int>
    decreases groups.len(),
{
    if groups.len() == 0 {
        None
    } else if groups[0].id == id {
        Some(0)
    } else {
        match group_position(groups.drop_first(), id) {
            Some(i) => Some(i + 1),
            None => None,
        }
    }
}

/// The group after the active one: the first group after "all", "all" after
/// the last group, and the first group when the active one is unknown.
pub open spec fn next_group(s: StateView) -> Seq<char> {
    let groups = s.config.groups;
    let cur = if s.active_group.len() == 0 {
        None
    } else {
        group_position(groups, s.active_group)
    };
    let next = match cur {
        None => Some(0int),
        Some(i) => if i + 1 < groups.len() {
            Some(i + 1)
        } else {
            None
        },
    };
    match next {
        Some(i) => groups[i].id,
        None => Seq::empty(),
    }
}

/// The state after cycling the group filter; nothing changes without groups.
pub open spec fn cycled(s: StateView) -> StateView {
    if s.config.groups.len() == 0 {
        s
    } else {
        filtered(s, next_group(s))
    }
}

/// The label of a plan's command group.
pub open spec fn plan_label(name: Seq<char>, a: Action) -> Seq<char> {
    name + " ("@ + action_name(a) + ")"@
}

/// The command group of a plan, when its app has a status and commands
/// for the action on the distro.
pub open spec fn plan_group(s: StateView, p: ActionPlan) -> Option<CommandGroupView> {
    if p.app_index < s.statuses.len() {
        let st = s.statuses[p.app_index as int];
        match selected(action_commands(st.app, p.action), s.distro) {
            Some(c) => Some(
                CommandGroupView {
                    group_id: p.app_index,
                    label: plan_label(st.app.name, p.action),
                    commands: c,
                },
            ),
            None => None,
        }
    } else {
        None
    }
}

/// The command groups of plans, in order.
pub open spec fn plan_groups(s: StateView, plans: Seq<ActionPlan>) -> Seq<CommandGroupView>
    decreases plans.len(),
{
    if plans.len() == 0 {
        Seq::empty()
    } else {
        let r = plan_groups(s, plans.drop_last());
        match plan_group(s, plans.last()) {
            Some(g) => r.push(g),
            None => r,
        }
    }
}

/// Launching plans: with command groups, the state turns busy and the groups
/// run; without, the log says so.
pub open spec fn launched(s: StateView, plans: Seq<ActionPlan>) -> (StateView, EffectView) {
    let g = plan_groups(s, plans);
    if g.len() == 0 {
        (with_log(s, "# No commands to execute."@), EffectView::Nothing)
    } else {
        (StateView { busy: true, ..s }, EffectView::Execute { groups: g, plans })
    }
}

/// App `idx` has a status, is supported, and has commands for the action.
pub open spec fn can_run(s: StateView, idx: usize, a: Action) -> bool {
    &&& idx < s.statuses.len()
    &&& s.statuses[idx as int].supported
    &&& selected(action_commands(s.statuses[idx as int].app, a), s.distro) is Some
}

/// The plans of an action for those of the apps that can run it.
pub open spec fn action_plans(s: StateView, idxs: Seq<usize>, a: Action) -> Seq<ActionPlan>
    decreases idxs.len(),
{
    if idxs.len() == 0 {
        Seq::empty()
    } else {
        let r = action_plans(s, idxs.drop_last(), a);
        if can_run(s, idxs.last(), a) {
            r.push(ActionPlan { app_index: idxs.last(), action: a })
        } else {
            r
        }
    }
}

/// The plans of the fitting ("smart") actions of apps, for those that have one.
pub open spec fn smart_plans(s: StateView, idxs: Seq<usize>) -> Seq<ActionPlan>
    decreases idxs.len(),
{
    if idxs.len() == 0 {
        Seq::empty()
    } else {
        let r = smart_plans(s, idxs.drop_last());
        match s.smart(idxs.last()) {
            Some(a) => r.push(ActionPlan { app_index: idxs.last(), action: a }),
            None => r,
        }
    }
}

/// The items of `order` that are in `visible`, in order.
pub open spec fn visible_only(order: Seq<usize>, visible: Seq<usize>) -> Seq<usize>
    decreases order.len(),
{
    if order.len() == 0 {
        Seq::empty()
    } else {
        let r = visible_only(order.drop_last(), visible);
        if visible.contains(order.last()) {
            r.push(order.last())
        } else {
            r
        }
    }
}

/// Queueing an action on the target apps.
pub open spec fn queued(s: StateView, a: Action) -> (StateView, EffectView) {
    let t = s.targets();
    if t.len() == 0 {
        (s, EffectView::Nothing)
    } else {
        let p = action_plans(s, t, a);
        if p.len() == 0 {
            (with_log(s, "# No app with "@ + action_name(a) + " available"@), EffectView::Nothing)
        } else {
            launched(s, p)
        }
    }
}

/// Queueing the fitting action of each target app.
pub open spec fn queued_smart(s: StateView) -> (StateView, EffectView) {
    let p = smart_plans(s, s.targets());
    if p.len() == 0 {
        (with_log(s, "# No smart action available"@), EffectView::Nothing)
    } else {
        launched(s, p)
    }
}

/// Queueing the fitting action of each visible app, in dependency `order`.
pub open spec fn queued_smart_all(s: StateView, order: Seq<usize>) -> (StateView, EffectView) {
    let p = smart_plans(s, visible_only(order, s.visible));
    if p.len() == 0 {
        (with_log(s, "# No smart-all action available"@), EffectView::Nothing)
    } else {
        launched(s, p)
    }
}

/// Starting a refresh: busy, no statuses, a log line.
pub open spec fn refreshing(s: StateView) -> StateView {
    StateView {
        busy: true,
        statuses: Seq::empty(),
        log: pushed_log(s.log, "# Updating status..."@),
        ..s
    }
}

/// What a key does: on the reboot screen Enter and Esc go back to the main
/// screen and other keys do nothing; while busy only `q` and Esc act.
pub open spec fn key_result(s: StateView, key: Key) -> (StateView, EffectView) {
    match s.screen {
        ScreenView::RebootRequired { .. } => if key == Key::Enter || key == Key::Esc {
            (StateView { screen: ScreenView::Main, ..s }, EffectView::Nothing)
        } else {
            (s, EffectView::Nothing)
        },
        ScreenView::Main => if s.busy && !(key == Key::Char('q') || key == Key::Esc) {
            (s, EffectView::Nothing)
        } else {
            match key {
                Key::Char('q') => (s, EffectView::Quit),
                Key::Up | Key::Char('k') => (cursor_up(s), EffectView::Nothing),
                Key::Down | Key::Char('j') => (cursor_down(s), EffectView::Nothing),
                Key::Char(' ') => (toggle(s), EffectView::Nothing),
                Key::Esc => (StateView { selected: Set::empty(), ..s }, EffectView::Nothing),
                Key::Tab => (cycled(s), EffectView::Nothing),
                Key::Char('i') => queued(s, Action::Install),
                Key::Char('u') => queued(s, Action::Update),
                Key::Char('d') => queued(s, Action::Uninstall),
                Key::Char('a') => queued_smart(s),
                Key::Char('A') => queued_smart_all(s, dfs_order(dep_graph(s.statuses))),
                Key::Char('r') => (refreshing(s), EffectView::Refresh),
                Key::Char('e') => (s, EffectView::Export),
                Key::PageUp => (cursor_up_by(s, 10), EffectView::Nothing),
                Key::PageDown => (cursor_down_by(s, 10), EffectView::Nothing),
                _ => (s, EffectView::Nothing),
            }
        },
    }
}

// ---------------------------------------------------------------------------
// The state changes.
// ---------------------------------------------------------------------------

/// Appends a log line made of two parts.
fn log_two(state: &mut AppState, a: &str, b: &str)
    ensures
        final(state).wf() == old(state).wf(),
        final(state)@ == with_log(old(state)@, a@ + b@),
{
    let mut line = owned(a);
    append(&mut line, b);
    state.push_log(line);
}

/// Position of the first group with id `id`.
fn find_group(groups: &Vec<crate::config::GroupConfig>, id: &String) -> (r: Option<usize>)
    ensures
        match r {
            Some(k) => group_position(groups.deep_view(), id@) == Some(k as int),
            None => group_position(groups.deep_view(), id@) is None,
        },
{
    let ghost gs = groups.deep_view();
    let mut i: usize = 0;
    assert(gs.skip(0) =~= gs);
    while i < groups.len()
        invariant
            i <= groups@.len(),
            gs == groups.deep_view(),
            group_position(gs, id@) == match group_position(gs.skip(i as int), id@) {
                Some(k) => Some(k + i),
                None => None,
            },
        decreases groups.len() - i,
    {
        let ghost rest = gs.skip(i as int);
        assert(rest[0] == gs[i as int]);
        assert(rest.drop_first() =~= gs.skip(i + 1));
        if str_eq(groups[i].id.as_str(), id.as_str()) {
            return Some(i);
        }
        i = i + 1;
    }
    assert(gs.skip(i as int).len() == 0);
    None
}

proof fn lemma_group_position_bound(groups: Seq<GroupView>, id: Seq<char>)
    ensures
        group_position(groups, id) matches Some(k) ==> 0 <= k < groups.len(),
    decreases groups.len(),
{
    if groups.len() > 0 {
        lemma_group_position_bound(groups.drop_first(), id);
    }
}

/// Cycles the group filter: "all", then each group in order, then "all" again.
pub fn cycle_group(state: &mut AppState)
    requires
        old(state).wf(),
    ensures
        final(state).wf(),
        final(state)@ == cycled(old(state)@),
{
    let n = state.config.groups.len();
    if n == 0 {
        return;
    }
    let ghost s = state@;
    proof {
        lemma_group_position_bound(s.config.groups, s.active_group);
    }
    let cur: Option<usize> = if state.active_group.as_str().is_empty() {
        None
    } else {
        find_group(&state.config.groups, &state.active_group)
    };
    let next: Option<usize> = match cur {
        None => Some(0),
        Some(i) => if i + 1 < n {
            Some(i + 1)
        } else {
            None
        },
    };
    let new_group: String = match next {
        Some(i) => state.config.groups[i].id.clone(),
        None => String::new(),
    };
    assert(new_group@ == next_group(s));
    state.apply_group_filter(new_group.as_str());
}


/// The statuses of the state are the views of its status list.
proof fn lemma_status_views(state: &AppState)
    ensures
        state@.statuses == status_views(state.statuses@),
{
    assert(state@.statuses =~= status_views(state.statuses@));
}

/// The command group of a plan.
fn group_of_plan(state: &AppState, plan: ActionPlan) -> (r: Option<CommandGroup>)
    ensures
        match r {
            Some(g) => plan_group(state@, plan) == Some(g@),
            None => plan_group(state@, plan) is None,
        },
{
    if plan.app_index >= state.statuses.len() {
        return None;
    }
    let status = &state.statuses[plan.app_index];
    assert(state@.statuses[plan.app_index as int] == status@);
    let map = match plan.action {
        Action::Install => &status.app.install,
        Action::Update => &status.app.update,
        Action::Uninstall => &status.app.uninstall,
    };
    match select_commands(map, &state.distro) {
        Some(cmds) => {
            let mut label = status.app.name.clone();
            append(&mut label, " (");
            append(&mut label, plan.action.as_str());
            append(&mut label, ")");
            Some(CommandGroup { group_id: plan.app_index, label, commands: cmds.deep_copy() })
        },
        None => None,
    }
}

/// Starts running plans: one command group per plan whose app has commands
/// for its action (the group id is the app index); without any group the
/// log says there is nothing to run.
pub fn launch_plans(state: &mut AppState, plans: Vec<ActionPlan>) -> (r: Effect)
    ensures
        final(state).wf() == old(state).wf(),
        (final(state)@, r@) == launched(old(state)@, plans@),
{
    let ghost s = state@;
    let mut groups: Vec<CommandGroup> = Vec::new();
    let mut i: usize = 0;
    while i < plans.len()
        invariant
            i <= plans@.len(),
            state@ == s,
            groups.deep_view() == plan_groups(s, plans@.take(i as int)),
        decreases plans.len() - i,
    {
        assert(plans@.take(i + 1).drop_last() =~= plans@.take(i as int));
        match group_of_plan(state, plans[i]) {
            Some(g) => push_deep(&mut groups, g),
            None => {},
        }
        i = i + 1;
    }
    assert(plans@.take(i as int) =~= plans@);
    if groups.len() == 0 {
        state.push_log(owned("# No commands to execute."));
        return Effect::Nothing;
    }
    state.busy = true;
    Effect::Execute { groups, plans }
}

/// Whether app `idx` can run the action.
fn can_run_action(state: &AppState, idx: usize, action: Action) -> (r: bool)
    ensures
        r == can_run(state@, idx, action),
{
    if idx >= state.statuses.len() {
        return false;
    }
    let s = &state.statuses[idx];
    assert(state@.statuses[idx as int] == s@);
    if !s.supported {
        return false;
    }
    let map = match action {
        Action::Install => &s.app.install,
        Action::Update => &s.app.update,
        Action::Uninstall => &s.app.uninstall,
    };
    select_commands(map, &state.distro).is_some()
}

/// Queues an action on the target apps that can run it.
pub fn queue_action(state: &mut AppState, action: Action) -> (r: Effect)
    requires
        old(state).wf(),
    ensures
        final(state).wf(),
        (final(state)@, r@) == queued(old(state)@, action),
{
    let ghost s = state@;
    let targets = state.target_indices();
    if targets.len() == 0 {
        return Effect::Nothing;
    }
    let mut plans: Vec<ActionPlan> = Vec::new();
    let mut i: usize = 0;
    while i < targets.len()
        invariant
            i <= targets@.len(),
            state@ == s,
            plans@ == action_plans(s, targets@.take(i as int), action),
        decreases targets.len() - i,
    {
        assert(targets@.take(i + 1).drop_last() =~= targets@.take(i as int));
        let idx = targets[i];
        if can_run_action(state, idx, action) {
            plans.push(ActionPlan { app_index: idx, action });
        }
        i = i + 1;
    }
    assert(targets@.take(i as int) =~= targets@);
    if plans.len() == 0 {
        let mut line = owned("# No app with ");
        append(&mut line, action.as_str());
        append(&mut line, " available");
        state.push_log(line);
        return Effect::Nothing;
    }
    launch_plans(state, plans)
}

/// The plans of the fitting actions of apps.
fn smart_plans_of(state: &AppState, idxs: &Vec<usize>) -> (r: Vec<ActionPlan>)
    ensures
        r@ == smart_plans(state@, idxs@),
{
    let mut plans: Vec<ActionPlan> = Vec::new();
    let mut i: usize = 0;
    while i < idxs.len()
        invariant
            i <= idxs@.len(),
            plans@ == smart_plans(state@, idxs@.take(i as int)),
        decreases idxs.len() - i,
    {
        assert(idxs@.take(i + 1).drop_last() =~= idxs@.take(i as int));
        let idx = idxs[i];
        match state.smart_action(idx) {
            Some(a) => plans.push(ActionPlan { app_index: idx, action: a }),
            None => {},
        }
        i = i + 1;
    }
    assert(idxs@.take(i as int) =~= idxs@);
    plans
}

/// Queues the fitting action of each target app.
pub fn queue_action_smart(state: &mut AppState) -> (r: Effect)
    requires
        old(state).wf(),
    ensures
        final(state).wf(),
        (final(state)@, r@) == queued_smart(old(state)@),
{
    let targets = state.target_indices();
    let plans = smart_plans_of(state, &targets);
    if plans.len() == 0 {
        state.push_log(owned("# No smart action available"));
        return Effect::Nothing;
    }
    launch_plans(state, plans)
}

/// Whether `v` holds `x`.
fn vec_contains(v: &Vec<usize>, x: usize) -> (r: bool)
    ensures
        r == v@.contains(x),
{
    let mut i: usize = 0;
    while i < v.len()
        invariant
            i <= v@.len(),
            forall|k: int| 0 <= k < i ==> v@[k] != x,
        decreases v.len() - i,
    {
        if v[i] == x {
            return true;
        }
        i = i + 1;
    }
    false
}

/// Queues the fitting action of every visible app, dependencies first.
pub fn queue_action_smart_all(state: &mut AppState) -> (r: Effect)
    requires
        old(state).wf(),
    ensures
        final(state).wf(),
        (final(state)@, r@) == queued_smart_all(old(state)@, dfs_order(dep_graph(old(state)@.statuses))),
        dependency_order(old(state)@.statuses, dfs_order(dep_graph(old(state)@.statuses))),
{
    proof {
        lemma_status_views(state);
    }
    let ghost s0 = state@;
    let sorted = topological_sort(state.statuses.as_slice());
    let ghost order = sorted@;
    let mut shown: Vec<usize> = Vec::new();
    let mut i: usize = 0;
    while i < sorted.len()
        invariant
            i <= sorted@.len(),
            state@ == s0,
            shown@ == visible_only(sorted@.take(i as int), s0.visible),
        decreases sorted.len() - i,
    {
        assert(sorted@.take(i + 1).drop_last() =~= sorted@.take(i as int));
        if vec_contains(&state.visible_indices, sorted[i]) {
            shown.push(sorted[i]);
        }
        i = i + 1;
    }
    assert(sorted@.take(i as int) =~= sorted@);
    let plans = smart_plans_of(state, &shown);
    let r = if plans.len() == 0 {
        state.push_log(owned("# No smart-all action available"));
        Effect::Nothing
    } else {
        launch_plans(state, plans)
    };
    assert(dependency_order(old(state)@.statuses, order));
    r
}

/// Starts finding every status again: busy, statuses cleared, logged.
pub fn start_refresh(state: &mut AppState) -> (r: Effect)
    ensures
        final(state).wf() == old(state).wf(),
        final(state)@ == refreshing(old(state)@),
        r@ == EffectView::Refresh,
{
    state.busy = true;
    state.statuses.clear();
    state.push_log(owned("# Updating status..."));
    assert(state@.statuses =~= Seq::<AppStatusView>::empty());
    Effect::Refresh
}

/// Handles a key press: the state change it makes and the outside work it
/// calls for.
pub fn handle_key_event(state: &mut AppState, key: Key) -> (r: Effect)
    requires
        old(state).wf(),
    ensures
        final(state).wf(),
        (final(state)@, r@) == key_result(old(state)@, key),
{
    if !state.screen.is_main() {
        if key == Key::Enter || key == Key::Esc {
            state.screen = Screen::Main;
        }
        return Effect::Nothing;
    }
    if state.busy && !(key == Key::Char('q') || key == Key::Esc) {
        return Effect::Nothing;
    }
    let ghost s = state@;
    match key {
        Key::Char('q') => Effect::Quit,
        Key::Up | Key::Char('k') => {
            state.move_cursor_up();
            Effect::Nothing
        },
        Key::Down | Key::Char('j') => {
            state.move_cursor_down();
            Effect::Nothing
        },
        Key::Char(' ') => {
            state.toggle_selection();
            Effect::Nothing
        },
        Key::Esc => {
            state.clear_selection();
            Effect::Nothing
        },
        Key::Tab => {
            cycle_group(state);
            Effect::Nothing
        },
        Key::Char('i') => queue_action(state, Action::Install),
        Key::Char('u') => queue_action(state, Action::Update),
        Key::Char('d') => queue_action(state, Action::Uninstall),
        Key::Char('a') => queue_action_smart(state),
        Key::Char('A') => queue_action_smart_all(state),
        Key::Char('r') => start_refresh(state),
        Key::Char('e') => Effect::Export,
        Key::PageUp => {
            let mut n: usize = 0;
            while n < 10
                invariant
                    n <= 10,
                    state.wf(),
                    state@ == cursor_up_by(s, n as nat),
                decreases 10 - n,
            {
                state.move_cursor_up();
                n = n + 1;
            }
            Effect::Nothing
        },
        Key::PageDown => {
            let mut n: usize = 0;
            while n < 10
                invariant
                    n <= 10,
                    state.wf(),
                    state@ == cursor_down_by(s, n as nat),
                decreases 10 - n,
            {
                state.move_cursor_down();
                n = n + 1;
            }
            Effect::Nothing
        },
        _ => Effect::Nothing,
    }
}


// ---------------------------------------------------------------------------
// Background reports.
// ---------------------------------------------------------------------------

/// The names of the apps of plans, in order; plans of unknown apps are left out.
pub open spec fn pending_names(apps: Seq<AppView>, plans: Seq<ActionPlan>) -> Seq<Seq<char>>
    decreases plans.len(),
{
    if plans.len() == 0 {
        Seq::empty()
    } else {
        let r = pending_names(apps, plans.drop_last());
        if plans.last().app_index < apps.len() {
            r.push(apps[plans.last().app_index as int].name)
        } else {
            r
        }
    }
}

/// What a background report does to the state, and which app's status is
/// to be found again: a finished action on a known app has its status
/// found again, and a successful action that asks for a reboot opens the
/// reboot screen with the names of the pending plans.
pub open spec fn event_result(s: StateView, ev: AppEventView) -> (StateView, Option<usize>) {
    match ev {
        AppEventView::StatusesLoaded(st) => (
            StateView { statuses: st, busy: false, log: pushed_log(s.log, "# Status updated"@), ..s },
            None,
        ),
        AppEventView::CommandOutput(line) => (with_log(s, line), None),
        AppEventView::ActionFinished { index, success, reboot } => {
            let known = index < s.config.apps.len();
            let s2 = if reboot && success {
                StateView {
                    screen: ScreenView::RebootRequired {
                        app_name: if known {
                            s.config.apps[index as int].name
                        } else {
                            Seq::empty()
                        },
                        pending: pending_names(s.config.apps, s.pending),
                    },
                    ..s
                }
            } else {
                s
            };
            (s2, if known { Some(index) } else { None })
        },
        AppEventView::AllPlansFinished => (
            StateView {
                busy: false,
                log: pushed_log(s.log, "# Completed"@),
                pending: Seq::empty(),
                ..s
            },
            None,
        ),
        AppEventView::Error(msg) => (
            StateView { log: pushed_log(s.log, "# ERROR: "@ + msg), busy: false, ..s },
            None,
        ),
    }
}

/// Handles a background report; gives the index of the app whose status is
/// to be found again (`replace_status` then stores it).
pub fn handle_app_event(state: &mut AppState, event: AppEvent) -> (r: Option<usize>)
    ensures
        final(state).wf() == old(state).wf(),
        (final(state)@, r) == event_result(old(state)@, event@),
{
    match event {
        AppEvent::StatusesLoaded(statuses) => {
            state.statuses = statuses;
            state.busy = false;
            state.push_log(owned("# Status updated"));
            None
        },
        AppEvent::CommandOutput(line) => {
            state.push_log(line);
            None
        },
        AppEvent::ActionFinished { index, success, reboot } => {
            let known = index < state.config.apps.len();
            if reboot && success {
                let app_name = if known {
                    state.config.apps[index].name.clone()
                } else {
                    String::new()
                };
                let ghost apps = state@.config.apps;
                let mut pending: Vec<String> = Vec::new();
                let mut i: usize = 0;
                while i < state.pending_plans.len()
                    invariant
                        i <= state.pending_plans@.len(),
                        apps == state@.config.apps,
                        pending.deep_view() == pending_names(apps, state.pending_plans@.take(i as int)),
                    decreases state.pending_plans.len() - i,
                {
                    assert(state.pending_plans@.take(i + 1).drop_last() =~= state.pending_plans@.take(i as int));
                    let idx = state.pending_plans[i].app_index;
                    if idx < state.config.apps.len() {
                        assert(apps[idx as int] == state.config.apps@[idx as int]@);
                        crate::status::push_string(&mut pending, state.config.apps[idx].name.clone());
                    }
                    i = i + 1;
                }
                assert(state.pending_plans@.take(i as int) =~= state.pending_plans@);
                state.screen = Screen::RebootRequired { app_name, pending };
            }
            if known {
                Some(index)
            } else {
                None
            }
        },
        AppEvent::AllPlansFinished => {
            state.busy = false;
            state.push_log(owned("# Completed"));
            state.pending_plans.clear();
            None
        },
        AppEvent::Error(msg) => {
            let mut line = owned("# ERROR: ");
            append(&mut line, msg.as_str());
            state.push_log(line);
            state.busy = false;
            None
        },
    }
}

/// Stores the status found again for app `index`, if the state has a status for it.
pub fn replace_status(state: &mut AppState, index: usize, status: AppStatus)
    ensures
        final(state).wf() == old(state).wf(),
        final(state)@ == if index < old(state)@.statuses.len() {
            StateView { statuses: old(state)@.statuses.update(index as int, status@), ..old(state)@ }
        } else {
            old(state)@
        },
{
    if index < state.statuses.len() {
        let ghost sv = status@;
        state.statuses.set(index, status);
        assert(state@.statuses =~= old(state)@.statuses.update(index as int, sv));
    }
}

/// Logs where a snapshot was written, or why it could not be.
pub fn record_export(state: &mut AppState, outcome: Result<String, String>)
    ensures
        final(state).wf() == old(state).wf(),
        final(state)@ == match outcome {
            Ok(path) => with_log(old(state)@, "# Exported: "@ + path@),
            Err(e) => with_log(old(state)@, "# Error exporting: "@ + e@),
        },
{
    match outcome {
        Ok(path) => log_two(state, "# Exported: ", path.as_str()),
        Err(e) => log_two(state, "# Error exporting: ", e.as_str()),
    }
}

/// One app of a snapshot.
pub struct SnapshotApp {
    pub id: String,
    pub name: String,
    pub group: String,
    pub supported: bool,
    pub installed: bool,
}

/// A snapshot of the statuses, for export.
pub struct Snapshot {
    pub distro: String,
    pub config: String,
    pub timestamp: String,
    pub apps: Vec<SnapshotApp>,
}

/// What a snapshot app is.
pub struct SnapshotAppView {
    pub id: Seq<char>,
    pub name: Seq<char>,
    pub group: Seq<char>,
    pub supported: bool,
    pub installed: bool,
}

impl View for SnapshotApp {
    type V = SnapshotAppView;

    open spec fn view(&self) -> SnapshotAppView {
        SnapshotAppView {
            id: self.id@,
            name: self.name@,
            group: self.group@,
            supported: self.supported,
            installed: self.installed,
        }
    }
}

impl DeepView for SnapshotApp {
    type V = SnapshotAppView;

    open spec fn deep_view(&self) -> SnapshotAppView {
        self@
    }
}

/// The snapshot entry of a status.
pub open spec fn snapshot_app(s: AppStatusView) -> SnapshotAppView {
    SnapshotAppView {
        id: s.app.id,
        name: s.app.name,
        group: s.app.group,
        supported: s.supported,
        installed: s.installed,
    }
}

/// A snapshot of the statuses, taken at `timestamp`.
pub fn build_snapshot(state: &AppState, timestamp: String) -> (r: Snapshot)
    ensures
        r.distro@ == crate::manager::distro_key(state.distro),
        r.config@ == state.config_path@,
        r.timestamp@ == timestamp@,
        r.apps.deep_view() == Seq::new(state@.statuses.len(), |i: int| snapshot_app(state@.statuses[i])),
{
    let mut apps: Vec<SnapshotApp> = Vec::new();
    let mut i: usize = 0;
    while i < state.statuses.len()
        invariant
            i <= state.statuses@.len(),
            apps.deep_view() == Seq::new(i as nat, |k: int| snapshot_app(state@.statuses[k])),
        decreases state.statuses.len() - i,
    {
        let s = &state.statuses[i];
        let a = SnapshotApp {
            id: s.app.id.clone(),
            name: s.app.name.clone(),
            group: s.app.group.clone(),
            supported: s.supported,
            installed: s.installed,
        };
        assert(a@ == snapshot_app(state@.statuses[i as int]));
        push_deep(&mut apps, a);
        i = i + 1;
        assert(apps.deep_view() =~= Seq::new(i as nat, |k: int| snapshot_app(state@.statuses[k])));
    }
    Snapshot {
        distro: owned(state.distro.as_str()),
        config: state.config_path.clone(),
        timestamp,
        apps,
    }
}


// ---------------------------------------------------------------------------
// What every key and report keeps.
// ---------------------------------------------------------------------------

/// Moving the cursor keeps the rows and the configuration, and keeps the
/// cursor on a visible row.
proof fn lemma_cursor_moves(s: StateView, n: nat)
    ensures
        cursor_up_by(s, n).visible == s.visible,
        cursor_up_by(s, n).config == s.config,
        s.cursor_in_range() ==> cursor_up_by(s, n).cursor_in_range(),
        cursor_down_by(s, n).visible == s.visible,
        cursor_down_by(s, n).config == s.config,
        s.cursor_in_range() ==> cursor_down_by(s, n).cursor_in_range(),
    decreases n,
{
    if n > 0 {
        lemma_cursor_moves(s, (n - 1) as nat);
    }
}

/// A new group filter shows only rows of apps, with the cursor at the top.
proof fn lemma_filter_keeps_rows(s: StateView, g: Seq<char>)
    ensures
        filtered(s, g).rows_valid(),
        filtered(s, g).cursor_in_range(),
{
    lemma_group_rows_in_range(s.config.apps, g);
}

/// Launching plans leaves the rows and the cursor alone.
proof fn lemma_launch_keeps_rows(s: StateView, plans: Seq<ActionPlan>)
    ensures
        launched(s, plans).0.visible == s.visible,
        launched(s, plans).0.cursor == s.cursor,
        launched(s, plans).0.config == s.config,
{
}

/// Under every key, each visible row still names an app, and the cursor
/// stays on a visible row (or at the top of an empty list).
pub proof fn lemma_key_keeps_rows(s: StateView, key: Key)
    requires
        s.rows_valid(),
        s.cursor_in_range(),
    ensures
        key_result(s, key).0.rows_valid(),
        key_result(s, key).0.cursor_in_range(),
{
    lemma_cursor_moves(s, 10);
    lemma_filter_keeps_rows(s, next_group(s));
    let t = s.targets();
    lemma_launch_keeps_rows(s, action_plans(s, t, Action::Install));
    lemma_launch_keeps_rows(s, action_plans(s, t, Action::Update));
    lemma_launch_keeps_rows(s, action_plans(s, t, Action::Uninstall));
    lemma_launch_keeps_rows(s, smart_plans(s, t));
    lemma_smart_all_keeps_rows(s, dfs_order(dep_graph(s.statuses)));
}

/// Queueing every visible app keeps the rows and the cursor valid too.
pub proof fn lemma_smart_all_keeps_rows(s: StateView, order: Seq<usize>)
    requires
        s.rows_valid(),
        s.cursor_in_range(),
    ensures
        queued_smart_all(s, order).0.rows_valid(),
        queued_smart_all(s, order).0.cursor_in_range(),
{
    lemma_launch_keeps_rows(s, smart_plans(s, visible_only(order, s.visible)));
}

/// Background reports leave the rows, the cursor and the configuration alone.
pub proof fn lemma_event_keeps_rows(s: StateView, ev: AppEventView)
    ensures
        event_result(s, ev).0.visible == s.visible,
        event_result(s, ev).0.cursor == s.cursor,
        event_result(s, ev).0.config == s.config,
        event_result(s, ev).0.selected == s.selected,
{
}


// ---------------------------------------------------------------------------
// Smart-all plans come in dependency order.
// ---------------------------------------------------------------------------

/// The items of `order` that are in `visible` keep their order and hold
/// nothing twice.
proof fn lemma_visible_only_in_order(order: Seq<usize>, visible: Seq<usize>)
    requires
        order.no_duplicates(),
    ensures
        visible_only(order, visible).no_duplicates(),
        forall|t: int| 0 <= t < visible_only(order, visible).len() ==> order.contains(
            #[trigger] visible_only(order, visible)[t],
        ),
        forall|t1: int, t2: int, c1: int, c2: int|
            #![trigger order[c1], order[c2], visible_only(order, visible)[t1], visible_only(order, visible)[t2]]
            0 <= t1 < t2 < visible_only(order, visible).len() && 0 <= c1 < order.len() && 0 <= c2 < order.len()
                && order[c1] == visible_only(order, visible)[t1] && order[c2]
                == visible_only(order, visible)[t2] ==> c1 < c2,
    decreases order.len(),
{
    if order.len() > 0 {
        let prev = order.drop_last();
        let q0 = visible_only(prev, visible);
        let q = visible_only(order, visible);
        let n = order.len() - 1;
        lemma_visible_only_in_order(prev, visible);
        assert forall|t: int| 0 <= t < q0.len() implies order.contains(#[trigger] q0[t]) && q0[t] != order[n] by {
            let c = choose|c: int| 0 <= c < prev.len() && prev[c] == q0[t];
            assert(order[c] == q0[t]);
        }
        assert forall|t: int| 0 <= t < q.len() implies order.contains(#[trigger] q[t]) by {
            if t < q0.len() {
                assert(q[t] == q0[t]);
            } else {
                assert(order[n] == q[t]);
            }
        }
        assert forall|t1: int, t2: int, c1: int, c2: int|
            #![trigger order[c1], order[c2], q[t1], q[t2]]
            0 <= t1 < t2 < q.len() && 0 <= c1 < order.len() && 0 <= c2 < order.len() && order[c1] == q[t1]
                && order[c2] == q[t2] implies c1 < c2 by {
            assert(q[t1] == q0[t1]);
            let d1 = choose|d: int| 0 <= d < prev.len() && prev[d] == q0[t1];
            assert(order[d1] == order[c1]);
            if t2 < q0.len() {
                assert(q[t2] == q0[t2]);
                let d2 = choose|d: int| 0 <= d < prev.len() && prev[d] == q0[t2];
                assert(order[d2] == order[c2]);
                assert(prev[d1] == q0[t1] && prev[d2] == q0[t2]);
            } else {
                assert(q[t2] == order[n]);
                assert(c2 == n);
            }
        }
        assert forall|t1: int, t2: int| 0 <= t1 < q.len() && 0 <= t2 < q.len() && t1 != t2 implies q[t1] != q[t2] by {
            if t1 < q0.len() && t2 < q0.len() {
                assert(q[t1] == q0[t1] && q[t2] == q0[t2]);
            } else if t1 < q0.len() {
                assert(q[t1] == q0[t1]);
            } else if t2 < q0.len() {
                assert(q[t2] == q0[t2]);
            }
        }
    }
}

/// The smart plans of a list of apps keep the list's order.
proof fn lemma_smart_plans_in_order(s: StateView, idxs: Seq<usize>)
    requires
        idxs.no_duplicates(),
    ensures
        forall|t: int| 0 <= t < smart_plans(s, idxs).len() ==> idxs.contains(
            (#[trigger] smart_plans(s, idxs)[t]).app_index,
        ),
        forall|t1: int, t2: int, c1: int, c2: int|
            #![trigger idxs[c1], idxs[c2], smart_plans(s, idxs)[t1], smart_plans(s, idxs)[t2]]
            0 <= t1 < t2 < smart_plans(s, idxs).len() && 0 <= c1 < idxs.len() && 0 <= c2 < idxs.len()
                && idxs[c1] == smart_plans(s, idxs)[t1].app_index && idxs[c2]
                == smart_plans(s, idxs)[t2].app_index ==> c1 < c2,
    decreases idxs.len(),
{
    if idxs.len() > 0 {
        let prev = idxs.drop_last();
        let p0 = smart_plans(s, prev);
        let p = smart_plans(s, idxs);
        let n = idxs.len() - 1;
        lemma_smart_plans_in_order(s, prev);
        assert forall|t: int| 0 <= t < p0.len() implies idxs.contains(#[trigger] p0[t].app_index)
            && p0[t].app_index != idxs[n] by {
            let c = choose|c: int| 0 <= c < prev.len() && prev[c] == p0[t].app_index;
            assert(idxs[c] == p0[t].app_index);
        }
        assert forall|t: int| 0 <= t < p.len() implies idxs.contains((#[trigger] p[t]).app_index) by {
            if t < p0.len() {
                assert(p[t] == p0[t]);
            } else {
                assert(idxs[n] == p[t].app_index);
            }
        }
        assert forall|t1: int, t2: int, c1: int, c2: int|
            #![trigger idxs[c1], idxs[c2], p[t1], p[t2]]
            0 <= t1 < t2 < p.len() && 0 <= c1 < idxs.len() && 0 <= c2 < idxs.len() && idxs[c1] == p[t1].app_index
                && idxs[c2] == p[t2].app_index implies c1 < c2 by {
            assert(p[t1] == p0[t1]);
            let d1 = choose|d: int| 0 <= d < prev.len() && prev[d] == p0[t1].app_index;
            assert(idxs[d1] == idxs[c1]);
            if t2 < p0.len() {
                assert(p[t2] == p0[t2]);
                let d2 = choose|d: int| 0 <= d < prev.len() && prev[d] == p0[t2].app_index;
                assert(idxs[d2] == idxs[c2]);
                assert(prev[d1] == p0[t1].app_index && prev[d2] == p0[t2].app_index);
            } else {
                assert(p[t2].app_index == idxs[n]);
                assert(c2 == n);
            }
        }
    }
}

/// An app reaches itself.
proof fn lemma_reaches_self(apps: Seq<AppStatusView>, i: usize)
    ensures
        reaches(apps, i, i),
{
    let w = seq![i];
    assert(is_walk(dep_graph(apps), w));
}

/// Smart-all respects dependencies: where no dependencies form a cycle, a
/// plan of smart-all comes after the plans of the apps its app depends on.
pub proof fn lemma_smart_all_dependencies_first(s: StateView, order: Seq<usize>, a: int, b: int)
    requires
        dependency_order(s.statuses, order),
        acyclic(s.statuses),
        0 <= a < smart_plans(s, visible_only(order, s.visible)).len(),
        0 <= b < smart_plans(s, visible_only(order, s.visible)).len(),
        depends(
            s.statuses,
            smart_plans(s, visible_only(order, s.visible))[b].app_index,
            smart_plans(s, visible_only(order, s.visible))[a].app_index,
        ),
    ensures
        a < b,
{
    let q = visible_only(order, s.visible);
    let p = smart_plans(s, q);
    let i = p[b].app_index;
    let j = p[a].app_index;
    lemma_visible_only_in_order(order, s.visible);
    lemma_smart_plans_in_order(s, q);
    assert(!reaches(s.statuses, j, i));
    if a == b {
        lemma_reaches_self(s.statuses, i);
    } else if a > b {
        assert(q.contains(p[b].app_index));
        assert(q.contains(p[a].app_index));
        let db = choose|d: int| 0 <= d < q.len() && q[d] == p[b].app_index;
        let da = choose|d: int| 0 <= d < q.len() && q[d] == p[a].app_index;
        assert(db < da);
        assert(order.contains(q[db]));
        assert(order.contains(q[da]));
        let cb = choose|c: int| 0 <= c < order.len() && order[c] == q[db];
        let ca = choose|c: int| 0 <= c < order.len() && order[c] == q[da];
        assert(cb < ca);
        assert(depends(s.statuses, order[cb], j));
        assert(before(order, j, cb));
        let c = choose|c: int| 0 <= c < cb && order[c] == j;
        assert(order[c] == order[ca]);
    }
}


// ---------------------------------------------------------------------------
// Cycling through the groups.
// ---------------------------------------------------------------------------

/// The state after cycling the group filter `n` times.
pub open spec fn cycled_times(s: StateView, n: nat) -> StateView
    decreases n,
{
    if n == 0 {
        s
    } else {
        cycled(cycled_times(s, (n - 1) as nat))
    }
}

/// The groups have distinct, non-empty ids.
pub open spec fn distinct_group_ids(groups: Seq<GroupView>) -> bool {
    &&& forall|i: int| 0 <= i < groups.len() ==> (#[trigger] groups[i]).id.len() > 0
    &&& forall|i: int, j: int| 0 <= i < j < groups.len() ==> (#[trigger] groups[i]).id != (#[trigger] groups[j]).id
}

/// With distinct ids, a group's id is found at its own position.
proof fn lemma_group_position_of(groups: Seq<GroupView>, k: int)
    requires
        distinct_group_ids(groups),
        0 <= k < groups.len(),
    ensures
        group_position(groups, groups[k].id) == Some(k),
    decreases groups.len(),
{
    if k > 0 {
        let rest = groups.drop_first();
        assert(distinct_group_ids(rest)) by {
            assert forall|i: int, j: int| 0 <= i < j < rest.len() implies (#[trigger] rest[i]).id != (
            #[trigger] rest[j]).id by {
                assert(rest[i] == groups[i + 1] && rest[j] == groups[j + 1]);
            }
            assert forall|i: int| 0 <= i < rest.len() implies (#[trigger] rest[i]).id.len() > 0 by {
                assert(rest[i] == groups[i + 1]);
            }
        }
        lemma_group_position_of(rest, k - 1);
        assert(rest[k - 1] == groups[k]);
        assert(groups[0].id != groups[k].id);
    }
}

/// Tab walks through the groups in order and back: starting from "all
/// groups", the `k`-th press filters on the `k`-th group, and the press after
/// the last group comes back to all groups (where the groups have distinct,
/// non-empty ids).
pub proof fn lemma_cycle_visits_each_group(s: StateView, k: nat)
    requires
        s.active_group.len() == 0,
        s.config.groups.len() > 0,
        distinct_group_ids(s.config.groups),
        k <= s.config.groups.len() + 1,
    ensures
        cycled_times(s, k).config == s.config,
        1 <= k <= s.config.groups.len() ==> cycled_times(s, k).active_group == s.config.groups[k - 1].id,
        k == s.config.groups.len() + 1 ==> cycled_times(s, k).active_group.len() == 0,
    decreases k,
{
    let groups = s.config.groups;
    if k > 0 {
        lemma_cycle_visits_each_group(s, (k - 1) as nat);
        if k >= 2 {
            lemma_group_position_of(groups, k - 2);
            assert(groups[k - 2].id.len() > 0);
        }
    }
}


/// The reboot screen opens exactly for a finished action that succeeded and
/// asks for a reboot; any other finished action leaves the screen as it was.
/// Either way a known app's status is to be found again.
pub proof fn lemma_reboot_screen_only_on_success(s: StateView, index: usize, success: bool, reboot: bool)
    ensures
        ({
            let (t, recheck) = event_result(s, AppEventView::ActionFinished { index, success, reboot });
            &&& !(success && reboot) ==> t == s
            &&& success && reboot ==> t.screen is RebootRequired
            &&& recheck == if index < s.config.apps.len() { Some(index) } else { None }
        }),
{
}

/// Queueing and launching use the command map named by the action: for an
/// app to take an action it needs commands for the distro in that very map,
/// and the command group of a plan runs those commands.
pub proof fn lemma_actions_use_their_commands(s: StateView, p: ActionPlan)
    ensures
        ({
            let i = p.app_index;
            let app = s.statuses[i as int].app;
            &&& can_run(s, i, Action::Install) <==> i < s.statuses.len() && s.statuses[i as int].supported
                && selected(app.install, s.distro) is Some
            &&& can_run(s, i, Action::Update) <==> i < s.statuses.len() && s.statuses[i as int].supported
                && selected(app.update, s.distro) is Some
            &&& can_run(s, i, Action::Uninstall) <==> i < s.statuses.len() && s.statuses[i as int].supported
                && selected(app.uninstall, s.distro) is Some
            &&& plan_group(s, p) matches Some(g) ==> g.group_id == i && i < s.statuses.len() && (p.action
                == Action::Install ==> selected(app.install, s.distro) == Some(g.commands)) && (p.action
                == Action::Update ==> selected(app.update, s.distro) == Some(g.commands)) && (p.action
                == Action::Uninstall ==> selected(app.uninstall, s.distro) == Some(g.commands))
        }),
{
}

} // verus!
