//! The state of the interface: apps, statuses, visible rows, selection,
//! cursor, screen and log.
use vstd::prelude::*;
use crate::config::{GroupConfig, PackageConfig, PackageView, AppView};
use crate::manager::{select_commands, selected, AppStatus, AppStatusView, Distro};
use crate::selection::IndexSet;
use crate::text::{owned, str_eq};

verus! {

/// What can be done to an app.
#[derive(Clone, Copy, Debug, PartialEq, Eq, Structural)]
pub enum Action {
    Install,
    Update,
    Uninstall,
}

/// The name of an action.
pub open spec fn action_name(a: Action) -> Seq<char> {
    match a {
        Action::Install => "install"@,
        Action::Update => "update"@,
        Action::Uninstall => "uninstall"@,
    }
}

impl Action {
    /// The name of the action, as `reboot_on` and the log write it.
    pub fn as_str(&self) -> (s: &'static str)
        ensures
            s@ == action_name(*self),
    {
        match self {
            Action::Install => "install",
            Action::Update => "update",
            Action::Uninstall => "uninstall",
        }
    }
}

/// The command map of an app that an action uses.
pub open spec fn action_commands(app: AppView, a: Action) -> Map<Seq<char>, Seq<Seq<char>>> {
    match a {
        Action::Install => app.install,
        Action::Update => app.update,
        Action::Uninstall => app.uninstall,
    }
}

/// One action to run on one app.
#[derive(Clone, Copy, Debug, PartialEq, Eq, Structural)]
pub struct ActionPlan {
    pub app_index: usize,
    pub action: Action,
}

/// The screen shown.
#[derive(Debug, PartialEq, Eq)]
pub enum Screen {
    Main,
    RebootRequired { app_name: String, pending: Vec<String> },
}

/// What a screen is.
pub enum ScreenView {
    Main,
    RebootRequired { app_name: Seq<char>, pending: Seq<Seq<char>> },
}

impl View for Screen {
    type V = ScreenView;

    open spec fn view(&self) -> ScreenView {
        match self {
            Screen::Main => ScreenView::Main,
            Screen::RebootRequired { app_name, pending } => ScreenView::RebootRequired {
                app_name: app_name@,
                pending: pending.deep_view(),
            },
        }
    }
}

impl Screen {
    /// Whether this is the main screen.
    pub fn is_main(&self) -> (r: bool)
        ensures
            r == (self@ == ScreenView::Main),
    {
        match self {
            Screen::Main => true,
            _ => false,
        }
    }
}

/// What the background work reports.
pub enum AppEvent {
    StatusesLoaded(Vec<AppStatus>),
    CommandOutput(String),
    ActionFinished { index: usize, success: bool, reboot: bool },
    AllPlansFinished,
    Error(String),
}

/// What a background report is.
pub enum AppEventView {
    StatusesLoaded(Seq<AppStatusView>),
    CommandOutput(Seq<char>),
    ActionFinished { index: usize, success: bool, reboot: bool },
    AllPlansFinished,
    Error(Seq<char>),
}

impl View for AppEvent {
    type V = AppEventView;

    open spec fn view(&self) -> AppEventView {
        match self {
            AppEvent::StatusesLoaded(s) => AppEventView::StatusesLoaded(s.deep_view()),
            AppEvent::CommandOutput(l) => AppEventView::CommandOutput(l@),
            AppEvent::ActionFinished { index, success, reboot } => AppEventView::ActionFinished {
                index: *index,
                success: *success,
                reboot: *reboot,
            },
            AppEvent::AllPlansFinished => AppEventView::AllPlansFinished,
            AppEvent::Error(m) => AppEventView::Error(m@),
        }
    }
}

/// The most log lines kept.
pub const MAX_LOG_LINES: usize = 500;

/// The log after one more line: the oldest line goes once there are more
/// than `MAX_LOG_LINES`.
pub open spec fn pushed_log(log: Seq<Seq<char>>, line: Seq<char>) -> Seq<Seq<char>> {
    if log.len() + 1 > MAX_LOG_LINES {
        log.push(line).drop_first()
    } else {
        log.push(line)
    }
}

/// The log after pushing each line in turn.
pub open spec fn pushed_lines(log: Seq<Seq<char>>, lines: Seq<Seq<char>>) -> Seq<Seq<char>>
    decreases lines.len(),
{
    if lines.len() == 0 {
        log
    } else {
        pushed_log(pushed_lines(log, lines.drop_last()), lines.last())
    }
}

/// The indices of the apps in `group`, in order; every app for the empty group.
pub open spec fn group_rows(apps: Seq<AppView>, group: Seq<char>) -> Seq<usize>
    decreases apps.len(),
{
    if apps.len() == 0 {
        Seq::empty()
    } else {
        let r = group_rows(apps.drop_last(), group);
        if group.len() == 0 || apps.last().group == group {
            r.push((apps.len() - 1) as usize)
        } else {
            r
        }
    }
}

/// The selection after toggling `idx`.
pub open spec fn toggled(s: Set<usize>, idx: usize) -> Set<usize> {
    if s.contains(idx) {
        s.remove(idx)
    } else {
        s.insert(idx)
    }
}

/// The interface state.
pub struct AppState {
    pub config: PackageConfig,
    pub config_path: String,
    pub distro: Distro,
    pub dry_run: bool,
    pub statuses: Vec<AppStatus>,
    pub visible_indices: Vec<usize>,
    pub selected_indices: IndexSet,
    pub active_group: String,
    pub table_cursor: usize,
    pub screen: Screen,
    pub busy: bool,
    pub log_lines: Vec<String>,
    pub detail_scroll: u16,
    pub pending_plans: Vec<ActionPlan>,
}

/// What the interface state is.
pub struct StateView {
    pub config: PackageView,
    pub config_path: Seq<char>,
    pub distro: Distro,
    pub dry_run: bool,
    pub statuses: Seq<AppStatusView>,
    pub visible: Seq<usize>,
    pub selected: Set<usize>,
    pub active_group: Seq<char>,
    pub cursor: usize,
    pub screen: ScreenView,
    pub busy: bool,
    pub log: Seq<Seq<char>>,
    pub detail_scroll: u16,
    pub pending: Seq<ActionPlan>,
}

impl View for AppState {
    type V = StateView;

    open spec fn view(&self) -> StateView {
        StateView {
            config: self.config@,
            config_path: self.config_path@,
            distro: self.distro,
            dry_run: self.dry_run,
            statuses: self.statuses.deep_view(),
            visible: self.visible_indices@,
            selected: self.selected_indices@,
            active_group: self.active_group@,
            cursor: self.table_cursor,
            screen: self.screen@,
            busy: self.busy,
            log: self.log_lines.deep_view(),
            detail_scroll: self.detail_scroll,
            pending: self.pending_plans@,
        }
    }
}

impl StateView {
    /// The apps an action applies to: the selection in increasing order, or
    /// else the app under the cursor, or else none.
    pub open spec fn targets(self) -> Seq<usize> {
        if self.selected != Set::<usize>::empty() {
            crate::selection::sorted_list(self.selected)
        } else {
            match self.current() {
                Some(i) => seq![i],
                None => Seq::empty(),
            }
        }
    }

    /// The app index under the cursor.
    pub open spec fn current(self) -> Option<usize> {
        if self.cursor < self.visible.len() {
            Some(self.visible[self.cursor as int])
        } else {
            None
        }
    }

    /// Every visible row names an app of the configuration.
    pub open spec fn rows_valid(self) -> bool {
        forall|k: int| 0 <= k < self.visible.len() ==> #[trigger] self.visible[k] < self.config.apps.len()
    }

    /// The cursor is on a visible row, or at the top of an empty list.
    pub open spec fn cursor_in_range(self) -> bool {
        if self.visible.len() == 0 {
            self.cursor == 0
        } else {
            self.cursor < self.visible.len()
        }
    }

    /// The action that fits an app's status: update an installed app that
    /// has update commands, install a missing app that has install commands.
    pub open spec fn smart(self, idx: usize) -> Option<Action> {
        if idx < self.statuses.len() {
            let s = self.statuses[idx as int];
            if !s.supported {
                None
            } else if s.installed {
                if selected(s.app.update, self.distro) is Some {
                    Some(Action::Update)
                } else {
                    None
                }
            } else {
                if selected(s.app.install, self.distro) is Some {
                    Some(Action::Install)
                } else {
                    None
                }
            }
        } else {
            None
        }
    }
}

/// The indices `0..n`.
pub fn all_rows(n: usize) -> (v: Vec<usize>)
    ensures
        v@ == Seq::new(n as nat, |i: int| i as usize),
{
    let mut v: Vec<usize> = Vec::new();
    let mut i: usize = 0;
    while i < n
        invariant
            i <= n,
            v@ == Seq::new(i as nat, |k: int| k as usize),
        decreases n - i,
    {
        v.push(i);
        i = i + 1;
        assert(v@ =~= Seq::new(i as nat, |k: int| k as usize));
    }
    v
}

proof fn lemma_group_rows_all(apps: Seq<AppView>)
    ensures
        group_rows(apps, Seq::empty()) == Seq::new(apps.len(), |i: int| i as usize),
    decreases apps.len(),
{
    if apps.len() > 0 {
        lemma_group_rows_all(apps.drop_last());
        assert(group_rows(apps, Seq::empty()) =~= Seq::new(apps.len(), |i: int| i as usize));
    }
}

/// Every row of a group filter names one of the apps.
pub proof fn lemma_group_rows_in_range(apps: Seq<AppView>, group: Seq<char>)
    ensures
        forall|k: int| 0 <= k < group_rows(apps, group).len() ==> #[trigger] group_rows(apps, group)[k] < apps.len(),
    decreases apps.len(),
{
    if apps.len() > 0 {
        lemma_group_rows_in_range(apps.drop_last(), group);
        let r = group_rows(apps.drop_last(), group);
        assert forall|k: int| 0 <= k < group_rows(apps, group).len() implies #[trigger] group_rows(apps, group)[k]
            < apps.len() by {
            if k < r.len() {
                assert(r[k] < apps.drop_last().len());
            }
        }
    }
}

impl AppState {
    /// The state is consistent: the selection list is sorted.
    pub open spec fn wf(&self) -> bool {
        self.selected_indices.wf()
    }

    /// A fresh state for a configuration: every app visible, nothing
    /// selected, no statuses yet, the main screen.
    pub fn new(config: PackageConfig, config_path: String, distro: Distro, dry_run: bool) -> (s: Self)
        ensures
            s.wf(),
            s@ == (StateView {
                config: config@,
                config_path: config_path@,
                distro,
                dry_run,
                statuses: Seq::empty(),
                visible: Seq::new(config@.apps.len(), |i: int| i as usize),
                selected: Set::empty(),
                active_group: Seq::empty(),
                cursor: 0,
                screen: ScreenView::Main,
                busy: false,
                log: Seq::empty(),
                detail_scroll: 0,
                pending: Seq::empty(),
            }),
            s@.rows_valid(),
    {
        let visible_indices = all_rows(config.apps.len());
        let s = AppState {
            config,
            config_path,
            distro,
            dry_run,
            statuses: Vec::new(),
            visible_indices,
            selected_indices: IndexSet::new(),
            active_group: String::new(),
            table_cursor: 0,
            screen: Screen::Main,
            busy: false,
            log_lines: Vec::new(),
            detail_scroll: 0,
            pending_plans: Vec::new(),
        };
        assert(s.statuses.deep_view() =~= Seq::<AppStatusView>::empty());
        assert(s.log_lines.deep_view() =~= Seq::<Seq<char>>::empty());
        s
    }

    /// Whether the state is consistent.
    pub fn is_well_formed(&self) -> (r: bool)
        ensures
            r == self.wf(),
    {
        self.selected_indices.is_well_formed()
    }

    /// Whether every visible row names an app of the configuration.
    pub fn rows_valid(&self) -> (r: bool)
        ensures
            r == self@.rows_valid(),
    {
        let mut i: usize = 0;
        while i < self.visible_indices.len()
            invariant
                i <= self.visible_indices@.len(),
                forall|k: int| 0 <= k < i ==> #[trigger] self.visible_indices@[k] < self.config.apps@.len(),
            decreases self.visible_indices.len() - i,
        {
            if self.visible_indices[i] >= self.config.apps.len() {
                assert(self@.config.apps.len() == self.config.apps@.len());
                assert(self@.visible[i as int] >= self@.config.apps.len());
                return false;
            }
            i = i + 1;
        }
        true
    }

    /// The app index under the cursor.
    pub fn current_real_index(&self) -> (r: Option<usize>)
        ensures
            r == self@.current(),
    {
        if self.table_cursor < self.visible_indices.len() {
            Some(self.visible_indices[self.table_cursor])
        } else {
            None
        }
    }

    /// The apps an action applies to: the selection in increasing order, or
    /// else the app under the cursor, or else none.
    pub fn target_indices(&self) -> (r: Vec<usize>)
        requires
            self.wf(),
        ensures
            r@ == self@.targets(),
            self@.selected != Set::<usize>::empty() ==> crate::selection::strictly_sorted(r@)
                && r@.to_set() == self@.selected,
    {
        if !self.selected_indices.is_empty() {
            self.selected_indices.sorted()
        } else {
            match self.current_real_index() {
                Some(idx) => {
                    let mut v: Vec<usize> = Vec::new();
                    v.push(idx);
                    assert(v@ =~= seq![idx]);
                    v
                },
                None => {
                    let v: Vec<usize> = Vec::new();
                    assert(v@ =~= Seq::<usize>::empty());
                    v
                },
            }
        }
    }

    /// Selects the app under the cursor, or deselects it if it was selected.
    pub fn toggle_selection(&mut self)
        requires
            old(self).wf(),
        ensures
            final(self).wf(),
            final(self)@ == (StateView {
                selected: match old(self)@.current() {
                    Some(i) => toggled(old(self)@.selected, i),
                    None => old(self)@.selected,
                },
                ..old(self)@
            }),
    {
        if let Some(idx) = self.current_real_index() {
            if self.selected_indices.contains(&idx) {
                self.selected_indices.remove(&idx);
            } else {
                self.selected_indices.insert(idx);
            }
        }
    }

    /// Deselects every app.
    pub fn clear_selection(&mut self)
        ensures
            final(self).wf(),
            final(self)@ == (StateView { selected: Set::empty(), ..old(self)@ }),
    {
        self.selected_indices.clear();
    }

    /// Moves the cursor one row up, if it is not on the first row.
    pub fn move_cursor_up(&mut self)
        ensures
            final(self).wf() == old(self).wf(),
            final(self)@ == (StateView {
                cursor: if old(self)@.cursor > 0 {
                    (old(self)@.cursor - 1) as usize
                } else {
                    0
                },
                ..old(self)@
            }),
            old(self)@.cursor_in_range() ==> final(self)@.cursor_in_range(),
    {
        if self.table_cursor > 0 {
            self.table_cursor = self.table_cursor - 1;
        }
    }

    /// Moves the cursor one row down, if it is above the last visible row.
    pub fn move_cursor_down(&mut self)
        ensures
            final(self).wf() == old(self).wf(),
            final(self)@ == (StateView {
                cursor: if old(self)@.visible.len() > 0 && old(self)@.cursor + 1 < old(
                    self,
                )@.visible.len() {
                    (old(self)@.cursor + 1) as usize
                } else {
                    old(self)@.cursor
                },
                ..old(self)@
            }),
            old(self)@.cursor_in_range() ==> final(self)@.cursor_in_range(),
    {
        if !self.visible_indices.is_empty() && self.table_cursor < self.visible_indices.len() - 1 {
            self.table_cursor = self.table_cursor + 1;
        }
    }

    /// Shows only the apps of `group` (all apps for the empty group), with
    /// the cursor on the first row and nothing selected.
    pub fn apply_group_filter(&mut self, group: &str)
        ensures
            final(self).wf(),
            final(self)@ == (StateView {
                active_group: group@,
                visible: group_rows(old(self)@.config.apps, group@),
                cursor: 0,
                selected: Set::empty(),
                ..old(self)@
            }),
            final(self)@.cursor_in_range(),
            final(self)@.rows_valid(),
    {
        proof {
            lemma_group_rows_in_range(self@.config.apps, group@);
        }
        self.active_group = owned(group);
        let n = self.config.apps.len();
        let ghost apps = self.config@.apps;
        if group.is_empty() {
            self.visible_indices = all_rows(n);
            proof {
                lemma_group_rows_all(apps);
                assert(group@ =~= Seq::<char>::empty());
            }
        } else {
            let mut rows: Vec<usize> = Vec::new();
            let mut i: usize = 0;
            while i < n
                invariant
                    i <= n,
                    n == self.config.apps@.len(),
                    apps == self.config@.apps,
                    group@.len() > 0,
                    rows@ == group_rows(apps.take(i as int), group@),
                decreases n - i,
            {
                assert(apps.take(i + 1).drop_last() =~= apps.take(i as int));
                assert(apps.take(i + 1).last() == self.config.apps@[i as int]@);
                if str_eq(self.config.apps[i].group.as_str(), group) {
                    rows.push(i);
                }
                i = i + 1;
            }
            assert(apps.take(i as int) =~= apps);
            self.visible_indices = rows;
        }
        self.table_cursor = 0;
        self.selected_indices.clear();
    }

    /// The action that fits the status of app `idx`, if any.
    pub fn smart_action(&self, idx: usize) -> (r: Option<Action>)
        ensures
            r == self@.smart(idx),
    {
        if idx >= self.statuses.len() {
            return None;
        }
        let status = &self.statuses[idx];
        assert(self@.statuses[idx as int] == status@);
        if !status.supported {
            return None;
        }
        if status.installed {
            if select_commands(&status.app.update, &self.distro).is_some() {
                Some(Action::Update)
            } else {
                None
            }
        } else {
            if select_commands(&status.app.install, &self.distro).is_some() {
                Some(Action::Install)
            } else {
                None
            }
        }
    }

    /// The groups of the configuration, in order.
    pub fn groups(&self) -> (r: Vec<&GroupConfig>)
        ensures
            r@.len() == self.config.groups@.len(),
            forall|i: int| 0 <= i < r@.len() ==> *r@[i] == self.config.groups@[i],
    {
        let mut r: Vec<&GroupConfig> = Vec::new();
        let mut i: usize = 0;
        while i < self.config.groups.len()
            invariant
                i <= self.config.groups@.len(),
                r@.len() == i,
                forall|k: int| 0 <= k < i ==> *r@[k] == self.config.groups@[k],
            decreases self.config.groups.len() - i,
        {
            r.push(&self.config.groups[i]);
            i = i + 1;
        }
        r
    }

    /// Adds a line to the log, dropping the oldest line past `MAX_LOG_LINES`.
    pub fn push_log(&mut self, line: String)
        ensures
            final(self).wf() == old(self).wf(),
            final(self)@ == (StateView { log: pushed_log(old(self)@.log, line@), ..old(self)@ }),
    {
        let ghost lv = line@;
        crate::status::push_string(&mut self.log_lines, line);
        if self.log_lines.len() > MAX_LOG_LINES {
            let ghost before = self.log_lines.deep_view();
            let ghost before_v = self.log_lines@;
            self.log_lines.remove(0);
            assert(self.log_lines@ =~= before_v.drop_first());
            assert(self.log_lines.deep_view() =~= before.drop_first());
        }
    }
}

/// However many lines are pushed to an empty log, it holds the last
/// `MAX_LOG_LINES` of them (all of them while there are fewer).
pub proof fn lemma_log_keeps_last_lines(lines: Seq<Seq<char>>)
    ensures
        pushed_lines(Seq::empty(), lines) == if lines.len() > MAX_LOG_LINES {
            lines.skip(lines.len() - MAX_LOG_LINES)
        } else {
            lines
        },
    decreases lines.len(),
{
    if lines.len() > 0 {
        let prev = lines.drop_last();
        lemma_log_keeps_last_lines(prev);
        if lines.len() > MAX_LOG_LINES {
            if prev.len() > MAX_LOG_LINES {
                assert(prev.skip(prev.len() - MAX_LOG_LINES).push(lines.last()).drop_first() =~= lines.skip(
                    lines.len() - MAX_LOG_LINES,
                ));
            } else {
                assert(prev.push(lines.last()).drop_first() =~= lines.skip(lines.len() - MAX_LOG_LINES));
            }
        } else {
            assert(prev.push(lines.last()) =~= lines);
        }
    }
}

/// Toggling the same app twice leaves the selection as it was.
pub proof fn lemma_toggle_twice(s: Set<usize>, idx: usize)
    ensures
        toggled(toggled(s, idx), idx) == s,
{
    if s.contains(idx) {
        assert(toggled(toggled(s, idx), idx) =~= s);
    } else {
        assert(toggled(toggled(s, idx), idx) =~= s);
    }
}


/// The smart action fits the app's status: an installed app is only ever
/// updated, and only when it has update commands for the distro; a missing
/// app is only ever installed, and only when it has install commands; an
/// unsupported or unknown app gets none.
pub proof fn lemma_smart_fits_status(s: StateView, idx: usize)
    ensures
        s.smart(idx) is Some ==> idx < s.statuses.len() && s.statuses[idx as int].supported,
        idx < s.statuses.len() && s.statuses[idx as int].installed ==> s.smart(idx) != Some(Action::Install),
        idx < s.statuses.len() && !s.statuses[idx as int].installed ==> s.smart(idx) != Some(Action::Update),
        s.smart(idx) != Some(Action::Uninstall),
        s.smart(idx) == Some(Action::Update) ==> selected(s.statuses[idx as int].app.update, s.distro) is Some,
        s.smart(idx) == Some(Action::Install) ==> selected(s.statuses[idx as int].app.install, s.distro) is Some,
        idx < s.statuses.len() && s.statuses[idx as int].supported && s.statuses[idx as int].installed && selected(
            s.statuses[idx as int].app.update,
            s.distro,
        ) is None ==> s.smart(idx) is None,
        idx < s.statuses.len() && s.statuses[idx as int].supported && !s.statuses[idx as int].installed && selected(
            s.statuses[idx as int].app.install,
            s.distro,
        ) is Some ==> s.smart(idx) == Some(Action::Install),
        idx < s.statuses.len() && s.statuses[idx as int].supported && s.statuses[idx as int].installed && selected(
            s.statuses[idx as int].app.update,
            s.distro,
        ) is Some ==> s.smart(idx) == Some(Action::Update),
{
}

/// Each action takes the commands of its own command map.
pub proof fn lemma_action_commands_named(app: AppView)
    ensures
        action_commands(app, Action::Install) == app.install,
        action_commands(app, Action::Update) == app.update,
        action_commands(app, Action::Uninstall) == app.uninstall,
{
}

} // verus!
