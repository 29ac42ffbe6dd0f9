//! What the screens show: status labels, the header, summary and group
//! lines, the rows of the app table, the details of the app under the
//! cursor, the log window, and where panes and dialogs go.
use vstd::prelude::*;
use crate::app::{Action, AppState, StateView};
use crate::manager::{action_requires_reboot, distro_key, needs_reboot, select_commands, selected, AppStatus, AppStatusView};
use crate::config::{GroupConfig, GroupView};
use crate::text::{append, chars_of, owned, str_eq, trim, trimmed, usize_to_string, decimal};

verus! {

// ---------------------------------------------------------------------------
// Status labels.
// ---------------------------------------------------------------------------

/// The colours that labels and log lines are painted in.
#[derive(Clone, Copy, Debug, PartialEq, Eq, Structural)]
pub enum Tone {
    DarkGray,
    Green,
    Yellow,
    Red,
}

/// How a status is shown in the table: its text, colour and weight.
#[derive(Clone, Copy, Debug, PartialEq, Eq)]
pub struct StatusLabel {
    pub text: &'static str,
    pub color: Tone,
    pub bold: bool,
}

/// The label of a status: `SKIP` where the distro is not supported; `OK  `
/// for an installed app that can be updated, `OK ~` for one that cannot;
/// `MISS` for a missing app that can be installed, `MISS!` for one that
/// cannot.
pub open spec fn label_of(s: AppStatusView) -> (Seq<char>, Tone, bool) {
    if !s.supported {
        ("SKIP"@, Tone::DarkGray, false)
    } else if s.installed {
        if s.app.update != Map::<Seq<char>, Seq<Seq<char>>>::empty() {
            ("OK  "@, Tone::Green, true)
        } else {
            ("OK ~"@, Tone::Yellow, true)
        }
    } else if s.app.install != Map::<Seq<char>, Seq<Seq<char>>>::empty() {
        ("MISS"@, Tone::Red, false)
    } else {
        ("MISS!"@, Tone::Red, true)
    }
}

/// The label of a status.
pub fn status_label(status: &AppStatus) -> (r: StatusLabel)
    ensures
        (r.text@, r.color, r.bold) == label_of(status@),
{
    if !status.supported {
        return StatusLabel { text: "SKIP", color: Tone::DarkGray, bold: false };
    }
    let has_update = !status.app.update.is_empty();
    if status.installed {
        if has_update {
            StatusLabel { text: "OK  ", color: Tone::Green, bold: true }
        } else {
            StatusLabel { text: "OK ~", color: Tone::Yellow, bold: true }
        }
    } else {
        let has_install = !status.app.install.is_empty();
        if has_install {
            StatusLabel { text: "MISS", color: Tone::Red, bold: false }
        } else {
            StatusLabel { text: "MISS!", color: Tone::Red, bold: true }
        }
    }
}

/// The word for the smart action of an app.
pub open spec fn smart_word(a: Option<Action>) -> Seq<char> {
    match a {
        Some(Action::Install) => "install"@,
        Some(Action::Update) => "update"@,
        _ => "nenhuma"@,
    }
}

/// The word for the smart action of app `idx`: `install`, `update`, or
/// `nenhuma` where there is none.
pub fn smart_action_label(state: &AppState, idx: usize) -> (r: &'static str)
    ensures
        r@ == smart_word(state@.smart(idx)),
{
    match state.smart_action(idx) {
        Some(Action::Install) => "install",
        Some(Action::Update) => "update",
        _ => "nenhuma",
    }
}

// ---------------------------------------------------------------------------
// Placement.
// ---------------------------------------------------------------------------

/// A rectangle of terminal cells.
#[derive(Clone, Copy, Debug, PartialEq, Eq, Structural)]
pub struct Rect {
    pub x: u16,
    pub y: u16,
    pub width: u16,
    pub height: u16,
}

/// `a - b`, or 0 where `b` is larger.
pub open spec fn less_by(a: int, b: int) -> int {
    if a > b {
        a - b
    } else {
        0
    }
}

/// The smaller of two numbers.
pub open spec fn smaller(a: int, b: int) -> int {
    if a < b {
        a
    } else {
        b
    }
}

/// A rectangle of at most `width` by `height` cells, centred in `area` and
/// no larger than it.
pub fn centered_rect(width: u16, height: u16, area: Rect) -> (r: Rect)
    requires
        area.x + less_by(area.width as int, width as int) / 2 <= u16::MAX,
        area.y + less_by(area.height as int, height as int) / 2 <= u16::MAX,
    ensures
        r.x == area.x + less_by(area.width as int, width as int) / 2,
        r.y == area.y + less_by(area.height as int, height as int) / 2,
        r.width == smaller(width as int, area.width as int),
        r.height == smaller(height as int, area.height as int),
{
    let x = area.x + area.width.saturating_sub(width) / 2;
    let y = area.y + area.height.saturating_sub(height) / 2;
    Rect {
        x,
        y,
        width: if width < area.width { width } else { area.width },
        height: if height < area.height { height } else { area.height },
    }
}

/// The width of the app pane: the wanted width, at least 20, but leaving
/// two cells of the total.
pub open spec fn left_width(wanted: u16, total: u16) -> int {
    smaller(if wanted < 20 { 20 } else { wanted as int }, less_by(total as int, 2))
}

/// The widths of the app pane and of the details pane beside it, with one
/// cell between them, for a wanted app pane width and the total width.
pub fn pane_widths(wanted: u16, total: u16) -> (r: (u16, u16))
    ensures
        r.0 == left_width(wanted, total),
        r.1 == less_by(total as int, r.0 + 1),
{
    let at_least = if wanted < 20 { 20 } else { wanted };
    let room = total.saturating_sub(2);
    let left = if at_least < room { at_least } else { room };
    let right = total.saturating_sub(left + 1);
    (left, right)
}

/// The height of the reboot dialog for `pending` items: six lines and one
/// per item (the count taken as a `u16`), at most 20.
pub fn reboot_dialog_height(pending: usize) -> (h: u16)
    requires
        (pending as u16) < 65530,
    ensures
        h == smaller(6 + (pending as u16), 20),
{
    let n: u16 = #[verifier::truncate] (pending as u16);
    let h: u16 = 6 + n;
    if h < 20 {
        h
    } else {
        20
    }
}

// ---------------------------------------------------------------------------
// Header, summary and group lines.
// ---------------------------------------------------------------------------

/// The header line: the distro, then the dry-run mark and the busy mark.
pub open spec fn header_of(s: StateView) -> Seq<char> {
    " Settupper — "@ + distro_key(s.distro) + " "@
        + (if s.dry_run { " [DRY-RUN]"@ } else { Seq::empty() })
        + (if s.busy { " ⟳"@ } else { Seq::empty() })
}

/// The header line of the main screen.
pub fn header_text(state: &AppState) -> (r: String)
    ensures
        r@ == header_of(state@),
{
    let mut r = owned(" Settupper — ");
    append(&mut r, state.distro.as_str());
    append(&mut r, " ");
    if state.dry_run {
        append(&mut r, " [DRY-RUN]");
    }
    if state.busy {
        append(&mut r, " ⟳");
    }
    r
}

/// How many statuses have a property.
pub open spec fn count_where(s: Seq<AppStatusView>, p: spec_fn(AppStatusView) -> bool) -> nat
    decreases s.len(),
{
    if s.len() == 0 {
        0
    } else {
        count_where(s.drop_last(), p) + if p(s.last()) { 1nat } else { 0nat }
    }
}

/// An installed app on a supported distro.
pub open spec fn is_ok(s: AppStatusView) -> bool {
    s.installed && s.supported
}

/// A missing app on a supported distro.
pub open spec fn is_missing(s: AppStatusView) -> bool {
    !s.installed && s.supported
}

/// An app that the distro does not support.
pub open spec fn is_skipped(s: AppStatusView) -> bool {
    !s.supported
}

proof fn lemma_count_bound(s: Seq<AppStatusView>, p: spec_fn(AppStatusView) -> bool)
    ensures
        count_where(s, p) <= s.len(),
    decreases s.len(),
{
    if s.len() > 0 {
        lemma_count_bound(s.drop_last(), p);
    }
}

/// The numbers of installed, missing and skipped apps.
fn status_counts(statuses: &Vec<AppStatus>) -> (r: (usize, usize, usize))
    ensures
        r.0 == count_where(statuses.deep_view(), |s: AppStatusView| is_ok(s)),
        r.1 == count_where(statuses.deep_view(), |s: AppStatusView| is_missing(s)),
        r.2 == count_where(statuses.deep_view(), |s: AppStatusView| is_skipped(s)),
{
    let ghost v = statuses.deep_view();
    let mut a: usize = 0;
    let mut b: usize = 0;
    let mut c: usize = 0;
    let mut i: usize = 0;
    while i < statuses.len()
        invariant
            i <= statuses@.len(),
            v == statuses.deep_view(),
            a == count_where(v.take(i as int), |s: AppStatusView| is_ok(s)),
            b == count_where(v.take(i as int), |s: AppStatusView| is_missing(s)),
            c == count_where(v.take(i as int), |s: AppStatusView| is_skipped(s)),
        decreases statuses.len() - i,
    {
        proof {
            assert(v.take(i + 1).drop_last() =~= v.take(i as int));
            assert(v.take(i + 1).last() == statuses@[i as int]@);
            lemma_count_bound(v.take(i as int), |s: AppStatusView| is_ok(s));
            lemma_count_bound(v.take(i as int), |s: AppStatusView| is_missing(s));
            lemma_count_bound(v.take(i as int), |s: AppStatusView| is_skipped(s));
        }
        let s = &statuses[i];
        if s.installed && s.supported {
            a = a + 1;
        }
        if !s.installed && s.supported {
            b = b + 1;
        }
        if !s.supported {
            c = c + 1;
        }
        i = i + 1;
    }
    assert(v.take(i as int) =~= v);
    (a, b, c)
}

/// The summary line: the numbers of installed, missing and skipped apps,
/// and of selected apps where there are any.
pub open spec fn summary_of(s: StateView) -> Seq<char> {
    " OK:"@ + decimal(count_where(s.statuses, |x: AppStatusView| is_ok(x)))
        + " MISS:"@ + decimal(count_where(s.statuses, |x: AppStatusView| is_missing(x)))
        + " SKIP:"@ + decimal(count_where(s.statuses, |x: AppStatusView| is_skipped(x)))
        + (if s.selected.len() > 0 { "  sel:"@ + decimal(s.selected.len()) } else { Seq::empty() })
}

/// The summary line above the app table.
pub fn summary_text(state: &AppState) -> (r: String)
    requires
        state.wf(),
    ensures
        r@ == summary_of(state@),
{
    let (ok, missing, skipped) = status_counts(&state.statuses);
    let sel = state.selected_indices.len();
    let mut r = owned(" OK:");
    append(&mut r, usize_to_string(ok).as_str());
    append(&mut r, " MISS:");
    append(&mut r, usize_to_string(missing).as_str());
    append(&mut r, " SKIP:");
    append(&mut r, usize_to_string(skipped).as_str());
    if sel > 0 {
        append(&mut r, "  sel:");
        append(&mut r, usize_to_string(sel).as_str());
    }
    r
}

/// The name of the first group with id `id`, if any.
pub open spec fn group_name(groups: Seq<GroupView>, id: Seq<char>) -> Option<Seq<char>>
    decreases groups.len(),
{
    if groups.len() == 0 {
        None
    } else if groups[0].id == id {
        Some(groups[0].name)
    } else {
        group_name(groups.drop_first(), id)
    }
}

/// The group filter line: `Todos` without a filter, else the name of the
/// group filtered on, or its id where no group has it.
pub open spec fn group_line_of(s: StateView) -> Seq<char> {
    let current = if s.active_group.len() == 0 {
        "Todos"@
    } else {
        match group_name(s.config.groups, s.active_group) {
            Some(n) => n,
            None => s.active_group,
        }
    };
    " Grupo: ["@ + current + "] (tab)"@
}

/// The name of the first group with id `id`.
fn find_group_name<'a>(groups: &'a Vec<GroupConfig>, id: &str) -> (r: Option<&'a String>)
    ensures
        match r {
            Some(n) => group_name(groups.deep_view(), id@) == Some(n@),
            None => group_name(groups.deep_view(), id@) is None,
        },
{
    let ghost gv = groups.deep_view();
    let mut i: usize = 0;
    assert(gv.skip(0) =~= gv);
    while i < groups.len()
        invariant
            i <= groups@.len(),
            gv == groups.deep_view(),
            group_name(gv, id@) == group_name(gv.skip(i as int), id@),
        decreases groups.len() - i,
    {
        assert(gv.skip(i as int)[0] == groups@[i as int]@);
        assert(gv.skip(i as int).drop_first() =~= gv.skip(i + 1));
        if str_eq(groups[i].id.as_str(), id) {
            return Some(&groups[i].name);
        }
        i = i + 1;
    }
    assert(gv.skip(i as int) =~= Seq::<GroupView>::empty());
    None
}

/// The group filter line above the app table.
pub fn group_filter_text(state: &AppState) -> (r: String)
    ensures
        r@ == group_line_of(state@),
{
    let mut r = owned(" Grupo: [");
    if state.active_group.as_str().is_empty() {
        append(&mut r, "Todos");
    } else {
        match find_group_name(&state.config.groups, state.active_group.as_str()) {
            Some(name) => append(&mut r, name.as_str()),
            None => append(&mut r, state.active_group.as_str()),
        }
    }
    append(&mut r, "] (tab)");
    r
}

// ---------------------------------------------------------------------------
// The log window.
// ---------------------------------------------------------------------------

/// How a log line is painted.
#[derive(Clone, Copy, Debug, PartialEq, Eq, Structural)]
pub enum LogTone {
    /// A command that runs: cyan and bold.
    Command,
    /// A success: green.
    Success,
    /// A failure: red.
    Failure,
    /// Anything else.
    Plain,
}

/// Whether `part` occurs in `s`.
pub open spec fn has_part(s: Seq<char>, part: Seq<char>) -> bool {
    exists|i: int| 0 <= i && i + part.len() <= s.len() && #[trigger] s.subrange(i, i + part.len()) == part
}

/// The tone of a log line: a command for a line that starts with `$`; a
/// success for one that holds `exit=0` or `OK`; a failure for one that holds
/// `exit=1`, `ERRO` or `error`.
pub open spec fn log_tone_of(line: Seq<char>) -> LogTone {
    if line.len() > 0 && line[0] == '$' {
        LogTone::Command
    } else if has_part(line, "exit=0"@) || has_part(line, "OK"@) {
        LogTone::Success
    } else if has_part(line, "exit=1"@) || has_part(line, "ERRO"@) || has_part(line, "error"@) {
        LogTone::Failure
    } else {
        LogTone::Plain
    }
}

/// Whether the characters of `part` occur in `s`.
fn contains_part(s: &Vec<char>, part: &str) -> (r: bool)
    ensures
        r == has_part(s@, part@),
{
    let p = chars_of(part);
    if p.len() > s.len() {
        proof {
            assert forall|i: int| 0 <= i && i + p@.len() <= s@.len() implies #[trigger] s@.subrange(i, i + p@.len()) != p@ by {}
        }
        return false;
    }
    if p.len() == 0 {
        assert(s@.subrange(0, 0 + part@.len() as int) =~= part@);
        return true;
    }
    let last = s.len() - p.len();
    let mut i: usize = 0;
    while i <= last
        invariant
            p@ == part@,
            0 < p@.len() <= s@.len() <= usize::MAX,
            last == s@.len() - p@.len(),
            i <= last + 1,
            forall|j: int| 0 <= j < i ==> #[trigger] s@.subrange(j, j + p@.len()) != p@,
        decreases last + 1 - i,
    {
        let mut k: usize = 0;
        while k < p.len() && s[i + k] == p[k]
            invariant
                i <= last,
                0 < p@.len() <= s@.len() <= usize::MAX,
                last == s@.len() - p@.len(),
                k <= p@.len(),
                forall|t: int| 0 <= t < k ==> s@[i + t] == p@[t],
            decreases p.len() - k,
        {
            k = k + 1;
        }
        if k == p.len() {
            assert(s@.subrange(i as int, i + p@.len()) =~= p@);
            return true;
        }
        assert(s@.subrange(i as int, i + p@.len())[k as int] != p@[k as int]);
        i = i + 1;
    }
    proof {
        assert forall|j: int| 0 <= j && j + p@.len() <= s@.len() implies #[trigger] s@.subrange(j, j + p@.len()) != p@ by {
            assert(j < i);
        }
    }
    false
}

/// The tone of a log line.
pub fn log_tone(line: &str) -> (t: LogTone)
    ensures
        t == log_tone_of(line@),
{
    let cs = chars_of(line);
    if cs.len() > 0 && cs[0] == '$' {
        LogTone::Command
    } else if contains_part(&cs, "exit=0") || contains_part(&cs, "OK") {
        LogTone::Success
    } else if contains_part(&cs, "exit=1") || contains_part(&cs, "ERRO") || contains_part(&cs, "error") {
        LogTone::Failure
    } else {
        LogTone::Plain
    }
}

/// One line of the log window.
pub struct LogLine {
    pub text: String,
    pub tone: LogTone,
}

/// The first log line shown in a window of `height` lines: the window holds
/// the newest lines.
pub open spec fn log_start(len: nat, height: nat) -> int {
    less_by(len as int, height as int)
}

/// The newest log lines that fit in `height` lines, oldest first, each with
/// its tone.
pub fn log_window(state: &AppState, height: usize) -> (r: Vec<LogLine>)
    ensures
        r@.len() == state@.log.len() - log_start(state@.log.len(), height as nat),
        forall|k: int| 0 <= k < r@.len() ==> {
            let line = #[trigger] state@.log[log_start(state@.log.len(), height as nat) + k];
            r@[k].text@ == line && r@[k].tone == log_tone_of(line)
        },
{
    let n = state.log_lines.len();
    let start = n.saturating_sub(height);
    let mut r: Vec<LogLine> = Vec::new();
    let mut i: usize = start;
    while i < n
        invariant
            start <= i <= n,
            n == state.log_lines@.len(),
            start == log_start(n as nat, height as nat),
            r@.len() == i - start,
            forall|k: int| 0 <= k < r@.len() ==> {
                let line = #[trigger] state@.log[start + k];
                r@[k].text@ == line && r@[k].tone == log_tone_of(line)
            },
        decreases n - i,
    {
        let text = state.log_lines[i].clone();
        let tone = log_tone(text.as_str());
        r.push(LogLine { text, tone });
        proof {
            assert(state@.log[start + (i - start)] == state.log_lines@[i as int]@);
        }
        i = i + 1;
    }
    r
}

// ---------------------------------------------------------------------------
// The app table and the details pane.
// ---------------------------------------------------------------------------

/// Texts joined by a separator.
pub open spec fn joined_with(s: Seq<Seq<char>>, sep: Seq<char>) -> Seq<char>
    decreases s.len(),
{
    if s.len() == 0 {
        Seq::empty()
    } else if s.len() == 1 {
        s[0]
    } else {
        joined_with(s.drop_last(), sep) + sep + s.last()
    }
}

/// Texts joined by a separator, as `join` writes them.
pub fn join_with(v: &Vec<String>, sep: &str) -> (r: String)
    ensures
        r@ == joined_with(v.deep_view(), sep@),
{
    let mut r = String::new();
    let mut i: usize = 0;
    while i < v.len()
        invariant
            i <= v.len(),
            r@ == joined_with(v.deep_view().take(i as int), sep@),
        decreases v.len() - i,
    {
        assert(v.deep_view().take(i + 1).drop_last() =~= v.deep_view().take(i as int));
        if i > 0 {
            append(&mut r, sep);
        }
        append(&mut r, v[i].as_str());
        i = i + 1;
        assert(r@ =~= joined_with(v.deep_view().take(i as int), sep@));
    }
    assert(v.deep_view().take(i as int) =~= v.deep_view());
    r
}

/// A text, or `none` in its place where it is empty.
pub open spec fn or_else(t: Seq<char>, none: Seq<char>) -> Seq<char> {
    if t.len() == 0 {
        none
    } else {
        t
    }
}

/// The dependencies of an app, joined by commas, or `none` without any.
pub open spec fn deps_text(deps: Seq<Seq<char>>, none: Seq<char>) -> Seq<char> {
    if deps.len() == 0 {
        none
    } else {
        joined_with(deps, ", "@)
    }
}

/// A copy of a text, or of `none` where it is empty.
fn text_or(t: &String, none: &str) -> (r: String)
    ensures
        r@ == or_else(t@, none@),
{
    if t.as_str().is_empty() {
        owned(none)
    } else {
        t.clone()
    }
}

/// The dependencies of an app as a text.
fn deps_or(deps: &Vec<String>, none: &str) -> (r: String)
    ensures
        r@ == deps_text(deps.deep_view(), none@),
{
    if deps.len() == 0 {
        owned(none)
    } else {
        join_with(deps, ", ")
    }
}

/// One row of the app table.
pub struct TableRow {
    pub selected: bool,
    pub under_cursor: bool,
    /// The label of the app's status; none while its status is unknown.
    pub status: Option<StatusLabel>,
    pub name: String,
    pub group: String,
    pub description: String,
    pub deps: String,
    /// Every other row is shaded.
    pub striped: bool,
}

/// Row `k` of the table of a state: the app of visible row `k`, whether it
/// is selected and under the cursor, its status label, its group (`-` for
/// none) and its dependencies (`-` for none).
pub open spec fn row_matches(s: StateView, k: int, row: TableRow) -> bool {
    let app_idx = s.visible[k];
    let app = s.config.apps[app_idx as int];
    &&& row.selected == s.selected.contains(app_idx)
    &&& row.under_cursor == (k == s.cursor)
    &&& match row.status {
        Some(l) => app_idx < s.statuses.len() && (l.text@, l.color, l.bold) == label_of(s.statuses[app_idx as int]),
        None => app_idx >= s.statuses.len(),
    }
    &&& row.name@ == app.name
    &&& row.group@ == or_else(app.group, "-"@)
    &&& row.description@ == app.description
    &&& row.deps@ == deps_text(app.depends_on, "-"@)
    &&& row.striped == (k % 2 == 1)
}

/// The rows of the app table, one per visible app.
pub fn table_rows(state: &AppState) -> (r: Vec<TableRow>)
    requires
        state.wf(),
        state@.rows_valid(),
    ensures
        r@.len() == state@.visible.len(),
        forall|k: int| 0 <= k < r@.len() ==> row_matches(state@, k, #[trigger] r@[k]),
{
    let mut r: Vec<TableRow> = Vec::new();
    let mut k: usize = 0;
    while k < state.visible_indices.len()
        invariant
            k <= state.visible_indices@.len(),
            state.wf(),
            state@.rows_valid(),
            r@.len() == k,
            forall|j: int| 0 <= j < k ==> row_matches(state@, j, #[trigger] r@[j]),
        decreases state.visible_indices.len() - k,
    {
        let app_idx = state.visible_indices[k];
        assert(state@.visible[k as int] == app_idx);
        let app = &state.config.apps[app_idx];
        assert(state@.config.apps[app_idx as int] == app@);
        let status = if app_idx < state.statuses.len() {
            assert(state@.statuses[app_idx as int] == state.statuses@[app_idx as int]@);
            Some(status_label(&state.statuses[app_idx]))
        } else {
            None
        };
        let row = TableRow {
            selected: state.selected_indices.contains(&app_idx),
            under_cursor: k == state.table_cursor,
            status,
            name: app.name.clone(),
            group: text_or(&app.group, "-"),
            description: app.description.clone(),
            deps: deps_or(&app.depends_on, "-"),
            striped: k % 2 == 1,
        };
        r.push(row);
        k = k + 1;
    }
    r
}

/// What the details pane shows of the app under the cursor.
pub struct Details {
    pub name: String,
    /// The group, `-` for none.
    pub group: String,
    /// The description, `-` for none.
    pub description: String,
    /// The dependencies joined by commas, `nenhum` for none.
    pub deps: String,
    /// Whether the app is installed; none while its status is unknown.
    pub installed: Option<bool>,
    /// Whether the distro is supported; none while the status is unknown.
    pub supported: Option<bool>,
    /// Whether the app has install, update and uninstall commands for the distro.
    pub can_install: bool,
    pub can_update: bool,
    pub can_uninstall: bool,
    /// Whether installing, updating and uninstalling ask for a reboot.
    pub reboot_install: bool,
    pub reboot_update: bool,
    pub reboot_uninstall: bool,
    /// The smart action word, `...` while the status is unknown.
    pub smart: &'static str,
    /// Warnings for a supported app without install or update commands.
    pub warn_install: bool,
    pub warn_update: bool,
    /// The trimmed output of the status check, where there was any.
    pub note: Option<String>,
}

/// The details of the app under the cursor of a state.
pub open spec fn details_match(s: StateView, d: Details) -> bool {
    let app_idx = s.current()->0;
    let app = s.config.apps[app_idx as int];
    let known = app_idx < s.statuses.len();
    let st = s.statuses[app_idx as int];
    &&& d.name@ == app.name
    &&& d.group@ == or_else(app.group, "-"@)
    &&& d.description@ == or_else(app.description, "-"@)
    &&& d.deps@ == deps_text(app.depends_on, "nenhum"@)
    &&& d.installed == if known { Some(st.installed) } else { None }
    &&& d.supported == if known { Some(st.supported) } else { None }
    &&& d.can_install == selected(app.install, s.distro) is Some
    &&& d.can_update == selected(app.update, s.distro) is Some
    &&& d.can_uninstall == selected(app.uninstall, s.distro) is Some
    &&& d.reboot_install == needs_reboot(app, "install"@)
    &&& d.reboot_update == needs_reboot(app, "update"@)
    &&& d.reboot_uninstall == needs_reboot(app, "uninstall"@)
    &&& d.smart@ == if known { smart_word(s.smart(app_idx)) } else { "..."@ }
    &&& d.warn_install == (known && st.supported && selected(app.install, s.distro) is None)
    &&& d.warn_update == (known && st.supported && selected(app.update, s.distro) is None)
    &&& match d.note {
        Some(n) => known && st.message.len() > 0 && n@ == trimmed(st.message),
        None => !(known && st.message.len() > 0),
    }
}

/// The details of the app under the cursor; none where the cursor is on no row.
pub fn details(state: &AppState) -> (r: Option<Details>)
    requires
        state@.rows_valid(),
    ensures
        match r {
            Some(d) => state@.current() is Some && details_match(state@, d),
            None => state@.current() is None,
        },
{
    let app_idx = match state.current_real_index() {
        Some(i) => i,
        None => return None,
    };
    assert(state@.visible[state@.cursor as int] == app_idx);
    let app = &state.config.apps[app_idx];
    assert(state@.config.apps[app_idx as int] == app@);
    let distro = &state.distro;
    let can_install = select_commands(&app.install, distro).is_some();
    let can_update = select_commands(&app.update, distro).is_some();
    let can_uninstall = select_commands(&app.uninstall, distro).is_some();
    let known = app_idx < state.statuses.len();
    let mut installed: Option<bool> = None;
    let mut supported: Option<bool> = None;
    let mut smart: &'static str = "...";
    let mut warn_install = false;
    let mut warn_update = false;
    let mut note: Option<String> = None;
    if known {
        let st = &state.statuses[app_idx];
        assert(state@.statuses[app_idx as int] == st@);
        installed = Some(st.installed);
        supported = Some(st.supported);
        smart = smart_action_label(state, app_idx);
        if st.supported {
            warn_install = !can_install;
            warn_update = !can_update;
        }
        if !st.message.as_str().is_empty() {
            note = Some(trim(st.message.as_str()));
        }
    }
    Some(Details {
        name: app.name.clone(),
        group: text_or(&app.group, "-"),
        description: text_or(&app.description, "-"),
        deps: deps_or(&app.depends_on, "nenhum"),
        installed,
        supported,
        can_install,
        can_update,
        can_uninstall,
        reboot_install: action_requires_reboot(app, "install"),
        reboot_update: action_requires_reboot(app, "update"),
        reboot_uninstall: action_requires_reboot(app, "uninstall"),
        smart,
        warn_install,
        warn_update,
        note,
    })
}

} // verus!
