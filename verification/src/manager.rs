//! Distros, command selection, app statuses and the dependency order.
use vstd::prelude::*;
use crate::config::{AppConfig, AppView, CommandMap};
use crate::strmap::{DeepCopy, map_get};
use crate::text::str_eq;

verus! {

/// The operating system family that commands are selected for.
#[derive(Clone, Copy, Debug, PartialEq, Eq, Structural)]
pub enum Distro {
    Ubuntu,
    Fedora,
    Macos,
    Windows,
    Unknown,
}

/// The configuration key of a distro.
pub open spec fn distro_key(d: Distro) -> Seq<char> {
    match d {
        Distro::Ubuntu => "ubuntu"@,
        Distro::Fedora => "fedora"@,
        Distro::Macos => "macos"@,
        Distro::Windows => "windows"@,
        Distro::Unknown => "unknown"@,
    }
}

impl Distro {
    /// The configuration key of the distro.
    pub fn as_str(&self) -> (s: &'static str)
        ensures
            s@ == distro_key(*self),
    {
        match self {
            Distro::Ubuntu => "ubuntu",
            Distro::Fedora => "fedora",
            Distro::Macos => "macos",
            Distro::Windows => "windows",
            Distro::Unknown => "unknown",
        }
    }
}

/// The commands a command map has for a distro: those under the distro's own
/// key, else under `default`, else `all`, else `*`.
pub open spec fn selected(m: Map<Seq<char>, Seq<Seq<char>>>, d: Distro) -> Option<Seq<Seq<char>>> {
    match map_get(m, distro_key(d)) {
        Some(c) => Some(c),
        None => match map_get(m, "default"@) {
            Some(c) => Some(c),
            None => match map_get(m, "all"@) {
                Some(c) => Some(c),
                None => map_get(m, "*"@),
            },
        },
    }
}

/// The commands a command map has for a distro.
pub fn select_commands<'a>(map: &'a CommandMap, distro: &Distro) -> (r: Option<&'a Vec<String>>)
    ensures
        match r {
            Some(c) => selected(map@, *distro) == Some(c.deep_view()),
            None => selected(map@, *distro) is None,
        },
{
    match map.get(distro.as_str()) {
        Some(c) => Some(c),
        None => match map.get("default") {
            Some(c) => Some(c),
            None => match map.get("all") {
                Some(c) => Some(c),
                None => map.get("*"),
            },
        },
    }
}

/// Whether an action on the app asks for a reboot: its `reboot_on` flag, false where unset.
pub open spec fn needs_reboot(app: AppView, action: Seq<char>) -> bool {
    match map_get(app.reboot_on, action) {
        Some(b) => b,
        None => false,
    }
}

/// Whether running `action` on the app asks for a reboot.
pub fn action_requires_reboot(app: &AppConfig, action: &str) -> (r: bool)
    ensures
        r == needs_reboot(app@, action@),
{
    match app.reboot_on.get(action) {
        Some(b) => *b,
        None => false,
    }
}

/// The last known state of an app on this machine.
pub struct AppStatus {
    pub app: AppConfig,
    pub supported: bool,
    pub installed: bool,
    pub message: String,
}

/// What an app status is.
pub struct AppStatusView {
    pub app: AppView,
    pub supported: bool,
    pub installed: bool,
    pub message: Seq<char>,
}

impl View for AppStatus {
    type V = AppStatusView;

    open spec fn view(&self) -> AppStatusView {
        AppStatusView {
            app: self.app@,
            supported: self.supported,
            installed: self.installed,
            message: self.message@,
        }
    }
}

impl DeepView for AppStatus {
    type V = AppStatusView;

    open spec fn deep_view(&self) -> AppStatusView {
        self@
    }
}

impl Clone for AppStatus {
    fn clone(&self) -> (r: Self)
        ensures
            r@ == self@,
    {
        AppStatus {
            app: self.app.clone(),
            supported: self.supported,
            installed: self.installed,
            message: self.message.clone(),
        }
    }
}

impl DeepCopy for AppStatus {
    fn deep_copy(&self) -> (r: Self) {
        self.clone()
    }
}

// ---------------------------------------------------------------------------
// Dependency order.
// ---------------------------------------------------------------------------

/// The app that a dependency id names: the last app with that id.
pub open spec fn resolve_id(apps: Seq<AppStatusView>, id: Seq<char>) -> Option<usize>
    decreases apps.len(),
{
    if apps.len() == 0 {
        None
    } else if apps.last().app.id == id {
        Some((apps.len() - 1) as usize)
    } else {
        resolve_id(apps.drop_last(), id)
    }
}

proof fn lemma_resolve_id(apps: Seq<AppStatusView>, id: Seq<char>)
    requires
        apps.len() <= usize::MAX,
    ensures
        resolve_id(apps, id) matches Some(j) ==> j < apps.len() && apps[j as int].app.id == id,
    decreases apps.len(),
{
    if apps.len() > 0 && apps.last().app.id != id {
        lemma_resolve_id(apps.drop_last(), id);
    }
}

/// The apps that a list of dependency ids names, in list order; ids that
/// name no app are left out.
pub open spec fn resolved_deps(apps: Seq<AppStatusView>, deps: Seq<Seq<char>>) -> Seq<usize>
    decreases deps.len(),
{
    if deps.len() == 0 {
        Seq::empty()
    } else {
        let r = resolved_deps(apps, deps.drop_last());
        match resolve_id(apps, deps.last()) {
            Some(j) => r.push(j),
            None => r,
        }
    }
}

/// The dependency graph: for each app, the apps it depends on.
pub open spec fn dep_graph(apps: Seq<AppStatusView>) -> Seq<Seq<usize>> {
    Seq::new(apps.len(), |i: int| resolved_deps(apps, apps[i].app.depends_on))
}

/// App `i` depends on app `j`.
pub open spec fn depends(apps: Seq<AppStatusView>, i: usize, j: usize) -> bool {
    i < apps.len() && dep_graph(apps)[i as int].contains(j)
}

/// A walk along dependencies in a graph.
pub open spec fn is_walk(g: Seq<Seq<usize>>, p: Seq<usize>) -> bool {
    &&& p.len() >= 1
    &&& forall|t: int|
        0 <= t < p.len() - 1 ==> (p[t] as int) < g.len() && #[trigger] g[p[t] as int].contains(
            p[t + 1],
        )
}

/// `b` can be reached from `a` along zero or more edges of the graph.
pub open spec fn graph_reaches(g: Seq<Seq<usize>>, a: usize, b: usize) -> bool {
    exists|p: Seq<usize>| #[trigger] is_walk(g, p) && p[0] == a && p.last() == b
}

/// App `b` can be reached from app `a` along zero or more dependencies.
pub open spec fn reaches(apps: Seq<AppStatusView>, a: usize, b: usize) -> bool {
    graph_reaches(dep_graph(apps), a, b)
}

/// `x` stands in `s` before position `a`.
pub open spec fn before(s: Seq<usize>, x: usize, a: int) -> bool {
    exists|b: int| 0 <= b < a && s[b] == x
}

/// No dependency closes a cycle: an app never reaches another one that depends on it.
pub open spec fn acyclic(apps: Seq<AppStatusView>) -> bool {
    forall|i: usize, j: usize| #[trigger] depends(apps, i, j) ==> !reaches(apps, j, i)
}

/// An order of the apps in which every dependency comes before the app that
/// depends on it, unless the two lie on a dependency cycle.
pub open spec fn dependency_order(apps: Seq<AppStatusView>, order: Seq<usize>) -> bool {
    &&& order.len() == apps.len()
    &&& order.no_duplicates()
    &&& forall|k: int| 0 <= k < order.len() ==> order[k] < apps.len()
    &&& forall|k: usize| k < apps.len() ==> order.contains(k)
    &&& forall|a: int, j: usize|
        0 <= a < order.len() && #[trigger] depends(apps, order[a], j) ==> before(order, j, a)
            || reaches(apps, j, order[a])
}

/// The views of a list of statuses.
pub open spec fn status_views(s: Seq<AppStatus>) -> Seq<AppStatusView> {
    Seq::new(s.len(), |i: int| s[i]@)
}

/// The app that a dependency id names.
fn resolve_dep(apps: &[AppStatus], id: &String) -> (r: Option<usize>)
    ensures
        r == resolve_id(status_views(apps@), id@),
{
    let ghost av = status_views(apps@);
    let mut found: Option<usize> = None;
    let mut i: usize = 0;
    assert(apps@.take(0).len() == 0);
    while i < apps.len()
        invariant
            i <= apps@.len(),
            av == status_views(apps@),
            found == resolve_id(av.take(i as int), id@),
        decreases apps.len() - i,
    {
        assert(av.take(i + 1).drop_last() =~= av.take(i as int));
        assert(av.take(i + 1).last() == apps@[i as int]@);
        if str_eq(apps[i].app.id.as_str(), id.as_str()) {
            found = Some(i);
        }
        i = i + 1;
    }
    assert(av.take(i as int) =~= av);
    found
}

/// For each app, the apps it depends on.
fn dependency_graph(apps: &[AppStatus]) -> (g: Vec<Vec<usize>>)
    ensures
        g@.len() == apps@.len(),
        forall|i: int| 0 <= i < apps@.len() ==> #[trigger] g@[i]@ == dep_graph(status_views(apps@))[i],
{
    let ghost av = status_views(apps@);
    let mut g: Vec<Vec<usize>> = Vec::new();
    let mut i: usize = 0;
    while i < apps.len()
        invariant
            i <= apps@.len(),
            g@.len() == i,
            av == status_views(apps@),
            forall|k: int| 0 <= k < i ==> #[trigger] g@[k]@ == dep_graph(av)[k],
        decreases apps.len() - i,
    {
        let deps = &apps[i].app.depends_on;
        let ghost dv = deps.deep_view();
        let mut row: Vec<usize> = Vec::new();
        let mut t: usize = 0;
        while t < deps.len()
            invariant
                t <= deps@.len(),
                dv == deps.deep_view(),
                av == status_views(apps@),
                row@ == resolved_deps(av, dv.take(t as int)),
            decreases deps.len() - t,
        {
            assert(dv.take(t + 1).drop_last() =~= dv.take(t as int));
            match resolve_dep(apps, &deps[t]) {
                Some(j) => row.push(j),
                None => {},
            }
            t = t + 1;
        }
        assert(dv.take(t as int) =~= dv);
        assert(dv == av[i as int].app.depends_on);
        g.push(row);
        i = i + 1;
    }
    g
}

/// Number of entries of a marking still untouched (zero).
pub open spec fn untouched(m: Seq<u8>) -> nat
    decreases m.len(),
{
    if m.len() == 0 {
        0
    } else {
        untouched(m.drop_last()) + if m.last() == 0 {
            1nat
        } else {
            0nat
        }
    }
}

/// `m2` keeps every touched entry of `m1` touched.
pub open spec fn keeps_touched(m1: Seq<u8>, m2: Seq<u8>) -> bool {
    m1.len() == m2.len() && forall|k: int| 0 <= k < m1.len() && m1[k] != 0 ==> #[trigger] m2[k] != 0
}

proof fn lemma_untouched_shrinks(m1: Seq<u8>, m2: Seq<u8>)
    requires
        keeps_touched(m1, m2),
    ensures
        untouched(m2) <= untouched(m1),
        (exists|k: int| 0 <= k < m1.len() && m1[k] == 0 && #[trigger] m2[k] != 0) ==> untouched(
            m2,
        ) < untouched(m1),
    decreases m1.len(),
{
    if m1.len() > 0 {
        let a = m1.drop_last();
        let b = m2.drop_last();
        assert(keeps_touched(a, b)) by {
            assert forall|k: int| 0 <= k < a.len() && a[k] != 0 implies #[trigger] b[k] != 0 by {
                assert(m1[k] != 0);
            }
        }
        lemma_untouched_shrinks(a, b);
        if exists|k: int| 0 <= k < m1.len() && m1[k] == 0 && #[trigger] m2[k] != 0 {
            let k = choose|k: int| 0 <= k < m1.len() && m1[k] == 0 && #[trigger] m2[k] != 0;
            if k < m1.len() - 1 {
                assert(a[k] == 0 && b[k] != 0);
            }
        }
        assert(m1.last() != 0 ==> m2.last() != 0) by {
            assert(m1[m1.len() - 1] == m1.last());
        }
    }
}

/// The search state of the ordering: every mark is 0 (not seen), 1 (on the
/// current walk) or 2 (placed); the placed apps are those in `order`, each
/// placed after its dependencies unless a dependency reaches back to it; the
/// walk is a path of the graph through exactly the apps marked 1.
pub open spec fn search_state(g: Seq<Seq<usize>>, m: Seq<u8>, order: Seq<usize>, walk: Seq<usize>) -> bool {
    &&& m.len() == g.len()
    &&& forall|i: int, t: int| 0 <= i < g.len() && 0 <= t < g[i].len() ==> (#[trigger] g[i][t] as int) < g.len()
    &&& forall|k: int| 0 <= k < m.len() ==> #[trigger] m[k] <= 2
    &&& order.no_duplicates()
    &&& forall|a: int| 0 <= a < order.len() ==> (#[trigger] order[a] as int) < g.len()
    &&& forall|k: usize| (k as int) < g.len() ==> (order.contains(k) <==> m[k as int] == 2)
    &&& walk.no_duplicates()
    &&& forall|k: usize| (k as int) < g.len() ==> (walk.contains(k) <==> m[k as int] == 1)
    &&& forall|a: int| 0 <= a < walk.len() ==> (#[trigger] walk[a] as int) < g.len()
    &&& forall|t: int| 0 <= t < walk.len() - 1 ==> #[trigger] g[walk[t] as int].contains(walk[t + 1])
    &&& forall|a: int, j: usize|
        0 <= a < order.len() && #[trigger] g[order[a] as int].contains(j) ==> before(order, j, a)
            || graph_reaches(g, j, order[a])
}

/// A walk suffix from a node on the walk to its end is a walk of the graph.
proof fn lemma_walk_reaches(g: Seq<Seq<usize>>, walk: Seq<usize>, t: int)
    requires
        0 <= t < walk.len(),
        forall|a: int| 0 <= a < walk.len() ==> (#[trigger] walk[a] as int) < g.len(),
        forall|s: int| 0 <= s < walk.len() - 1 ==> #[trigger] g[walk[s] as int].contains(walk[s + 1]),
    ensures
        graph_reaches(g, walk[t], walk.last()),
{
    let p = walk.subrange(t, walk.len() as int);
    assert forall|s: int| 0 <= s < p.len() - 1 implies (p[s] as int) < g.len() && #[trigger] g[p[s] as int].contains(
        p[s + 1],
    ) by {
        assert(p[s] == walk[t + s]);
        assert(p[s + 1] == walk[t + s + 1]);
    }
    assert(is_walk(g, p));
    assert(p[0] == walk[t]);
    assert(p.last() == walk.last());
}

/// Depth-first placement of `x`: mark it as on the walk (1), place what its
/// dependencies reach, in their order, then mark it placed (2) and place it.
/// `fuel` bounds the depth of the search.
pub open spec fn dfs_visit(g: Seq<Seq<usize>>, m: Seq<u8>, order: Seq<usize>, x: usize, fuel: nat) -> (Seq<u8>, Seq<usize>)
    decreases fuel, 0nat, 0nat,
{
    if fuel == 0 {
        (m, order)
    } else {
        let (m2, o2) = dfs_deps(g, m.update(x as int, 1), order, x, 0, (fuel - 1) as nat);
        (m2.update(x as int, 2), o2.push(x))
    }
}

/// The depth-first search from the dependencies of `x`, from the `i`-th on:
/// each dependency not seen yet is placed in turn.
pub open spec fn dfs_deps(g: Seq<Seq<usize>>, m: Seq<u8>, order: Seq<usize>, x: usize, i: nat, fuel: nat) -> (
    Seq<u8>,
    Seq<usize>,
)
    decreases fuel, 1nat, if i < g[x as int].len() { (g[x as int].len() - i) as nat } else { 0nat },
{
    if i >= g[x as int].len() {
        (m, order)
    } else {
        let j = g[x as int][i as int];
        let (m2, o2) = if m[j as int] == 0 {
            dfs_visit(g, m, order, j, fuel)
        } else {
            (m, order)
        };
        dfs_deps(g, m2, o2, x, i + 1, fuel)
    }
}

/// The depth-first search from each app in turn, from the `i`-th on.
pub open spec fn dfs_from(g: Seq<Seq<usize>>, m: Seq<u8>, order: Seq<usize>, i: nat) -> (Seq<u8>, Seq<usize>)
    decreases if i < g.len() { (g.len() - i) as nat } else { 0nat },
{
    if i >= g.len() {
        (m, order)
    } else {
        let (m2, o2) = if m[i as int] == 0 {
            dfs_visit(g, m, order, i as usize, untouched(m))
        } else {
            (m, order)
        };
        dfs_from(g, m2, o2, i + 1)
    }
}

/// The order of a depth-first search over the graph: from each app in turn,
/// every app is placed after the apps its dependencies reach, in the order
/// of its dependency list; an app already on the search's walk is skipped.
pub open spec fn dfs_order(g: Seq<Seq<usize>>) -> Seq<usize> {
    dfs_from(g, Seq::new(g.len(), |k: int| 0u8), Seq::empty(), 0).1
}

/// Places `x` and every app it reaches that is not seen yet, dependencies first.
fn visit(
    g: &Vec<Vec<usize>>,
    x: usize,
    mark: &mut Vec<u8>,
    order: &mut Vec<usize>,
    Ghost(walk): Ghost<Seq<usize>>,
    Ghost(fuel): Ghost<nat>,
)
    requires
        search_state(g.deep_view(), old(mark)@, old(order)@, walk),
        (x as int) < g@.len(),
        old(mark)@[x as int] == 0,
        walk.len() > 0 ==> g@[walk.last() as int]@.contains(x),
        fuel >= untouched(old(mark)@),
    ensures
        search_state(g.deep_view(), final(mark)@, final(order)@, walk),
        (final(mark)@, final(order)@) == dfs_visit(g.deep_view(), old(mark)@, old(order)@, x, fuel),
        final(mark)@[x as int] == 2,
        keeps_touched(old(mark)@, final(mark)@),
        forall|k: int| 0 <= k < old(mark)@.len() && old(mark)@[k] == 2 ==> #[trigger] final(mark)@[k] == 2,
        final(order)@.len() >= old(order)@.len(),
        final(order)@.take(old(order)@.len() as int) == old(order)@,
    decreases untouched(old(mark)@),
{
    let ghost gv = g.deep_view();
    let ghost m0 = mark@;
    let ghost o0 = order@;
    mark.set(x, 1);
    let ghost m1 = mark@;
    let ghost w = walk.push(x);
    proof {
        assert(keeps_touched(m0, m1));
        assert(m0[x as int] == 0 && m1[x as int] != 0);
        lemma_untouched_shrinks(m0, m1);
        assert(gv[x as int] == g@[x as int]@);
        assert forall|k: usize| (k as int) < gv.len() implies (w.contains(k) <==> m1[k as int] == 1) by {
            if k == x {
                assert(w[w.len() - 1] == x);
            } else if w.contains(k) {
                let t = choose|t: int| 0 <= t < w.len() && w[t] == k;
                assert(walk[t] == k);
            } else if walk.contains(k) {
                let t = choose|t: int| 0 <= t < walk.len() && walk[t] == k;
                assert(w[t] == k);
            }
        }
        assert forall|t: int| 0 <= t < w.len() - 1 implies #[trigger] gv[w[t] as int].contains(w[t + 1]) by {
            if t == w.len() - 2 {
                assert(w[t] == walk.last());
                assert(g@[walk.last() as int]@ == gv[walk.last() as int]);
            } else {
                assert(w[t] == walk[t] && w[t + 1] == walk[t + 1]);
            }
        }
        assert(w.no_duplicates()) by {
            assert(!walk.contains(x));
        }
    }
    let deps = &g[x];
    let ghost f = (fuel - 1) as nat;
    let mut i: usize = 0;
    while i < deps.len()
        invariant
            gv == g.deep_view(),
            fuel >= untouched(m0),
            f == fuel - 1,
            m1 == m0.update(x as int, 1),
            dfs_deps(gv, m1, o0, x, 0, f) == dfs_deps(gv, mark@, order@, x, i as nat, f),
            w == walk.push(x),
            m0 == old(mark)@,
            deps@ == gv[x as int],
            (x as int) < gv.len(),
            i <= deps@.len(),
            search_state(gv, mark@, order@, w),
            mark@[x as int] == 1,
            keeps_touched(m1, mark@),
            forall|k: int| 0 <= k < m1.len() && m1[k] == 2 ==> #[trigger] mark@[k] == 2,
            untouched(mark@) < untouched(m0),
            order@.len() >= o0.len(),
            order@.take(o0.len() as int) == o0,
            forall|t: int| 0 <= t < i ==> mark@[#[trigger] deps@[t] as int] == 2 || graph_reaches(gv, deps@[t], x),
        decreases deps.len() - i,
    {
        let j = deps[i];
        assert(gv[x as int][i as int] == j);
        if mark[j] == 0 {
            let ghost mb = mark@;
            let ghost ob = order@;
            assert(w.last() == x);
            visit(g, j, mark, order, Ghost(w), Ghost(f));
            proof {
                lemma_untouched_shrinks(mb, mark@);
                assert(keeps_touched(m1, mark@)) by {
                    assert forall|k: int| 0 <= k < m1.len() && m1[k] != 0 implies #[trigger] mark@[k] != 0 by {
                        assert(mb[k] != 0);
                    }
                }
                assert(order@.take(o0.len() as int) =~= o0) by {
                    assert(order@.take(ob.len() as int) == ob);
                    assert forall|a: int| 0 <= a < o0.len() implies order@[a] == o0[a] by {
                        assert(ob[a] == o0[a]);
                        assert(order@.take(ob.len() as int)[a] == order@[a]);
                    }
                }
            }
        } else if mark[j] == 1 {
            proof {
                assert(w.contains(j));
                let t = choose|t: int| 0 <= t < w.len() && w[t] == j;
                lemma_walk_reaches(gv, w, t);
            }
        }
        i = i + 1;
    }
    let ghost mb = mark@;
    let ghost ob = order@;
    mark.set(x, 2);
    order.push(x);
    proof {
        assert(dfs_deps(gv, mb, ob, x, i as nat, f) == (mb, ob));
        assert(mark@ == mb.update(x as int, 2));
        assert(!ob.contains(x));
        assert forall|k: usize| (k as int) < gv.len() implies (walk.contains(k) <==> mark@[k as int] == 1) by {
            if k == x {
                assert(walk.no_duplicates());
                assert(!walk.contains(x));
            } else if walk.contains(k) {
                let t = choose|t: int| 0 <= t < walk.len() && walk[t] == k;
                assert(w[t] == k);
            } else if w.contains(k) {
                let t = choose|t: int| 0 <= t < w.len() && w[t] == k;
                if t < walk.len() {
                    assert(walk[t] == k);
                } else {
                    assert(w[t] == x);
                }
            }
        }
        assert forall|k: usize| (k as int) < gv.len() implies (order@.contains(k) <==> mark@[k as int] == 2) by {
            if k == x {
                assert(order@[order@.len() - 1] == x);
            } else if order@.contains(k) {
                let t = choose|t: int| 0 <= t < order@.len() && order@[t] == k;
                assert(ob[t] == k);
            } else if ob.contains(k) {
                let t = choose|t: int| 0 <= t < ob.len() && ob[t] == k;
                assert(order@[t] == k);
            }
        }
        assert forall|a: int, j: usize|
            0 <= a < order@.len() && #[trigger] gv[order@[a] as int].contains(j) implies before(order@, j, a)
                || graph_reaches(gv, j, order@[a]) by {
            if a < ob.len() {
                assert(order@[a] == ob[a]);
                if before(ob, j, a) {
                    let b = choose|b: int| 0 <= b < a && ob[b] == j;
                    assert(order@[b] == j);
                }
            } else {
                assert(order@[a] == x);
                let t = choose|t: int| 0 <= t < deps@.len() && deps@[t] == j;
                if mb[j as int] == 2 {
                    assert(ob.contains(j));
                    let b = choose|b: int| 0 <= b < ob.len() && ob[b] == j;
                    assert(order@[b] == j);
                }
            }
        }
        assert forall|t: int| 0 <= t < walk.len() - 1 implies #[trigger] gv[walk[t] as int].contains(walk[t + 1]) by {
            assert(w[t] == walk[t] && w[t + 1] == walk[t + 1]);
        }
        assert forall|a: int| 0 <= a < walk.len() implies (#[trigger] walk[a] as int) < gv.len() by {
            assert(w[a] == walk[a]);
        }
        assert(order@.take(o0.len() as int) =~= o0) by {
            assert forall|a: int| 0 <= a < o0.len() implies order@[a] == o0[a] by {
                assert(ob.take(o0.len() as int)[a] == ob[a]);
            }
        }
        assert(keeps_touched(m0, mark@)) by {
            assert forall|k: int| 0 <= k < m0.len() && m0[k] != 0 implies #[trigger] mark@[k] != 0 by {
                assert(m1[k] != 0);
                if k != x {
                    assert(mb[k] != 0);
                }
            }
        }
        assert forall|k: int| 0 <= k < m0.len() && m0[k] == 2 implies #[trigger] mark@[k] == 2 by {
            assert(m1[k] == 2);
            assert(mb[k] == 2);
        }
    }
}


proof fn lemma_resolved_in_range(apps: Seq<AppStatusView>, deps: Seq<Seq<char>>)
    requires
        apps.len() <= usize::MAX,
    ensures
        forall|t: int| 0 <= t < resolved_deps(apps, deps).len() ==> #[trigger] resolved_deps(apps, deps)[t] < apps.len(),
    decreases deps.len(),
{
    if deps.len() > 0 {
        let r = resolved_deps(apps, deps.drop_last());
        lemma_resolved_in_range(apps, deps.drop_last());
        lemma_resolve_id(apps, deps.last());
        assert forall|t: int| 0 <= t < resolved_deps(apps, deps).len() implies #[trigger] resolved_deps(apps, deps)[t] < apps.len() by {
            if t < r.len() {
                assert(resolved_deps(apps, deps)[t] == r[t]);
            }
        }
    }
}

/// The set of the naturals below `n`, as `usize`.
proof fn lemma_below_len(n: usize)
    ensures
        Set::new(|k: usize| k < n).finite(),
        Set::new(|k: usize| k < n).len() == n,
    decreases n,
{
    if n == 0 {
        assert(Set::new(|k: usize| k < n) =~= Set::<usize>::empty());
    } else {
        lemma_below_len((n - 1) as usize);
        assert(Set::new(|k: usize| k < n) =~= Set::new(|k: usize| k < (n - 1) as usize).insert((n - 1) as usize));
    }
}

/// The order in which the apps are installed: every app after the apps it
/// depends on (a dependency names the last app with that id), each app once;
/// where dependencies form a cycle, the cycle is broken where the search met it.
pub fn topological_sort(apps: &[AppStatus]) -> (order: Vec<usize>)
    ensures
        order@ == dfs_order(dep_graph(status_views(apps@))),
        dependency_order(status_views(apps@), order@),
{
    let ghost av = status_views(apps@);
    let g = dependency_graph(apps);
    let ghost gv = g.deep_view();
    let n = apps.len();
    proof {
        assert(gv =~= dep_graph(av)) by {
            assert forall|i: int| 0 <= i < gv.len() implies gv[i] == dep_graph(av)[i] by {
                assert(gv[i] == g@[i]@);
            }
        }
        assert forall|i: int, t: int| 0 <= i < gv.len() && 0 <= t < gv[i].len() implies (#[trigger] gv[i][t] as int) < gv.len() by {
            lemma_resolved_in_range(av, av[i].app.depends_on);
        }
    }
    let mut mark: Vec<u8> = Vec::new();
    let mut k: usize = 0;
    while k < n
        invariant
            k <= n,
            n == apps@.len(),
            mark@.len() == k,
            forall|a: int| 0 <= a < k ==> mark@[a] == 0,
        decreases n - k,
    {
        mark.push(0);
        k = k + 1;
    }
    assert(mark@ =~= Seq::new(gv.len(), |k: int| 0u8));
    let mut order: Vec<usize> = Vec::new();
    let mut i: usize = 0;
    while i < n
        invariant
            i <= n,
            n == apps@.len(),
            gv == g.deep_view(),
            gv == dep_graph(av),
            av == status_views(apps@),
            g@.len() == n,
            search_state(gv, mark@, order@, Seq::<usize>::empty()),
            forall|a: int| 0 <= a < i ==> mark@[a] == 2,
            dfs_order(gv) == dfs_from(gv, mark@, order@, i as nat).1,
        decreases n - i,
    {
        if mark[i] == 0 {
            let ghost fuel = untouched(mark@);
            visit(&g, i, &mut mark, &mut order, Ghost(Seq::<usize>::empty()), Ghost(fuel));
        }
        i = i + 1;
    }
    proof {
        assert forall|k: usize| k < apps@.len() implies order@.contains(k) by {
            assert(mark@[k as int] == 2);
        }
        order@.unique_seq_to_set();
        lemma_below_len(n);
        assert(order@.to_set() =~= Set::new(|k: usize| k < n));
    }
    order
}

/// Where no dependencies form a cycle, every app that an app depends on is
/// installed before it.
pub proof fn lemma_acyclic_dependencies_first(apps: Seq<AppStatusView>, order: Seq<usize>, a: int, j: usize)
    requires
        dependency_order(apps, order),
        acyclic(apps),
        0 <= a < order.len(),
        depends(apps, order[a], j),
    ensures
        before(order, j, a),
{
}


/// A labelled group of commands that run together, in order.
pub struct CommandGroup {
    pub group_id: usize,
    pub label: String,
    pub commands: Vec<String>,
}

/// What a command group is.
pub struct CommandGroupView {
    pub group_id: usize,
    pub label: Seq<char>,
    pub commands: Seq<Seq<char>>,
}

impl View for CommandGroup {
    type V = CommandGroupView;

    open spec fn view(&self) -> CommandGroupView {
        CommandGroupView {
            group_id: self.group_id,
            label: self.label@,
            commands: self.commands.deep_view(),
        }
    }
}

impl DeepView for CommandGroup {
    type V = CommandGroupView;

    open spec fn deep_view(&self) -> CommandGroupView {
        self@
    }
}

impl Clone for CommandGroup {
    fn clone(&self) -> (r: Self)
        ensures
            r@ == self@,
    {
        CommandGroup {
            group_id: self.group_id,
            label: self.label.clone(),
            commands: self.commands.deep_copy(),
        }
    }
}

} // verus!
