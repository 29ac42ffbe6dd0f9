//! The package configuration: groups and apps, and how an app is read from
//! its YAML mapping.
use vstd::prelude::*;
use crate::strmap::{StrMap, DeepCopy, lookup};
use crate::text::{
    append, chars_of, decimal, is_alphanumeric, alphanumeric, lowercase, owned, push_char,
    push_decimal, str_eq, to_lowercase,
};
use crate::yaml::{
    mapping_get, mapping_lookup, str_of, bool_of, mapping_of, value_get, YamlValue,
};

verus! {

/// A group of apps, by which the app list can be filtered.
pub struct GroupConfig {
    pub id: String,
    pub name: String,
}

/// What a group is: its id and its display name.
pub struct GroupView {
    pub id: Seq<char>,
    pub name: Seq<char>,
}

impl View for GroupConfig {
    type V = GroupView;

    open spec fn view(&self) -> GroupView {
        GroupView { id: self.id@, name: self.name@ }
    }
}

impl DeepView for GroupConfig {
    type V = GroupView;

    open spec fn deep_view(&self) -> GroupView {
        self@
    }
}

impl Clone for GroupConfig {
    fn clone(&self) -> (r: Self)
        ensures
            r@ == self@,
    {
        GroupConfig { id: self.id.clone(), name: self.name.clone() }
    }
}

impl DeepCopy for GroupConfig {
    fn deep_copy(&self) -> (r: Self) {
        self.clone()
    }
}

/// Commands per distro key (`ubuntu`, `default`, ...).
pub type CommandMap = StrMap<Vec<String>>;

/// One app of the configuration.
pub struct AppConfig {
    pub id: String,
    pub name: String,
    pub description: String,
    pub group: String,
    pub check: CommandMap,
    pub install: CommandMap,
    pub update: CommandMap,
    pub uninstall: CommandMap,
    pub depends_on: Vec<String>,
    pub reboot_on: StrMap<bool>,
}

/// What an app is: its texts, its command maps and its flags.
pub struct AppView {
    pub id: Seq<char>,
    pub name: Seq<char>,
    pub description: Seq<char>,
    pub group: Seq<char>,
    pub check: Map<Seq<char>, Seq<Seq<char>>>,
    pub install: Map<Seq<char>, Seq<Seq<char>>>,
    pub update: Map<Seq<char>, Seq<Seq<char>>>,
    pub uninstall: Map<Seq<char>, Seq<Seq<char>>>,
    pub depends_on: Seq<Seq<char>>,
    pub reboot_on: Map<Seq<char>, bool>,
}

impl View for AppConfig {
    type V = AppView;

    open spec fn view(&self) -> AppView {
        AppView {
            id: self.id@,
            name: self.name@,
            description: self.description@,
            group: self.group@,
            check: self.check@,
            install: self.install@,
            update: self.update@,
            uninstall: self.uninstall@,
            depends_on: self.depends_on.deep_view(),
            reboot_on: self.reboot_on@,
        }
    }
}

impl DeepView for AppConfig {
    type V = AppView;

    open spec fn deep_view(&self) -> AppView {
        self@
    }
}

impl AppConfig {
    /// The id under which other apps name this one in `depends_on`.
    pub fn effective_id(&self) -> (r: &str)
        ensures
            r@ == self.id@,
    {
        self.id.as_str()
    }
}

impl Clone for AppConfig {
    fn clone(&self) -> (r: Self)
        ensures
            r@ == self@,
    {
        AppConfig {
            id: self.id.clone(),
            name: self.name.clone(),
            description: self.description.clone(),
            group: self.group.clone(),
            check: self.check.deep_copy_map(),
            install: self.install.deep_copy_map(),
            update: self.update.deep_copy_map(),
            uninstall: self.uninstall.deep_copy_map(),
            depends_on: self.depends_on.deep_copy(),
            reboot_on: self.reboot_on.deep_copy_map(),
        }
    }
}

impl DeepCopy for AppConfig {
    fn deep_copy(&self) -> (r: Self) {
        self.clone()
    }
}

/// An app with every field empty.
pub open spec fn empty_app() -> AppView {
    AppView {
        id: Seq::empty(),
        name: Seq::empty(),
        description: Seq::empty(),
        group: Seq::empty(),
        check: Map::empty(),
        install: Map::empty(),
        update: Map::empty(),
        uninstall: Map::empty(),
        depends_on: Seq::empty(),
        reboot_on: Map::empty(),
    }
}

impl Default for AppConfig {
    fn default() -> (r: Self)
        ensures
            r@ == empty_app(),
    {
        let r = AppConfig {
            id: String::new(),
            name: String::new(),
            description: String::new(),
            group: String::new(),
            check: StrMap::new(),
            install: StrMap::new(),
            update: StrMap::new(),
            uninstall: StrMap::new(),
            depends_on: Vec::new(),
            reboot_on: StrMap::new(),
        };
        assert(r.depends_on.deep_view() =~= Seq::<Seq<char>>::empty());
        r
    }
}

/// The whole configuration file.
pub struct PackageConfig {
    pub version: u32,
    pub apps: Vec<AppConfig>,
    pub groups: Vec<GroupConfig>,
}

/// What a configuration is.
pub struct PackageView {
    pub version: u32,
    pub apps: Seq<AppView>,
    pub groups: Seq<GroupView>,
}

impl View for PackageConfig {
    type V = PackageView;

    open spec fn view(&self) -> PackageView {
        PackageView {
            version: self.version,
            apps: self.apps.deep_view(),
            groups: self.groups.deep_view(),
        }
    }
}

/// A copy of a vector whose items keep their content.
pub fn copy_vec<T: DeepCopy>(v: &Vec<T>) -> (r: Vec<T>)
    ensures
        r.deep_view() == v.deep_view(),
{
    let mut r: Vec<T> = Vec::new();
    let mut i: usize = 0;
    while i < v.len()
        invariant
            i <= v.len(),
            r@.len() == i,
            forall|j: int| 0 <= j < i ==> #[trigger] r@[j].deep_view() == v@[j].deep_view(),
        decreases v.len() - i,
    {
        r.push(v[i].deep_copy());
        i = i + 1;
    }
    assert(r.deep_view() =~= v.deep_view());
    r
}

impl Clone for PackageConfig {
    fn clone(&self) -> (r: Self)
        ensures
            r@ == self@,
    {
        PackageConfig {
            version: self.version,
            apps: copy_vec(&self.apps),
            groups: copy_vec(&self.groups),
        }
    }
}

/// The version a configuration file has when it names none.
pub fn default_version() -> (v: u32)
    ensures
        v == 1,
{
    1
}

// ---------------------------------------------------------------------------
// Reading an app from its mapping.
// ---------------------------------------------------------------------------

/// Why an app of the configuration could not be read.
#[derive(Clone, Copy, Debug, PartialEq, Eq, Structural)]
pub enum ConfigError {
    /// The app at this position of the list is not a mapping.
    NotMapping { index: usize },
    /// The app at this position has no (non-empty) `name`.
    MissingName { index: usize },
}

impl ConfigError {
    /// The position of the app in the list.
    pub fn index(&self) -> (i: usize)
        ensures
            i == match *self {
                ConfigError::NotMapping { index } => index,
                ConfigError::MissingName { index } => index,
            },
    {
        match *self {
            ConfigError::NotMapping { index } => index,
            ConfigError::MissingName { index } => index,
        }
    }

    /// The text of the error.
    pub open spec fn spec_message(self) -> Seq<char> {
        match self {
            ConfigError::NotMapping { .. } => "App must be a mapping"@,
            ConfigError::MissingName { index } => "App #"@ + decimal(index as nat)
                + " is missing required 'name' field"@,
        }
    }

    /// The text of the error.
    pub fn message(&self) -> (m: String)
        ensures
            m@ == self.spec_message(),
    {
        match *self {
            ConfigError::NotMapping { .. } => owned("App must be a mapping"),
            ConfigError::MissingName { index } => {
                let mut m = owned("App #");
                push_decimal(&mut m, index as u64);
                append(&mut m, " is missing required 'name' field");
                m
            },
        }
    }
}

/// The texts of the string items of a sequence, in order; other items are skipped.
pub open spec fn str_items(s: Seq<YamlValue>) -> Seq<Seq<char>>
    decreases s.len(),
{
    if s.len() == 0 {
        Seq::empty()
    } else {
        let r = str_items(s.drop_last());
        match str_of(s.last()) {
            Some(t) => r.push(t),
            None => r,
        }
    }
}

/// A list of strings as the configuration writes it: one string, or a
/// sequence whose string items count; anything else is the empty list.
pub open spec fn string_list(v: YamlValue) -> Seq<Seq<char>> {
    match v {
        YamlValue::String(s) => seq![s@],
        YamlValue::Sequence(q) => str_items(q@),
        _ => Seq::empty(),
    }
}

/// The strings of the string items of a sequence.
fn string_items(q: &Vec<YamlValue>) -> (r: Vec<String>)
    ensures
        r.deep_view() == str_items(q@),
{
    let mut r: Vec<String> = Vec::new();
    let mut i: usize = 0;
    while i < q.len()
        invariant
            i <= q.len(),
            r.deep_view() == str_items(q@.take(i as int)),
        decreases q.len() - i,
    {
        assert(q@.take(i + 1).drop_last() =~= q@.take(i as int));
        match q[i].as_str() {
            Some(s) => {
                r.push(s.clone());
                assert(r.deep_view() =~= str_items(q@.take(i + 1)));
            },
            None => {},
        }
        i = i + 1;
    }
    assert(q@.take(i as int) =~= q@);
    r
}

/// A list of strings from its configuration value.
pub fn parse_string_list(val: &YamlValue) -> (r: Vec<String>)
    ensures
        r.deep_view() == string_list(*val),
{
    match val {
        YamlValue::String(s) => {
            let mut r: Vec<String> = Vec::new();
            r.push(s.clone());
            assert(r.deep_view() =~= seq![s@]);
            r
        },
        YamlValue::Sequence(q) => string_items(q),
        _ => {
            let r: Vec<String> = Vec::new();
            assert(r.deep_view() =~= Seq::<Seq<char>>::empty());
            r
        },
    }
}

/// The key a command list is stored under: `installed` is an older name of `default`.
pub open spec fn normalized_key(k: Seq<char>) -> Seq<char> {
    if k == "installed"@ {
        "default"@
    } else {
        k
    }
}

/// The command lists of a mapping from distro keys to lists: entries with a
/// string key and a non-empty list count, and a later entry for a key wins.
pub open spec fn mapping_actions(m: Seq<(YamlValue, YamlValue)>) -> Map<Seq<char>, Seq<Seq<char>>>
    decreases m.len(),
{
    if m.len() == 0 {
        Map::empty()
    } else {
        let prev = mapping_actions(m.drop_last());
        match str_of(m.last().0) {
            Some(key) => if string_list(m.last().1).len() > 0 {
                prev.insert(normalized_key(key), string_list(m.last().1))
            } else {
                prev
            },
            None => prev,
        }
    }
}

/// The commands of an action as the configuration writes them: one command
/// or a list, both for every distro (`default`), or a mapping from distro
/// keys to commands.
pub open spec fn action_map(v: Option<YamlValue>) -> Map<Seq<char>, Seq<Seq<char>>> {
    match v {
        Some(YamlValue::String(s)) => Map::empty().insert("default"@, seq![s@]),
        Some(YamlValue::Sequence(q)) => Map::empty().insert("default"@, str_items(q@)),
        Some(YamlValue::Mapping(m)) => mapping_actions(m@),
        _ => Map::empty(),
    }
}

/// The commands of an action, from its configuration value.
pub fn parse_action_map(val: Option<&YamlValue>) -> (r: CommandMap)
    ensures
        r@ == action_map(match val {
            Some(v) => Some(*v),
            None => None,
        }),
{
    let val = match val {
        Some(v) => v,
        None => return StrMap::new(),
    };
    match val {
        YamlValue::String(s) => {
            let mut m: CommandMap = StrMap::new();
            let mut cmds: Vec<String> = Vec::new();
            cmds.push(s.clone());
            assert(cmds.deep_view() =~= seq![s@]);
            m.insert(owned("default"), cmds);
            m
        },
        YamlValue::Sequence(q) => {
            let mut m: CommandMap = StrMap::new();
            let cmds = string_items(q);
            m.insert(owned("default"), cmds);
            m
        },
        YamlValue::Mapping(entries) => {
            let mut result: CommandMap = StrMap::new();
            let mut i: usize = 0;
            while i < entries.len()
                invariant
                    i <= entries.len(),
                    result@ == mapping_actions(entries@.take(i as int)),
                decreases entries.len() - i,
            {
                assert(entries@.take(i + 1).drop_last() =~= entries@.take(i as int));
                let k = &entries[i].0;
                let v = &entries[i].1;
                match k.as_str() {
                    Some(key) => {
                        let key: String = if str_eq(key.as_str(), "installed") {
                            owned("default")
                        } else {
                            key.clone()
                        };
                        let cmds = parse_string_list(v);
                        if cmds.len() != 0 {
                            result.insert(key, cmds);
                        }
                    },
                    None => {},
                }
                i = i + 1;
            }
            assert(entries@.take(i as int) =~= entries@);
            result
        },
        _ => StrMap::new(),
    }
}

/// The flags of a mapping from action names to booleans: entries with a
/// string key and a boolean value count, and a later entry for a key wins.
pub open spec fn mapping_flags(m: Seq<(YamlValue, YamlValue)>) -> Map<Seq<char>, bool>
    decreases m.len(),
{
    if m.len() == 0 {
        Map::empty()
    } else {
        let prev = mapping_flags(m.drop_last());
        match (str_of(m.last().0), bool_of(m.last().1)) {
            (Some(key), Some(b)) => prev.insert(key, b),
            _ => prev,
        }
    }
}

/// The flags of a mapping from action names to booleans.
fn parse_flags(entries: &Vec<(YamlValue, YamlValue)>) -> (r: StrMap<bool>)
    ensures
        r@ == mapping_flags(entries@),
{
    let mut result: StrMap<bool> = StrMap::new();
    let mut i: usize = 0;
    while i < entries.len()
        invariant
            i <= entries.len(),
            result@ == mapping_flags(entries@.take(i as int)),
        decreases entries.len() - i,
    {
        assert(entries@.take(i + 1).drop_last() =~= entries@.take(i as int));
        match (entries[i].0.as_str(), entries[i].1.as_bool()) {
            (Some(key), Some(b)) => {
                result.insert(key.clone(), b);
            },
            _ => {},
        }
        i = i + 1;
    }
    assert(entries@.take(i as int) =~= entries@);
    result
}

/// The text under `key` of an app mapping: empty where it is missing or not a string.
pub open spec fn field_text(m: Seq<(YamlValue, YamlValue)>, key: Seq<char>) -> Seq<char> {
    match mapping_lookup(m, key) {
        Some(v) => match str_of(v) {
            Some(s) => s,
            None => Seq::empty(),
        },
        None => Seq::empty(),
    }
}

/// An id made from a name: every character that is neither alphanumeric nor
/// `-` becomes `-`.
pub open spec fn slug(s: Seq<char>) -> Seq<char> {
    Seq::new(s.len(), |i: int| if alphanumeric(s[i]) || s[i] == '-' { s[i] } else { '-' })
}

/// The value that holds the commands of an action: the app's own key, or
/// else that key inside its `actions` mapping.
pub open spec fn action_source(m: Seq<(YamlValue, YamlValue)>, key: Seq<char>) -> Option<YamlValue> {
    match mapping_lookup(m, key) {
        Some(v) => Some(v),
        None => match mapping_lookup(m, "actions"@) {
            Some(a) => value_get(a, key),
            None => None,
        },
    }
}

/// The app that a mapping describes.
pub open spec fn app_of_mapping(m: Seq<(YamlValue, YamlValue)>) -> AppView {
    let name = field_text(m, "name"@);
    let raw_id = field_text(m, "id"@);
    AppView {
        id: if raw_id.len() == 0 { slug(lowercase(name)) } else { raw_id },
        name: name,
        description: field_text(m, "description"@),
        group: field_text(m, "group"@),
        check: action_map(mapping_lookup(m, "check"@)),
        install: action_map(action_source(m, "install"@)),
        update: action_map(action_source(m, "update"@)),
        uninstall: action_map(action_source(m, "uninstall"@)),
        depends_on: match mapping_lookup(m, "depends_on"@) {
            Some(v) => string_list(v),
            None => Seq::empty(),
        },
        reboot_on: match mapping_lookup(m, "reboot_on"@) {
            Some(v) => match mapping_of(v) {
                Some(fm) => mapping_flags(fm),
                None => Map::empty(),
            },
            None => Map::empty(),
        },
    }
}

/// The app at position `index` of the list, or why it cannot be read: it
/// must be a mapping with a non-empty `name`.
#[verifier::opaque]
pub open spec fn app_of_value(v: YamlValue, index: usize) -> Result<AppView, ConfigError> {
    match v {
        YamlValue::Mapping(m) => if field_text(m@, "name"@).len() == 0 {
            Err(ConfigError::MissingName { index })
        } else {
            Ok(app_of_mapping(m@))
        },
        _ => Err(ConfigError::NotMapping { index }),
    }
}

/// The text under `key` of an app mapping.
fn get_str(m: &Vec<(YamlValue, YamlValue)>, key: &str) -> (r: String)
    ensures
        r@ == field_text(m@, key@),
{
    match mapping_get(m, key) {
        Some(v) => match v.as_str() {
            Some(s) => s.clone(),
            None => String::new(),
        },
        None => String::new(),
    }
}

/// The id made from a lower-cased name: every character that is neither
/// alphanumeric nor `-` becomes `-`.
pub fn slug_text(lower: &str) -> (r: String)
    ensures
        r@ == slug(lower@),
{
    let cs = chars_of(lower);
    let mut r = String::new();
    let mut i: usize = 0;
    while i < cs.len()
        invariant
            i <= cs.len(),
            cs@ == lower@,
            r@ == slug(cs@).take(i as int),
        decreases cs.len() - i,
    {
        let c = cs[i];
        let d = if is_alphanumeric(c) || c == '-' { c } else { '-' };
        push_char(&mut r, d);
        i = i + 1;
        assert(r@ =~= slug(cs@).take(i as int));
    }
    assert(slug(cs@).take(i as int) =~= slug(cs@));
    r
}

/// An id made from a name.
fn slug_of(name: &String) -> (r: String)
    ensures
        r@ == slug(lowercase(name@)),
{
    let lower = to_lowercase(name.as_str());
    slug_text(lower.as_str())
}

/// The value that holds the commands of an action.
fn action_value<'a>(m: &'a Vec<(YamlValue, YamlValue)>, key: &str) -> (r: Option<&'a YamlValue>)
    ensures
        match r {
            Some(v) => action_source(m@, key@) == Some(*v),
            None => action_source(m@, key@) is None,
        },
{
    match mapping_get(m, key) {
        Some(v) => Some(v),
        None => match mapping_get(m, "actions") {
            Some(a) => a.get(key),
            None => None,
        },
    }
}

/// Reads the app at position `index` of the configuration's app list.
pub fn parse_app(val: YamlValue, index: usize) -> (r: Result<AppConfig, ConfigError>)
    ensures
        match r {
            Ok(a) => app_of_value(val, index) == Ok::<AppView, ConfigError>(a@),
            Err(e) => app_of_value(val, index) == Err::<AppView, ConfigError>(e),
        },
{
    reveal(app_of_value);
    let map = match val {
        YamlValue::Mapping(m) => m,
        _ => return Err(ConfigError::NotMapping { index }),
    };
    let name = get_str(&map, "name");
    if name.as_str().is_empty() {
        return Err(ConfigError::MissingName { index });
    }
    let raw_id = get_str(&map, "id");
    let id = if raw_id.as_str().is_empty() { slug_of(&name) } else { raw_id };
    let description = get_str(&map, "description");
    let group = get_str(&map, "group");
    let depends_on: Vec<String> = match mapping_get(&map, "depends_on") {
        Some(v) => parse_string_list(v),
        None => Vec::new(),
    };
    let reboot_on: StrMap<bool> = match mapping_get(&map, "reboot_on") {
        Some(v) => match v.as_mapping() {
            Some(fm) => parse_flags(fm),
            None => StrMap::new(),
        },
        None => StrMap::new(),
    };
    let check = parse_action_map(mapping_get(&map, "check"));
    let install = parse_action_map(action_value(&map, "install"));
    let update = parse_action_map(action_value(&map, "update"));
    let uninstall = parse_action_map(action_value(&map, "uninstall"));
    let app = AppConfig {
        id,
        name,
        description,
        group,
        check,
        install,
        update,
        uninstall,
        depends_on,
        reboot_on,
    };
    assert(app.depends_on.deep_view() =~= app_of_mapping(map@).depends_on);
    Ok(app)
}

/// The apps of a list, each read in turn, up to the first that cannot be read.
pub open spec fn apps_ok(apps: Seq<YamlValue>) -> bool {
    forall|i: int| 0 <= i < apps.len() ==> #[trigger] app_of_value(apps[i], i as usize) is Ok
}

/// Builds the configuration from what its file holds: the version, the app
/// values in order and the groups. The first app that cannot be read makes
/// the whole configuration fail, with that app's error.
pub fn assemble_config(version: u32, apps: Vec<YamlValue>, groups: Vec<GroupConfig>) -> (r: Result<
    PackageConfig,
    ConfigError,
>)
    ensures
        r is Ok <==> apps_ok(apps@),
        r matches Ok(c) ==> c.version == version && c.groups.deep_view() == groups.deep_view()
            && c.apps@.len() == apps@.len() && forall|i: int|
            0 <= i < apps@.len() ==> app_of_value(apps@[i], i as usize) == Ok::<
                AppView,
                ConfigError,
            >(#[trigger] c.apps@[i]@),
        r matches Err(e) ==> exists|i: int|
            0 <= i < apps@.len() && app_of_value(apps@[i], i as usize) == Err::<
                AppView,
                ConfigError,
            >(e) && forall|j: int| 0 <= j < i ==> #[trigger] app_of_value(apps@[j], j as usize) is Ok,
{
    let ghost input = apps@;
    let mut rest = apps;
    let mut parsed: Vec<AppConfig> = Vec::new();
    let mut i: usize = 0;
    let n = rest.len();
    while i < n
        invariant
            n == input.len(),
            input == apps@,
            i <= n,
            rest@ == input.skip(i as int),
            parsed@.len() == i,
            forall|j: int| 0 <= j < i ==> app_of_value(input[j], j as usize) == Ok::<
                AppView,
                ConfigError,
            >(#[trigger] parsed@[j]@),
        decreases n - i,
    {
        assert(rest@[0] == input[i as int]);
        let val = rest.remove(0);
        assert(rest@ =~= input.skip(i + 1));
        match parse_app(val, i) {
            Ok(app) => parsed.push(app),
            Err(e) => {
                assert(app_of_value(input[i as int], (i as int) as usize) == Err::<AppView, ConfigError>(e));
                assert(!apps_ok(input));
                assert forall|j: int| 0 <= j < i implies #[trigger] app_of_value(input[j], j as usize) is Ok by {
                    assert(app_of_value(input[j], j as usize) == Ok::<AppView, ConfigError>(parsed@[j]@));
                }
                return Err(e);
            },
        }
        i = i + 1;
    }
    assert forall|j: int| 0 <= j < input.len() implies #[trigger] app_of_value(input[j], j as usize) is Ok by {
        assert(app_of_value(input[j], j as usize) == Ok::<AppView, ConfigError>(parsed@[j]@));
    }
    Ok(PackageConfig { version, apps: parsed, groups })
}

} // verus!
