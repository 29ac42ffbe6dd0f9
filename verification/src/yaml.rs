//! The document model that configuration files are read into: what the
//! configuration logic reads of a YAML (or JSON) value.
use vstd::prelude::*;
use crate::text::str_eq;

verus! {

/// A YAML value. Numbers are kept as a bare marker: nothing reads their value.
/// A mapping lists its entries in document order, with distinct keys.
pub enum YamlValue {
    Null,
    Bool(bool),
    Number,
    String(String),
    Sequence(Vec<YamlValue>),
    Mapping(Vec<(YamlValue, YamlValue)>),
    Tagged(Box<YamlValue>),
}

/// The value with its tags removed.
pub open spec fn untagged(v: YamlValue) -> YamlValue
    decreases v,
{
    match v {
        YamlValue::Tagged(b) => untagged(*b),
        _ => v,
    }
}

/// The text of a (possibly tagged) string value.
pub open spec fn str_of(v: YamlValue) -> Option<Seq<char>> {
    match untagged(v) {
        YamlValue::String(s) => Some(s@),
        _ => None,
    }
}

/// The value of a (possibly tagged) boolean value.
pub open spec fn bool_of(v: YamlValue) -> Option<bool> {
    match untagged(v) {
        YamlValue::Bool(b) => Some(b),
        _ => None,
    }
}

/// The entries of a (possibly tagged) mapping value.
pub open spec fn mapping_of(v: YamlValue) -> Option<Seq<(YamlValue, YamlValue)>> {
    match untagged(v) {
        YamlValue::Mapping(m) => Some(m@),
        _ => None,
    }
}

/// Whether a mapping key is the (untagged) string `key`.
pub open spec fn is_key(k: YamlValue, key: Seq<char>) -> bool {
    match k {
        YamlValue::String(s) => s@ == key,
        _ => false,
    }
}

/// The value of the first entry of a mapping whose key is the string `key`.
pub open spec fn mapping_lookup(m: Seq<(YamlValue, YamlValue)>, key: Seq<char>) -> Option<YamlValue>
    decreases m.len(),
{
    if m.len() == 0 {
        None
    } else if is_key(m[0].0, key) {
        Some(m[0].1)
    } else {
        mapping_lookup(m.drop_first(), key)
    }
}

/// The value under string key `key` of a (possibly tagged) mapping.
pub open spec fn value_get(v: YamlValue, key: Seq<char>) -> Option<YamlValue> {
    match mapping_of(v) {
        Some(m) => mapping_lookup(m, key),
        None => None,
    }
}

/// The value under string key `key` in the entries of a mapping.
pub fn mapping_get<'a>(m: &'a Vec<(YamlValue, YamlValue)>, key: &str) -> (r: Option<&'a YamlValue>)
    ensures
        match r {
            Some(v) => mapping_lookup(m@, key@) == Some(*v),
            None => mapping_lookup(m@, key@) is None,
        },
{
    let mut i: usize = 0;
    assert(m@.skip(0) =~= m@);
    while i < m.len()
        invariant
            i <= m.len(),
            mapping_lookup(m@, key@) == mapping_lookup(m@.skip(i as int), key@),
        decreases m.len() - i,
    {
        let ghost rest = m@.skip(i as int);
        assert(rest[0] == m@[i as int]);
        assert(rest.drop_first() =~= m@.skip(i + 1));
        let found = match &m[i].0 {
            YamlValue::String(s) => str_eq(s.as_str(), key),
            _ => false,
        };
        if found {
            return Some(&m[i].1);
        }
        i = i + 1;
    }
    assert(m@.skip(i as int).len() == 0);
    None
}

impl YamlValue {
    /// The value with its tags removed.
    pub fn untag(&self) -> (r: &YamlValue)
        ensures
            *r == untagged(*self),
        decreases self,
    {
        match self {
            YamlValue::Tagged(b) => b.untag(),
            _ => self,
        }
    }

    /// The text of a string value.
    pub fn as_str(&self) -> (r: Option<&String>)
        ensures
            match r {
                Some(s) => str_of(*self) == Some(s@),
                None => str_of(*self) is None,
            },
    {
        match self.untag() {
            YamlValue::String(s) => Some(s),
            _ => None,
        }
    }

    /// The value of a boolean value.
    pub fn as_bool(&self) -> (r: Option<bool>)
        ensures
            r == bool_of(*self),
    {
        match self.untag() {
            YamlValue::Bool(b) => Some(*b),
            _ => None,
        }
    }

    /// The entries of a mapping value.
    pub fn as_mapping(&self) -> (r: Option<&Vec<(YamlValue, YamlValue)>>)
        ensures
            match r {
                Some(m) => mapping_of(*self) == Some(m@),
                None => mapping_of(*self) is None,
            },
    {
        match self.untag() {
            YamlValue::Mapping(m) => Some(m),
            _ => None,
        }
    }

    /// The value under string key `key` of a mapping value.
    pub fn get(&self, key: &str) -> (r: Option<&YamlValue>)
        ensures
            match r {
                Some(v) => value_get(*self, key@) == Some(*v),
                None => value_get(*self, key@) is None,
            },
    {
        match self.as_mapping() {
            Some(m) => mapping_get(m, key),
            None => None,
        }
    }
}

} // verus!
