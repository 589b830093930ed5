//! YAML documents as the flow parser reads them. Parsing the YAML text is
//! serde_yaml's work; its values are carried over into `YamlValue`, on which
//! the parser's logic runs.

use vstd::prelude::*;
use crate::text::{chars_of, starts_with};

verus! {

#[verifier::external_type_specification]
#[verifier::external_body]
pub struct ExYamlValue(serde_yaml::Value);

/// A YAML value. Numbers are kept as far as the parser reads them: a
/// non-negative integer, or some other number.
#[derive(Debug)]
pub enum YamlValue {
    Null,
    Bool(bool),
    Int(u64),
    OtherNumber,
    Str(String),
    Sequence(Vec<YamlValue>),
    /// Entries in document order; keys are unique.
    Mapping(Vec<(YamlValue, YamlValue)>),
    /// A value with a `!tag`; the accessors look through tags.
    Tagged(String, Box<YamlValue>),
}

/// The name for the value that serde_yaml reads from one YAML document
/// (`None` where it reports an error).
pub uninterp spec fn yaml_document(text: Seq<char>) -> Option<YamlValue>;

/// The name for the sequence that serde_yaml reads from one YAML document
/// holding a sequence (`None` where it reports an error).
pub uninterp spec fn yaml_sequence_document(text: Seq<char>) -> Option<Seq<YamlValue>>;

/// The name for the message of the error serde_yaml reports when a text is
/// not one YAML document (its `Display`, with the place of the fault).
pub uninterp spec fn yaml_error_message(text: Seq<char>) -> Seq<char>;

/// The name for the message of the error serde_yaml reports when a text is
/// not one YAML document holding a sequence.
pub uninterp spec fn yaml_sequence_error_message(text: Seq<char>) -> Seq<char>;

/// Carries a serde_yaml value over into a `YamlValue`, variant by variant.
#[verifier::external_body]
fn yaml_node(v: &serde_yaml::Value) -> YamlValue {
    match v {
        serde_yaml::Value::Null => YamlValue::Null,
        serde_yaml::Value::Bool(b) => YamlValue::Bool(*b),
        serde_yaml::Value::Number(n) => n.as_u64().map_or(YamlValue::OtherNumber, YamlValue::Int),
        serde_yaml::Value::String(s) => YamlValue::Str(s.clone()),
        serde_yaml::Value::Sequence(xs) => YamlValue::Sequence(xs.iter().map(yaml_node).collect()),
        serde_yaml::Value::Mapping(m) => YamlValue::Mapping(
            m.iter().map(|(k, x)| (yaml_node(k), yaml_node(x))).collect(),
        ),
        serde_yaml::Value::Tagged(t) => YamlValue::Tagged(t.tag.to_string(), Box::new(yaml_node(&t.value))),
    }
}

/// `serde_yaml::from_str::<serde_yaml::Value>`: reads one YAML document,
/// or gives the `Display` text of the error. Value and message depend on
/// the text alone, so they are named; the contract says no more of them.
#[verifier::external_body]
pub(crate) fn load_yaml_value(text: &str) -> (r: Result<YamlValue, String>)
    ensures
        r is Ok <==> yaml_document(text@) is Some,
        r matches Ok(v) ==> yaml_document(text@) == Some(v),
        r matches Err(m) ==> m@ == yaml_error_message(text@),
{
    serde_yaml::from_str::<serde_yaml::Value>(text).map(|v| yaml_node(&v)).map_err(|e| e.to_string())
}

/// `serde_yaml::from_str::<Vec<serde_yaml::Value>>`: reads one YAML
/// document that must hold a sequence, or gives the `Display` text of the
/// error. Named like `load_yaml_value`.
#[verifier::external_body]
pub(crate) fn load_yaml_sequence(text: &str) -> (r: Result<Vec<YamlValue>, String>)
    ensures
        r is Ok <==> yaml_sequence_document(text@) is Some,
        r matches Ok(v) ==> yaml_sequence_document(text@) == Some(v@),
        r matches Err(m) ==> m@ == yaml_sequence_error_message(text@),
{
    serde_yaml::from_str::<Vec<serde_yaml::Value>>(text).map(|vs| vs.iter().map(yaml_node).collect()).map_err(|e| e.to_string())
}

/// The value under any tags.
pub open spec fn untagged(v: YamlValue) -> YamlValue
    decreases v,
{
    match v {
        YamlValue::Tagged(_, inner) => untagged(*inner),
        _ => v,
    }
}

/// The string a value holds.
pub open spec fn yaml_str(v: YamlValue) -> Option<Seq<char>> {
    match untagged(v) {
        YamlValue::Str(s) => Some(s@),
        _ => None,
    }
}

/// The boolean a value holds.
pub open spec fn yaml_bool(v: YamlValue) -> Option<bool> {
    match untagged(v) {
        YamlValue::Bool(b) => Some(b),
        _ => None,
    }
}

/// The non-negative integer a value holds.
pub open spec fn yaml_u64(v: YamlValue) -> Option<u64> {
    match untagged(v) {
        YamlValue::Int(n) => Some(n),
        _ => None,
    }
}

/// Whether a value is null.
pub open spec fn yaml_is_null(v: YamlValue) -> bool {
    untagged(v) is Null
}

/// The value of the first entry whose key is the string `key`.
pub open spec fn entry_lookup(entries: Seq<(YamlValue, YamlValue)>, key: Seq<char>) -> Option<
    YamlValue,
>
    decreases entries.len(),
{
    if entries.len() == 0 {
        None
    } else if entries[0].0 matches YamlValue::Str(k) && k@ == key {
        Some(entries[0].1)
    } else {
        entry_lookup(entries.drop_first(), key)
    }
}

/// The value under the string key `key` of a mapping; `None` for a value
/// that is not a mapping.
pub open spec fn yaml_get(v: YamlValue, key: Seq<char>) -> Option<YamlValue> {
    match untagged(v) {
        YamlValue::Mapping(entries) => entry_lookup(entries@, key),
        _ => None,
    }
}

/// `yaml_str` of an optional value.
pub open spec fn opt_yaml_str(o: Option<YamlValue>) -> Option<Seq<char>> {
    match o {
        Some(v) => yaml_str(v),
        None => None,
    }
}

/// `yaml_u64` of an optional value.
pub open spec fn opt_yaml_u64(o: Option<YamlValue>) -> Option<u64> {
    match o {
        Some(v) => yaml_u64(v),
        None => None,
    }
}

/// `yaml_bool` of an optional value.
pub open spec fn opt_yaml_bool(o: Option<YamlValue>) -> Option<bool> {
    match o {
        Some(v) => yaml_bool(v),
        None => None,
    }
}

impl YamlValue {
    /// The value under any tags.
    pub fn untag(&self) -> (r: &YamlValue)
        ensures
            *r == untagged(*self),
        decreases self,
    {
        match self {
            YamlValue::Tagged(_, inner) => inner.untag(),
            _ => self,
        }
    }

    pub fn as_str(&self) -> (r: Option<&String>)
        ensures
            match r {
                Some(s) => yaml_str(*self) == Some(s@),
                None => yaml_str(*self) is None,
            },
    {
        match self.untag() {
            YamlValue::Str(s) => Some(s),
            _ => None,
        }
    }

    pub fn as_bool(&self) -> (r: Option<bool>)
        ensures
            r == yaml_bool(*self),
    {
        match self.untag() {
            YamlValue::Bool(b) => Some(*b),
            _ => None,
        }
    }

    pub fn as_u64(&self) -> (r: Option<u64>)
        ensures
            r == yaml_u64(*self),
    {
        match self.untag() {
            YamlValue::Int(n) => Some(*n),
            _ => None,
        }
    }

    pub fn is_null(&self) -> (r: bool)
        ensures
            r == yaml_is_null(*self),
    {
        match self.untag() {
            YamlValue::Null => true,
            _ => false,
        }
    }

    /// The entries of a mapping.
    pub fn as_mapping(&self) -> (r: Option<&Vec<(YamlValue, YamlValue)>>)
        ensures
            match r {
                Some(m) => untagged(*self) == YamlValue::Mapping(*m),
                None => !(untagged(*self) is Mapping),
            },
    {
        match self.untag() {
            YamlValue::Mapping(m) => Some(m),
            _ => None,
        }
    }

    /// The value under the string key `key` of a mapping.
    pub fn get(&self, key: &str) -> (r: Option<&YamlValue>)
        ensures
            match r {
                Some(v) => yaml_get(*self, key@) == Some(*v),
                None => yaml_get(*self, key@) is None,
            },
    {
        match self.untag() {
            YamlValue::Mapping(entries) => {
                let k = chars_of(key);
                let mut i: usize = 0;
                assert(entries@.subrange(0, entries.len() as int) =~= entries@);
                while i < entries.len()
                    invariant
                        i <= entries.len(),
                        k@ == key@,
                        untagged(*self) == YamlValue::Mapping(*entries),
                        entry_lookup(entries@, key@) == entry_lookup(
                            entries@.subrange(i as int, entries.len() as int),
                            key@,
                        ),
                    decreases entries.len() - i,
                {
                    let ghost rest = entries@.subrange(i as int, entries.len() as int);
                    assert(rest[0] == entries@[i as int]);
                    assert(rest.drop_first() =~= entries@.subrange(i + 1, entries.len() as int));
                    let mut found = false;
                    if let YamlValue::Str(s) = &entries[i].0 {
                        let cs = chars_of(s.as_str());
                        if cs.len() == k.len() && starts_with(&cs, &k) {
                            assert(cs@ =~= k@);
                            found = true;
                        } else {
                            assert(s@ != key@) by {
                                if s@ == key@ {
                                    assert(cs@.subrange(0, k@.len() as int) =~= cs@);
                                }
                            }
                        }
                    }
                    if found {
                        return Some(&entries[i].1);
                    }
                    i += 1;
                }
                None
            },
            _ => None,
        }
    }
}

} // verus!
