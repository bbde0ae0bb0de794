//! YAML documents as plain values, read with `yaml_rust`.

use vstd::prelude::*;
use yaml_rust::{ScanError, Yaml, YamlLoader};

verus! {

#[verifier::external_type_specification]
#[verifier::external_body]
pub struct ExYaml(Yaml);

#[verifier::external_type_specification]
#[verifier::external_body]
pub struct ExScanError(ScanError);

/// A node of a YAML document, as `yaml_rust` reads it.
#[derive(Debug, PartialEq)]
pub enum YamlValue {
    /// A float, kept as the text it was written with.
    Real(String),
    Integer(i64),
    Str(String),
    Boolean(bool),
    Array(Vec<YamlValue>),
    /// A mapping, one entry per key, in the order `yaml_rust` keeps them: a key written twice
    /// holds its last value and stands where it was last written.
    Hash(Vec<(YamlValue, YamlValue)>),
    Alias(usize),
    Null,
    BadValue,
}

/// The documents that `yaml_rust::YamlLoader::load_from_str` reads from a text,
/// or `None` where it refuses the text.
pub uninterp spec fn yaml_documents(text: Seq<char>) -> Option<Seq<YamlValue>>;

/// Trusted: calls `yaml_rust::YamlLoader::load_from_str` and converts the documents it reads,
/// node for node, to `YamlValue`. Claimed: the call succeeds exactly where `yaml_documents`
/// is `Some`, and then gives those documents; the loader depends on the text alone.
#[verifier::external_body]
pub(crate) fn load_yaml(text: &str) -> (r: Result<Vec<YamlValue>, ScanError>)
    ensures
        r is Ok <==> yaml_documents(text@) is Some,
        r matches Ok(docs) ==> yaml_documents(text@) == Some(docs@),
{
    match YamlLoader::load_from_str(text) {
        Ok(docs) => Ok(docs.into_iter().map(yaml_value).collect()),
        Err(e) => Err(e),
    }
}

/// Trusted: the node-for-node conversion of a `yaml_rust::Yaml` that `load_yaml` hands out;
/// one arm for each variant, fields moved as they are.
#[verifier::external_body]
fn yaml_value(node: Yaml) -> YamlValue {
    match node {
        Yaml::Real(s) => YamlValue::Real(s),
        Yaml::Integer(i) => YamlValue::Integer(i),
        Yaml::String(s) => YamlValue::Str(s),
        Yaml::Boolean(b) => YamlValue::Boolean(b),
        Yaml::Array(items) => YamlValue::Array(items.into_iter().map(yaml_value).collect()),
        Yaml::Hash(entries) => YamlValue::Hash(
            entries.into_iter().map(|(k, v)| (yaml_value(k), yaml_value(v))).collect(),
        ),
        Yaml::Alias(a) => YamlValue::Alias(a),
        Yaml::Null => YamlValue::Null,
        Yaml::BadValue => YamlValue::BadValue,
    }
}

/// The node is the string `key`.
pub open spec fn is_key(node: YamlValue, key: Seq<char>) -> bool {
    node matches YamlValue::Str(s) && s@ == key
}

/// The value of the first entry whose key is the string `key`.
pub open spec fn lookup_entries(entries: Seq<(YamlValue, YamlValue)>, key: Seq<char>) -> Option<
    YamlValue,
>
    decreases entries.len(),
{
    if entries.len() == 0 {
        None
    } else if is_key(entries[0].0, key) {
        Some(entries[0].1)
    } else {
        lookup_entries(entries.drop_first(), key)
    }
}

/// The value under the string key `key` of a mapping; `None` where the node is no mapping or
/// has no such key (where `yaml_rust`'s index by a string gives `BadValue`).
pub open spec fn spec_get(node: YamlValue, key: Seq<char>) -> Option<YamlValue> {
    match node {
        YamlValue::Hash(entries) => lookup_entries(entries@, key),
        _ => None,
    }
}

/// The value under the string key `key` of a mapping node.
pub fn get<'a>(node: &'a YamlValue, key: &str) -> (r: Option<&'a YamlValue>)
    ensures
        r matches Some(v) ==> spec_get(*node, key@) == Some(*v),
        r is None ==> spec_get(*node, key@) is None,
{
    match node {
        YamlValue::Hash(entries) => {
            let wanted = key.to_owned();
            let ghost all = entries@;
            let mut i: usize = 0;
            assert(all.skip(0) =~= all);
            while i < entries.len()
                invariant
                    i <= entries@.len(),
                    all == entries@,
                    wanted@ == key@,
                    spec_get(*node, key@) == lookup_entries(all, key@),
                    lookup_entries(all, key@) == lookup_entries(all.skip(i as int), key@),
                decreases entries.len() - i,
            {
                let ghost rest = all.skip(i as int);
                assert(rest[0] == entries@[i as int]);
                assert(rest.drop_first() =~= all.skip(i + 1));
                let found = match &entries[i].0 {
                    YamlValue::Str(s) => *s == wanted,
                    _ => false,
                };
                assert(found == is_key(rest[0].0, key@));
                if found {
                    return Some(&entries[i].1);
                }
                i = i + 1;
            }
            assert(all.skip(i as int) =~= Seq::<(YamlValue, YamlValue)>::empty());
            None
        },
        _ => None,
    }
}

} // verus!
