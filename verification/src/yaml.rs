//! YAML documents as plain values, read with the `yaml-rust` loader.

use vstd::prelude::*;
use yaml_rust::{Yaml, YamlLoader};

verus! {

/// A YAML node, one variant for each kind of node the loader produces.
#[derive(Debug, PartialEq)]
pub enum YamlValue {
    /// A floating-point scalar, kept as its text.
    Real(String),
    Integer(i64),
    String(String),
    Boolean(bool),
    Array(Vec<YamlValue>),
    /// A mapping, its entries in the order the loader keeps them.
    Hash(Vec<(YamlValue, YamlValue)>),
    Alias(usize),
    Null,
    BadValue,
}

#[verifier::external_type_specification]
#[verifier::external_body]
pub struct ExYaml(Yaml);

/// The documents that `YamlLoader::load_from_str` reads from a text, each node
/// converted to a `YamlValue`; `None` where the loader reports a scan error.
pub uninterp spec fn yaml_documents(text: Seq<char>) -> Option<Seq<YamlValue>>;

/// Converts a loaded node, variant for variant; mappings keep the loader's entry order.
#[verifier::external_body]
fn yaml_value(y: &Yaml) -> YamlValue {
    match y {
        Yaml::Real(s) => YamlValue::Real(s.clone()),
        Yaml::Integer(i) => YamlValue::Integer(*i),
        Yaml::String(s) => YamlValue::String(s.clone()),
        Yaml::Boolean(b) => YamlValue::Boolean(*b),
        Yaml::Array(a) => YamlValue::Array(a.iter().map(yaml_value).collect()),
        Yaml::Hash(h) => YamlValue::Hash(h.iter().map(|(k, v)| (yaml_value(k), yaml_value(v))).collect()),
        Yaml::Alias(n) => YamlValue::Alias(*n),
        Yaml::Null => YamlValue::Null,
        Yaml::BadValue => YamlValue::BadValue,
    }
}

/// Loads the YAML documents of `text` with `YamlLoader::load_from_str`; the
/// result depends on the text alone.
#[verifier::external_body]
pub(crate) fn load_yaml(text: &str) -> (docs: Option<Vec<YamlValue>>)
    ensures
        docs matches Some(d) ==> yaml_documents(text@) == Some(d@),
        docs is None ==> yaml_documents(text@) is None,
{
    match YamlLoader::load_from_str(text) {
        Ok(docs) => Some(docs.iter().map(yaml_value).collect()),
        Err(_) => None,
    }
}

} // verus!
