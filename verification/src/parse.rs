//! Parsing of YAML configuration text into the plain document model. The
//! parser itself is the `serde_yaml` crate; its result on a given text is
//! named and everything downstream is proved against that name.

use vstd::prelude::*;

use crate::value::{ConfigValue, ValueModel};

verus! {

#[verifier::external_type_specification]
#[verifier::external_body]
pub struct ExYamlValue(serde_yaml::Value);

/// The document that the YAML text parses to, if it parses: a pure function
/// of the text. Its value is computed by `serde_yaml::from_str`.
pub uninterp spec fn yaml_doc_of(s: Seq<char>) -> Option<ValueModel>;

/// Relies on serde_yaml::Value: converts a parsed node, variant for variant;
/// integers stay integers, other numbers keep their decimal text form.
#[verifier::external_body]
fn convert_yaml(v: serde_yaml::Value) -> (r: ConfigValue) {
    match v {
        serde_yaml::Value::Null => ConfigValue::Null,
        serde_yaml::Value::Bool(b) => ConfigValue::Bool(b),
        serde_yaml::Value::Number(n) => {
            n.as_i64().map(ConfigValue::Int).unwrap_or_else(|| ConfigValue::Num(format!("{}", n)))
        },
        serde_yaml::Value::String(s) => ConfigValue::Str(s),
        serde_yaml::Value::Sequence(xs) => {
            ConfigValue::Sequence(xs.into_iter().map(convert_yaml).collect())
        },
        serde_yaml::Value::Mapping(m) => {
            ConfigValue::Mapping(m.into_iter().map(|p| (convert_yaml(p.0), convert_yaml(p.1))).collect())
        },
        serde_yaml::Value::Tagged(t) => convert_yaml(t.value),
    }
}

/// Relies on serde_yaml::from_str: parsing is deterministic in the text; the
/// parsed document is returned as a plain value, `None` on a syntax error.
#[verifier::external_body]
pub fn parse_yaml(s: &str) -> (r: Option<ConfigValue>)
    ensures
        match r {
            Some(v) => yaml_doc_of(s@) == Some(v@),
            None => yaml_doc_of(s@) is None,
        },
{
    match serde_yaml::from_str::<serde_yaml::Value>(s) {
        Ok(v) => Some(convert_yaml(v)),
        Err(_) => None,
    }
}

} // verus!
