//! Reading nested documents (JSON, YAML, TOML and XML) into entries: the
//! text is parsed by the format's own crate into a value tree, which is
//! flattened.

use vstd::prelude::*;
use vstd::utf8::encode_utf8;
use super::{ConfigItem, FormatType, items_view};
use super::hierarchical::{
    HierarchicalHandler, JsonValue, JsonView, close_tag, flat, height_below, json_height, open_tag,
    text_member, xml_text,
};
use super::xml::{doc_tokens, law_xml_round_trip, simple_xml, tokens_json, xml_to_json, xml_token_list};

verus! {

/// The error that serde_json reports.
#[verifier::external_type_specification]
#[verifier::external_body]
pub struct ExJsonError(serde_json::Error);

/// The error that serde_yaml reports.
#[verifier::external_type_specification]
#[verifier::external_body]
pub struct ExYamlError(serde_yaml::Error);

/// The error that the toml reader reports.
#[verifier::external_type_specification]
#[verifier::external_body]
pub struct ExTomlError(toml::de::Error);

/// A serde_json value tree.
#[verifier::external_type_specification]
#[verifier::external_body]
pub struct ExSerdeValue(serde_json::Value);

/// Converts a serde_json value into the library's value tree, one node for
/// one node: `null`, booleans and strings as they are; a number held as an
/// integer (`is_i64` or `is_u64`) as `Number` with its text, any other
/// number as `Float` with its text; arrays and objects with their elements
/// and members in the order serde_json iterates them. Nothing is stated of
/// it: it only serves the readers below, whose results are named.
#[verifier::external_body]
fn tree_of(v: &serde_json::Value) -> JsonValue {
    match v {
        serde_json::Value::Null => JsonValue::Null,
        serde_json::Value::Bool(b) => JsonValue::Bool(*b),
        serde_json::Value::Number(n) if n.is_i64() || n.is_u64() => JsonValue::Number(n.to_string()),
        serde_json::Value::Number(n) => JsonValue::Float(n.to_string()),
        serde_json::Value::String(s) => JsonValue::Str(s.clone()),
        serde_json::Value::Array(a) => JsonValue::Array(a.iter().map(tree_of).collect()),
        serde_json::Value::Object(m) => JsonValue::Object(m.iter().map(|(k, x)| (k.clone(), tree_of(x))).collect()),
    }
}

/// The tree (converted as `tree_of` converts it) of the `serde_json::Value`
/// that `serde_json::from_str` reads from `text`; none when it reports an
/// error.
pub uninterp spec fn json_document(text: Seq<char>) -> Option<JsonView>;

/// The tree (converted as `tree_of` converts it) of the `serde_json::Value`
/// that `serde_yaml::from_str` reads from `text`; none when it reports an
/// error.
pub uninterp spec fn yaml_document(text: Seq<char>) -> Option<JsonView>;

/// The tree (converted as `tree_of` converts it) of the `serde_json::Value`
/// that `toml::from_str` reads from `text`; none when it reports an error.
pub uninterp spec fn toml_document(text: Seq<char>) -> Option<JsonView>;

/// Calls `serde_json::from_str` into a `serde_json::Value` and converts the
/// value; the result is named `json_document`.
#[verifier::external_body]
fn read_json(text: &str) -> (r: Result<JsonValue, serde_json::Error>)
    ensures
        match r {
            Ok(v) => json_document(text@) == Some(v@),
            Err(_) => json_document(text@) is None,
        },
{
    match serde_json::from_str::<serde_json::Value>(text) {
        Ok(v) => Ok(tree_of(&v)),
        Err(e) => Err(e),
    }
}

/// Calls `serde_yaml::from_str` into a `serde_json::Value` and converts the
/// value; the result is named `yaml_document`.
#[verifier::external_body]
fn read_yaml(text: &str) -> (r: Result<JsonValue, serde_yaml::Error>)
    ensures
        match r {
            Ok(v) => yaml_document(text@) == Some(v@),
            Err(_) => yaml_document(text@) is None,
        },
{
    match serde_yaml::from_str::<serde_json::Value>(text) {
        Ok(v) => Ok(tree_of(&v)),
        Err(e) => Err(e),
    }
}

/// Calls `toml::from_str` into a `serde_json::Value` and converts the
/// value; the result is named `toml_document`.
#[verifier::external_body]
fn read_toml(text: &str) -> (r: Result<JsonValue, toml::de::Error>)
    ensures
        match r {
            Ok(v) => toml_document(text@) == Some(v@),
            Err(_) => toml_document(text@) is None,
        },
{
    match toml::from_str::<serde_json::Value>(text) {
        Ok(v) => Ok(tree_of(&v)),
        Err(e) => Err(e),
    }
}

/// Whether the format is one of the nested ones.
pub open spec fn is_nested(f: FormatType) -> bool {
    f == FormatType::Json || f == FormatType::Yaml || f == FormatType::Toml || f == FormatType::Xml
}

/// The tree that a text of a nested format holds: what its parser reads
/// (for XML, the tree of its events, see `xml_to_json`); none when the
/// parser reports an error.
pub open spec fn text_document(f: FormatType, text: Seq<char>) -> Option<JsonView> {
    match f {
        FormatType::Json => json_document(text),
        FormatType::Yaml => yaml_document(text),
        FormatType::Toml => toml_document(text),
        _ => Some(tokens_json(xml_token_list(text, 0, (encode_utf8(text).len() as usize) as nat))),
    }
}

/// Why a nested document could not be read.
#[derive(Debug)]
pub enum DocumentError {
    /// The JSON parser's error.
    Json(serde_json::Error),
    /// The YAML parser's error.
    Yaml(serde_yaml::Error),
    /// The TOML parser's error.
    Toml(toml::de::Error),
    /// The document is nested deeper than the entries can count.
    TooDeep,
}

impl HierarchicalHandler {
    /// Whether a tree can be written in this handler's format: a TOML
    /// document must have an object at its root.
    pub fn root_writable(&self, value: &JsonValue) -> (r: bool)
        ensures
            r == (self.format_type != FormatType::Toml || value@ is Object),
    {
        match self.format_type {
            FormatType::Toml => match value {
                JsonValue::Object(_) => true,
                _ => false,
            },
            _ => true,
        }
    }

    /// The entries of a nested document's text: the tree that the format's
    /// parser reads, flattened; the parser's error when it reports one.
    pub fn parse_content(&self, text: &str) -> (r: Result<Vec<ConfigItem>, DocumentError>)
        requires
            is_nested(self.format_type),
        ensures
            match r {
                Ok(vars) => text_document(self.format_type, text@) matches Some(d) && json_height(d)
                    < usize::MAX && items_view(vars@) == flat(d, Seq::empty(), 0, Seq::empty()),
                Err(DocumentError::TooDeep) => text_document(self.format_type, text@) matches Some(d)
                    && json_height(d) >= usize::MAX,
                Err(_) => text_document(self.format_type, text@) is None,
            },
    {
        let tree = match self.format_type {
            FormatType::Json => match read_json(text) {
                Ok(v) => v,
                Err(e) => return Err(DocumentError::Json(e)),
            },
            FormatType::Yaml => match read_yaml(text) {
                Ok(v) => v,
                Err(e) => return Err(DocumentError::Yaml(e)),
            },
            FormatType::Toml => match read_toml(text) {
                Ok(v) => v,
                Err(e) => return Err(DocumentError::Toml(e)),
            },
            _ => xml_to_json(text),
        };
        if !height_below(&tree, usize::MAX) {
            return Err(DocumentError::TooDeep);
        }
        Ok(self.items_of(&tree))
    }
}

/// Reading XML and writing it back: when the events that quick-xml reads
/// from `text` are those of a root element `name` holding simple content
/// `v` (see `simple_xml`), the document is `{name: v}`, and writing it as
/// XML gives `<name>`, the content written as XML, and `</name>`.
pub proof fn law_xml_read_then_write(text: Seq<char>, name: Seq<char>, v: JsonView)
    requires
        simple_xml(v),
        name != text_member(),
        xml_token_list(text, 0, (encode_utf8(text).len() as usize) as nat) == doc_tokens(name, v),
    ensures
        text_document(FormatType::Xml, text) == Some(JsonView::Object(seq![(name, v)])),
        xml_text(JsonView::Object(seq![(name, v)])) == open_tag(name) + xml_text(v) + close_tag(name),
{
    law_xml_round_trip(name, v);
}

} // verus!
