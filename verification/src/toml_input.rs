//! TOML documents as the `toml` crate parses them.
//!
//! Parsing TOML syntax is left to `toml`; the library reads the parsed
//! document through the tree model [`TomlNode`] and decides for itself what
//! shape a configuration must have.

use vstd::prelude::*;

verus! {

#[verifier::external_type_specification]
#[verifier::external_body]
pub struct ExTomlValue(toml::Value);

#[verifier::external_type_specification]
#[verifier::external_body]
#[verifier::reject_recursive_types(K)]
#[verifier::reject_recursive_types(V)]
pub struct ExTomlMap<K, V>(toml::map::Map<K, V>);

#[verifier::external_type_specification]
#[verifier::external_body]
pub struct ExTomlError(toml::de::Error);

/// A parsed TOML value: the shape the library reads. Floats and datetimes
/// are never accepted by the configuration schema, so only their kind is kept.
pub enum TomlNode {
    Text(Seq<char>),
    Integer(int),
    Float,
    Boolean(bool),
    Datetime,
    Array(Seq<TomlNode>),
    Table(Seq<(Seq<char>, TomlNode)>),
}

/// What a `toml::Value` holds.
pub uninterp spec fn toml_node(v: toml::Value) -> TomlNode;

/// What a `toml::Table` holds: its entries in iteration order. With the
/// `preserve_order` feature this is the order of first appearance in the
/// document.
pub uninterp spec fn toml_entries(t: toml::Table) -> Seq<(Seq<char>, TomlNode)>;

/// The table `toml::from_str` parses from a document text, or `None` when it
/// reports an error.
pub uninterp spec fn toml_document(text: Seq<char>) -> Option<Seq<(Seq<char>, TomlNode)>>;

/// One level of a `toml::Value`, with nested values left as references.
pub enum TomlShape<'a> {
    Text(&'a String),
    Integer(i64),
    Float,
    Boolean(bool),
    Datetime,
    Array(&'a Vec<toml::Value>),
    Table(&'a toml::Table),
}

pub open spec fn item_nodes(items: Seq<toml::Value>) -> Seq<TomlNode> {
    items.map_values(|v: toml::Value| toml_node(v))
}

/// Whether a shape shows the top level of a node.
pub open spec fn shows(shape: TomlShape, node: TomlNode) -> bool {
    match shape {
        TomlShape::Text(s) => node == TomlNode::Text(s@),
        TomlShape::Integer(i) => node == TomlNode::Integer(i as int),
        TomlShape::Float => node == TomlNode::Float,
        TomlShape::Boolean(b) => node == TomlNode::Boolean(b),
        TomlShape::Datetime => node == TomlNode::Datetime,
        TomlShape::Array(items) => node == TomlNode::Array(item_nodes(items@)),
        TomlShape::Table(t) => node == TomlNode::Table(toml_entries(*t)),
    }
}

pub open spec fn entry_models<'a>(entries: Seq<(&'a String, &'a toml::Value)>) -> Seq<(Seq<char>, TomlNode)> {
    entries.map_values(|e: (&'a String, &'a toml::Value)| (e.0@, toml_node(*e.1)))
}

/// `toml::from_str`, parsing a whole document into a table.
#[verifier::external_body]
pub(crate) fn parse_toml_table(text: &str) -> (r: Result<toml::Table, toml::de::Error>)
    ensures
        r matches Ok(t) ==> toml_document(text@) == Some(toml_entries(t)),
        r is Err <==> toml_document(text@) is None,
{
    toml::from_str::<toml::Table>(text)
}

/// The top level of a `toml::Value`, one arm per variant.
#[verifier::external_body]
pub(crate) fn value_shape(v: &toml::Value) -> (r: TomlShape<'_>)
    ensures
        shows(r, toml_node(*v)),
{
    match v {
        toml::Value::String(s) => TomlShape::Text(s),
        toml::Value::Integer(i) => TomlShape::Integer(*i),
        toml::Value::Float(_) => TomlShape::Float,
        toml::Value::Boolean(b) => TomlShape::Boolean(*b),
        toml::Value::Datetime(_) => TomlShape::Datetime,
        toml::Value::Array(items) => TomlShape::Array(items),
        toml::Value::Table(t) => TomlShape::Table(t),
    }
}

/// `toml::map::Map::iter`, collected. A map never repeats a key.
#[verifier::external_body]
pub(crate) fn table_entries(t: &toml::Table) -> (r: Vec<(&String, &toml::Value)>)
    ensures
        entry_models(r@) == toml_entries(*t),
        forall|i: int, j: int|
            0 <= i < r@.len() && 0 <= j < r@.len() && i != j ==> r@[i].0@ != r@[j].0@,
{
    t.iter().collect()
}

/// The text `Display` renders for a TOML error (its message, with the
/// location and the offending line of the document where the error has one).
pub uninterp spec fn toml_error_display(error: toml::de::Error) -> Seq<char>;

/// `Display` of a TOML error.
#[verifier::external_body]
pub(crate) fn toml_error_text(error: &toml::de::Error) -> (r: String)
    ensures
        r@ == toml_error_display(*error),
{
    format!("{error}")
}

} // verus!
