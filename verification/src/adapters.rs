//! Entry points that go through trusted third-party parsers: YAML, TOML
//! and the fast-path JSON reader.  Each parse is a pure function of the
//! text, so its outcome is pinned by named results: whether the library
//! accepts the text, and the shape of the tree its value model converts
//! to.  The conversion itself is a trusted visitor over the library's
//! already-parsed values; the result is then normalized by verified code,
//! so every object of a returned tree provably holds unique keys.

use vstd::prelude::*;

use crate::document::Config;
use crate::document::Error;
use crate::tree::ConfigTree;
use crate::tree::TreeShape;
use yaml_rust2::Yaml;

verus! {

#[verifier::external_type_specification]
#[verifier::external_body]
pub struct ExJsonValue(serde_json::Value);

#[verifier::external_type_specification]
#[verifier::external_body]
pub struct ExTomlValue(toml::Value);

#[verifier::external_type_specification]
#[verifier::external_body]
pub struct ExYaml(yaml_rust2::Yaml);

/// Whether the JSON library accepts the text as one JSON document.
pub uninterp spec fn json_ok(s: Seq<char>) -> bool;

/// The shape of the tree the accepted JSON document converts to.
pub uninterp spec fn json_tree_of(s: Seq<char>) -> TreeShape;

/// Whether the TOML library accepts the text as a TOML document.
pub uninterp spec fn toml_ok(s: Seq<char>) -> bool;

/// The shape of the tree the accepted TOML document converts to.
pub uninterp spec fn toml_tree_of(s: Seq<char>) -> TreeShape;

/// Whether the YAML library scans the text cleanly.
pub uninterp spec fn yaml_ok(s: Seq<char>) -> bool;

/// How many documents the scanned stream holds.
pub uninterp spec fn yaml_doc_count(s: Seq<char>) -> int;

/// Whether document `i` of the stream converts: no alias, no invalid node,
/// and only scalar mapping keys.
pub uninterp spec fn yaml_doc_ok(s: Seq<char>, i: int) -> bool;

/// The shape of the tree document `i` of the stream converts to.
pub uninterp spec fn yaml_doc_tree(s: Seq<char>, i: int) -> TreeShape;

/// The YAML entry point accepts a text when it scans cleanly as exactly one
/// document and that document converts.
pub open spec fn yaml_accepts(s: Seq<char>) -> bool {
    yaml_ok(s) && yaml_doc_count(s) == 1 && yaml_doc_ok(s, 0)
}

/// Relies on serde_json::from_str::<serde_json::Value> and the conversion
/// below: parsing and converting are one function of the text alone, here
/// named `json_ok` and `json_tree_of`.
#[verifier::external_body]
fn json_text_tree(text: &str) -> (r: Result<ConfigTree, String>)
    ensures
        r is Ok <==> json_ok(text@),
        r matches Ok(t) ==> t.shape() == json_tree_of(text@),
{
    match serde_json::from_str(text) {
        Ok(v) => Ok(json_value_tree(v)),
        Err(e) => Err(e.to_string()),
    }
}

/// Relies on serde_json::Value's variants and serde_json::Map's iteration:
/// each variant moves to the matching tree variant, one arm each; numbers
/// keep the library's textual rendering.
#[verifier::external_body]
fn json_value_tree(v: serde_json::Value) -> (r: ConfigTree) {
    match v {
        serde_json::Value::Null => ConfigTree::Null,
        serde_json::Value::Bool(b) => ConfigTree::Bool(b),
        serde_json::Value::Number(n) => ConfigTree::String(n.to_string()),
        serde_json::Value::String(s) => ConfigTree::String(s),
        serde_json::Value::Array(a) => ConfigTree::Array(
            a.into_iter().map(json_value_tree).collect(),
        ),
        serde_json::Value::Object(m) => ConfigTree::Object(
            m.into_iter().map(|(k, x)| (k, json_value_tree(x))).collect(),
        ),
    }
}

/// Relies on toml::from_str::<toml::Value> and the conversion below:
/// parsing and converting are one function of the text alone, here named
/// `toml_ok` and `toml_tree_of`.
#[verifier::external_body]
fn toml_text_tree(text: &str) -> (r: Result<ConfigTree, String>)
    ensures
        r is Ok <==> toml_ok(text@),
        r matches Ok(t) ==> t.shape() == toml_tree_of(text@),
{
    match toml::from_str(text) {
        Ok(v) => Ok(toml_value_tree(v)),
        Err(e) => Err(e.to_string()),
    }
}

/// Relies on toml::Value's variants and toml::Table's iteration: each
/// variant moves to the matching tree variant, one arm each; integers,
/// floats and datetimes keep the library's textual rendering.
#[verifier::external_body]
fn toml_value_tree(v: toml::Value) -> (r: ConfigTree) {
    match v {
        toml::Value::String(s) => ConfigTree::String(s),
        toml::Value::Integer(i) => ConfigTree::String(i.to_string()),
        toml::Value::Float(x) => ConfigTree::String(x.to_string()),
        toml::Value::Boolean(b) => ConfigTree::Bool(b),
        toml::Value::Datetime(d) => ConfigTree::String(d.to_string()),
        toml::Value::Array(a) => ConfigTree::Array(a.into_iter().map(toml_value_tree).collect()),
        toml::Value::Table(t) => ConfigTree::Object(
            t.into_iter().map(|(k, x)| (k, toml_value_tree(x))).collect(),
        ),
    }
}

/// Relies on yaml_rust2::YamlLoader::load_from_str and the conversion
/// below: scanning the stream and converting each of its documents are one
/// function of the text alone, here named `yaml_ok`, `yaml_doc_count`,
/// `yaml_doc_ok` and `yaml_doc_tree`.
#[verifier::external_body]
fn yaml_text_docs(text: &str) -> (r: Result<Vec<Result<ConfigTree, String>>, String>)
    ensures
        r is Ok <==> yaml_ok(text@),
        r matches Ok(docs) ==> docs@.len() == yaml_doc_count(text@) && forall|i: int|
            0 <= i < docs@.len() ==> ((#[trigger] docs@[i]) is Ok <==> yaml_doc_ok(text@, i)) && (
            docs@[i] matches Ok(t) ==> t.shape() == yaml_doc_tree(text@, i)),
{
    match yaml_rust2::YamlLoader::load_from_str(text) {
        Ok(docs) => Ok(docs.into_iter().map(yaml_node_tree).collect()),
        Err(e) => Err(e.to_string()),
    }
}

/// Relies on yaml_rust2::Yaml's scalar variants: a scalar key keeps its
/// text (integers and booleans through their rendering), any other key is
/// refused, as a mapping key must be scalar.
#[verifier::external_body]
fn yaml_key_text(k: Yaml) -> (r: Result<String, String>) {
    match k {
        Yaml::Real(s) => Ok(s),
        Yaml::Integer(i) => Ok(i.to_string()),
        Yaml::String(s) => Ok(s),
        Yaml::Boolean(b) => Ok(b.to_string()),
        _ => Err(String::from("Unexpected Complex Key in map")),
    }
}

/// Relies on yaml_rust2's hash iteration: a hash node's entries, in
/// insertion order, each key's text beside its converted value.
#[verifier::external_body]
fn yaml_hash_pairs(y: Yaml) -> (r: Result<Vec<(String, ConfigTree)>, String>) {
    match y {
        Yaml::Hash(h) => h.into_iter().map(
            |(k, x)| Ok((yaml_key_text(k)?, yaml_node_tree(x)?)),
        ).collect(),
        _ => Err(String::from("Bad value found")),
    }
}

/// Relies on yaml_rust2::Yaml's variants: each moves to the matching tree
/// variant, one arm each; floats keep their source text, integers their
/// rendering; aliases and invalid nodes are refused as unsupported.
#[verifier::external_body]
fn yaml_node_tree(y: Yaml) -> (r: Result<ConfigTree, String>) {
    match y {
        Yaml::Real(s) => Ok(ConfigTree::String(s)),
        Yaml::Integer(i) => Ok(ConfigTree::String(i.to_string())),
        Yaml::String(s) => Ok(ConfigTree::String(s)),
        Yaml::Boolean(b) => Ok(ConfigTree::Bool(b)),
        Yaml::Array(a) => Ok(
            ConfigTree::Array(a.into_iter().map(yaml_node_tree).collect::<Result<_, _>>()?),
        ),
        Yaml::Hash(h) => Ok(ConfigTree::Object(yaml_hash_pairs(Yaml::Hash(h))?)),
        Yaml::Null => Ok(ConfigTree::Null),
        Yaml::Alias(_) => Err(String::from("yaml_rust2 alias not fully implemented")),
        Yaml::BadValue => Err(String::from("Bad value found")),
    }
}

impl Config {
    /// Parse a JSON document through the trusted library's fast path: no
    /// identifiers and no location table.  Numbers are kept as text through
    /// the library's own rendering of its numeric values.
    ///
    /// Succeeds exactly when the library accepts the text; the returned
    /// tree has the named shape of the accepted document, normalized by
    /// verified code so that every object holds unique keys.
    pub fn from_json(file_name: &str, content: &str) -> (r: Result<Config, Error>)
        ensures
            match r {
                Ok(cfg) => {
                    &&& json_ok(content@)
                    &&& cfg matches Config::NonDebug { tree, file_name: fname }
                    &&& fname@ == file_name@
                    &&& tree.wf()
                    &&& tree.shape() == json_tree_of(content@)
                },
                Err(e) => {
                    &&& !json_ok(content@)
                    &&& e matches Error::SerdeJson { err, file_name: fname }
                    &&& fname@ == file_name@
                },
            },
    {
        match json_text_tree(content) {
            Ok(raw) => {
                let tree = raw.normalize();
                Ok(Config::NonDebug { tree, file_name: file_name.to_owned() })
            },
            Err(msg) => Err(Error::SerdeJson { err: msg, file_name: file_name.to_owned() }),
        }
    }

    /// Parse a TOML document through the trusted library: no identifiers
    /// and no location table.  Integers, floats and datetimes are kept as
    /// text through the library's own rendering.
    ///
    /// Succeeds exactly when the library accepts the text; the returned
    /// tree has the named shape of the accepted document, normalized by
    /// verified code so that every object holds unique keys.
    pub fn from_toml(file_name: &str, content: &str) -> (r: Result<Config, Error>)
        ensures
            match r {
                Ok(cfg) => {
                    &&& toml_ok(content@)
                    &&& cfg matches Config::NonDebug { tree, file_name: fname }
                    &&& fname@ == file_name@
                    &&& tree.wf()
                    &&& tree.shape() == toml_tree_of(content@)
                },
                Err(e) => {
                    &&& !toml_ok(content@)
                    &&& e matches Error::SerdeToml { err, file_name: fname }
                    &&& fname@ == file_name@
                },
            },
    {
        match toml_text_tree(content) {
            Ok(raw) => {
                let tree = raw.normalize();
                Ok(Config::NonDebug { tree, file_name: file_name.to_owned() })
            },
            Err(msg) => Err(Error::SerdeToml { err: msg, file_name: file_name.to_owned() }),
        }
    }

    /// Parse a YAML document through the trusted library: no identifiers
    /// and no location table.
    ///
    /// Succeeds exactly when the text scans cleanly as one single document
    /// that converts (no alias, no invalid node, only scalar mapping keys);
    /// the returned tree has that document's named shape, normalized by
    /// verified code so that every object holds unique keys.  A stream with
    /// any other document count is refused with a fixed message.
    pub fn from_yaml(file_name: &str, content: &str) -> (r: Result<Config, Error>)
        ensures
            match r {
                Ok(cfg) => {
                    &&& yaml_accepts(content@)
                    &&& cfg matches Config::NonDebug { tree, file_name: fname }
                    &&& fname@ == file_name@
                    &&& tree.wf()
                    &&& tree.shape() == yaml_doc_tree(content@, 0)
                },
                Err(e) => {
                    &&& !yaml_accepts(content@)
                    &&& e matches Error::YAMLError { err, file_name: fname }
                    &&& fname@ == file_name@
                    &&& (yaml_ok(content@) && yaml_doc_count(content@) != 1) ==> err@
                        == "expected exactly one document"@
                },
            },
    {
        let docs = match yaml_text_docs(content) {
            Ok(docs) => docs,
            Err(msg) => {
                return Err(Error::YAMLError { err: msg, file_name: file_name.to_owned() });
            },
        };
        // only accept one document within the stream
        if docs.len() != 1 {
            return Err(
                Error::YAMLError {
                    err: "expected exactly one document".to_owned(),
                    file_name: file_name.to_owned(),
                },
            );
        }
        let mut docs = docs;
        let ghost gdocs = docs@;
        let doc = docs.pop().unwrap();
        proof {
            assert(doc == gdocs[0]);
        }
        match doc {
            Ok(raw) => {
                let tree = raw.normalize();
                Ok(Config::NonDebug { tree, file_name: file_name.to_owned() })
            },
            Err(msg) => Err(Error::YAMLError { err: msg, file_name: file_name.to_owned() }),
        }
    }
}

} // verus!
