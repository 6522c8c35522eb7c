//! Reading the settings of a YAML document.
//!
//! The parser is `yaml_rust2`. Nothing in this file is proved: each function
//! below hands one call to that crate and gives its result a name.

use vstd::prelude::*;
use yaml_rust2::{ScanError, Yaml, YamlLoader};

verus! {

/// `yaml_rust2::Yaml`, a YAML document; nothing is known of what is in it
/// but through the functions below.
#[verifier::external_type_specification]
#[verifier::external_body]
pub struct ExYaml(Yaml);

/// What a YAML document holds for this library: its top-level members that
/// have a string for key and for value.
pub uninterp spec fn yaml_settings(doc: Yaml) -> Map<Seq<char>, Seq<char>>;

/// What loading a text as YAML gives: the settings of each document in it, or
/// `None` where the text is not well-formed YAML.
pub uninterp spec fn yaml_loaded(source: Seq<char>) -> Option<Seq<Map<Seq<char>, Seq<char>>>>;

/// The settings of each document of `docs`, in order.
pub open spec fn settings_of(docs: Seq<Yaml>) -> Seq<Map<Seq<char>, Seq<char>>> {
    docs.map_values(|d: Yaml| yaml_settings(d))
}

/// `YamlLoader::load_from_str`: the documents of a text, or the error where
/// the text is not well-formed. The same text gives the same documents.
#[verifier::external_body]
pub(crate) fn yaml_load(source: &str) -> (r: Result<Vec<Yaml>, ScanError>)
    ensures
        match r {
            Ok(docs) => yaml_loaded(source@) == Some(settings_of(docs@)),
            Err(_) => yaml_loaded(source@).is_none(),
        },
{
    YamlLoader::load_from_str(source)
}

/// Indexing a `Yaml` by a string, then `Yaml::as_str`: the string under a
/// key of a mapping; `None` where the document is no mapping, lacks the key,
/// or holds something else than a string under it.
#[verifier::external_body]
pub(crate) fn yaml_setting(doc: &Yaml, key: &str) -> (r: Option<String>)
    ensures
        r.is_some() == yaml_settings(*doc).contains_key(key@),
        r matches Some(s) ==> s@ == yaml_settings(*doc)[key@],
{
    doc[key].as_str().map(str::to_owned)
}

} // verus!
