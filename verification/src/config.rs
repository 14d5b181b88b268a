//! Parsing of the configuration file: a TOML document whose `antenna_id`
//! key holds the identifier of the antenna to fetch.

use vstd::prelude::*;

verus! {

/// The error returned when the configuration text is not a TOML document
/// with a string under the `antenna_id` key.
#[derive(Debug, Clone, Copy, PartialEq, Eq, Structural)]
pub enum ConfigError {
    Invalid,
}

impl ConfigError {
    /// A human-readable description of the error.
    pub fn message(&self) -> (r: String)
        ensures
            r@ == "invalid config: expected a TOML document with a string 'antenna_id'"@,
    {
        String::from_str("invalid config: expected a TOML document with a string 'antenna_id'")
    }
}

/// The string that a TOML document maps `key` to, or `None` where the
/// document does not parse or holds no string under that key.
pub uninterp spec fn toml_lookup(doc: Seq<char>, key: Seq<char>) -> Option<Seq<char>>;

/// Relies on `toml::from_str` and `toml::Table::get`: parses the document
/// as a TOML table and looks the key up in it, yielding the value exactly
/// when it is a string.
#[verifier::external_body]
fn toml_string_key(doc: &str, key: &str) -> (r: Option<String>)
    ensures
        r matches Some(v) ==> toml_lookup(doc@, key@) == Some(v@),
        r is None ==> toml_lookup(doc@, key@) is None,
{
    match toml::from_str::<toml::Table>(doc) {
        Ok(table) => match table.get(key) {
            Some(toml::Value::String(s)) => Some(s.clone()),
            _ => None,
        },
        Err(_) => None,
    }
}

/// Turns a looked-up `antenna_id` value into the loader's result: the
/// identifier unchanged where one was found, the error where none was.
pub fn antenna_id_of(found: Option<String>) -> (r: Result<String, ConfigError>)
    ensures
        r matches Ok(id) ==> found matches Some(v) && id@ == v@,
        r is Err ==> found is None && r == Result::<String, ConfigError>::Err(ConfigError::Invalid),
{
    match found {
        Some(id) => Ok(id),
        None => Err(ConfigError::Invalid),
    }
}

/// Extracts the antenna identifier from the contents of the configuration
/// file: the string under the `antenna_id` key, unchanged; fails exactly
/// when the document does not parse or holds no string under that key.
pub fn load_config(contents: &str) -> (r: Result<String, ConfigError>)
    ensures
        r matches Ok(id) ==> toml_lookup(contents@, "antenna_id"@) == Some(id@),
        r is Err ==> toml_lookup(contents@, "antenna_id"@) is None
            && r == Result::<String, ConfigError>::Err(ConfigError::Invalid),
{
    antenna_id_of(toml_string_key(contents, "antenna_id"))
}

} // verus!
