//! The boundary to the TOML library. The document text format is an
//! outside collaborator: this module declares the two calls the library
//! makes into it, against the plain-field document type the rest of the
//! library works on.

use vstd::prelude::*;

verus! {

/// Mathematical model of a [`ConfigDoc`].
pub struct ConfigDocView {
    pub position_index: Option<nat>,
    pub destination_command: Seq<char>,
    pub destination_command_is_persistent: bool,
    pub hosts: Seq<Seq<char>>,
}

/// The plain fields of a configuration document: the position index if the
/// document carries one, the destination command and its persistence flag,
/// and the host tokens still as text.
#[derive(Debug)]
pub struct ConfigDoc {
    pub position_index: Option<usize>,
    pub destination_command: String,
    pub destination_command_is_persistent: bool,
    pub hosts: Vec<String>,
}

impl View for ConfigDoc {
    type V = ConfigDocView;

    open spec fn view(&self) -> ConfigDocView {
        ConfigDocView {
            position_index: match self.position_index {
                Some(i) => Some(i as nat),
                None => None,
            },
            destination_command: self.destination_command@,
            destination_command_is_persistent: self.destination_command_is_persistent,
            hosts: self.hosts@.map_values(|s: String| s@),
        }
    }
}

/// What the TOML reader makes of a document text: the document's fields,
/// or nothing when the text is not a TOML document with these fields
/// (`position_index` optional and non-negative, `destination_command` a
/// string, `destination_command_is_persistent` a boolean, `hosts` an array
/// of strings). The reading of a text depends on the text alone.
pub uninterp spec fn toml_doc_of(s: Seq<char>) -> Option<ConfigDocView>;

/// Relies on toml::from_str::<toml::Value> and toml::Value's accessors
/// (get, as_integer, as_str, as_bool, as_array): reads the document text
/// and hands its fields over as plain values.
#[verifier::external_body]
pub(crate) fn parse_doc(s: &str) -> (r: Option<ConfigDoc>)
    ensures
        match r {
            Some(d) => toml_doc_of(s@) == Some(d@),
            None => toml_doc_of(s@) is None,
        },
{
    let v: toml::Value = toml::from_str(s).ok()?;
    let position_index: Option<usize> = match v.get("position_index") {
        None => None,
        Some(x) => Some(usize::try_from(x.as_integer()?).ok()?),
    };
    let mut hosts: Vec<String> = Vec::new();
    for h in v.get("hosts")?.as_array()? {
        hosts.push(h.as_str()?.to_string());
    }
    let destination_command = v.get("destination_command")?.as_str()?.to_string();
    let destination_command_is_persistent = v.get("destination_command_is_persistent")?.as_bool()?;
    Some(ConfigDoc { position_index, destination_command, destination_command_is_persistent, hosts })
}

/// What the TOML writer makes of a document: its text, or nothing when the
/// position index does not fit the writer's integer type. The text depends
/// on the document's fields alone.
pub uninterp spec fn toml_text_of(d: ConfigDocView) -> Option<Seq<char>>;

/// Relies on toml::to_string over a toml::Table built from the document's
/// fields: writes the document as TOML text.
///
/// to_string fails only on unsupported value kinds (a non-string key, a
/// bare none, a date); a table of strings, an integer, a boolean and an
/// array of strings has none of them, so the only failure left is a
/// position index above the writer's integer range. The text it writes
/// reads back through [`parse_doc`] to the same fields: the writer escapes
/// every string and the reader undoes it.
#[verifier::external_body]
pub(crate) fn emit_doc(d: &ConfigDoc) -> (r: Option<String>)
    ensures
        (match r {
            Some(s) => toml_text_of(d@) == Some(s@),
            None => toml_text_of(d@) is None,
        }),
        (r matches Some(s) ==> toml_doc_of(s@) == Some(d@)),
        ((match d@.position_index {
            Some(i) => i <= i64::MAX as int,
            None => true,
        }) ==> r is Some),
{
    let mut t = toml::Table::new();
    if let Some(pi) = d.position_index {
        t.insert("position_index".to_string(), toml::Value::Integer(i64::try_from(pi).ok()?));
    }
    let cmd = toml::Value::String(d.destination_command.clone());
    t.insert("destination_command".to_string(), cmd);
    let persistent = toml::Value::Boolean(d.destination_command_is_persistent);
    t.insert("destination_command_is_persistent".to_string(), persistent);
    let mut hosts: Vec<toml::Value> = Vec::new();
    for h in &d.hosts {
        hosts.push(toml::Value::String(h.clone()));
    }
    t.insert("hosts".to_string(), toml::Value::Array(hosts));
    toml::to_string(&t).ok()
}

} // verus!
