//! What is known of one document: the names that it defines, and the commands whose
//! first argument is a key.

use vstd::prelude::*;

use crate::semantic::bundle;
use crate::text::same_text;

verus! {

/// `name` is one of `names`.
pub fn lists_name(names: &[String], name: &str) -> (r: bool)
    ensures
        r == bundle::strings(names@).contains(name@),
{
    for i in 0..names.len()
        invariant
            forall|k: int| 0 <= k < i ==> #[trigger] bundle::strings(names@)[k] != name@,
    {
        assert(bundle::strings(names@)[i as int] == names@[i as int]@);
        if same_text(names[i].as_str(), name) {
            return true;
        }
    }
    false
}

/// The names that a document defines, each in the order of its definitions; a name
/// may occur more than once.
#[derive(Debug)]
pub struct SemanticModel {
    /// The keys of its labels.
    pub labels: Vec<String>,
    /// The names of its colors.
    pub color_defs: Vec<String>,
}

/// The commands whose first brace argument is a key, without the leading backslash.
#[derive(Debug)]
pub struct KeyCommands {
    /// Those that refer to a label.
    pub refs: Vec<String>,
    /// Those that cite.
    pub cites: Vec<String>,
    /// Those that refer to a glossary entry.
    pub glossary: Vec<String>,
}

/// What a `KeyCommands` lists.
pub struct KeyNames {
    pub refs: Seq<Seq<char>>,
    pub cites: Seq<Seq<char>>,
    pub glossary: Seq<Seq<char>>,
}

impl View for KeyCommands {
    type V = KeyNames;

    open spec fn view(&self) -> KeyNames {
        KeyNames {
            refs: bundle::strings(self.refs@),
            cites: bundle::strings(self.cites@),
            glossary: bundle::strings(self.glossary@),
        }
    }
}

impl KeyCommands {
    /// Whether `name` refers to a label.
    pub fn is_ref_command(&self, name: &str) -> (r: bool)
        ensures
            r == self@.refs.contains(name@),
    {
        lists_name(self.refs.as_slice(), name)
    }

    /// Whether `name` cites.
    pub fn is_cite_command(&self, name: &str) -> (r: bool)
        ensures
            r == self@.cites.contains(name@),
    {
        lists_name(self.cites.as_slice(), name)
    }

    /// Whether `name` refers to a glossary entry.
    pub fn is_glossary_ref_command(&self, name: &str) -> (r: bool)
        ensures
            r == self@.glossary.contains(name@),
    {
        lists_name(self.glossary.as_slice(), name)
    }
}

} // verus!
