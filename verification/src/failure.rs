//! What can go wrong in the library.

use vstd::prelude::*;
use vstd::string::StringExecFns;

verus! {

/// The failures that the library reports.
#[derive(Debug, Clone, PartialEq, Eq)]
pub enum Failure {
    /// The picker's output neither ends in `.png` nor holds a space.
    InvalidSelection,
    /// A history identity is no PNG file name and the catalog does not know
    /// it.
    MissingCatalogEntry { identity: String },
    /// A store document is not a flat JSON object of the expected kind.
    MalformedStore,
    /// The home directory could not be found.
    HomeNotFound,
    /// A path of the configuration is not valid Unicode.
    PathNotUnicode,
}

impl Failure {
    /// The text of the message that describes the failure.
    pub open spec fn message_text(&self) -> Seq<char> {
        match self {
            Failure::InvalidSelection => "Invalid emoji format"@,
            Failure::MissingCatalogEntry { identity } => "No catalog entry for "@ + identity@,
            Failure::MalformedStore => "Malformed store document"@,
            Failure::HomeNotFound => "No home directory"@,
            Failure::PathNotUnicode => "Path is not valid Unicode"@,
        }
    }

    /// A message that describes the failure.
    pub fn message(&self) -> (r: String)
        ensures
            r@ == self.message_text(),
    {
        match self {
            Failure::InvalidSelection => "Invalid emoji format".to_owned(),
            Failure::MissingCatalogEntry { identity } => {
                let mut text = "No catalog entry for ".to_owned();
                text.append(identity.as_str());
                text
            },
            Failure::MalformedStore => "Malformed store document".to_owned(),
            Failure::HomeNotFound => "No home directory".to_owned(),
            Failure::PathNotUnicode => "Path is not valid Unicode".to_owned(),
        }
    }
}

} // verus!
