//! Reading the two stores: the history and the catalog, each a flat JSON
//! object. The JSON itself is read by `serde_json`; this module turns what it
//! hands back into a [`History`] or a [`Catalog`].

use crate::assoc::as_map;
use crate::assoc::distinct;
use crate::catalog::Catalog;
use crate::catalog::CatalogEntry;
use crate::failure::Failure;
use crate::history::History;
use crate::history::HistoryEntry;
use vstd::prelude::*;

verus! {

/// The error type of `serde_json`.
#[verifier::external_type_specification]
#[verifier::external_body]
pub struct ExJsonError(serde_json::Error);

/// The mapping from identity to count that `serde_json::from_str` reads from
/// `text`, or `None` where it refuses `text`.
pub uninterp spec fn json_counts(text: Seq<char>) -> Option<Map<Seq<char>, u32>>;

/// The mapping from grapheme to display name that `serde_json::from_str`
/// reads from `text`, or `None` where it refuses `text`.
pub uninterp spec fn json_names(text: Seq<char>) -> Option<Map<Seq<char>, Seq<char>>>;

/// Trusted: `serde_json::from_str` at the type `HashMap<String, u32>`. What it
/// reads depends on `text` alone; this crate only names it. The entries come
/// out of a hash map, so no key occurs twice, and in no promised order.
#[verifier::external_body]
fn parse_counts(text: &str) -> (r: Result<Vec<HistoryEntry>, serde_json::Error>)
    ensures
        match r {
            Ok(entries) => {
                let listed = entries@.map_values(|e: HistoryEntry| e@);
                distinct(listed) && json_counts(text@) == Some(as_map(listed))
            },
            Err(_) => json_counts(text@) is None,
        },
{
    let parsed: Result<std::collections::HashMap<String, u32>, serde_json::Error> =
        serde_json::from_str(text);
    match parsed {
        Ok(map) => Ok(
            map.into_iter().map(|(identity, count)| HistoryEntry { identity, count }).collect(),
        ),
        Err(e) => Err(e),
    }
}

/// Trusted: `serde_json::from_str` at the type `HashMap<String, String>`. What
/// it reads depends on `text` alone; this crate only names it. The entries
/// come out of a hash map, so no key occurs twice, and in no promised order.
#[verifier::external_body]
fn parse_names(text: &str) -> (r: Result<Vec<CatalogEntry>, serde_json::Error>)
    ensures
        match r {
            Ok(entries) => {
                let listed = entries@.map_values(|e: CatalogEntry| e@);
                distinct(listed) && json_names(text@) == Some(as_map(listed))
            },
            Err(_) => json_names(text@) is None,
        },
{
    let parsed: Result<std::collections::HashMap<String, String>, serde_json::Error> =
        serde_json::from_str(text);
    match parsed {
        Ok(map) => Ok(
            map.into_iter().map(|(grapheme, name)| CatalogEntry { grapheme, name }).collect(),
        ),
        Err(e) => Err(e),
    }
}

/// The history that a store document holds. A store that does not exist yet
/// (`None`) is the empty history.
pub fn load_history(document: Option<&str>) -> (r: Result<History, Failure>)
    ensures
        match document {
            None => r matches Ok(history) && history@.len() == 0 && history.wf(),
            Some(text) => match json_counts(text@) {
                Some(mapping) => r matches Ok(history) && history.wf() && history.mapping()
                    == mapping,
                None => r == Err::<History, Failure>(Failure::MalformedStore),
            },
        },
{
    match document {
        None => Ok(History::new()),
        Some(text) => match parse_counts(text) {
            Ok(entries) => Ok(History::from_distinct(entries)),
            Err(_) => Err(Failure::MalformedStore),
        },
    }
}

/// The catalog that a store document holds. A store that does not exist
/// (`None`) is the empty catalog.
pub fn load_catalog(document: Option<&str>) -> (r: Result<Catalog, Failure>)
    ensures
        match document {
            None => r matches Ok(catalog) && catalog@.len() == 0 && catalog.wf(),
            Some(text) => match json_names(text@) {
                Some(mapping) => r matches Ok(catalog) && catalog.wf() && catalog.mapping()
                    == mapping,
                None => r == Err::<Catalog, Failure>(Failure::MalformedStore),
            },
        },
{
    match document {
        None => Ok(Catalog::new()),
        Some(text) => match parse_names(text) {
            Ok(entries) => Ok(Catalog::from_distinct(entries)),
            Err(_) => Err(Failure::MalformedStore),
        },
    }
}

} // verus!
