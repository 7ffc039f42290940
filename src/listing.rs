//! The machine-readable listing of duplicate groups.

use vstd::prelude::*;
use crate::digest::{digest_hex, digest_text};
use crate::index::{view_groups, DuplicateGroup, GroupView};

verus! {

#[verifier::external_type_specification]
#[verifier::external_body]
pub struct ExJsonError(serde_json::Error);

/// A listing entry as a value: digest text and paths.
pub type EntryView = (Seq<char>, Seq<Seq<char>>);

/// The JSON text of the object that the entries build in turn: each entry's
/// text is a key, mapped to the array of the entry's strings, a later entry
/// taking the place of an earlier one with the same key; keys come in
/// ascending order.
pub uninterp spec fn json_object_text(entries: Seq<EntryView>) -> Seq<char>;

/// The values of listing entries.
pub open spec fn view_entries(entries: Seq<(String, Vec<String>)>) -> Seq<EntryView> {
    entries.map_values(|e: (String, Vec<String>)| (e.0@, e.1@.map_values(|p: String| p@)))
}

/// Relies on `serde_json::to_string` on a map from strings to string vectors:
/// the JSON object text, a function of the entries alone. It fails only where a
/// `Serialize` impl fails or a map key is not a string, so never here.
#[verifier::external_body]
fn json_object(entries: &Vec<(String, Vec<String>)>) -> (r: Result<String, serde_json::Error>)
    ensures
        r is Ok,
        r matches Ok(s) ==> s@ == json_object_text(view_entries(entries@)),
{
    let object: std::collections::BTreeMap<&String, &Vec<String>> =
        entries.iter().map(|e| (&e.0, &e.1)).collect();
    serde_json::to_string(&object)
}

/// Why a listing could not be produced.
#[derive(Debug, Clone, Copy, PartialEq, Eq)]
pub enum ListingError {
    /// The JSON encoder refused the document.
    Serialization,
}

/// A group as a listing entry: its digest as hexadecimal text and its paths.
pub open spec fn entry_of(g: GroupView) -> EntryView {
    (digest_text(g.0), g.1)
}

/// The listing entries of groups, in their order.
pub open spec fn entries_of(groups: Seq<GroupView>) -> Seq<EntryView> {
    groups.map_values(|g: GroupView| entry_of(g))
}

/// The listing entries of `report`: each digest in hexadecimal with its paths.
pub fn listing_entries(report: &Vec<DuplicateGroup>) -> (r: Vec<(String, Vec<String>)>)
    ensures
        view_entries(r@) == entries_of(view_groups(report@)),
{
    let mut out: Vec<(String, Vec<String>)> = Vec::new();
    let mut i: usize = 0;
    while i < report.len()
        invariant
            0 <= i <= report.len(),
            view_entries(out@) == entries_of(view_groups(report@.subrange(0, i as int))),
        decreases report.len() - i,
    {
        let ghost prev = out@;
        let g = &report[i];
        let paths = g.paths.clone();
        assert(paths@ =~= g.paths@);
        out.push((digest_hex(g.digest), paths));
        assert(report@.subrange(0, i + 1) =~= report@.subrange(0, i as int).push(report@[i as int]));
        assert(view_entries(out@) =~= view_entries(prev).push(entry_of(g@)));
        assert(entries_of(view_groups(report@.subrange(0, i + 1))) =~= entries_of(
            view_groups(report@.subrange(0, i as int)),
        ).push(entry_of(g@)));
        i += 1;
    }
    assert(report@.subrange(0, i as int) =~= report@);
    out
}

/// The listing document of `report`: a JSON object from each group's digest,
/// in lowercase hexadecimal, to the group's paths.
pub fn listing(report: &Vec<DuplicateGroup>) -> (r: Result<String, ListingError>)
    ensures
        r is Ok,
        r matches Ok(s) ==> s@ == json_object_text(entries_of(view_groups(report@))),
{
    let entries = listing_entries(report);
    match json_object(&entries) {
        Ok(s) => Ok(s),
        Err(_) => Err(ListingError::Serialization),
    }
}

} // verus!
