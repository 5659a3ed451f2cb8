//! One file as the numbering sees it.

use vstd::prelude::*;

verus! {

/// A file to be numbered: the name it keeps behind its number, and the key
/// that decides its place in the order.
#[derive(Debug)]
pub struct Entry {
    /// The raw file name, in its own case.
    pub raw_filename: String,
    /// The characters of the sort key.
    pub sort_key: Vec<char>,
}

/// The raw file names of the entries, in the order supplied.
pub open spec fn raw_names(entries: Seq<Entry>) -> Seq<Seq<char>> {
    entries.map_values(|e: Entry| e.raw_filename@)
}

/// The sort keys of the entries, in the order supplied.
pub open spec fn sort_keys(entries: Seq<Entry>) -> Seq<Seq<char>> {
    entries.map_values(|e: Entry| e.sort_key@)
}

/// The texts that a sequence of strings holds.
pub open spec fn texts(strings: Seq<String>) -> Seq<Seq<char>> {
    strings.map_values(|s: String| s@)
}

} // verus!
