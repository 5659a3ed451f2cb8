//! The rename mapping: from the files found under one root to the new name
//! of each.

use crate::entry::{raw_names, sort_keys, texts, Entry};
use crate::names::{
    get_raw_filename,
    lowercase_chars,
    path_file_name,
    paths_agree,
    raw_filename,
    same_path,
    sort_key,
};
use crate::numbering::{zero_padded, zero_padded_number};
use crate::order::{lemma_rank_in_range, rank, stable_ranks};
use vstd::prelude::*;
use vstd::string::StringExecFns;

verus! {

/// A run handles fewer files than this; with this many or more it fails.
pub const MAX_FILES: usize = 1000;

/// From this many files on, numbers are written with three digits.
pub const THREE_DIGITS_FROM: usize = 100;

/// Why no mapping was made.
#[derive(Debug, PartialEq, Eq)]
pub enum MapError {
    /// `MAX_FILES` files or more were supplied.
    TooManyFiles,
    /// The path at `index` has no final component to take a name from.
    MalformedPath { index: usize },
    /// The paths at `first` and `second` name the same file.
    DuplicatePath { first: usize, second: usize },
}

/// The number of digits that numbers are padded to, for `count` files.
pub open spec fn pad_width(count: nat) -> nat {
    if count < THREE_DIGITS_FROM {
        2
    } else {
        3
    }
}

/// The number given to entry `i`: its position, counted from 1, in the
/// stable order by sort key.
pub open spec fn number_of(keys: Seq<Seq<char>>, i: int) -> nat {
    rank(keys, i) + 1
}

/// The new name of entry `i`: its number, padded with zeros, an underscore,
/// and its raw file name.
pub open spec fn numbered_name(raws: Seq<Seq<char>>, keys: Seq<Seq<char>>, i: int) -> Seq<char> {
    zero_padded(number_of(keys, i), pad_width(raws.len())) + seq!['_'] + raws[i]
}

/// The new names of all entries, each at the place of its entry.
pub open spec fn numbered_names(raws: Seq<Seq<char>>, keys: Seq<Seq<char>>) -> Seq<Seq<char>> {
    Seq::new(raws.len(), |i: int| numbered_name(raws, keys, i))
}

/// The new names of files with the given names: each file is numbered by
/// the lowercase form of its raw file name, and keeps its raw file name.
pub open spec fn new_names(names: Seq<Seq<char>>) -> Seq<Seq<char>> {
    numbered_names(
        names.map_values(|n: Seq<char>| raw_filename(n)),
        names.map_values(|n: Seq<char>| sort_key(n)),
    )
}

/// Whether every one of the paths has a final component.
pub open spec fn all_have_file_names(paths: Seq<Seq<char>>) -> bool {
    forall|i: int| 0 <= i < paths.len() ==> (#[trigger] path_file_name(paths[i])) is Some
}

/// Whether `index` is the place of the first path without a final
/// component.
pub open spec fn first_without_file_name(paths: Seq<Seq<char>>, index: int) -> bool {
    &&& 0 <= index < paths.len()
    &&& path_file_name(paths[index]) is None
    &&& forall|i: int| 0 <= i < index ==> (#[trigger] path_file_name(paths[i])) is Some
}

/// Whether the paths name pairwise distinct files.
pub open spec fn no_path_twice(paths: Seq<Seq<char>>) -> bool {
    forall|i: int, j: int|
        0 <= i < j < paths.len() ==> !same_path(#[trigger] paths[i], #[trigger] paths[j])
}

/// Whether `first` and `second` are the places of the first two paths that
/// name the same file: no path before `second` names the file of an earlier
/// one, and `first` is the earliest place of the file at `second`.
pub open spec fn first_repeated_pair(paths: Seq<Seq<char>>, first: int, second: int) -> bool {
    &&& 0 <= first < second < paths.len()
    &&& same_path(paths[first], paths[second])
    &&& forall|i: int, j: int|
        0 <= i < j < second ==> !same_path(#[trigger] paths[i], #[trigger] paths[j])
    &&& forall|i: int| 0 <= i < first ==> !same_path(#[trigger] paths[i], paths[second])
}

/// The file names of the paths, each at the place of its path.
pub open spec fn file_names(paths: Seq<Seq<char>>) -> Seq<Seq<char>> {
    paths.map_values(
        |p: Seq<char>|
            match path_file_name(p) {
                Some(name) => name,
                None => Seq::empty(),
            },
    )
}

/// Numbers the entries in the stable order of their sort keys and returns
/// the new name of each, at the place of its entry. Fails when there are
/// `MAX_FILES` entries or more.
pub fn assign_numbers(entries: &Vec<Entry>) -> (r: Result<Vec<String>, MapError>)
    ensures
        match r {
            Ok(names) => {
                &&& entries@.len() < MAX_FILES
                &&& names@.len() == entries@.len()
                &&& texts(names@) == numbered_names(raw_names(entries@), sort_keys(entries@))
            },
            Err(e) => entries@.len() >= MAX_FILES && e == MapError::TooManyFiles,
        },
{
    let n = entries.len();
    if n >= MAX_FILES {
        return Err(MapError::TooManyFiles);
    }
    let width: usize = if n >= THREE_DIGITS_FROM {
        3
    } else {
        2
    };
    let ranks = stable_ranks(entries);
    let ghost raws = raw_names(entries@);
    let ghost keys = sort_keys(entries@);
    let mut names: Vec<String> = Vec::new();
    let mut i: usize = 0;
    while i < n
        invariant
            i <= n,
            n == entries@.len(),
            n < MAX_FILES,
            width == pad_width(n as nat),
            raws == raw_names(entries@),
            keys == sort_keys(entries@),
            ranks@.len() == n,
            forall|j: int| 0 <= j < n ==> #[trigger] ranks@[j] == rank(keys, j),
            names@.len() == i,
            forall|j: int| 0 <= j < i ==> (#[trigger] names@[j])@ == numbered_name(raws, keys, j),
        decreases n - i,
    {
        proof {
            lemma_rank_in_range(keys, i as int);
            reveal_strlit("_");
        }
        let mut name = zero_padded_number(ranks[i] + 1, width);
        name.append("_");
        name.append(entries[i].raw_filename.as_str());
        assert(name@ =~= numbered_name(raws, keys, i as int));
        names.push(name);
        i = i + 1;
    }
    assert(texts(names@) =~= numbered_names(raws, keys));
    Ok(names)
}

/// Looks for two paths that name the same file, and returns the places of
/// the first such pair; `None` when the paths name pairwise distinct files.
pub fn find_repeated_path(paths: &Vec<String>) -> (r: Option<(usize, usize)>)
    ensures
        match r {
            Some((first, second)) => first_repeated_pair(
                texts(paths@),
                first as int,
                second as int,
            ),
            None => no_path_twice(texts(paths@)),
        },
{
    let ghost given = texts(paths@);
    let mut j: usize = 0;
    while j < paths.len()
        invariant
            j <= paths.len(),
            given == texts(paths@),
            forall|a: int, b: int|
                0 <= a < b < j ==> !same_path(#[trigger] given[a], #[trigger] given[b]),
        decreases paths.len() - j,
    {
        let mut i: usize = 0;
        while i < j
            invariant
                i <= j,
                j < paths.len(),
                given == texts(paths@),
                forall|a: int, b: int|
                    0 <= a < b < j ==> !same_path(#[trigger] given[a], #[trigger] given[b]),
                forall|a: int| 0 <= a < i ==> !same_path(#[trigger] given[a], given[j as int]),
            decreases j - i,
        {
            assert(given[i as int] == paths@[i as int]@);
            assert(given[j as int] == paths@[j as int]@);
            if paths_agree(paths[i].as_str(), paths[j].as_str()) {
                return Some((i, j));
            }
            i = i + 1;
        }
        j = j + 1;
    }
    None
}

/// Computes the rename mapping of the files at `paths`: the file at place
/// `i` is to be renamed, within its own directory, to the name at place `i`
/// of the result. Fails when there are `MAX_FILES` paths or more; otherwise
/// when a path has no final component; otherwise when two paths name the
/// same file.
pub fn map_video_paths(paths: &Vec<String>) -> (r: Result<Vec<String>, MapError>)
    ensures
        match r {
            Ok(renamed) => {
                &&& paths@.len() < MAX_FILES
                &&& renamed@.len() == paths@.len()
                &&& all_have_file_names(texts(paths@))
                &&& no_path_twice(texts(paths@))
                &&& texts(renamed@) == new_names(file_names(texts(paths@)))
            },
            Err(MapError::TooManyFiles) => paths@.len() >= MAX_FILES,
            Err(MapError::MalformedPath { index }) => {
                &&& paths@.len() < MAX_FILES
                &&& first_without_file_name(texts(paths@), index as int)
            },
            Err(MapError::DuplicatePath { first, second }) => {
                &&& paths@.len() < MAX_FILES
                &&& all_have_file_names(texts(paths@))
                &&& first_repeated_pair(texts(paths@), first as int, second as int)
            },
        },
{
    if paths.len() >= MAX_FILES {
        return Err(MapError::TooManyFiles);
    }
    let ghost given = texts(paths@);
    let ghost names = file_names(given);
    let mut entries: Vec<Entry> = Vec::new();
    let mut i: usize = 0;
    while i < paths.len()
        invariant
            i <= paths.len(),
            paths.len() < MAX_FILES,
            given == texts(paths@),
            names == file_names(given),
            entries@.len() == i,
            forall|j: int| 0 <= j < i ==> (#[trigger] path_file_name(given[j])) is Some,
            forall|j: int|
                0 <= j < i ==> (#[trigger] entries@[j]).raw_filename@ == raw_filename(names[j]),
            forall|j: int| 0 <= j < i ==> (#[trigger] entries@[j]).sort_key@ == sort_key(names[j]),
        decreases paths.len() - i,
    {
        assert(given[i as int] == paths@[i as int]@);
        match get_raw_filename(paths[i].as_str()) {
            Some(raw) => {
                let key = lowercase_chars(raw.as_str());
                entries.push(Entry { raw_filename: raw, sort_key: key });
            },
            None => {
                return Err(MapError::MalformedPath { index: i });
            },
        }
        i = i + 1;
    }
    if let Some((first, second)) = find_repeated_path(paths) {
        return Err(MapError::DuplicatePath { first, second });
    }
    proof {
        assert(raw_names(entries@) =~= names.map_values(|n: Seq<char>| raw_filename(n)));
        assert(sort_keys(entries@) =~= names.map_values(|n: Seq<char>| sort_key(n)));
    }
    assign_numbers(&entries)
}

} // verus!
