//! File names: the final component of a path, the name without an earlier
//! numeric prefix, and the key by which names are sorted.

use crate::numbering::is_ascii_digit;
use vstd::prelude::*;
use vstd::string::StringSliceAdditionalSpecFns;
use vstd::utf8::encode_utf8_decode_utf8;

verus! {

/// The pattern of a numbered name: one to three ASCII digits and an
/// underscore at the start, then the rest of the name as the only group.
pub const NUMERIC_PREFIX_PATTERN: &'static str = "(?s)^[0-9]{1,3}_(.*)$";

/// Whether `name` starts with exactly `digits` ASCII digits followed by an
/// underscore.
pub open spec fn starts_with_number(name: Seq<char>, digits: nat) -> bool {
    &&& name.len() > digits
    &&& forall|i: int| 0 <= i < digits ==> is_ascii_digit(#[trigger] name[i])
    &&& name[digits as int] == '_'
}

/// The length of the numeric prefix of `name`, underscore included: one to
/// three ASCII digits and an underscore at the start of the name. It is 0
/// for a name without such a prefix.
pub open spec fn numeric_prefix_len(name: Seq<char>) -> nat {
    if starts_with_number(name, 1) {
        2
    } else if starts_with_number(name, 2) {
        3
    } else if starts_with_number(name, 3) {
        4
    } else {
        0
    }
}

/// The raw file name: `name` without its numeric prefix, in its own case.
pub open spec fn raw_filename(name: Seq<char>) -> Seq<char> {
    name.skip(numeric_prefix_len(name) as int)
}

/// Matches `name` against the pattern of a numbered name with
/// `regex::Regex::new` and `Regex::captures`, and hands out the text of the
/// group. Trusted: for that pattern the match succeeds exactly on the names
/// that start with one to three ASCII digits and an underscore, and the
/// group then holds everything behind that underscore, up to the end of the
/// name, line breaks included.
#[verifier::external_body]
fn capture_after_number(pattern: &str, name: &str) -> (rest: Option<String>)
    requires
        pattern@ == NUMERIC_PREFIX_PATTERN@,
    ensures
        rest is Some <==> numeric_prefix_len(name@) > 0,
        rest is Some ==> rest->0@ == raw_filename(name@),
{
    let re = regex::Regex::new(pattern).ok()?;
    let found = re.captures(name)?;
    found.get(1).map(|m| m.as_str().to_string())
}

/// Takes the numeric prefix off a file name; a name without one comes back
/// unchanged.
pub fn strip_numeric_prefix(name: &str) -> (raw: String)
    ensures
        raw@ == raw_filename(name@),
{
    match capture_after_number(NUMERIC_PREFIX_PATTERN, name) {
        Some(rest) => rest,
        None => {
            assert(name@.skip(0) =~= name@);
            name.to_owned()
        },
    }
}

/// The final component of a path, as `std::path::Path::file_name` gives it
/// for the platform the library is built for; `None` for a path that has
/// none, such as one that ends in `..`.
pub uninterp spec fn path_file_name(path: Seq<char>) -> Option<Seq<char>>;

/// The lowercase form of a text, as `str::to_lowercase` gives it.
pub uninterp spec fn lowercase(text: Seq<char>) -> Seq<char>;

/// Calls `std::path::Path::file_name` on the path. Trusted: what comes
/// back is the path's final component, and depends on the path alone.
#[verifier::external_body]
fn file_name_of(path: &str) -> (name: Option<String>)
    ensures
        name is Some <==> path_file_name(path@) is Some,
        name is Some ==> name->0@ == path_file_name(path@)->0,
{
    std::path::Path::new(path).file_name().and_then(|f| f.to_str()).map(|f| f.to_string())
}

/// Calls `str::to_lowercase` on the text and hands out its characters.
/// Trusted: what comes back is the lowercase form of the text, and depends
/// on the text alone.
#[verifier::external_body]
pub(crate) fn lowercase_chars(text: &str) -> (lower: Vec<char>)
    ensures
        lower@ == lowercase(text@),
{
    text.to_lowercase().chars().collect()
}

/// The key by which a file name is sorted: its raw file name in lowercase.
pub open spec fn sort_key(name: Seq<char>) -> Seq<char> {
    lowercase(raw_filename(name))
}

/// The raw file name of a path: its final component without a numeric
/// prefix. `None` for a path without a final component.
pub fn get_raw_filename(path: &str) -> (raw: Option<String>)
    ensures
        raw is Some <==> path_file_name(path@) is Some,
        raw is Some ==> raw->0@ == raw_filename(path_file_name(path@)->0),
{
    match file_name_of(path) {
        Some(name) => Some(strip_numeric_prefix(name.as_str())),
        None => None,
    }
}

/// Whether two paths have the same components, as `==` on
/// `std::path::Path` tells for the platform the library is built for.
pub uninterp spec fn same_components(a: Seq<char>, b: Seq<char>) -> bool;

/// Compares the two paths with `==` on `std::path::Path`. Trusted: what
/// comes back says whether the paths have the same components, and depends
/// on the two paths alone.
#[verifier::external_body]
fn same_components_of(a: &str, b: &str) -> (same: bool)
    ensures
        same == same_components(a@, b@),
{
    std::path::Path::new(a) == std::path::Path::new(b)
}

/// Whether two paths name the same file: they are the same text, or they
/// have the same components.
pub open spec fn same_path(a: Seq<char>, b: Seq<char>) -> bool {
    a == b || same_components(a, b)
}

/// Tells whether two texts are the same, byte by byte.
pub fn text_equal(a: &str, b: &str) -> (r: bool)
    ensures
        r == (a@ == b@),
{
    let x = a.as_bytes();
    let y = b.as_bytes();
    if x.len() != y.len() {
        return false;
    }
    let mut i: usize = 0;
    while i < x.len()
        invariant
            i <= x.len(),
            x.len() == y.len(),
            x@ == a.spec_bytes(),
            y@ == b.spec_bytes(),
            forall|k: int| 0 <= k < i ==> x@[k] == y@[k],
        decreases x.len() - i,
    {
        if x[i] != y[i] {
            return false;
        }
        i = i + 1;
    }
    proof {
        assert(x@ =~= y@);
        encode_utf8_decode_utf8(a@);
        encode_utf8_decode_utf8(b@);
    }
    true
}

/// Tells whether two paths name the same file.
pub fn paths_agree(a: &str, b: &str) -> (r: bool)
    ensures
        r == same_path(a@, b@),
{
    text_equal(a, b) || same_components_of(a, b)
}

} // verus!
