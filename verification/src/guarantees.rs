//! What holds of every rename mapping, proved from the definitions of the
//! new names.

use crate::mapper::{new_names, number_of, numbered_name, pad_width, MAX_FILES};
use crate::names::{numeric_prefix_len, raw_filename, sort_key, starts_with_number};
use crate::numbering::{
    all_ascii_digits,
    decimal_value,
    is_ascii_digit,
    lemma_decimal_digits,
    lemma_zero_padded,
    zero_padded,
};
use crate::order::{
    key_lt,
    lemma_rank_follows_order,
    lemma_rank_in_range,
    lemma_rank_injective,
    lemma_rank_onto,
    precedes,
    rank,
};
use vstd::prelude::*;

verus! {

/// The numbers given to the entries lie between 1 and the count of the
/// entries, and no number is given twice.
pub proof fn lemma_numbers_one_to_one(keys: Seq<Seq<char>>)
    ensures
        forall|i: int| 0 <= i < keys.len() ==> 1 <= #[trigger] number_of(keys, i) <= keys.len(),
        forall|i: int, j: int|
            0 <= i < keys.len() && 0 <= j < keys.len() && #[trigger] number_of(keys, i)
                == #[trigger] number_of(keys, j) ==> i == j,
{
    assert forall|i: int| 0 <= i < keys.len() implies 1 <= #[trigger] number_of(keys, i)
        <= keys.len() by {
        lemma_rank_in_range(keys, i);
    }
    assert forall|i: int, j: int|
        0 <= i < keys.len() && 0 <= j < keys.len() && #[trigger] number_of(keys, i)
            == #[trigger] number_of(keys, j) implies i == j by {
        lemma_rank_injective(keys, i, j);
    }
}

/// Every number from 1 to the count of the entries is given to some entry:
/// none is left out.
pub proof fn lemma_every_number_given(keys: Seq<Seq<char>>, p: int)
    requires
        1 <= p <= keys.len(),
    ensures
        exists|i: int| 0 <= i < keys.len() && #[trigger] number_of(keys, i) == p,
{
    lemma_rank_onto(keys, p - 1);
    let i = choose|i: int| 0 <= i < keys.len() && rank(keys, i) == p - 1;
    assert(number_of(keys, i) == p);
}

/// Numbers follow the stable order: an entry with a smaller key has the
/// smaller number, and of two entries with the same key the one supplied
/// first has the smaller number.
pub proof fn lemma_numbers_follow_order(keys: Seq<Seq<char>>, i: int, j: int)
    requires
        0 <= i < keys.len(),
        0 <= j < keys.len(),
    ensures
        number_of(keys, i) < number_of(keys, j) <==> precedes(keys, i, j),
        key_lt(keys[i], keys[j]) ==> number_of(keys, i) < number_of(keys, j),
        keys[i] == keys[j] && i < j ==> number_of(keys, i) < number_of(keys, j),
{
    lemma_rank_follows_order(keys, i, j);
}

/// The shape of a new name, for fewer than `MAX_FILES` entries: as many
/// ASCII digits as the padding width (two below a hundred entries, three
/// from there on), which spell the entry's number, then an underscore, then
/// the raw file name as it was, in its own case.
pub proof fn lemma_numbered_name_shape(raws: Seq<Seq<char>>, keys: Seq<Seq<char>>, i: int)
    requires
        raws.len() == keys.len(),
        raws.len() < MAX_FILES,
        0 <= i < raws.len(),
    ensures
        ({
            let name = numbered_name(raws, keys, i);
            let width = pad_width(raws.len()) as int;
            &&& name.len() == width + 1 + raws[i].len()
            &&& all_ascii_digits(name.take(width))
            &&& decimal_value(name.take(width)) == number_of(keys, i)
            &&& name[width] == '_'
            &&& name.skip(width + 1) == raws[i]
        }),
{
    let name = numbered_name(raws, keys, i);
    let number = number_of(keys, i);
    let width = pad_width(raws.len());
    lemma_rank_in_range(keys, i);
    lemma_decimal_digits(number);
    lemma_zero_padded(number, width);
    assert(name.take(width as int) =~= zero_padded(number, width));
    assert(name.skip(width as int + 1) =~= raws[i]);
}

/// No two entries get the same new name.
pub proof fn lemma_numbered_names_distinct(
    raws: Seq<Seq<char>>,
    keys: Seq<Seq<char>>,
    i: int,
    j: int,
)
    requires
        raws.len() == keys.len(),
        raws.len() < MAX_FILES,
        0 <= i < raws.len(),
        0 <= j < raws.len(),
        i != j,
    ensures
        numbered_name(raws, keys, i) != numbered_name(raws, keys, j),
{
    lemma_numbered_name_shape(raws, keys, i);
    lemma_numbered_name_shape(raws, keys, j);
    if number_of(keys, i) == number_of(keys, j) {
        lemma_rank_injective(keys, i, j);
    }
}

/// Taking the numeric prefix off a new name gives back the raw file name
/// that the name was made from.
pub proof fn lemma_raw_filename_of_numbered_name(
    raws: Seq<Seq<char>>,
    keys: Seq<Seq<char>>,
    i: int,
)
    requires
        raws.len() == keys.len(),
        raws.len() < MAX_FILES,
        0 <= i < raws.len(),
    ensures
        raw_filename(numbered_name(raws, keys, i)) == raws[i],
{
    let name = numbered_name(raws, keys, i);
    let width = pad_width(raws.len());
    lemma_numbered_name_shape(raws, keys, i);
    assert forall|k: int| 0 <= k < width implies is_ascii_digit(#[trigger] name[k]) by {
        assert(name[k] == name.take(width as int)[k]);
    }
    assert(is_ascii_digit(name[0]) && is_ascii_digit(name[1]));
    assert(!starts_with_number(name, 1));
    if width == 2 {
        assert(starts_with_number(name, 2));
    } else {
        assert(is_ascii_digit(name[2]));
        assert(!starts_with_number(name, 2));
        assert(starts_with_number(name, 3));
    }
    assert(numeric_prefix_len(name) == width + 1);
}

/// The shape of the new name of a file, for fewer than `MAX_FILES` files:
/// two ASCII digits below a hundred files and three from there on, an
/// underscore, and the file's raw file name in its own case. Something
/// follows the underscore whenever the raw file name is not empty.
pub proof fn lemma_new_name_shape(names: Seq<Seq<char>>, i: int)
    requires
        names.len() < MAX_FILES,
        0 <= i < names.len(),
    ensures
        ({
            let name = new_names(names)[i];
            let width = pad_width(names.len()) as int;
            &&& width == if names.len() < 100 { 2int } else { 3int }
            &&& name.len() == width + 1 + raw_filename(names[i]).len()
            &&& all_ascii_digits(name.take(width))
            &&& name[width] == '_'
            &&& name.skip(width + 1) == raw_filename(names[i])
            &&& raw_filename(names[i]).len() > 0 ==> name.len() > width + 1
        }),
{
    let raws = names.map_values(|n: Seq<char>| raw_filename(n));
    let keys = names.map_values(|n: Seq<char>| sort_key(n));
    lemma_numbered_name_shape(raws, keys, i);
}

/// The mapping of fewer than `MAX_FILES` files has exactly one new name for
/// each file, and no name twice.
pub proof fn lemma_new_names_one_to_one(names: Seq<Seq<char>>)
    requires
        names.len() < MAX_FILES,
    ensures
        new_names(names).len() == names.len(),
        forall|i: int, j: int|
            0 <= i < names.len() && 0 <= j < names.len() && i != j ==> #[trigger] new_names(
                names,
            )[i] != #[trigger] new_names(names)[j],
{
    let raws = names.map_values(|n: Seq<char>| raw_filename(n));
    let keys = names.map_values(|n: Seq<char>| sort_key(n));
    assert forall|i: int, j: int|
        0 <= i < names.len() && 0 <= j < names.len() && i != j implies #[trigger] new_names(
        names,
    )[i] != #[trigger] new_names(names)[j] by {
        lemma_numbered_names_distinct(raws, keys, i, j);
    }
}

/// Numeric prefixes do not matter: files whose raw file names agree, place
/// by place, get the same new names.
pub proof fn lemma_prefixes_do_not_matter(a: Seq<Seq<char>>, b: Seq<Seq<char>>)
    requires
        a.len() == b.len(),
        forall|i: int| 0 <= i < a.len() ==> raw_filename(#[trigger] a[i]) == raw_filename(b[i]),
    ensures
        new_names(a) == new_names(b),
{
    assert(a.map_values(|n: Seq<char>| raw_filename(n)) =~= b.map_values(
        |n: Seq<char>| raw_filename(n),
    ));
    assert(a.map_values(|n: Seq<char>| sort_key(n)) =~= b.map_values(|n: Seq<char>| sort_key(n)));
}

/// Numbering files that already carry the names of a mapping gives the same
/// names again: a second run leaves every file's name as the first run
/// made it.
pub proof fn lemma_renumbering_keeps_names(names: Seq<Seq<char>>)
    requires
        names.len() < MAX_FILES,
    ensures
        new_names(new_names(names)) == new_names(names),
{
    let raws = names.map_values(|n: Seq<char>| raw_filename(n));
    let keys = names.map_values(|n: Seq<char>| sort_key(n));
    let renamed = new_names(names);
    assert forall|i: int| 0 <= i < names.len() implies raw_filename(#[trigger] renamed[i])
        == raw_filename(names[i]) by {
        lemma_raw_filename_of_numbered_name(raws, keys, i);
    }
    lemma_prefixes_do_not_matter(renamed, names);
}

} // verus!
