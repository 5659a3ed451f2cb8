use video_renamer::mapper::find_repeated_path;
use video_renamer::names::{paths_agree, text_equal};
use video_renamer::{map_video_paths, MapError};

fn get_input_from_strs(strs: &Vec<&str>) -> Vec<String> {
    strs.iter().map(|s| s.to_string()).collect::<Vec<_>>()
}

fn map_and_assert_values(strs: &Vec<&str>, expected_values: &Vec<&str>) {
    assert_eq!(strs.len(), expected_values.len());
    let input = get_input_from_strs(strs);
    let map = map_video_paths(&input).unwrap();
    assert_eq!(strs.len(), map.len());
    for (index, &expected) in expected_values.iter().enumerate() {
        assert_eq!(expected, map[index]);
    }
}

fn numbered_paths(count: usize) -> Vec<String> {
    (0..count).map(|i| format!("/videos/d{}/clip{:04}.mkv", i % 7, i)).collect()
}

#[test]
fn one_entry() {
    let strs = vec!["/abc.mkv"];
    map_and_assert_values(&strs, &vec!["01_abc.mkv"]);
}

#[test]
fn multiple_entries_split() {
    let strs = vec!["/Movies/a.mkv", "/Movies/c.mkv", "/TV Shows/b.mkv"];
    let expected = vec!["01_a.mkv", "03_c.mkv", "02_b.mkv"];
    map_and_assert_values(&strs, &expected);
}

#[test]
fn multiple_entries_split_preserve_case() {
    let strs = vec!["/Movies/A.mkv", "/Movies/c.mkv", "/TV Shows/B.mkv"];
    let expected = vec!["01_A.mkv", "03_c.mkv", "02_B.mkv"];
    map_and_assert_values(&strs, &expected);
}

#[test]
fn even_more_nested_entries() {
    let strs = vec!["/Movies/a.mkv", "/Movies/c.mkv", "/TV Shows/B/b_1.mkv", "/TV Shows/B/b_2.mkv"];
    let expected = vec!["01_a.mkv", "04_c.mkv", "02_b_1.mkv", "03_b_2.mkv"];
    map_and_assert_values(&strs, &expected);
}

#[test]
fn even_more_nested_entries_after_running() {
    let strs = vec!["/Movies/01_a.mkv", "/Movies/02_c.mkv", "/TV Shows/B/03_b_1.mkv", "/TV Shows/B/04_b_2.mkv"];
    let expected = vec!["01_a.mkv", "04_c.mkv", "02_b_1.mkv", "03_b_2.mkv"];
    map_and_assert_values(&strs, &expected);
}

#[test]
fn no_paths_give_an_empty_mapping() {
    let map = map_video_paths(&Vec::new()).unwrap();
    assert!(map.is_empty());
}

#[test]
fn every_path_gets_one_name_and_no_name_twice() {
    let input = numbered_paths(250);
    let map = map_video_paths(&input).unwrap();
    assert_eq!(input.len(), map.len());
    let mut seen = map.clone();
    seen.sort();
    seen.dedup();
    assert_eq!(input.len(), seen.len());
}

#[test]
fn every_number_is_given_once() {
    let strs = vec!["/q/m.mkv", "/q/Z.mkv", "/r/a.mkv", "/r/m.mkv", "/s/B.mkv"];
    let map = map_video_paths(&get_input_from_strs(&strs)).unwrap();
    let mut numbers: Vec<String> = map.iter().map(|n| n[..2].to_string()).collect();
    numbers.sort();
    assert_eq!(numbers, vec!["01", "02", "03", "04", "05"]);
}

#[test]
fn names_are_number_underscore_raw_name() {
    let strs = vec!["/x/12_Holiday Film.mkv", "/x/beta.mkv"];
    let expected = vec!["02_Holiday Film.mkv", "01_beta.mkv"];
    map_and_assert_values(&strs, &expected);
}

#[test]
fn a_second_run_gives_the_same_names() {
    let strs = vec!["/m/Zebra.mkv", "/m/apple.mkv", "/t/7_mango.mkv", "/t/Apple.mkv", "/t/123_kiwi.mkv"];
    let first = map_video_paths(&get_input_from_strs(&strs)).unwrap();
    assert_eq!(first, vec!["05_Zebra.mkv", "01_apple.mkv", "04_mango.mkv", "02_Apple.mkv", "03_kiwi.mkv"]);
    let renamed: Vec<String> = vec![
        format!("/m/{}", first[0]),
        format!("/m/{}", first[1]),
        format!("/t/{}", first[2]),
        format!("/t/{}", first[3]),
        format!("/t/{}", first[4]),
    ];
    let second = map_video_paths(&renamed).unwrap();
    assert_eq!(first, second);
}

#[test]
fn names_that_differ_by_case_keep_the_order_supplied() {
    map_and_assert_values(&vec!["/x/A.mkv", "/y/a.mkv"], &vec!["01_A.mkv", "02_a.mkv"]);
    map_and_assert_values(&vec!["/y/a.mkv", "/x/A.mkv"], &vec!["01_a.mkv", "02_A.mkv"]);
}

#[test]
fn names_that_differ_by_prefix_keep_the_order_supplied() {
    map_and_assert_values(
        &vec!["/x/05_film.mkv", "/y/film.mkv", "/z/1_FILM.mkv"],
        &vec!["01_film.mkv", "02_film.mkv", "03_FILM.mkv"],
    );
}

#[test]
fn order_ignores_case_beyond_ascii() {
    map_and_assert_values(
        &vec!["/x/Özil.mkv", "/x/öl.mkv", "/x/zoo.mkv"],
        &vec!["03_Özil.mkv", "02_öl.mkv", "01_zoo.mkv"],
    );
}

#[test]
fn a_shorter_key_sorts_before_its_extensions() {
    map_and_assert_values(&vec!["/x/ab.mkv", "/x/a.mkv", "/x/a"], &vec!["03_ab.mkv", "02_a.mkv", "01_a"]);
}

#[test]
fn ninety_nine_files_get_two_digits() {
    let input = numbered_paths(99);
    let map = map_video_paths(&input).unwrap();
    assert_eq!(map.len(), 99);
    assert_eq!(map[0], "01_clip0000.mkv");
    assert_eq!(map[8], "09_clip0008.mkv");
    assert_eq!(map[98], "99_clip0098.mkv");
}

#[test]
fn a_hundred_files_get_three_digits() {
    let input = numbered_paths(100);
    let map = map_video_paths(&input).unwrap();
    assert_eq!(map.len(), 100);
    assert_eq!(map[0], "001_clip0000.mkv");
    assert_eq!(map[9], "010_clip0009.mkv");
    assert_eq!(map[99], "100_clip0099.mkv");
}

#[test]
fn nine_hundred_ninety_nine_files_are_mapped() {
    let input = numbered_paths(999);
    let map = map_video_paths(&input).unwrap();
    assert_eq!(map.len(), 999);
    assert_eq!(map[0], "001_clip0000.mkv");
    assert_eq!(map[998], "999_clip0998.mkv");
}

#[test]
fn a_thousand_files_are_refused() {
    let input = numbered_paths(1000);
    assert_eq!(map_video_paths(&input), Err(MapError::TooManyFiles));
}

#[test]
fn more_than_a_thousand_files_are_refused() {
    let input = numbered_paths(1500);
    assert_eq!(map_video_paths(&input), Err(MapError::TooManyFiles));
}

#[test]
fn the_size_guard_comes_before_the_paths_are_read() {
    let mut input = numbered_paths(1000);
    input[3] = "/".to_string();
    assert_eq!(map_video_paths(&input), Err(MapError::TooManyFiles));
}

#[test]
fn a_path_without_a_file_name_is_refused() {
    let input = get_input_from_strs(&vec!["/Movies/a.mkv", "/", "/Movies/b.mkv"]);
    assert_eq!(map_video_paths(&input), Err(MapError::MalformedPath { index: 1 }));
}

#[test]
fn the_first_path_without_a_file_name_is_reported() {
    let input = get_input_from_strs(&vec!["/Movies/a.mkv", "/Movies/b.mkv", "/Movies/..", "", "/"]);
    assert_eq!(map_video_paths(&input), Err(MapError::MalformedPath { index: 2 }));
}

#[test]
fn reordered_input_without_ties_gives_the_same_names() {
    let forward = vec!["/a/one.mkv", "/b/Two.mkv", "/c/three.mkv"];
    let backward = vec!["/c/three.mkv", "/b/Two.mkv", "/a/one.mkv"];
    map_and_assert_values(&forward, &vec!["01_one.mkv", "03_Two.mkv", "02_three.mkv"]);
    map_and_assert_values(&backward, &vec!["02_three.mkv", "03_Two.mkv", "01_one.mkv"]);
}

#[test]
fn a_path_supplied_twice_is_refused() {
    let input = get_input_from_strs(&vec!["/Movies/a.mkv", "/Movies/a.mkv"]);
    assert_eq!(map_video_paths(&input), Err(MapError::DuplicatePath { first: 0, second: 1 }));
}

#[test]
fn a_path_supplied_twice_among_others_is_refused() {
    let input = get_input_from_strs(&vec!["/Movies/c.mkv", "/Movies/a.mkv", "/TV/b.mkv", "/Movies/a.mkv"]);
    assert_eq!(map_video_paths(&input), Err(MapError::DuplicatePath { first: 1, second: 3 }));
}

#[test]
fn two_spellings_of_one_path_are_refused() {
    let input = get_input_from_strs(&vec!["/Movies/a.mkv", "/TV/b.mkv", "/Movies//a.mkv"]);
    assert_eq!(map_video_paths(&input), Err(MapError::DuplicatePath { first: 0, second: 2 }));
}

#[test]
fn the_first_repeated_pair_is_reported() {
    let input = get_input_from_strs(&vec!["/x/a.mkv", "/x/b.mkv", "/x/b.mkv", "/x/a.mkv", "/x/b.mkv"]);
    assert_eq!(map_video_paths(&input), Err(MapError::DuplicatePath { first: 1, second: 2 }));
    assert_eq!(find_repeated_path(&input), Some((1, 2)));
}

#[test]
fn equal_file_names_in_different_directories_are_no_repeat() {
    let input = get_input_from_strs(&vec!["/x/a.mkv", "/y/a.mkv", "/x/A.mkv", "/x/01_a.mkv"]);
    assert_eq!(find_repeated_path(&input), None);
    assert_eq!(find_repeated_path(&Vec::new()), None);
    let map = map_video_paths(&input).unwrap();
    assert_eq!(map, vec!["01_a.mkv", "02_a.mkv", "03_A.mkv", "04_a.mkv"]);
}

#[test]
fn a_missing_file_name_comes_before_a_repeated_path() {
    let input = get_input_from_strs(&vec!["/x/a.mkv", "/x/a.mkv", "/"]);
    assert_eq!(map_video_paths(&input), Err(MapError::MalformedPath { index: 2 }));
}

#[test]
fn the_size_guard_comes_before_a_repeated_path() {
    let mut input = numbered_paths(1000);
    input[7] = input[3].clone();
    assert_eq!(map_video_paths(&input), Err(MapError::TooManyFiles));
}

#[test]
fn nine_hundred_ninety_nine_files_with_a_repeat_are_refused() {
    let mut input = numbered_paths(999);
    input[998] = input[997].clone();
    assert_eq!(map_video_paths(&input), Err(MapError::DuplicatePath { first: 997, second: 998 }));
}

#[test]
fn paths_agree_by_text_or_by_components() {
    assert!(paths_agree("/x/a.mkv", "/x/a.mkv"));
    assert!(paths_agree("/x/a.mkv", "/x//a.mkv"));
    assert!(paths_agree("/x/a.mkv", "/x/./a.mkv"));
    assert!(paths_agree("", ""));
    assert!(!paths_agree("/x/a.mkv", "/x/A.mkv"));
    assert!(!paths_agree("/x/a.mkv", "/y/a.mkv"));
    assert!(!paths_agree("/x/a.mkv", "x/a.mkv"));
    assert!(!paths_agree("/x/a.mkv", "/x/a.mkv2"));
}

#[test]
fn texts_are_equal_when_all_bytes_are() {
    assert!(text_equal("mkv", "mkv"));
    assert!(text_equal("", ""));
    assert!(text_equal("näme", "näme"));
    assert!(!text_equal("mkv", "mkw"));
    assert!(!text_equal("mkv", "mk"));
    assert!(!text_equal("", "m"));
}
