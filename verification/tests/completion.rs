use file_selector::candidates::Entry;
use file_selector::completion::{complete_among, complete_next, next_candidate, position};

fn listing(dir: &str, names: &[&str]) -> Vec<Entry> {
    names
        .iter()
        .map(|n| Entry::new(format!("{}/{}", dir, n), n.to_string()))
        .collect()
}

fn texts(list: &[&str]) -> Vec<String> {
    list.iter().map(|s| s.to_string()).collect()
}

#[test]
fn position_is_the_first_place() {
    let list = texts(&["a", "b", "b", "c"]);
    assert_eq!(position(&list, "a"), Some(0));
    assert_eq!(position(&list, "b"), Some(1));
    assert_eq!(position(&list, "c"), Some(3));
    assert_eq!(position(&list, "d"), None);
    assert_eq!(position(&Vec::new(), "a"), None);
}

#[test]
fn next_candidate_steps_and_wraps() {
    let list = texts(&["a", "b", "c"]);
    assert_eq!(next_candidate(&list, "a"), "b");
    assert_eq!(next_candidate(&list, "b"), "c");
    assert_eq!(next_candidate(&list, "c"), "a");
}

#[test]
fn next_candidate_of_an_unlisted_text_is_the_first() {
    let list = texts(&["a", "b", "c"]);
    assert_eq!(next_candidate(&list, "bb"), "a");
    assert_eq!(next_candidate(&list, ""), "a");
}

#[test]
fn next_candidate_of_a_single_candidate_is_itself() {
    let list = texts(&["a"]);
    assert_eq!(next_candidate(&list, "a"), "a");
    assert_eq!(next_candidate(&list, "b"), "a");
}

#[test]
fn next_candidate_without_candidates_is_the_current_text() {
    assert_eq!(next_candidate(&Vec::new(), "/tmp/x/q"), "/tmp/x/q");
}

#[test]
fn prefix_a_cycles_between_two_entries() {
    let entries = listing("/tmp/x", &["a.txt", "ab.txt", "b.txt"]);
    let first = complete_next("/tmp/x/a", "/tmp/x/a", false, Some(&entries));
    assert_eq!(first, "/tmp/x/a.txt");
    let second = complete_next("/tmp/x/a", &first, false, Some(&entries));
    assert_eq!(second, "/tmp/x/ab.txt");
    let third = complete_next("/tmp/x/a", &second, false, Some(&entries));
    assert_eq!(third, "/tmp/x/a.txt");
}

#[test]
fn the_last_candidate_wraps_to_the_first() {
    let entries = listing("/tmp/x", &["a.txt", "ab.txt", "b.txt"]);
    let next = complete_next("/tmp/x/a", "/tmp/x/ab.txt", false, Some(&entries));
    assert_eq!(next, "/tmp/x/a.txt");
}

#[test]
fn a_directory_input_lists_every_entry() {
    let entries = listing("/tmp/x", &["b.txt", "ab.txt", "a.txt"]);
    let first = complete_next("/tmp/x", "/tmp/x", true, Some(&entries));
    assert_eq!(first, "/tmp/x/a.txt");
    let second = complete_next("/tmp/x", &first, true, Some(&entries));
    assert_eq!(second, "/tmp/x/ab.txt");
    let third = complete_next("/tmp/x", &second, true, Some(&entries));
    assert_eq!(third, "/tmp/x/b.txt");
    let fourth = complete_next("/tmp/x", &third, true, Some(&entries));
    assert_eq!(fourth, "/tmp/x/a.txt");
}

#[test]
fn cycling_returns_to_the_start_after_one_round() {
    let entries = listing("/d", &["m3", "m1", "x", "m2", "m4"]);
    for start in ["/d/m1", "/d/m2", "/d/m3", "/d/m4"] {
        let mut shown = start.to_string();
        for _ in 0..4 {
            shown = complete_next("/d/m", &shown, false, Some(&entries));
        }
        assert_eq!(shown, start);
    }
}

#[test]
fn an_unlisted_path_goes_to_the_first_candidate() {
    let entries = listing("/d", &["m3", "m1", "x", "m2"]);
    assert_eq!(complete_next("/d/m", "/d/m", false, Some(&entries)), "/d/m1");
    assert_eq!(complete_next("/d/m", "/d/x", false, Some(&entries)), "/d/m1");
    assert_eq!(complete_next("/d/m", "", false, Some(&entries)), "/d/m1");
}

#[test]
fn no_candidate_leaves_the_path_unchanged() {
    let entries = listing("/d", &["m3", "m1"]);
    assert_eq!(complete_next("/d/q", "/d/q", false, Some(&entries)), "/d/q");
    assert_eq!(complete_next("/d/q", "/d/other", false, Some(&entries)), "/d/other");
    assert_eq!(complete_next("/d", "/d", true, Some(&Vec::new())), "/d");
}

#[test]
fn no_listing_leaves_the_path_unchanged() {
    assert_eq!(complete_next("/nowhere/q", "/nowhere/q", false, None), "/nowhere/q");
    assert_eq!(complete_next("q", "shown", false, None), "shown");
}

#[test]
fn the_prefix_is_the_last_component_of_the_input() {
    let entries = listing("/tmp", &["x", "xa", "y"]);
    assert_eq!(complete_next("/tmp/x/", "/tmp/x/", false, Some(&entries)), "/tmp/x");
    assert_eq!(complete_next("/tmp/x/..", "", false, Some(&entries)), "/tmp/x");
    assert_eq!(complete_next("/tmp/y", "/tmp/y", false, Some(&entries)), "/tmp/y");
}

#[test]
fn complete_among_takes_the_prefix_as_given() {
    let entries = listing("/tmp/x", &["a.txt", "ab.txt", "b.txt"]);
    assert_eq!(complete_among("ab", "/tmp/x/a", Some(&entries)), "/tmp/x/ab.txt");
    assert_eq!(complete_among("b", "/tmp/x/b.txt", Some(&entries)), "/tmp/x/b.txt");
    assert_eq!(complete_among("", "/tmp/x/b.txt", Some(&entries)), "/tmp/x/a.txt");
    assert_eq!(complete_among("z", "/tmp/x/z", Some(&entries)), "/tmp/x/z");
    assert_eq!(complete_among("a", "/tmp/x/a", None), "/tmp/x/a");
}

#[test]
fn a_path_listed_twice_holds_the_cycle() {
    let entries = listing("/d", &["a", "a", "b"]);
    assert_eq!(complete_next("/d", "/d/b", true, Some(&entries)), "/d/a");
    assert_eq!(complete_next("/d", "/d/a", true, Some(&entries)), "/d/a");
}
