//! The completion engine: from the path typed before cycling began and the
//! path now shown, the path to show next.
//!
//! The candidates form a ring in the order of texts. The engine steps from the
//! shown path to the one behind it, from the last to the first, and from a path
//! that is no candidate to the first. Reading the directory is the caller's
//! part: the engine takes the listing as a value.

use crate::candidates::{candidate_list, candidates, in_text_order, matching_paths, Entry, EntryView};
use crate::candidates::{lemma_in_text_order_is_sorted, lemma_matching_paths_contains};
use crate::path::{scan_target, scan_target_of};
use crate::text::{
    lemma_bytes_le_antisymmetric, lemma_bytes_le_reflexive, lemma_encode_utf8_injective,
    lemma_text_le_total, starts_with, text_eq, text_le, text_order,
};
use vstd::prelude::*;

verus! {

/// The candidate behind `current` in the ring `list`.
///
/// The first candidate follows the last one, and also any text that is not in
/// the list. Where `current` is listed more than once, its first place counts.
/// An empty list leaves `current` as it is.
pub open spec fn next_in_cycle(list: Seq<Seq<char>>, current: Seq<char>) -> Seq<char> {
    if list.len() == 0 {
        current
    } else {
        match list.index_of_first(current) {
            Some(i) => if i + 1 < list.len() {
                list[i + 1]
            } else {
                list[0]
            },
            None => list[0],
        }
    }
}

/// `next_in_cycle` applied `times` times, beginning at `start`.
pub open spec fn cycle_steps(list: Seq<Seq<char>>, start: Seq<char>, times: nat) -> Seq<char>
    decreases times,
{
    if times == 0 {
        start
    } else {
        next_in_cycle(list, cycle_steps(list, start, (times - 1) as nat))
    }
}

/// What the engine shows after `current`, for the path `input` typed before
/// cycling began.
///
/// `listing` holds the entries of the directory that `scan_target_of` names
/// for `input`, or `None` where that is no directory or cannot be read; then
/// `current` stays.
pub open spec fn completion(
    input: Seq<char>,
    current: Seq<char>,
    input_is_dir: bool,
    listing: Option<Seq<EntryView>>,
) -> Seq<char> {
    match listing {
        Some(entries) => next_in_cycle(
            candidate_list(entries, scan_target_of(input, input_is_dir).prefix),
            current,
        ),
        None => current,
    }
}

/// `completion` applied `times` times, beginning at `start`, on one input
/// and one listing.
pub open spec fn completions(
    input: Seq<char>,
    start: Seq<char>,
    input_is_dir: bool,
    listing: Option<Seq<EntryView>>,
    times: nat,
) -> Seq<char>
    decreases times,
{
    if times == 0 {
        start
    } else {
        completion(
            input,
            completions(input, start, input_is_dir, listing, (times - 1) as nat),
            input_is_dir,
            listing,
        )
    }
}

/// Whether `text` stands at two places of `list`.
pub open spec fn listed_twice(list: Seq<Seq<char>>, text: Seq<char>) -> bool {
    exists|i: int, j: int|
        0 <= i < j < list.len() && #[trigger] list[i] == text && #[trigger] list[j] == text
}

/// The candidate list is in the order of texts and holds exactly the paths
/// of the entries whose name begins with the prefix, each as often as the
/// listing has it.
pub proof fn lemma_candidate_list(entries: Seq<EntryView>, prefix: Seq<char>)
    ensures
        in_text_order(candidate_list(entries, prefix)),
        candidate_list(entries, prefix).to_multiset() == matching_paths(
            entries,
            prefix,
        ).to_multiset(),
        candidate_list(entries, prefix).len() == matching_paths(entries, prefix).len(),
        forall|path: Seq<char>| #[trigger]
            candidate_list(entries, prefix).contains(path) <==> exists|i: int|
                0 <= i < entries.len() && #[trigger] entries[i].path == path && starts_with(
                    entries[i].name,
                    prefix,
                ),
{
    broadcast use vstd::seq_lib::group_to_multiset_ensures;

    let matching = matching_paths(entries, prefix);
    let list = candidate_list(entries, prefix);
    lemma_text_le_total();
    matching.lemma_sort_by_ensures(text_order());
    lemma_in_text_order_is_sorted(list);
    assert(list.len() == list.to_multiset().len());
    assert(matching.len() == matching.to_multiset().len());
    assert forall|path: Seq<char>| #[trigger]
        list.contains(path) <==> exists|i: int|
            0 <= i < entries.len() && #[trigger] entries[i].path == path && starts_with(
                entries[i].name,
                prefix,
            ) by {
        lemma_matching_paths_contains(entries, prefix, path);
        assert(list.contains(path) <==> list.to_multiset().count(path) > 0);
        assert(matching.contains(path) <==> matching.to_multiset().count(path) > 0);
    }
}

/// With no candidate, the shown path stays.
pub proof fn lemma_no_candidate_stays(
    input: Seq<char>,
    current: Seq<char>,
    input_is_dir: bool,
    entries: Seq<EntryView>,
)
    requires
        candidate_list(entries, scan_target_of(input, input_is_dir).prefix).len() == 0,
    ensures
        completion(input, current, input_is_dir, Some(entries)) == current,
{
}

/// With no directory to list, the shown path stays.
pub proof fn lemma_no_listing_stays(input: Seq<char>, current: Seq<char>, input_is_dir: bool)
    ensures
        completion(input, current, input_is_dir, None) == current,
{
}

/// From a path that is no candidate the engine goes to the first candidate
/// in the order of texts: one that no candidate comes before.
pub proof fn lemma_unlisted_goes_first(
    input: Seq<char>,
    current: Seq<char>,
    input_is_dir: bool,
    entries: Seq<EntryView>,
)
    requires
        candidate_list(entries, scan_target_of(input, input_is_dir).prefix).len() > 0,
        !candidate_list(entries, scan_target_of(input, input_is_dir).prefix).contains(current),
    ensures
        ({
            let list = candidate_list(entries, scan_target_of(input, input_is_dir).prefix);
            let next = completion(input, current, input_is_dir, Some(entries));
            &&& next == list[0]
            &&& forall|k: int| 0 <= k < list.len() ==> text_le(next, #[trigger] list[k])
        }),
{
    let list = candidate_list(entries, scan_target_of(input, input_is_dir).prefix);
    list.index_of_first_ensures(current);
    lemma_candidate_list(entries, scan_target_of(input, input_is_dir).prefix);
    assert forall|k: int| 0 <= k < list.len() implies text_le(list[0], #[trigger] list[k]) by {
        if k == 0 {
            lemma_bytes_le_reflexive(vstd::utf8::encode_utf8(list[0]));
        }
    }
}

/// In a list without repeats every text stands at its own first place.
proof fn lemma_first_place(list: Seq<Seq<char>>, i: int)
    requires
        list.no_duplicates(),
        0 <= i < list.len(),
    ensures
        list.index_of_first(list[i]) == Some(i),
{
    list.index_of_first_ensures(list[i]);
}

/// In a list without repeats, `times` steps from the text at place `i` lead
/// to the place `i + times`, counted round the ring once.
proof fn lemma_cycle_steps_place(list: Seq<Seq<char>>, i: int, times: nat)
    requires
        list.no_duplicates(),
        0 <= i < list.len(),
        times <= list.len(),
    ensures
        cycle_steps(list, list[i], times) == if i + times < list.len() {
            list[i + times]
        } else {
            list[i + times - list.len()]
        },
    decreases times,
{
    if times > 0 {
        lemma_cycle_steps_place(list, i, (times - 1) as nat);
        let before = if i + times - 1 < list.len() {
            i + times - 1
        } else {
            i + times - 1 - list.len()
        };
        lemma_first_place(list, before);
    }
}

/// In a sorted list, a text that is listed twice is followed by itself.
proof fn lemma_listed_twice_stays(list: Seq<Seq<char>>, text: Seq<char>)
    requires
        in_text_order(list),
        listed_twice(list, text),
    ensures
        next_in_cycle(list, text) == text,
{
    list.index_of_first_ensures(text);
    let (i, j) = choose|i: int, j: int|
        0 <= i < j < list.len() && #[trigger] list[i] == text && #[trigger] list[j] == text;
    let first = list.index_of_first(text).unwrap();
    if first + 1 < j {
        // What stands between two places of `text` is at least and at most
        // `text`.
        assert(text_le(list[first], list[first + 1]));
        assert(text_le(list[first + 1], list[j]));
        lemma_bytes_le_antisymmetric(
            vstd::utf8::encode_utf8(text),
            vstd::utf8::encode_utf8(list[first + 1]),
        );
        lemma_encode_utf8_injective(text, list[first + 1]);
    }
}

/// Steps from a text that the ring sends to itself never leave it.
proof fn lemma_fixed_point_steps(list: Seq<Seq<char>>, text: Seq<char>, times: nat)
    requires
        next_in_cycle(list, text) == text,
    ensures
        cycle_steps(list, text, times) == text,
    decreases times,
{
    if times > 0 {
        lemma_fixed_point_steps(list, text, (times - 1) as nat);
    }
}

/// On one input and one listing, repeated completion is stepping round the
/// candidate list.
pub proof fn lemma_completions_are_steps(
    input: Seq<char>,
    start: Seq<char>,
    input_is_dir: bool,
    entries: Seq<EntryView>,
    times: nat,
)
    ensures
        completions(input, start, input_is_dir, Some(entries), times) == cycle_steps(
            candidate_list(entries, scan_target_of(input, input_is_dir).prefix),
            start,
            times,
        ),
    decreases times,
{
    if times > 0 {
        lemma_completions_are_steps(input, start, input_is_dir, entries, (times - 1) as nat);
    }
}

/// Cycling is closed: as many steps as the ring has candidates lead from a
/// candidate back to it.
///
/// This asks that no other path is listed twice. A listing that names a path
/// twice is not that of a directory; on such a list the engine stays on a path
/// that is listed twice, and from any other candidate it never comes back.
pub proof fn lemma_cycle_closes(list: Seq<Seq<char>>, start: Seq<char>)
    requires
        in_text_order(list),
        list.contains(start),
        list.no_duplicates() || listed_twice(list, start),
    ensures
        cycle_steps(list, start, list.len()) == start,
{
    if listed_twice(list, start) {
        lemma_listed_twice_stays(list, start);
        lemma_fixed_point_steps(list, start, list.len());
    } else {
        let i = choose|i: int| 0 <= i < list.len() && list[i] == start;
        lemma_cycle_steps_place(list, i, list.len());
    }
}

/// Cycling is closed for the engine: on one input and one listing, as many
/// completions as there are candidates lead from a candidate back to it.
///
/// As `lemma_cycle_closes`, this asks that no other path is listed twice.
pub proof fn lemma_completion_cycle_closes(
    input: Seq<char>,
    start: Seq<char>,
    input_is_dir: bool,
    entries: Seq<EntryView>,
)
    requires
        candidate_list(entries, scan_target_of(input, input_is_dir).prefix).contains(start),
        candidate_list(entries, scan_target_of(input, input_is_dir).prefix).no_duplicates()
            || listed_twice(
            candidate_list(entries, scan_target_of(input, input_is_dir).prefix),
            start,
        ),
    ensures
        completions(
            input,
            start,
            input_is_dir,
            Some(entries),
            candidate_list(entries, scan_target_of(input, input_is_dir).prefix).len(),
        ) == start,
{
    let prefix = scan_target_of(input, input_is_dir).prefix;
    let list = candidate_list(entries, prefix);
    lemma_candidate_list(entries, prefix);
    lemma_cycle_closes(list, start);
    lemma_completions_are_steps(input, start, input_is_dir, entries, list.len());
}

/// The first place of `text` in `list`, if it has one.
pub fn position(list: &Vec<String>, text: &str) -> (at: Option<usize>)
    ensures
        match at {
            Some(i) => list.deep_view().index_of_first(text@) == Some(i as int),
            None => list.deep_view().index_of_first(text@) is None,
        },
{
    let mut i: usize = 0;
    proof {
        list.deep_view().index_of_first_ensures(text@);
    }
    while i < list.len()
        invariant
            i <= list.len(),
            forall|j: int| 0 <= j < i ==> #[trigger] list.deep_view()[j] != text@,
            match list.deep_view().index_of_first(text@) {
                Some(k) => 0 <= k < list.len() && list.deep_view()[k] == text@ && forall|j: int|
                    0 <= j < k ==> #[trigger] list.deep_view()[j] != text@,
                None => !list.deep_view().contains(text@),
            },
        decreases list.len() - i,
    {
        if text_eq(list[i].as_str(), text) {
            assert(list.deep_view()[i as int] == text@);
            return Some(i);
        }
        i += 1;
    }
    None
}

/// The candidate to show after `current`.
pub fn next_candidate(candidates: &Vec<String>, current: &str) -> (next: String)
    ensures
        next@ == next_in_cycle(candidates.deep_view(), current@),
{
    if candidates.len() == 0 {
        return current.to_owned();
    }
    match position(candidates, current) {
        Some(i) => {
            if i < candidates.len() - 1 {
                candidates[i + 1].clone()
            } else {
                candidates[0].clone()
            }
        },
        None => candidates[0].clone(),
    }
}

/// The path to show after `current_completion`, among the entries of
/// `listing` whose name begins with `prefix`.
pub fn complete_among(prefix: &str, current_completion: &str, listing: Option<&Vec<Entry>>) -> (next:
    String)
    ensures
        next@ == match listing {
            Some(entries) => next_in_cycle(
                candidate_list(entries.deep_view(), prefix@),
                current_completion@,
            ),
            None => current_completion@,
        },
{
    match listing {
        Some(entries) => {
            let list = candidates(entries, prefix);
            next_candidate(&list, current_completion)
        },
        None => current_completion.to_owned(),
    }
}

/// The path to show after `current_completion`, for the path `input_path`
/// typed before cycling began.
///
/// `input_is_dir` says whether `input_path` names an existing directory.
/// `listing` holds the entries of the directory that `scan_target` names for
/// `input_path`, or `None` where that is no directory or cannot be read.
pub fn complete_next(
    input_path: &str,
    current_completion: &str,
    input_is_dir: bool,
    listing: Option<&Vec<Entry>>,
) -> (next: String)
    ensures
        next@ == completion(
            input_path@,
            current_completion@,
            input_is_dir,
            listing.deep_view(),
        ),
{
    match listing {
        Some(entries) => {
            let target = scan_target(input_path, input_is_dir);
            complete_among(target.prefix.as_str(), current_completion, Some(entries))
        },
        None => current_completion.to_owned(),
    }
}

} // verus!
