//! The candidate list: the entries of a directory whose names begin with a
//! prefix, by their full paths, in the order of texts.

use crate::text::{
    lemma_bytes_le_connected, lemma_bytes_le_transitive, lemma_text_le_total, starts_with,
    text_at_most, text_le, text_order, text_starts_with,
};
use vstd::prelude::*;
use vstd::relations::*;
use vstd::seq_lib::*;

verus! {

/// One entry of a directory listing: its full path and its name within the
/// directory.
pub struct Entry {
    pub path: String,
    pub name: String,
}

/// An `Entry` in contracts.
pub struct EntryView {
    pub path: Seq<char>,
    pub name: Seq<char>,
}

impl View for Entry {
    type V = EntryView;

    open spec fn view(&self) -> EntryView {
        EntryView { path: self.path@, name: self.name@ }
    }
}

impl DeepView for Entry {
    type V = EntryView;

    open spec fn deep_view(&self) -> EntryView {
        self@
    }
}

impl Entry {
    /// An entry with the given full path and name.
    pub fn new(path: String, name: String) -> (e: Entry)
        ensures
            e@ == (EntryView { path: path@, name: name@ }),
    {
        Entry { path, name }
    }
}

/// The entries that a prefix admits: those whose name begins with it.
pub open spec fn admits(prefix: Seq<char>) -> spec_fn(EntryView) -> bool {
    |e: EntryView| starts_with(e.name, prefix)
}

/// The full path of an entry.
pub open spec fn path_of() -> spec_fn(EntryView) -> Seq<char> {
    |e: EntryView| e.path
}

/// The paths of the entries whose name begins with `prefix`, in listing
/// order.
pub open spec fn matching_paths(entries: Seq<EntryView>, prefix: Seq<char>) -> Seq<Seq<char>> {
    entries.filter(admits(prefix)).map_values(path_of())
}

/// The candidate list of a listing and a prefix: the matching paths in the
/// order of texts.
pub open spec fn candidate_list(entries: Seq<EntryView>, prefix: Seq<char>) -> Seq<Seq<char>> {
    matching_paths(entries, prefix).sort_by(text_order())
}

/// Whether `list` is in the order of texts, equal texts allowed side by side.
pub open spec fn in_text_order(list: Seq<Seq<char>>) -> bool {
    forall|i: int, j: int| 0 <= i < j < list.len() ==> text_le(#[trigger] list[i], #[trigger] list[j])
}

/// One more entry adds its path to the matching paths if its name is
/// admitted, and nothing otherwise.
pub proof fn lemma_matching_paths_push(entries: Seq<EntryView>, e: EntryView, prefix: Seq<char>)
    ensures
        matching_paths(entries.push(e), prefix) == if starts_with(e.name, prefix) {
            matching_paths(entries, prefix).push(e.path)
        } else {
            matching_paths(entries, prefix)
        },
{
    entries.lemma_filter_push(e, admits(prefix));
}

/// A path is among the matching paths exactly when some entry of the listing
/// has that path and a name that begins with the prefix.
pub proof fn lemma_matching_paths_contains(
    entries: Seq<EntryView>,
    prefix: Seq<char>,
    path: Seq<char>,
)
    ensures
        matching_paths(entries, prefix).contains(path) <==> exists|i: int|
            0 <= i < entries.len() && #[trigger] entries[i].path == path && starts_with(
                entries[i].name,
                prefix,
            ),
    decreases entries.len(),
{
    if entries.len() == 0 {
        reveal(Seq::filter);
    } else {
        let init = entries.drop_last();
        let last = entries.last();
        assert(entries =~= init.push(last));
        lemma_matching_paths_push(init, last, prefix);
        lemma_matching_paths_contains(init, prefix, path);
        let before = matching_paths(init, prefix);
        let all = matching_paths(entries, prefix);
        if all.contains(path) {
            let k = choose|k: int| 0 <= k < all.len() && all[k] == path;
            if k < before.len() {
                // The path was there before: an entry of `init` has it.
                assert(before[k] == path);
                let i = choose|i: int|
                    0 <= i < init.len() && #[trigger] init[i].path == path && starts_with(
                        init[i].name,
                        prefix,
                    );
                assert(entries[i].path == path);
            } else {
                assert(entries[entries.len() - 1].path == path);
            }
        }
        if exists|i: int|
            0 <= i < entries.len() && #[trigger] entries[i].path == path && starts_with(
                entries[i].name,
                prefix,
            ) {
            let i = choose|i: int|
                0 <= i < entries.len() && #[trigger] entries[i].path == path && starts_with(
                    entries[i].name,
                    prefix,
                );
            if i < init.len() {
                assert(init[i].path == path);
                let k = choose|k: int| 0 <= k < before.len() && before[k] == path;
                assert(all[k] == path);
            } else {
                assert(all[before.len() as int] == path);
            }
        }
    }
}

/// The paths of the entries whose name begins with `prefix`, in listing
/// order.
pub fn matching_paths_of(entries: &Vec<Entry>, prefix: &str) -> (paths: Vec<String>)
    ensures
        paths.deep_view() == matching_paths(entries.deep_view(), prefix@),
{
    let mut paths: Vec<String> = Vec::new();
    let mut i: usize = 0;
    proof {
        reveal(Seq::filter);
    }
    while i < entries.len()
        invariant
            i <= entries.len(),
            paths.deep_view() == matching_paths(entries.deep_view().take(i as int), prefix@),
        decreases entries.len() - i,
    {
        let ghost seen = entries.deep_view().take(i as int);
        proof {
            lemma_matching_paths_push(seen, entries[i as int]@, prefix@);
            assert(entries.deep_view().take(i + 1) =~= seen.push(entries[i as int]@));
        }
        if text_starts_with(entries[i].name.as_str(), prefix) {
            paths.push(entries[i].path.clone());
        }
        i += 1;
    }
    assert(entries.deep_view().take(i as int) =~= entries.deep_view());
    paths
}

/// In a sorted list, every text from the first one that is greater than
/// `text` onwards is at least `text`.
proof fn lemma_greater_from(list: Seq<Seq<char>>, text: Seq<char>, at: int)
    requires
        in_text_order(list),
        0 <= at < list.len(),
        !text_le(list[at], text),
    ensures
        forall|j: int| at <= j < list.len() ==> text_le(text, #[trigger] list[j]),
{
    assert forall|j: int| at <= j < list.len() implies text_le(text, #[trigger] list[j]) by {
        let first = list[at];
        lemma_bytes_le_connected(vstd::utf8::encode_utf8(first), vstd::utf8::encode_utf8(text));
        if at < j {
            lemma_bytes_le_transitive(
                vstd::utf8::encode_utf8(text),
                vstd::utf8::encode_utf8(first),
                vstd::utf8::encode_utf8(list[j]),
            );
        }
    }
}

/// Where `text` goes in a sorted list: behind every text that is at most
/// `text`, before every text that is greater.
fn insertion_point(sorted: &Vec<String>, text: &str) -> (at: usize)
    requires
        in_text_order(sorted.deep_view()),
    ensures
        at <= sorted.len(),
        forall|j: int| 0 <= j < at ==> text_le(#[trigger] sorted.deep_view()[j], text@),
        forall|j: int| at <= j < sorted.len() ==> text_le(text@, #[trigger] sorted.deep_view()[j]),
{
    let mut at: usize = 0;
    while at < sorted.len()
        invariant
            at <= sorted.len(),
            in_text_order(sorted.deep_view()),
            forall|j: int| 0 <= j < at ==> text_le(#[trigger] sorted.deep_view()[j], text@),
        decreases sorted.len() - at,
    {
        if !text_at_most(sorted[at].as_str(), text) {
            proof {
                lemma_greater_from(sorted.deep_view(), text@, at as int);
            }
            return at;
        }
        at += 1;
    }
    at
}

/// A list in the order of texts is sorted in the sequence library's sense,
/// and the other way round.
pub proof fn lemma_in_text_order_is_sorted(list: Seq<Seq<char>>)
    ensures
        in_text_order(list) <==> sorted_by(list, text_order()),
{
    if in_text_order(list) {
        assert forall|i: int, j: int| 0 <= i < j < list.len() implies #[trigger] text_order()(
            list[i],
            list[j],
        ) by {}
    }
    if sorted_by(list, text_order()) {
        assert forall|i: int, j: int| 0 <= i < j < list.len() implies text_le(
            #[trigger] list[i],
            #[trigger] list[j],
        ) by {
            assert(text_order()(list[i], list[j]));
        }
    }
}

/// Only one list holds given texts in the order of texts: the one that the
/// sequence library's `sort_by` describes.
pub proof fn lemma_sorted_is_sort_by(sorted: Seq<Seq<char>>, texts: Seq<Seq<char>>)
    requires
        in_text_order(sorted),
        sorted.to_multiset() == texts.to_multiset(),
    ensures
        sorted == texts.sort_by(text_order()),
{
    lemma_text_le_total();
    texts.lemma_sort_by_ensures(text_order());
    lemma_in_text_order_is_sorted(sorted);
    lemma_sorted_unique(sorted, texts.sort_by(text_order()), text_order());
}

/// The given texts in the order of texts.
pub fn sort_texts(texts: Vec<String>) -> (sorted: Vec<String>)
    ensures
        in_text_order(sorted.deep_view()),
        sorted.deep_view().to_multiset() == texts.deep_view().to_multiset(),
        sorted.deep_view() == texts.deep_view().sort_by(text_order()),
{
    let ghost all = texts.deep_view();
    let mut rest = texts;
    let mut sorted: Vec<String> = Vec::new();
    proof {
        broadcast use vstd::seq_lib::group_to_multiset_ensures;
        broadcast use vstd::multiset::group_multiset_axioms;

        assert(sorted.deep_view().to_multiset().add(rest.deep_view().to_multiset())
            =~= all.to_multiset());
    }
    while rest.len() > 0
        invariant
            in_text_order(sorted.deep_view()),
            sorted.deep_view().to_multiset().add(rest.deep_view().to_multiset())
                == all.to_multiset(),
        decreases rest.len(),
    {
        let ghost rest_before = rest.deep_view();
        let ghost sorted_before = sorted.deep_view();
        let text = rest.pop().unwrap();
        let at = insertion_point(&sorted, text.as_str());
        let ghost t = text@;
        sorted.insert(at, text);
        proof {
            broadcast use vstd::seq_lib::group_to_multiset_ensures;
            broadcast use vstd::multiset::group_multiset_axioms;

            // The text moved from `rest` to `sorted`.
            assert(rest_before =~= rest.deep_view().push(t));
            assert(sorted.deep_view() =~= sorted_before.insert(at as int, t));
            // It went between the texts that are at most it and the others.
            let list = sorted.deep_view();
            assert forall|i: int, j: int| 0 <= i < j < list.len() implies text_le(
                #[trigger] list[i],
                #[trigger] list[j],
            ) by {
                let before_i = if i < at { i } else { i - 1 };
                let before_j = if j < at { j } else { j - 1 };
                if i != at && j != at {
                    assert(text_le(sorted_before[before_i], sorted_before[before_j]));
                } else if j == at {
                    assert(text_le(sorted_before[before_i], t));
                } else {
                    assert(text_le(t, sorted_before[before_j]));
                }
            }
        }
    }
    proof {
        broadcast use vstd::seq_lib::group_to_multiset_ensures;
        broadcast use vstd::multiset::group_multiset_axioms;

        assert(sorted.deep_view().to_multiset() =~= all.to_multiset());
        lemma_sorted_is_sort_by(sorted.deep_view(), all);
    }
    sorted
}

/// The candidate list of a listing: the paths of the entries whose name
/// begins with `prefix`, in the order of texts.
pub fn candidates(entries: &Vec<Entry>, prefix: &str) -> (list: Vec<String>)
    ensures
        list.deep_view() == candidate_list(entries.deep_view(), prefix@),
        in_text_order(list.deep_view()),
        list.deep_view().to_multiset() == matching_paths(
            entries.deep_view(),
            prefix@,
        ).to_multiset(),
{
    sort_texts(matching_paths_of(entries, prefix))
}

} // verus!
