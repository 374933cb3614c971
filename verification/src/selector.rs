//! The state behind a path field with a file dialog and tab completion.
//!
//! A frame of the user interface hands its events to the selector in this
//! order: a path from the dialog or from a drop (`set_picked_path`), the text
//! as the user changed it (`set_text`), the keys (`key_input`), the listing
//! that a completion needs (`complete`), and at the end `take_picked`, which
//! says whether a path was committed in this frame.

use crate::candidates::{Entry, EntryView};
use crate::completion::{complete_next, completion};
use vstd::prelude::*;

verus! {

/// A selector in contracts.
pub struct FrameState {
    /// A path was committed and has not been reported yet.
    pub picked: bool,
    /// The text shown in the field.
    pub path: Seq<char>,
    /// The text that completion cycles from; empty outside a cycle.
    pub input: Seq<char>,
}

impl FrameState {
    /// The state at start: nothing shown, nothing committed, no cycle.
    pub open spec fn initial() -> FrameState {
        FrameState { picked: false, path: Seq::empty(), input: Seq::empty() }
    }

    /// After the dialog or a drop delivered `path`: it is shown and committed.
    pub open spec fn pick(self, path: Seq<char>) -> FrameState {
        FrameState { picked: true, path: path, input: self.input }
    }

    /// After the user changed the text to `text`.
    pub open spec fn edit(self, text: Seq<char>) -> FrameState {
        FrameState { picked: self.picked, path: text, input: self.input }
    }

    /// The text that a completion cycles from: the text frozen when the cycle
    /// began, or the shown text where no cycle is under way.
    pub open spec fn cycle_base(self) -> Seq<char> {
        if self.input.len() == 0 {
            self.path
        } else {
            self.input
        }
    }

    /// Whether the keys of a frame ask for a completion: Tab without Enter.
    pub open spec fn wants_completion(enter: bool, tab: bool) -> bool {
        !enter && tab
    }

    /// After the keys of a frame. Enter commits the shown text. Tab without
    /// Enter freezes the cycle base. With neither, a change of the text ends
    /// the cycle.
    pub open spec fn keys(self, enter: bool, tab: bool, changed: bool) -> FrameState {
        if enter {
            FrameState { picked: true, path: self.path, input: self.input }
        } else if tab {
            FrameState { picked: self.picked, path: self.path, input: self.cycle_base() }
        } else if changed {
            FrameState { picked: self.picked, path: self.path, input: Seq::empty() }
        } else {
            self
        }
    }

    /// After a completion: the engine's next path is shown.
    pub open spec fn complete(
        self,
        input_is_dir: bool,
        listing: Option<Seq<EntryView>>,
    ) -> FrameState {
        FrameState {
            picked: self.picked,
            path: completion(self.input, self.path, input_is_dir, listing),
            input: self.input,
        }
    }

    /// What the end of a frame reports: the shown text if a path was
    /// committed.
    pub open spec fn report(self) -> Option<Seq<char>> {
        if self.picked {
            Some(self.path)
        } else {
            None
        }
    }

    /// After the report: nothing is left to report.
    pub open spec fn reported(self) -> FrameState {
        FrameState { picked: false, path: self.path, input: self.input }
    }
}

/// A committed path is reported at the end of its frame and not again at the
/// end of a following frame in which nothing is committed.
pub proof fn lemma_reported_once(state: FrameState, path: Seq<char>, tab: bool, changed: bool)
    ensures
        state.pick(path).report() == Some(path),
        state.pick(path).reported().keys(false, tab, changed).report() is None,
{
}

/// The end of a frame reports a path exactly when one was committed and not
/// reported before, or Enter was pressed in this frame.
pub proof fn lemma_report_iff_committed(state: FrameState, enter: bool, tab: bool, changed: bool)
    ensures
        state.keys(enter, tab, changed).report() is Some <==> state.picked || enter,
        state.keys(enter, tab, changed).reported().report() is None,
{
}

/// Tab after Tab keeps the cycle base, whatever was shown in between.
pub proof fn lemma_tab_keeps_base(
    state: FrameState,
    input_is_dir: bool,
    listing: Option<Seq<EntryView>>,
    changed: bool,
)
    requires
        state.cycle_base().len() > 0,
    ensures
        state.keys(false, true, changed).complete(input_is_dir, listing).keys(
            false,
            true,
            changed,
        ).input == state.cycle_base(),
{
}

/// A change of the text without Tab or Enter ends the cycle: the next Tab
/// cycles from the text then shown.
pub proof fn lemma_edit_restarts_cycle(state: FrameState, text: Seq<char>)
    ensures
        state.edit(text).keys(false, false, true).input.len() == 0,
        state.edit(text).keys(false, false, true).keys(false, true, false).input == text,
{
}

/// The state behind a path field: the text shown, the text that completion
/// cycles from, and whether a path was committed in the current frame.
pub struct FileSelectorFrame {
    picked: bool,
    path: String,
    input: String,
}

impl View for FileSelectorFrame {
    type V = FrameState;

    closed spec fn view(&self) -> FrameState {
        FrameState { picked: self.picked, path: self.path@, input: self.input@ }
    }
}

impl Default for FileSelectorFrame {
    fn default() -> (frame: FileSelectorFrame)
        ensures
            frame@ == FrameState::initial(),
    {
        FileSelectorFrame::new()
    }
}

impl FileSelectorFrame {
    /// A selector that shows nothing and has nothing to report.
    pub fn new() -> (frame: FileSelectorFrame)
        ensures
            frame@ == FrameState::initial(),
    {
        FileSelectorFrame { picked: false, path: String::new(), input: String::new() }
    }

    /// The text shown in the field.
    pub fn path(&self) -> (text: &str)
        ensures
            text@ == self@.path,
    {
        self.path.as_str()
    }

    /// The text that completion cycles from; empty outside a cycle.
    pub fn input(&self) -> (text: &str)
        ensures
            text@ == self@.input,
    {
        self.input.as_str()
    }

    /// Whether a path was committed and has not been reported yet.
    pub fn picked(&self) -> (picked: bool)
        ensures
            picked == self@.picked,
    {
        self.picked
    }

    /// Shows `path` and commits it, as the dialog does on a selection and the
    /// host on a dropped file.
    pub fn set_picked_path(&mut self, path: String)
        ensures
            final(self)@ == old(self)@.pick(path@),
    {
        self.path = path;
        self.picked = true;
    }

    /// Takes the text as the user changed it.
    pub fn set_text(&mut self, text: String)
        ensures
            final(self)@ == old(self)@.edit(text@),
    {
        self.path = text;
    }

    /// Takes the keys of a frame: whether Enter and Tab were pressed, and
    /// whether the user changed the text. Returns whether a completion is
    /// asked for; it then cycles from `input()`.
    pub fn key_input(&mut self, enter: bool, tab: bool, changed: bool) -> (wants_completion: bool)
        ensures
            final(self)@ == old(self)@.keys(enter, tab, changed),
            wants_completion == FrameState::wants_completion(enter, tab),
    {
        if enter {
            self.picked = true;
            false
        } else if tab {
            if self.input.as_str().is_empty() {
                self.input = self.path.clone();
            }
            true
        } else {
            if changed {
                self.input = String::new();
            }
            false
        }
    }

    /// Shows the engine's next path. `input_is_dir` and `listing` are what
    /// the file system says of `input()`, as `complete_next` takes them.
    pub fn complete(&mut self, input_is_dir: bool, listing: Option<&Vec<Entry>>)
        ensures
            final(self)@ == old(self)@.complete(input_is_dir, listing.deep_view()),
    {
        let next = complete_next(self.input.as_str(), self.path.as_str(), input_is_dir, listing);
        self.path = next;
    }

    /// Ends the frame: returns the shown text if a path was committed, and
    /// forgets that it was.
    pub fn take_picked(&mut self) -> (report: Option<String>)
        ensures
            report.deep_view() == old(self)@.report(),
            final(self)@ == old(self)@.reported(),
    {
        if self.picked {
            self.picked = false;
            Some(self.path.clone())
        } else {
            None
        }
    }
}

} // verus!
