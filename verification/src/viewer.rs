//! The viewer: a selector and the text of the file that was last loaded.
//!
//! In each frame the host first hands over the files dropped on the window
//! (`files_dropped`), then runs the selector, and where that reports a
//! committed path, reads the file and hands over what it read (`file_read`).
//! Nothing is ever written back to a file.

use crate::selector::{FileSelectorFrame, FrameState};
use vstd::prelude::*;

verus! {

/// The viewer's state: the selector and the text on display.
pub struct MyApp {
    pub fileselector: FileSelectorFrame,
    pub contents: String,
}

/// A `MyApp` in contracts.
pub struct MyAppView {
    pub fileselector: FrameState,
    pub contents: Seq<char>,
}

impl View for MyApp {
    type V = MyAppView;

    open spec fn view(&self) -> MyAppView {
        MyAppView { fileselector: self.fileselector@, contents: self.contents@ }
    }
}

impl MyAppView {
    /// The state at start: an empty selector and nothing on display.
    pub open spec fn initial() -> MyAppView {
        MyAppView { fileselector: FrameState::initial(), contents: Seq::empty() }
    }

    /// After the files at `dropped` were dropped on the window: the path of
    /// the first one is picked. With no file dropped nothing changes.
    pub open spec fn drop_files(self, dropped: Seq<Seq<char>>) -> MyAppView {
        if dropped.len() > 0 {
            MyAppView { fileselector: self.fileselector.pick(dropped[0]), contents: self.contents }
        } else {
            self
        }
    }

    /// After an attempt to read the committed file: what was read is on
    /// display; a failed read leaves the display as it was.
    pub open spec fn load(self, read: Option<Seq<char>>) -> MyAppView {
        match read {
            Some(text) => MyAppView { fileselector: self.fileselector, contents: text },
            None => self,
        }
    }
}

/// A file dropped on the window is reported by the selector at the end of the
/// same frame and not again at the end of the next.
pub proof fn lemma_drop_reported_once(
    app: MyAppView,
    dropped: Seq<Seq<char>>,
    tab: bool,
    changed: bool,
)
    requires
        dropped.len() > 0,
    ensures
        app.drop_files(dropped).fileselector.path == dropped[0],
        app.drop_files(dropped).fileselector.report() == Some(dropped[0]),
        app.drop_files(dropped).fileselector.reported().keys(false, tab, changed).report() is None,
{
}

impl Default for MyApp {
    fn default() -> (app: MyApp)
        ensures
            app@ == MyAppView::initial(),
    {
        MyApp::new()
    }
}

impl MyApp {
    /// A viewer with an empty selector and nothing on display.
    pub fn new() -> (app: MyApp)
        ensures
            app@ == MyAppView::initial(),
    {
        MyApp { fileselector: FileSelectorFrame::new(), contents: String::new() }
    }

    /// Takes the files dropped on the window since the last frame, by their
    /// paths in the order the host reports them, and picks the first.
    pub fn files_dropped(&mut self, dropped: &Vec<String>)
        ensures
            final(self)@ == old(self)@.drop_files(dropped.deep_view()),
    {
        if dropped.len() > 0 {
            self.fileselector.set_picked_path(dropped[0].clone());
        }
    }

    /// Takes the outcome of reading the committed file as text: the text, or
    /// `None` where the file could not be read.
    pub fn file_read(&mut self, read: Option<String>)
        ensures
            final(self)@ == old(self)@.load(read.deep_view()),
    {
        match read {
            Some(text) => {
                self.contents = text;
            },
            None => {},
        }
    }
}

} // verus!
