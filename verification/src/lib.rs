//! Path completion and selection state for a small file viewer.
//!
//! The viewer shows a path field with tab completion, a file dialog, and the
//! text of the chosen file. This library holds what the viewer decides; the
//! window, the dialog and the file system are the caller's.
//!
//! - `text`: equality, prefixes and the order of texts.
//! - `path`: the directory to scan for a typed path, and the name prefix.
//! - `candidates`: the entries of a listing that a prefix admits, in order.
//! - `completion`: the engine that cycles through the candidates.
//! - `selector`: the state of the path field from frame to frame.
//! - `viewer`: the selector together with the text on display.

pub mod candidates;
pub mod completion;
pub mod path;
pub mod selector;
pub mod text;
pub mod viewer;
