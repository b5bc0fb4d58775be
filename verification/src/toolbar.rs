//! The kinds of bar that a window shows.

use vstd::prelude::*;

verus! {

#[derive(Debug)]
pub enum ToolBarType {
    /// The way from the root note to the open note.
    PathBar(String),
    ToolBar,
    /// The title bar of a window.
    WinBar(String),
}

} // verus!
