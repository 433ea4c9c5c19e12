//! Which help page applies.

use vstd::prelude::*;

verus! {

/// The screen or overlay a help page describes.
#[derive(Debug, Clone, Copy, PartialEq, Eq, Structural)]
pub enum HelpContext {
    Home,
    Tree,
    Typing,
    Result,
    Search,
    Settings,
    Stats,
    Pause,
    FileTypes,
    Flow,
}

} // verus!
