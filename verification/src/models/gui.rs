//! The browser's screens.

use vstd::prelude::*;

verus! {

/// The screen that the browser is on.
#[derive(Debug, Clone, Copy, PartialEq, Eq, Structural)]
pub enum View {
    Gallery,
    Settings,
    Fonts,
    Help,
    Editor,
}

} // verus!
