//! The keys that show and hide the search window.

use vstd::prelude::*;

verus! {

/// What one look at the keyboard asks of the search window.
#[derive(Debug, Clone, Copy, PartialEq, Eq, Structural)]
pub struct HotkeyStep {
    /// Show the window and give it the focus.
    pub show: bool,
    /// Hide the window; after `show`, if both are asked.
    pub hide: bool,
    /// Whether the window is hidden afterwards.
    pub hidden: bool,
}

/// What the keys ask of a window that is hidden or not: `Alt` with `Space`
/// shows a hidden window, `Escape` hides the window.
pub open spec fn hotkey_effect(hidden: bool, alt: bool, space: bool, escape: bool) -> HotkeyStep {
    HotkeyStep { show: alt && space && hidden, hide: escape, hidden: escape || (hidden && !(alt
            && space)) }
}

/// Decides what the keys that are down ask of the search window.
pub fn hotkey_step(hidden: bool, alt: bool, space: bool, escape: bool) -> (r: HotkeyStep)
    ensures
        r == hotkey_effect(hidden, alt, space, escape),
{
    let show = alt && space && hidden;
    let shown = hidden && !show;
    HotkeyStep { show, hide: escape, hidden: escape || shown }
}

} // verus!
