//! Display settings that the rest of the state reads: light or dark mode,
//! and the zoom factor.
use vstd::prelude::*;

verus! {

/// The smallest and largest zoom, in tenths.
pub const ZOOM_MIN: u32 = 2;

pub const ZOOM_MAX: u32 = 40;

/// The zoom factor held in `ZOOM_MIN..=ZOOM_MAX` tenths.
pub fn zoom_clamp(new_zoom: u32) -> (r: u32)
    ensures
        r == (if new_zoom < ZOOM_MIN {
            ZOOM_MIN
        } else if new_zoom > ZOOM_MAX {
            ZOOM_MAX
        } else {
            new_zoom
        }),
{
    if new_zoom < ZOOM_MIN {
        ZOOM_MIN
    } else if new_zoom > ZOOM_MAX {
        ZOOM_MAX
    } else {
        new_zoom
    }
}

/// Whether the interface is dark, as last seen.
pub struct DisplayMode {
    pub dark: bool,
}

impl DisplayMode {
    pub fn new() -> (r: DisplayMode)
        ensures
            r.dark,
    {
        DisplayMode { dark: true }
    }
}

/// Records the mode the interface shows; tells whether it changed since the
/// last call.
pub fn sync_mode(mode: &mut DisplayMode, dark_mode: bool) -> (r: bool)
    ensures
        final(mode).dark == dark_mode,
        r == (old(mode).dark != dark_mode),
{
    let current = mode.dark;
    if current != dark_mode {
        mode.dark = dark_mode;
        return true;
    }
    false
}

pub fn dark_mode(mode: &DisplayMode) -> (r: bool)
    ensures
        r == mode.dark,
{
    mode.dark
}

} // verus!
