//! State of the pop-up windows.
use vstd::prelude::*;

verus! {

#[derive(Debug, Clone, Copy, PartialEq, Eq, Structural)]
pub enum WindowId {
    Exit,
    About,
    Setting,
    Debug,
}

/// The window that asks before the application closes.
pub struct ExitWindow {
    pub allowed_to_close: bool,
    pub show: bool,
}

impl ExitWindow {
    pub fn new() -> (r: ExitWindow)
        ensures
            !r.allowed_to_close,
            !r.show,
    {
        ExitWindow { allowed_to_close: false, show: false }
    }

    /// The user confirmed: the application may close.
    pub fn confirm(&mut self)
        ensures
            final(self).allowed_to_close,
            final(self).show == old(self).show,
    {
        self.allowed_to_close = true;
    }

    /// The user cancelled: the window goes away.
    pub fn cancel(&mut self)
        ensures
            !final(self).show,
            final(self).allowed_to_close == old(self).allowed_to_close,
    {
        self.show = false;
    }

    /// The window system asks to close: allowed once the user confirmed;
    /// until then the question is shown.
    pub fn on_frame_close_event(&mut self) -> (r: bool)
        ensures
            r == old(self).allowed_to_close,
            final(self).show == !old(self).allowed_to_close,
            final(self).allowed_to_close == old(self).allowed_to_close,
    {
        let allowed_to_close = self.allowed_to_close;
        self.show = !allowed_to_close;
        allowed_to_close
    }
}

/// The settings window.
pub struct SettingWindow {
    pub show: bool,
    pub open_at_last_close_pos: bool,
}

impl SettingWindow {
    pub fn new() -> (r: SettingWindow)
        ensures
            !r.show,
            !r.open_at_last_close_pos,
    {
        SettingWindow { show: false, open_at_last_close_pos: false }
    }

    /// Records whether the window shows; tells whether that changed.
    pub fn change_show(&mut self, show: bool) -> (r: bool)
        ensures
            final(self).show == show,
            final(self).open_at_last_close_pos == old(self).open_at_last_close_pos,
            r == (old(self).show != show),
    {
        let old = self.show;
        self.show = show;
        old != show
    }
}

} // verus!
