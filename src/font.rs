//! Icon glyphs of the Nerd Fonts set.
use vstd::prelude::*;

verus! {

/// A glyph and its Nerd Fonts class name.
pub struct NerdFont<'a>(pub char, pub &'a str);

impl NerdFont<'static> {
    pub fn class(&self) -> (r: &'static str)
        ensures
            r@ == self.1@,
    {
        self.1
    }

    pub fn utf(&self) -> (r: char)
        ensures
            r == self.0,
    {
        self.0
    }

    pub fn warn() -> (r: NerdFont<'static>)
        ensures
            r.0 == '\u{ea6c}',
            r.1@ == "nf-cod-warning"@,
    {
        NerdFont('\u{ea6c}', "nf-cod-warning")
    }

    pub fn info() -> (r: NerdFont<'static>)
        ensures
            r.0 == '\u{ea74}',
            r.1@ == "nf-cod-info"@,
    {
        NerdFont('\u{ea74}', "nf-cod-info")
    }

    pub fn settings_gear() -> (r: NerdFont<'static>)
        ensures
            r.0 == '\u{eb51}',
            r.1@ == "nf-cod-settings_gear"@,
    {
        NerdFont('\u{eb51}', "nf-cod-settings_gear")
    }

    pub fn telescope() -> (r: NerdFont<'static>)
        ensures
            r.0 == '\u{eb68}',
            r.1@ == "nf-cod-telescope"@,
    {
        NerdFont('\u{eb68}', "nf-cod-telescope")
    }

    pub fn folder() -> (r: NerdFont<'static>)
        ensures
            r.0 == '\u{f07b}',
            r.1@ == "nf-fa-folder"@,
    {
        NerdFont('\u{f07b}', "nf-fa-folder")
    }

    pub fn folder_open() -> (r: NerdFont<'static>)
        ensures
            r.0 == '\u{f07c}',
            r.1@ == "nf-fa-folder_open"@,
    {
        NerdFont('\u{f07c}', "nf-fa-folder_open")
    }

    pub fn rust() -> (r: NerdFont<'static>)
        ensures
            r.0 == '\u{e7a8}',
            r.1@ == "nf-dev-rust"@,
    {
        NerdFont('\u{e7a8}', "nf-dev-rust")
    }
}

} // verus!
