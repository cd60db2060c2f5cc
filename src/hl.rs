//! The key under which a highlighted text layout is cached.
use vstd::prelude::*;

verus! {

#[derive(Debug, Hash)]
pub struct HlKey<'a> {
    pub theme_name: Option<&'a str>,
    pub dark_mode: bool,
    pub file_ext: &'a str,
}

impl<'a> HlKey<'a> {
    pub fn new(theme_name: Option<&'a str>, dark_mode: bool, file_ext: &'a str) -> (r: Self)
        ensures
            r.theme_name == theme_name,
            r.dark_mode == dark_mode,
            r.file_ext == file_ext,
    {
        HlKey { theme_name, dark_mode, file_ext }
    }
}

} // verus!
