use vstd::prelude::*;

verus! {

/// What the viewer was asked to show, and how.
#[derive(Debug)]
pub struct Config {
    pub print_all_glyphs: bool,
    pub debug: bool,
    pub input_string: String,
    pub font_path: String,
    pub outline_thickness: i32,
}

} // verus!
