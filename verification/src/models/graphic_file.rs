//! A named graphic.

use vstd::prelude::*;

verus! {

/// A graphic that is named before anything is known of it.
pub struct GraphicFile {
    pub name: String,
    pub path: String,
}

impl Default for GraphicFile {
    fn default() -> (file: GraphicFile)
        ensures
            file.name@ == "Unknown File"@,
            file.path@ == "Unknown"@,
    {
        GraphicFile { name: "Unknown File".to_owned(), path: "Unknown".to_owned() }
    }
}

} // verus!
