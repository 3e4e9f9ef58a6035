use vstd::prelude::*;

pub mod palette;
pub mod paths;
pub mod renderer;
pub mod substitute;
pub mod text;

verus! {

/// What a run is asked to do.
pub struct Args {
    /// The document, or the folder of documents, to render.
    pub input: String,
    /// The folder under which one sub-folder per color receives the images.
    pub output: String,
    /// The palette: comma-separated colors, or `label:color` pairs.
    pub colors: String,
    /// Width of the images, in pixels.
    pub width: u32,
    /// Height of the images, in pixels.
    pub height: u32,
}

} // verus!
