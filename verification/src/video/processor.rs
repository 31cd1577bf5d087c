//! The video processor hook.
//!
//! Extracting duration, resolution and a thumbnail is the work of an
//! outside tool run by the shell around this library; its results come
//! back through `FileManager::update_video_metadata`. This type is the
//! placeholder the shell hangs that work on.

use vstd::prelude::*;

verus! {

pub struct VideoProcessor;

impl VideoProcessor {
    pub fn new() -> (r: Self)
        ensures
            r == VideoProcessor,
    {
        VideoProcessor
    }
}

} // verus!
