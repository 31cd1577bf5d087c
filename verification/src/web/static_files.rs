//! The static file handler hook.
//!
//! Serving bundled static assets is transport work done by the shell
//! around this library; this type is the placeholder it hangs that work
//! on.

use vstd::prelude::*;

verus! {

pub struct StaticFileHandler;

impl StaticFileHandler {
    pub fn new() -> (r: Self)
        ensures
            r == StaticFileHandler,
    {
        StaticFileHandler
    }
}

} // verus!
