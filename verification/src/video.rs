//! Video handling: the hook for the out-of-band video pass.

pub mod processor;

pub use processor::VideoProcessor;
