//! Typed argument bundles for the four user commands, and the fixed
//! quality scale used by compression.
//!
//! Paths are carried as plain strings and times as whole milliseconds;
//! the binary front end converts between these and its own option types.

use vstd::prelude::*;

verus! {

/// Quality levels for video compression.
#[derive(Clone, Copy, PartialEq, Eq, Structural, Debug)]
pub enum Quality {
    Low,
    Medium,
    High,
}

/// The constant-rate factor handed to the encoder for each quality level.
pub open spec fn crf_of(q: Quality) -> u8 {
    match q {
        Quality::Low => 28,
        Quality::Medium => 23,
        Quality::High => 18,
    }
}

impl Quality {
    /// Fixed compression factor for this level: lower means higher quality.
    pub fn crf(self) -> (r: u8)
        ensures
            r == crf_of(self),
    {
        match self {
            Quality::Low => 28,
            Quality::Medium => 23,
            Quality::High => 18,
        }
    }
}

/// Inputs of the convert-to-GIF command.
///
/// `start` is an unparsed time string; `duration_ms` is the optional clip
/// length in milliseconds.
pub struct GifArgs {
    pub input: String,
    pub output: Option<String>,
    pub width: u32,
    pub fps: u32,
    pub start: Option<String>,
    pub duration_ms: Option<u64>,
    pub force: bool,
}

/// Inputs of the compress command.
pub struct CompressArgs {
    pub input: String,
    pub output: Option<String>,
    pub quality: Quality,
    pub force: bool,
}

/// Inputs of the format-convert command.
pub struct ConvertArgs {
    pub format: String,
    pub input: String,
    pub output: Option<String>,
    pub force: bool,
}

/// Inputs of the inspect-metadata command.
pub struct InfoArgs {
    pub input: String,
}

} // verus!
