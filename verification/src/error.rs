//! The failures a command can end with, and their user-facing messages.
//!
//! Every error is terminal: validation errors are raised before the engine
//! is ever invoked, so no partial output file exists on those paths.

use vstd::prelude::*;

use crate::text::{join_str, join_strings};

verus! {

/// One terminal failure of a command.
#[derive(Debug)]
pub enum VxError {
    /// The input path does not exist on disk.
    InputNotFound(String),
    /// The requested target format is outside the supported set, which is
    /// carried along for the message.
    UnsupportedFormat { format: String, supported: Vec<String> },
    /// A time string matched none of the accepted shapes.
    InvalidTime(String),
    /// The engine executable could not be located.
    FfmpegNotFound,
    /// The engine ran and its event stream carried an error- or
    /// fatal-level log line; the text is the last such line.
    FfmpegError(String),
    /// The user declined the overwrite prompt.
    Cancelled,
}

/// The closed set of target container formats the convert command accepts.
pub open spec fn supported_format_views() -> Seq<Seq<char>> {
    seq!["mp4"@, "webm"@, "mov"@, "avi"@, "gif"@]
}

pub open spec fn is_supported_format(f: Seq<char>) -> bool {
    f == "mp4"@ || f == "webm"@ || f == "mov"@ || f == "avi"@ || f == "gif"@
}

/// The supported target formats, in the order messages list them.
pub fn supported_formats() -> (r: Vec<String>)
    ensures
        r@.map_values(|s: String| s@) == supported_format_views(),
{
    let mut v: Vec<String> = Vec::new();
    v.push(String::from_str("mp4"));
    v.push(String::from_str("webm"));
    v.push(String::from_str("mov"));
    v.push(String::from_str("avi"));
    v.push(String::from_str("gif"));
    proof {
        assert(v@.map_values(|s: String| s@) =~= supported_format_views());
    }
    v
}

impl VxError {
    /// The message a user sees for this failure.
    pub open spec fn spec_message(&self) -> Seq<char> {
        match self {
            VxError::InputNotFound(p) => "Input file not found: "@ + p@,
            VxError::UnsupportedFormat { format, supported } => "Output format not supported: "@
                + format@ + "\n  Supported formats: "@ + join_str(
                supported@.map_values(|s: String| s@),
                ", "@,
            ),
            VxError::InvalidTime(s) => "Invalid time format: \""@ + s@
                + "\"\n  Expected format: seconds (30) or mm:ss (1:30)"@,
            VxError::FfmpegNotFound => "ffmpeg not found\n\nInstall ffmpeg first:\n  macOS   : brew install ffmpeg\n  Ubuntu  : sudo apt install ffmpeg\n  Windows : winget install ffmpeg"@,
            VxError::FfmpegError(m) => "ffmpeg error: "@ + m@,
            VxError::Cancelled => "Operation cancelled"@,
        }
    }

    /// Renders the single descriptive message for this failure.
    pub fn message(&self) -> (r: String)
        ensures
            r@ == self.spec_message(),
    {
        match self {
            VxError::InputNotFound(p) => String::from_str("Input file not found: ").concat(
                p.as_str(),
            ),
            VxError::UnsupportedFormat { format, supported } => {
                let joined = join_strings(supported, ", ");
                String::from_str("Output format not supported: ").concat(format.as_str()).concat(
                    "\n  Supported formats: ",
                ).concat(joined.as_str())
            },
            VxError::InvalidTime(s) => String::from_str("Invalid time format: \"").concat(
                s.as_str(),
            ).concat("\"\n  Expected format: seconds (30) or mm:ss (1:30)"),
            VxError::FfmpegNotFound => String::from_str(
                "ffmpeg not found\n\nInstall ffmpeg first:\n  macOS   : brew install ffmpeg\n  Ubuntu  : sudo apt install ffmpeg\n  Windows : winget install ffmpeg",
            ),
            VxError::FfmpegError(m) => String::from_str("ffmpeg error: ").concat(m.as_str()),
            VxError::Cancelled => String::from_str("Operation cancelled"),
        }
    }
}

} // verus!
