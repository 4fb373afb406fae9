//! The failures that the library reports.

use vstd::prelude::*;

verus! {

/// Why an operation of the library failed.
#[derive(Debug, Clone, Copy, PartialEq, Eq, Structural)]
pub enum PpmError {
    /// Bad magic tag, a section that overruns the input, or a byte that is not a valid code.
    Format,
    /// A pixel or sample index outside the valid range.
    Bounds,
    /// A codec invariant does not hold of the input.
    Codec,
    /// Two tracks with different channel counts were mixed.
    Audio,
    /// A key that does not parse, a signature of the wrong length, or one that does not verify.
    Crypto,
    /// A failure of the file system or of a pipe.
    Io,
    /// A file name with the wrong extension.
    Argument,
    /// The video encoder ended with a failure status.
    ExternalProcess,
}

impl PpmError {
    /// A short description of the failure.
    pub fn message(&self) -> (text: &'static str)
        ensures
            text@ == Self::spec_message(*self)@,
    {
        match self {
            PpmError::Format => "malformed container",
            PpmError::Bounds => "index out of bounds",
            PpmError::Codec => "codec invariant violated",
            PpmError::Audio => "channel counts differ",
            PpmError::Crypto => "signature or key failure",
            PpmError::Io => "input or output failure",
            PpmError::Argument => "wrong file extension",
            PpmError::ExternalProcess => "external encoder failed",
        }
    }

    /// The text that `message` returns.
    pub open spec fn spec_message(e: PpmError) -> &'static str {
        match e {
            PpmError::Format => "malformed container",
            PpmError::Bounds => "index out of bounds",
            PpmError::Codec => "codec invariant violated",
            PpmError::Audio => "channel counts differ",
            PpmError::Crypto => "signature or key failure",
            PpmError::Io => "input or output failure",
            PpmError::Argument => "wrong file extension",
            PpmError::ExternalProcess => "external encoder failed",
        }
    }
}

} // verus!
