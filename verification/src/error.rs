//! The ways in which a run can fail.

use vstd::prelude::*;

verus! {

/// Why one slice could not be decoded.
#[derive(Clone, Copy, Debug, PartialEq, Eq, Structural)]
pub enum DecodeFault {
    /// The container could not be parsed.
    Malformed,
    /// The container declares an encoding that the decoder does not handle.
    UnsupportedEncoding,
    /// A sample does not fit the sample type.
    Conversion,
}

/// A failure of the whole run. None of them is recoverable: no volume is
/// produced, and the error names the entry or the slice that caused it.
#[derive(Clone, Copy, Debug, PartialEq, Eq, Structural)]
pub enum PipelineError {
    /// The directory does not exist or cannot be read.
    NotFound,
    /// The directory entry at position `entry` of the listing is no slice file.
    Discovery { entry: usize },
    /// The container of the slice at `index` is malformed.
    Decode { index: usize },
    /// The slice at `index` declares an encoding that is not handled.
    UnsupportedEncoding { index: usize },
    /// A sample of the slice at `index` does not fit the sample type.
    Conversion { index: usize },
    /// The slice at `index` has `width` columns and `height` rows, which is
    /// not the shape of the first slice.
    ShapeMismatch { index: usize, width: usize, height: usize },
}

/// The kind of a failure, without the place where it happened.
#[derive(Clone, Copy, Debug, PartialEq, Eq, Structural)]
pub enum ErrorKind {
    NotFound,
    Discovery,
    Decode,
    UnsupportedEncoding,
    Conversion,
    ShapeMismatch,
}

impl DecodeFault {
    /// The run's failure when the slice at `index` failed with this fault.
    pub open spec fn at_spec(self, index: usize) -> PipelineError {
        match self {
            DecodeFault::Malformed => PipelineError::Decode { index },
            DecodeFault::UnsupportedEncoding => PipelineError::UnsupportedEncoding { index },
            DecodeFault::Conversion => PipelineError::Conversion { index },
        }
    }

    /// The run's failure when the slice at `index` failed with this fault.
    #[verifier::when_used_as_spec(at_spec)]
    pub fn at(self, index: usize) -> (e: PipelineError)
        ensures
            e == self.at_spec(index),
    {
        match self {
            DecodeFault::Malformed => PipelineError::Decode { index },
            DecodeFault::UnsupportedEncoding => PipelineError::UnsupportedEncoding { index },
            DecodeFault::Conversion => PipelineError::Conversion { index },
        }
    }
}

impl PipelineError {
    pub open spec fn kind_spec(self) -> ErrorKind {
        match self {
            PipelineError::NotFound => ErrorKind::NotFound,
            PipelineError::Discovery { .. } => ErrorKind::Discovery,
            PipelineError::Decode { .. } => ErrorKind::Decode,
            PipelineError::UnsupportedEncoding { .. } => ErrorKind::UnsupportedEncoding,
            PipelineError::Conversion { .. } => ErrorKind::Conversion,
            PipelineError::ShapeMismatch { .. } => ErrorKind::ShapeMismatch,
        }
    }

    /// The kind of this failure.
    #[verifier::when_used_as_spec(kind_spec)]
    pub fn kind(self) -> (k: ErrorKind)
        ensures
            k == self.kind_spec(),
    {
        match self {
            PipelineError::NotFound => ErrorKind::NotFound,
            PipelineError::Discovery { .. } => ErrorKind::Discovery,
            PipelineError::Decode { .. } => ErrorKind::Decode,
            PipelineError::UnsupportedEncoding { .. } => ErrorKind::UnsupportedEncoding,
            PipelineError::Conversion { .. } => ErrorKind::Conversion,
            PipelineError::ShapeMismatch { .. } => ErrorKind::ShapeMismatch,
        }
    }

    pub open spec fn place_spec(self) -> Option<usize> {
        match self {
            PipelineError::NotFound => None,
            PipelineError::Discovery { entry } => Some(entry),
            PipelineError::Decode { index } => Some(index),
            PipelineError::UnsupportedEncoding { index } => Some(index),
            PipelineError::Conversion { index } => Some(index),
            PipelineError::ShapeMismatch { index, .. } => Some(index),
        }
    }

    /// The position that the failure names: of the directory entry for a
    /// discovery failure, of the slice in the total order for the others, and
    /// none where the directory itself is at fault.
    #[verifier::when_used_as_spec(place_spec)]
    pub fn place(self) -> (p: Option<usize>)
        ensures
            p == self.place_spec(),
    {
        match self {
            PipelineError::NotFound => None,
            PipelineError::Discovery { entry } => Some(entry),
            PipelineError::Decode { index } => Some(index),
            PipelineError::UnsupportedEncoding { index } => Some(index),
            PipelineError::Conversion { index } => Some(index),
            PipelineError::ShapeMismatch { index, .. } => Some(index),
        }
    }
}

} // verus!
