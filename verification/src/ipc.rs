//! The job stages and error classes that cross the desktop IPC boundary.
use vstd::prelude::*;

verus! {

/// Where a file is in the pipeline.
#[derive(Debug, Clone, Copy, PartialEq, Eq, Structural)]
pub enum JobStage {
    /// Waiting for a worker.
    Queued,
    /// Decoding, measuring and beat tracking.
    Analysing,
    /// Analysis finished; nothing written yet.
    Analysed,
    /// Analysis finished but a human should look before processing.
    NeedsReview,
    /// Rendering the output.
    Processing,
    /// Writing and verifying the output file.
    Writing,
    /// Written and verified.
    Done,
    /// Failed; the original is untouched.
    Failed,
    /// Cancelled by the user; partial outputs were removed.
    Cancelled,
    /// Skipped for a stated reason.
    Skipped,
}

/// Why a file's format is not what DJ players handle everywhere; export would convert it.
#[derive(Debug, Clone, Copy, PartialEq, Eq, Structural)]
pub enum DjUnsafe {
    /// Neither 44.1 nor 48 kHz.
    SampleRate,
    /// Neither 16- nor 24-bit.
    BitDepth,
    /// Floating-point samples.
    Float,
    /// Not stereo.
    Channels,
}

/// Error classes as the UI sees them.
#[derive(Debug, Clone, Copy, PartialEq, Eq, Structural)]
pub enum IpcErrorKind {
    /// The container or codec is not supported (or not supported for writing).
    UnsupportedFormat,
    /// More channels than mono and stereo.
    UnsupportedChannels,
    /// The file could not be parsed or decoded.
    Corrupt,
    /// An operating-system I/O failure.
    Io,
    /// The job was cancelled by the user.
    Cancelled,
    /// The file is DRM-protected.
    DrmProtected,
    /// The gain would push the true peak over the ceiling.
    WouldClip,
    /// The beat-tracking model files were not found.
    ModelUnavailable,
    /// A caller passed an invalid value.
    InvalidArgument,
    /// Anything the engine did not classify.
    Internal,
}

/// An error crossing IPC: a class the UI can branch on plus a human-readable message.
#[derive(Debug, Clone, PartialEq, Eq)]
pub struct IpcError {
    /// The class.
    pub kind: IpcErrorKind,
    /// Message for the user, already worded per the copy guidelines.
    pub message: String,
    /// The file concerned, if any.
    pub file_id: Option<u32>,
}

/// Schema of the JSON reports; bumped only with a breaking change.
pub const REPORT_SCHEMA: u32 = 2;

/// The JSON document for a file that failed.
#[derive(Debug, Clone, PartialEq, Eq)]
pub struct ErrorReport {
    /// [`REPORT_SCHEMA`].
    pub schema: u32,
    /// The file as given on the command line.
    pub file: String,
    /// Class and message.
    pub error: IpcError,
}

impl ErrorReport {
    /// The report that `file` failed with `error`, under the current schema.
    pub fn new(file: String, error: IpcError) -> (r: Self)
        ensures
            r.schema == REPORT_SCHEMA,
            r.file == file,
            r.error == error,
    {
        ErrorReport { schema: REPORT_SCHEMA, file, error }
    }
}

/// The text the plan table shows for a row's stage.
pub open spec fn status_text(stage: JobStage) -> Seq<char> {
    match stage {
        JobStage::NeedsReview => "Needs review"@,
        JobStage::Skipped => "Skipped"@,
        _ => "Analysed"@,
    }
}

/// The status column's text: a plan is skipped, needs review, or is analysed.
pub fn status(stage: JobStage) -> (s: &'static str)
    ensures
        s@ == status_text(stage),
{
    match stage {
        JobStage::NeedsReview => "Needs review",
        JobStage::Skipped => "Skipped",
        _ => "Analysed",
    }
}

} // verus!
