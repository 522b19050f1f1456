//! Error vocabulary shared by the parsers and validators.

use vstd::prelude::*;

verus! {

/// Image format named by an error or a validation context.
#[derive(Debug, Clone, Copy, PartialEq, Eq, Structural)]
pub enum FileFormat {
    Jpeg,
    Png,
    Unknown,
}

impl FileFormat {
    /// The name shown for the format: `JPEG`, `PNG` or `Unknown`.
    pub fn name(&self) -> (r: &'static str)
        ensures
            r@ == file_format_name(*self)@,
    {
        match self {
            FileFormat::Jpeg => "JPEG",
            FileFormat::Png => "PNG",
            FileFormat::Unknown => "Unknown",
        }
    }
}

/// The name shown for a format.
pub open spec fn file_format_name(f: FileFormat) -> &'static str {
    match f {
        FileFormat::Jpeg => "JPEG",
        FileFormat::Png => "PNG",
        FileFormat::Unknown => "Unknown",
    }
}

/// How far an error reaches: one read, one file, or the whole run.
#[derive(Debug, Clone, Copy, PartialEq, Eq, Structural)]
pub enum ErrorSeverity {
    Recoverable,
    Retryable,
    FileLevel,
    Fatal,
}

impl ErrorSeverity {
    /// Whether work continues past an error of this severity: a recoverable
    /// error skips a region, a file-level one skips a file.
    pub fn is_recoverable(self) -> (r: bool)
        ensures
            r == (self == ErrorSeverity::Recoverable || self == ErrorSeverity::FileLevel),
    {
        match self {
            ErrorSeverity::Recoverable | ErrorSeverity::FileLevel => true,
            _ => false,
        }
    }
}

/// Why a parser refused its input.
#[derive(Debug, Clone, PartialEq, Eq)]
pub enum CoreError {
    /// The bytes are not the format the parser reads.
    InvalidFormat(String),
}

} // verus!
