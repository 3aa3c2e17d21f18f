//! Errors of archive peeling and member reading. Every failure is loud: it names
//! the format or the cap that tripped, and nothing is ever silently truncated.

use crate::text::{append_decimal, decimal};
use vstd::prelude::*;

verus! {

/// The result of an archive operation.
pub type Result<T> = core::result::Result<T, ArchiveError>;

/// Why an archive operation failed.
#[derive(Debug)]
#[non_exhaustive]
pub enum ArchiveError {
    /// A codec decoder failed on the packed stream.
    Decode {
        /// The codec.
        format: &'static str,
        /// The decoder's own diagnostic.
        detail: String,
    },
    /// The decompressed output exceeded the cap (a decompression-bomb guard): a
    /// loud failure, never a silent truncation.
    TooLarge {
        /// The cap, in bytes.
        cap: u64,
    },
    /// Parsing an archive's directory failed.
    Open {
        /// The archive format.
        format: &'static str,
        /// The reader's own diagnostic.
        detail: String,
    },
    /// Extracting a single member failed (bad offset, unsupported member codec,
    /// checksum mismatch).
    Read {
        /// The archive format.
        format: &'static str,
        /// The reader's own diagnostic.
        detail: String,
    },
    /// A member index was out of range for the archive.
    IndexOutOfRange {
        /// The index asked for.
        index: usize,
        /// How many members there are.
        count: usize,
    },
    /// The recursion peeled past the configured nesting limit. The chain names the
    /// layer path that tripped it.
    DepthExceeded {
        /// The configured limit.
        max: usize,
        /// The names from the outermost layer to the offending one.
        chain: String,
    },
    /// The cumulative number of members across the whole recursion exceeded the
    /// configured cap.
    TooManyEntries {
        /// The configured cap.
        max: usize,
    },
    /// The cumulative inflated size across the whole recursion exceeded the cap.
    TotalInflatedExceeded {
        /// The configured cap, in bytes.
        cap: u64,
    },
}

/// What an [`ArchiveError`] says, with its texts as character sequences.
#[verifier::ext_equal]
pub enum ErrorModel {
    Decode { format: Seq<char>, detail: Seq<char> },
    TooLarge { cap: u64 },
    Open { format: Seq<char>, detail: Seq<char> },
    Read { format: Seq<char>, detail: Seq<char> },
    IndexOutOfRange { index: usize, count: usize },
    DepthExceeded { max: usize, chain: Seq<char> },
    TooManyEntries { max: usize },
    TotalInflatedExceeded { cap: u64 },
}

impl View for ArchiveError {
    type V = ErrorModel;

    open spec fn view(&self) -> ErrorModel {
        match *self {
            ArchiveError::Decode { format, detail } => ErrorModel::Decode {
                format: format@,
                detail: detail@,
            },
            ArchiveError::TooLarge { cap } => ErrorModel::TooLarge { cap },
            ArchiveError::Open { format, detail } => ErrorModel::Open {
                format: format@,
                detail: detail@,
            },
            ArchiveError::Read { format, detail } => ErrorModel::Read {
                format: format@,
                detail: detail@,
            },
            ArchiveError::IndexOutOfRange { index, count } => ErrorModel::IndexOutOfRange {
                index,
                count,
            },
            ArchiveError::DepthExceeded { max, chain } => ErrorModel::DepthExceeded {
                max,
                chain: chain@,
            },
            ArchiveError::TooManyEntries { max } => ErrorModel::TooManyEntries { max },
            ArchiveError::TotalInflatedExceeded { cap } => ErrorModel::TotalInflatedExceeded {
                cap,
            },
        }
    }
}

impl ErrorModel {
    /// The one-line message of the error.
    pub open spec fn message(self) -> Seq<char> {
        match self {
            ErrorModel::Decode { format, detail } => format + " decode failed: "@ + detail,
            ErrorModel::TooLarge { cap } => "decompressed output exceeds the "@ + decimal(
                cap as nat,
            ) + "-byte cap"@,
            ErrorModel::Open { format, detail } => format + " archive open failed: "@ + detail,
            ErrorModel::Read { format, detail } => format + " member read failed: "@ + detail,
            ErrorModel::IndexOutOfRange { index, count } => "member index "@ + decimal(
                index as nat,
            ) + " out of range ("@ + decimal(count as nat) + " members)"@,
            ErrorModel::DepthExceeded { max, chain } => "nesting depth exceeded the max of "@
                + decimal(max as nat) + " at layer chain: "@ + chain,
            ErrorModel::TooManyEntries { max } => "member count exceeded the max of "@ + decimal(
                max as nat,
            ),
            ErrorModel::TotalInflatedExceeded { cap } => "cumulative inflated size exceeded the "@
                + decimal(cap as nat) + "-byte cap"@,
        }
    }
}

/// What an operation gave, with its error by the error's view.
pub open spec fn result_model<T>(r: core::result::Result<T, ArchiveError>) -> core::result::Result<
    T,
    ErrorModel,
> {
    match r {
        Ok(v) => Ok(v),
        Err(e) => Err(e@),
    }
}

/// What a byte-valued operation gave, by views.
pub open spec fn bytes_model(
    r: core::result::Result<Vec<u8>, ArchiveError>,
) -> core::result::Result<Seq<u8>, ErrorModel> {
    match r {
        Ok(v) => Ok(v@),
        Err(e) => Err(e@),
    }
}

impl ArchiveError {
    /// The one-line message of the error.
    pub fn message(&self) -> (r: String)
        ensures
            r@ == self@.message(),
    {
        let mut out: String = String::new();
        match self {
            ArchiveError::Decode { format, detail } => {
                out.append(format);
                out.append(" decode failed: ");
                out.append(detail.as_str());
            },
            ArchiveError::TooLarge { cap } => {
                out.append("decompressed output exceeds the ");
                append_decimal(&mut out, *cap);
                out.append("-byte cap");
            },
            ArchiveError::Open { format, detail } => {
                out.append(format);
                out.append(" archive open failed: ");
                out.append(detail.as_str());
            },
            ArchiveError::Read { format, detail } => {
                out.append(format);
                out.append(" member read failed: ");
                out.append(detail.as_str());
            },
            ArchiveError::IndexOutOfRange { index, count } => {
                out.append("member index ");
                append_decimal(&mut out, *index as u64);
                out.append(" out of range (");
                append_decimal(&mut out, *count as u64);
                out.append(" members)");
            },
            ArchiveError::DepthExceeded { max, chain } => {
                out.append("nesting depth exceeded the max of ");
                append_decimal(&mut out, *max as u64);
                out.append(" at layer chain: ");
                out.append(chain.as_str());
            },
            ArchiveError::TooManyEntries { max } => {
                out.append("member count exceeded the max of ");
                append_decimal(&mut out, *max as u64);
            },
            ArchiveError::TotalInflatedExceeded { cap } => {
                out.append("cumulative inflated size exceeded the ");
                append_decimal(&mut out, *cap);
                out.append("-byte cap");
            },
        }
        assert(out@ =~= self@.message());
        out
    }
}

} // verus!
