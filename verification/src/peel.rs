//! Peel one outer bare compression layer (gzip or bzip2), if present.
//!
//! This handles a single compressed file, e.g. a `disk.dd.gz` evidence image.
//! Multi-member archives are member lists and belong to [`crate::archive`].

use crate::backend::codec::{
    bzip2_holds, bzip2_prefix, decoded, gzip_holds, gzip_prefix, read_bzip2, read_gzip,
    start_bzip2, start_gzip,
};
use crate::detect::{format_of, sniff, Format};
use crate::error::{bytes_model, ArchiveError, ErrorModel, Result};
use crate::text::opt_chars;
use vstd::prelude::*;

verus! {

/// Cap on the output of a single decompression held in memory, 4 GiB.
pub const MAX_INFLATED: u64 = 4 * 1024 * 1024 * 1024;

/// The result of attempting to peel one bare compression layer.
#[derive(Debug)]
#[non_exhaustive]
pub enum PeelOutcome {
    /// Not a bare compression wrapper: pass it through unchanged.
    NotPacked,
    /// A bare gzip or bzip2 wrapper peeled to its inner byte stream. A consumer
    /// runs detection again on `inner` to continue down the stack.
    Peeled {
        /// The wrapper that was peeled.
        format: Format,
        /// The decoded stream.
        inner: Vec<u8>,
    },
}

// ---------------------------------------------------------------------------
// Models

/// A [`PeelOutcome`] with its bytes as a sequence.
#[verifier::ext_equal]
pub enum PeelModel {
    NotPacked,
    Peeled { format: Format, inner: Seq<u8> },
}

impl View for PeelOutcome {
    type V = PeelModel;

    open spec fn view(&self) -> PeelModel {
        match *self {
            PeelOutcome::NotPacked => PeelModel::NotPacked,
            PeelOutcome::Peeled { format, inner } => PeelModel::Peeled { format, inner: inner@ },
        }
    }
}

/// The limit under which a stream is read so that output over `cap` is detected
/// and not silently cut: one byte past the cap, as far as 64 bits reach.
pub open spec fn one_past(cap: u64) -> u64 {
    if cap == u64::MAX {
        u64::MAX
    } else {
        (cap + 1) as u64
    }
}

/// `bytes` under a cap: over it, a loud failure.
pub open spec fn within_cap(bytes: Seq<u8>, cap: u64) -> core::result::Result<
    Seq<u8>,
    ErrorModel,
> {
    if bytes.len() > cap {
        Err(ErrorModel::TooLarge { cap })
    } else {
        Ok(bytes)
    }
}

/// What a decode under a cap comes to, from what the decoder gave.
pub open spec fn decode_outcome(
    raw: core::result::Result<Seq<u8>, Seq<char>>,
    format: Seq<char>,
    cap: u64,
) -> core::result::Result<Seq<u8>, ErrorModel> {
    match raw {
        Ok(bytes) => within_cap(bytes, cap),
        Err(detail) => Err(ErrorModel::Decode { format, detail }),
    }
}

/// The content of the gzip stream in `data`, capped.
pub open spec fn gzip_content(data: Seq<u8>, cap: u64) -> core::result::Result<
    Seq<u8>,
    ErrorModel,
> {
    decode_outcome(gzip_prefix(data, one_past(cap)), "gzip"@, cap)
}

/// The content of the bzip2 stream in `data`, capped.
pub open spec fn bzip2_content(data: Seq<u8>, cap: u64) -> core::result::Result<
    Seq<u8>,
    ErrorModel,
> {
    decode_outcome(bzip2_prefix(data, one_past(cap)), "bzip2"@, cap)
}

/// The content of a stream compressed as `format`, capped. Formats other than the
/// two wrappers have none.
pub open spec fn wrapped_content(format: Format, data: Seq<u8>, cap: u64) -> Option<
    core::result::Result<Seq<u8>, ErrorModel>,
> {
    match format {
        Format::Gzip => Some(gzip_content(data, cap)),
        Format::Bzip2 => Some(bzip2_content(data, cap)),
        _ => None,
    }
}

/// What peeling one layer off `data` comes to.
pub open spec fn peel_of(data: Seq<u8>, name: Option<Seq<char>>) -> core::result::Result<
    PeelModel,
    ErrorModel,
> {
    let format = format_of(name, data);
    match wrapped_content(format, data, MAX_INFLATED) {
        Some(Ok(inner)) => Ok(PeelModel::Peeled { format, inner }),
        Some(Err(e)) => Err(e),
        None => Ok(PeelModel::NotPacked),
    }
}

/// What [`peel_bytes`] returned, by views.
pub open spec fn peel_model(r: Result<PeelOutcome>) -> core::result::Result<
    PeelModel,
    ErrorModel,
> {
    match r {
        Ok(v) => Ok(v@),
        Err(e) => Err(e@),
    }
}

/// `data` is a stream, compressed as `format`, whose whole content is `inner`.
pub open spec fn wraps(format: Format, data: Seq<u8>, inner: Seq<u8>) -> bool {
    match format {
        Format::Gzip => gzip_holds(data, inner),
        Format::Bzip2 => bzip2_holds(data, inner),
        _ => false,
    }
}

// ---------------------------------------------------------------------------
// Laws

/// Nothing but a bare wrapper is peeled, and a bare wrapper is never passed over:
/// it peels or it fails loud.
pub proof fn only_wrappers_peel(data: Seq<u8>, name: Option<Seq<char>>)
    ensures
        peel_of(data, name) == Ok::<PeelModel, ErrorModel>(PeelModel::NotPacked) <==> !format_of(
            name,
            data,
        ).wraps_one(),
{
}

/// Never a silent truncation: a stream whose whole content is `inner` decodes
/// under a cap to exactly `inner`, or fails loud where `inner` is over the cap.
pub proof fn capped_decode_is_all_or_nothing(
    format: Format,
    data: Seq<u8>,
    inner: Seq<u8>,
    cap: u64,
)
    requires
        wraps(format, data, inner),
        cap < u64::MAX || inner.len() <= cap,
    ensures
        wrapped_content(format, data, cap) == Some(
            if inner.len() <= cap {
                Ok::<Seq<u8>, ErrorModel>(inner)
            } else {
                Err(ErrorModel::TooLarge { cap })
            },
        ),
{
    if format is Gzip {
        assert(gzip_prefix(data, one_past(cap)) is Ok);
    } else {
        assert(bzip2_prefix(data, one_past(cap)) is Ok);
    }
}

// ---------------------------------------------------------------------------
// Executable forms

/// The limit that detects output over `cap`.
pub fn limit_past(cap: u64) -> (r: u64)
    ensures
        r == one_past(cap),
{
    cap.saturating_add(1)
}

/// `bytes`, or [`ArchiveError::TooLarge`] where there are more than `cap`.
pub fn check_cap(bytes: Vec<u8>, cap: u64) -> (r: Result<Vec<u8>>)
    ensures
        bytes_model(r) == within_cap(bytes@, cap),
{
    if bytes.len() as u64 > cap {
        Err(ArchiveError::TooLarge { cap })
    } else {
        Ok(bytes)
    }
}

/// Turn what a decoder gave under the limit of `cap` into the capped result.
pub fn finish_decode(
    raw: core::result::Result<Vec<u8>, String>,
    format: &'static str,
    cap: u64,
) -> (r: Result<Vec<u8>>)
    ensures
        bytes_model(r) == decode_outcome(decoded(raw), format@, cap),
{
    match raw {
        Ok(bytes) => check_cap(bytes, cap),
        Err(detail) => Err(ArchiveError::Decode { format, detail }),
    }
}

/// Decode at most `limit` bytes of a gzip stream.
pub(crate) fn inflate_gzip(data: &[u8], limit: u64) -> (r: core::result::Result<
    Vec<u8>,
    String,
>)
    ensures
        decoded(r) == gzip_prefix(data@, limit),
        r matches Ok(out) ==> out@.len() <= limit,
        r matches Ok(out) ==> out@.len() < limit ==> gzip_holds(data@, out@),
{
    match read_gzip(start_gzip(data), limit) {
        Ok((out, _)) => {
            assert(Seq::<u8>::empty() + out@ =~= out@);
            Ok(out)
        },
        Err(e) => Err(e),
    }
}

/// Decode at most `limit` bytes of a bzip2 stream.
pub(crate) fn inflate_bzip2(data: &[u8], limit: u64) -> (r: core::result::Result<
    Vec<u8>,
    String,
>)
    ensures
        decoded(r) == bzip2_prefix(data@, limit),
        r matches Ok(out) ==> out@.len() <= limit,
        r matches Ok(out) ==> out@.len() < limit ==> bzip2_holds(data@, out@),
{
    match read_bzip2(start_bzip2(data), limit) {
        Ok((out, _)) => {
            assert(Seq::<u8>::empty() + out@ =~= out@);
            Ok(out)
        },
        Err(e) => Err(e),
    }
}

/// Inflate a gzip stream, failing loud past `cap`.
pub fn decode_gzip(data: &[u8], cap: u64) -> (r: Result<Vec<u8>>)
    ensures
        bytes_model(r) == gzip_content(data@, cap),
        r matches Ok(out) ==> out@.len() <= cap,
        r matches Ok(out) ==> out@.len() < u64::MAX ==> gzip_holds(data@, out@),
{
    finish_decode(inflate_gzip(data, limit_past(cap)), "gzip", cap)
}

/// Inflate a bzip2 stream, failing loud past `cap`.
pub fn decode_bzip2(data: &[u8], cap: u64) -> (r: Result<Vec<u8>>)
    ensures
        bytes_model(r) == bzip2_content(data@, cap),
        r matches Ok(out) ==> out@.len() <= cap,
        r matches Ok(out) ==> out@.len() < u64::MAX ==> bzip2_holds(data@, out@),
{
    finish_decode(inflate_bzip2(data, limit_past(cap)), "bzip2", cap)
}

/// Peel one outer bare gzip or bzip2 layer from `data`. Archives are not peeled
/// here. `name` is an optional file-name hint.
///
/// # Errors
/// [`ArchiveError::Decode`] where the stream does not decode, and
/// [`ArchiveError::TooLarge`] past [`MAX_INFLATED`].
pub fn peel_bytes(data: &[u8], name: Option<&str>) -> (r: Result<PeelOutcome>)
    ensures
        peel_model(r) == peel_of(data@, opt_chars(name)),
        r matches Ok(PeelOutcome::Peeled { format, inner }) ==> wraps(format, data@, inner@),
        r matches Ok(PeelOutcome::Peeled { format, inner }) ==> inner@.len() <= MAX_INFLATED,
{
    let format: Format = sniff(name, data);
    match format {
        Format::Gzip => match decode_gzip(data, MAX_INFLATED) {
            Ok(inner) => Ok(PeelOutcome::Peeled { format, inner }),
            Err(e) => Err(e),
        },
        Format::Bzip2 => match decode_bzip2(data, MAX_INFLATED) {
            Ok(inner) => Ok(PeelOutcome::Peeled { format, inner }),
            Err(e) => Err(e),
        },
        _ => Ok(PeelOutcome::NotPacked),
    }
}

} // verus!
