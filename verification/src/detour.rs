//! The single-image entry point: peel one bare wrapper, or extract the lone member
//! of a one-member archive.
//!
//! Unlike [`crate::resolve`], which unwraps everything it recognizes, this is for
//! one wrapped evidence image. The peel of a bare wrapper is guarded by the file
//! name, so that a raw disk with a coincidental magic is left alone; a
//! multi-member archive is a collection and is left to the caller.

use crate::archive::{listing, member_content, Archive, EntryModel};
use crate::detect::{format_of, sniff, Format};
use crate::error::{ArchiveError, ErrorModel, Result};
use crate::peel::{peel_bytes, wrapped_content, wraps, PeelOutcome, MAX_INFLATED};
use crate::plan::{file_members, files_of};
use crate::resolve::Limits;
use crate::text::{has_suffix, lower_chars_of, name_ends_in, opt_chars};
use vstd::prelude::*;

verus! {

/// The outcome of a detour.
#[derive(Debug)]
pub enum Detour {
    /// Not a wrapped or single-member image: open the data directly.
    NotPacked,
    /// One peeled stream, or the single extracted archive member.
    Inner(Vec<u8>),
}

// ---------------------------------------------------------------------------
// Models

/// A [`Detour`] with its bytes as a sequence.
#[verifier::ext_equal]
pub enum DetourModel {
    NotPacked,
    Inner(Seq<u8>),
}

impl View for Detour {
    type V = DetourModel;

    open spec fn view(&self) -> DetourModel {
        match *self {
            Detour::NotPacked => DetourModel::NotPacked,
            Detour::Inner(bytes) => DetourModel::Inner(bytes@),
        }
    }
}

/// Whether the name carries a compression extension, tar aliases included.
pub open spec fn names_compression(name: Option<Seq<char>>) -> bool {
    ||| name_ends_in(name, ".gz"@)
    ||| name_ends_in(name, ".bz2"@)
    ||| name_ends_in(name, ".xz"@)
    ||| name_ends_in(name, ".tgz"@)
    ||| name_ends_in(name, ".taz"@)
    ||| name_ends_in(name, ".tbz"@)
    ||| name_ends_in(name, ".tbz2"@)
    ||| name_ends_in(name, ".txz"@)
    ||| name_ends_in(name, ".tzst"@)
    ||| name_ends_in(name, ".tlz"@)
    ||| name_ends_in(name, ".zst"@)
    ||| name_ends_in(name, ".z"@)
}

/// An extraction under the cumulative cap.
pub open spec fn capped_detour(inner: Seq<u8>, limits: Limits) -> core::result::Result<
    DetourModel,
    ErrorModel,
> {
    if inner.len() > limits.max_total_inflated {
        Err(ErrorModel::TotalInflatedExceeded { cap: limits.max_total_inflated })
    } else {
        Ok(DetourModel::Inner(inner))
    }
}

/// The detour of an archive with the given member table: its only file member,
/// where it has exactly one.
pub open spec fn table_detour(
    format: Format,
    data: Seq<u8>,
    table: Seq<EntryModel>,
    limits: Limits,
) -> core::result::Result<DetourModel, ErrorModel> {
    let files = files_of(table, table.len());
    if files.len() == 1 {
        match member_content(format, data, table, files[0].0, MAX_INFLATED) {
            Ok(inner) => capped_detour(inner, limits),
            Err(e) => Err(e),
        }
    } else {
        Ok(DetourModel::NotPacked)
    }
}

/// The detour of `data`. A bare wrapper is peeled where the name agrees; an archive
/// is extracted where a magic speaks, whatever the name, which only tells a
/// compressed tar from a compressed file.
pub open spec fn detour_of(
    data: Seq<u8>,
    name: Option<Seq<char>>,
    limits: Limits,
) -> core::result::Result<DetourModel, ErrorModel> {
    let format = format_of(name, data);
    if format.wraps_one() && names_compression(name) {
        match wrapped_content(format, data, MAX_INFLATED)->Some_0 {
            Ok(inner) => capped_detour(inner, limits),
            Err(e) => Err(e),
        }
    } else if format.holds_members() && format_of(None, data) !is Unknown {
        match listing(format, data) {
            Ok(table) => table_detour(format, data, table->Some_0, limits),
            Err(e) => Err(e),
        }
    } else {
        Ok(DetourModel::NotPacked)
    }
}

/// What [`peel_detour`] returned, by views.
pub open spec fn detour_model(r: Result<Detour>) -> core::result::Result<DetourModel, ErrorModel> {
    match r {
        Ok(v) => Ok(v@),
        Err(e) => Err(e@),
    }
}

// ---------------------------------------------------------------------------
// Laws

/// The coincidental-magic guard: under a name without a compression extension, a
/// bare wrapper is left alone, decodable or not.
pub proof fn unnamed_wrappers_are_left_alone(
    data: Seq<u8>,
    name: Option<Seq<char>>,
    limits: Limits,
)
    requires
        format_of(name, data).wraps_one(),
        !names_compression(name),
    ensures
        detour_of(data, name, limits) == Ok::<DetourModel, ErrorModel>(DetourModel::NotPacked),
{
}

/// Extraction is keyed on magic alone: content without a magic is left alone,
/// whatever archive its name speaks of.
pub proof fn archive_names_alone_extract_nothing(
    data: Seq<u8>,
    name: Option<Seq<char>>,
    limits: Limits,
)
    requires
        format_of(None, data) is Unknown,
        !format_of(name, data).wraps_one(),
    ensures
        detour_of(data, name, limits) == Ok::<DetourModel, ErrorModel>(DetourModel::NotPacked),
{
}

/// An archive that does not hold exactly one file is a collection, not a wrapped
/// image.
pub proof fn collections_are_left_alone(
    data: Seq<u8>,
    name: Option<Seq<char>>,
    table: Seq<EntryModel>,
    limits: Limits,
)
    requires
        format_of(name, data).holds_members(),
        listing(format_of(name, data), data) == Ok::<Option<Seq<EntryModel>>, ErrorModel>(
            Some(table),
        ),
        files_of(table, table.len()).len() != 1,
    ensures
        detour_of(data, name, limits) == Ok::<DetourModel, ErrorModel>(DetourModel::NotPacked),
{
}

// ---------------------------------------------------------------------------
// Executable forms

/// Enforce the cumulative inflated cap on a single extraction.
pub fn cap(inner: Vec<u8>, limits: &Limits) -> (r: Result<Detour>)
    ensures
        detour_model(r) == capped_detour(inner@, *limits),
{
    if inner.len() as u64 > limits.max_total_inflated {
        return Err(ArchiveError::TotalInflatedExceeded { cap: limits.max_total_inflated });
    }
    Ok(Detour::Inner(inner))
}

/// Whether the file name carries a compression extension, tar aliases included.
pub fn has_compression_ext(name: Option<&str>) -> (r: bool)
    ensures
        r == names_compression(opt_chars(name)),
{
    match name {
        Some(s) => {
            let low: Vec<char> = lower_chars_of(s);
            has_suffix(&low, ".gz") || has_suffix(&low, ".bz2") || has_suffix(&low, ".xz")
                || has_suffix(&low, ".tgz") || has_suffix(&low, ".taz") || has_suffix(&low, ".tbz")
                || has_suffix(&low, ".tbz2") || has_suffix(&low, ".txz") || has_suffix(
                &low,
                ".tzst",
            ) || has_suffix(&low, ".tlz") || has_suffix(&low, ".zst") || has_suffix(&low, ".z")
        },
        None => false,
    }
}

/// Peel a bare gzip or bzip2 wrapper, or extract the single file member of an
/// archive, to inner bytes. Multi-member archives and anything unrecognized are
/// [`Detour::NotPacked`].
///
/// The peel of a bare wrapper is guarded by the file name: a raw disk that happens
/// to start with a gzip or bzip2 magic but lacks a compression extension is
/// [`Detour::NotPacked`]. Archive extraction is keyed on magic alone.
///
/// # Errors
/// A decode, open or read failure of the underlying layer, or
/// [`ArchiveError::TotalInflatedExceeded`] where the extracted bytes exceed
/// `limits.max_total_inflated`.
pub fn peel_detour(data: &[u8], name: Option<&str>, limits: &Limits) -> (r: Result<Detour>)
    ensures
        detour_model(r) == detour_of(data@, opt_chars(name), *limits),
        r matches Ok(Detour::Inner(inner)) ==> inner@.len() <= limits.max_total_inflated,
        format_of(opt_chars(name), data@) is Gzip && names_compression(opt_chars(name)) ==> !(r
            matches Ok(Detour::NotPacked)),
        format_of(opt_chars(name), data@) is Bzip2 && names_compression(opt_chars(name)) ==> !(r
            matches Ok(Detour::NotPacked)),
        (format_of(opt_chars(name), data@) is Gzip || format_of(opt_chars(name), data@) is Bzip2)
            && (r matches Ok(Detour::Inner(_))) ==> wraps(
            format_of(opt_chars(name), data@),
            data@,
            r->Ok_0->Inner_0@,
        ),
{
    let format: Format = sniff(name, data);
    if format.is_compression_wrapper() {
        // Only peel where the name agrees that it is packed.
        if !has_compression_ext(name) {
            return Ok(Detour::NotPacked);
        }
        return match peel_bytes(data, name) {
            Ok(PeelOutcome::Peeled { format: _, inner }) => cap(inner, limits),
            Ok(PeelOutcome::NotPacked) => Ok(Detour::NotPacked),
            Err(e) => Err(e),
        };
    }
    if format.is_archive() && sniff(None, data) != Format::Unknown {
        let mut archive: Archive = match Archive::open(data, name) {
            Ok(Some(archive)) => archive,
            Ok(None) => {
                return Ok(Detour::NotPacked);
            },
            Err(e) => {
                return Err(e);
            },
        };
        let files: Vec<(usize, String)> = file_members(archive.entries());
        // A single file member (directories do not count) is a wrapped image.
        if files.len() == 1 {
            return match archive.read(files[0].0) {
                Ok(inner) => cap(inner, limits),
                Err(e) => Err(e),
            };
        }
        return Ok(Detour::NotPacked);
    }
    Ok(Detour::NotPacked)
}

} // verus!
