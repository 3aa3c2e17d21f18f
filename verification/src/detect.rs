//! Format determination. Content magic decides the codec or container that was
//! actually applied; the file name only tells a compressed tar from a bare
//! compressed stream, and speaks for itself where the magic is silent.

use crate::text::{has_suffix, lower, lower_chars_of, name_ends_in, opt_chars};
use vstd::prelude::*;

verus! {

broadcast use vstd::seq::group_seq_axioms;

/// A recognized packing format.
#[derive(Debug, Clone, Copy, PartialEq, Eq, Structural)]
#[non_exhaustive]
pub enum Format {
    /// Bare gzip stream (a single compressed file, e.g. `disk.dd.gz`).
    Gzip,
    /// Bare bzip2 stream (a single compressed file, e.g. `disk.dd.bz2`).
    Bzip2,
    /// Uncompressed tar: a member list.
    Tar,
    /// tar compressed with gzip (`.tgz`, `.tar.gz`): a member list.
    TarGz,
    /// tar compressed with bzip2 (`.tbz2`, `.tar.bz2`): a member list.
    TarBz2,
    /// ZIP archive: a member list.
    Zip,
    /// 7-Zip archive: a member list.
    SevenZip,
    /// Not a recognized packing layer.
    Unknown,
}

// ---------------------------------------------------------------------------
// Models

impl Format {
    /// A one-to-one compression wrapper.
    pub open spec fn wraps_one(self) -> bool {
        self is Gzip || self is Bzip2
    }

    /// A container of members.
    pub open spec fn holds_members(self) -> bool {
        self is Tar || self is TarGz || self is TarBz2 || self is Zip || self is SevenZip
    }
}

/// The 7-Zip signature.
pub open spec fn seven_zip_magic() -> Seq<u8> {
    seq![0x37u8, 0x7Au8, 0xBCu8, 0xAFu8, 0x27u8, 0x1Cu8]
}

/// The ZIP local-file-header signature.
pub open spec fn zip_magic() -> Seq<u8> {
    seq![0x50u8, 0x4Bu8, 0x03u8, 0x04u8]
}

/// The gzip signature.
pub open spec fn gzip_magic() -> Seq<u8> {
    seq![0x1Fu8, 0x8Bu8]
}

/// The bzip2 signature, `BZh`.
pub open spec fn bzip2_magic() -> Seq<u8> {
    seq![0x42u8, 0x5Au8, 0x68u8]
}

/// The tar signature, `ustar`.
pub open spec fn tar_magic() -> Seq<u8> {
    seq![0x75u8, 0x73u8, 0x74u8, 0x61u8, 0x72u8]
}

/// Where the tar signature stands.
pub open spec fn tar_magic_at() -> int {
    257
}

/// Whether `head` holds `magic` at offset `at`.
pub open spec fn holds_at(head: Seq<u8>, at: int, magic: Seq<u8>) -> bool {
    at + magic.len() <= head.len() && head.subrange(at, at + magic.len()) == magic
}

/// The container that the content alone identifies.
pub open spec fn container_of(head: Seq<u8>) -> Option<Format> {
    if holds_at(head, 0, seven_zip_magic()) {
        Some(Format::SevenZip)
    } else if holds_at(head, 0, zip_magic()) {
        Some(Format::Zip)
    } else if holds_at(head, tar_magic_at(), tar_magic()) {
        Some(Format::Tar)
    } else {
        None
    }
}

/// Whether the name says "tar compressed with gzip".
pub open spec fn names_tar_gz(name: Option<Seq<char>>) -> bool {
    name_ends_in(name, ".tgz"@) || name_ends_in(name, ".tar.gz"@)
}

/// Whether the name says "tar compressed with bzip2".
pub open spec fn names_tar_bz2(name: Option<Seq<char>>) -> bool {
    name_ends_in(name, ".tbz2"@) || name_ends_in(name, ".tar.bz2"@) || name_ends_in(name, ".tbz"@)
        || name_ends_in(name, ".tb2"@)
}

/// The format that the name alone suggests.
pub open spec fn format_by_name(name: Option<Seq<char>>) -> Format {
    if name_ends_in(name, ".7z"@) {
        Format::SevenZip
    } else if name_ends_in(name, ".zip"@) || name_ends_in(name, ".clbx"@) {
        Format::Zip
    } else if names_tar_gz(name) {
        Format::TarGz
    } else if names_tar_bz2(name) {
        Format::TarBz2
    } else if name_ends_in(name, ".tar"@) {
        Format::Tar
    } else if name_ends_in(name, ".gz"@) {
        Format::Gzip
    } else if name_ends_in(name, ".bz2"@) {
        Format::Bzip2
    } else {
        Format::Unknown
    }
}

/// The format of content that begins with `head` under an optional name.
pub open spec fn format_of(name: Option<Seq<char>>, head: Seq<u8>) -> Format {
    match container_of(head) {
        Some(container) => container,
        None => if holds_at(head, 0, gzip_magic()) {
            if names_tar_gz(name) {
                Format::TarGz
            } else {
                Format::Gzip
            }
        } else if holds_at(head, 0, bzip2_magic()) {
            if names_tar_bz2(name) {
                Format::TarBz2
            } else {
                Format::Bzip2
            }
        } else {
            format_by_name(name)
        },
    }
}

// ---------------------------------------------------------------------------
// Laws

/// Every format is exactly one of: a compression wrapper, an archive, unknown.
pub proof fn formats_are_partitioned(f: Format)
    ensures
        f.wraps_one() ==> !f.holds_members() && f !is Unknown,
        f.holds_members() ==> !f.wraps_one() && f !is Unknown,
        f !is Unknown ==> f.wraps_one() || f.holds_members(),
{
}

/// Container identity is decided by content both ways: whatever the two names
/// are, a container magic gives the same container.
pub proof fn container_magic_beats_any_name(
    a: Option<Seq<char>>,
    b: Option<Seq<char>>,
    head: Seq<u8>,
)
    requires
        container_of(head) is Some,
    ensures
        format_of(a, head) == format_of(b, head),
        Some(format_of(a, head)) == container_of(head),
{
}

/// A gzip or bzip2 magic fixes the codec: no name turns the one into the other or
/// hides it.
pub proof fn codec_magic_fixes_the_codec(name: Option<Seq<char>>, head: Seq<u8>)
    requires
        container_of(head) is None,
    ensures
        holds_at(head, 0, gzip_magic()) ==> (format_of(name, head) is Gzip || format_of(
            name,
            head,
        ) is TarGz),
        holds_at(head, 0, bzip2_magic()) ==> (format_of(name, head) is Bzip2 || format_of(
            name,
            head,
        ) is TarBz2),
{
    if holds_at(head, 0, bzip2_magic()) && holds_at(head, 0, gzip_magic()) {
        assert(head.subrange(0, 3)[0] == bzip2_magic()[0]);
        assert(head.subrange(0, 2)[0] == gzip_magic()[0]);
    }
}

/// Without a name, only the content speaks: a format other than unknown comes
/// from a magic.
pub proof fn nameless_formats_come_from_magic(head: Seq<u8>)
    ensures
        format_of(None, head) !is TarGz,
        format_of(None, head) !is TarBz2,
        format_of(None, head) is Gzip ==> holds_at(head, 0, gzip_magic()),
        format_of(None, head) is Bzip2 ==> holds_at(head, 0, bzip2_magic()),
        format_of(None, head) is Tar ==> holds_at(head, tar_magic_at(), tar_magic()),
        format_of(None, head) is Zip ==> holds_at(head, 0, zip_magic()),
        format_of(None, head) is SevenZip ==> holds_at(head, 0, seven_zip_magic()),
{
}

/// The case of the ASCII letters of a name does not matter.
pub proof fn format_ignores_ascii_case(a: Seq<char>, b: Seq<char>, head: Seq<u8>)
    requires
        lower(a) == lower(b),
    ensures
        format_of(Some(a), head) == format_of(Some(b), head),
{
}

/// Only the first 262 bytes count: a head at least that long has the format of the
/// whole data.
pub proof fn format_reads_a_bounded_head(name: Option<Seq<char>>, data: Seq<u8>, n: int)
    requires
        262 <= n <= data.len(),
    ensures
        format_of(name, data.take(n)) == format_of(name, data),
{
    assert(data.take(n).subrange(0, 6) =~= data.subrange(0, 6));
    assert(data.take(n).subrange(0, 4) =~= data.subrange(0, 4));
    assert(data.take(n).subrange(257, 262) =~= data.subrange(257, 262));
    assert(data.take(n).subrange(0, 2) =~= data.subrange(0, 2));
    assert(data.take(n).subrange(0, 3) =~= data.subrange(0, 3));
}

// ---------------------------------------------------------------------------
// Executable forms

impl Format {
    /// A one-to-one bare compression wrapper that peels to a single inner byte
    /// stream.
    #[must_use]
    pub fn is_compression_wrapper(self) -> (r: bool)
        ensures
            r == self.wraps_one(),
    {
        matches!(self, Format::Gzip | Format::Bzip2)
    }

    /// A multi-member archive (tar, tar.gz, tar.bz2, zip or 7z).
    #[must_use]
    pub fn is_archive(self) -> (r: bool)
        ensures
            r == self.holds_members(),
    {
        matches!(
            self,
            Format::Tar | Format::TarGz | Format::TarBz2 | Format::Zip | Format::SevenZip
        )
    }
}

/// Whether `head` holds `magic` at offset `at`.
fn has_magic_at(head: &[u8], at: usize, magic: &[u8]) -> (r: bool)
    ensures
        r == holds_at(head@, at as int, magic@),
{
    if head.len() < at || head.len() - at < magic.len() {
        return false;
    }
    let ghost window = head@.subrange(at as int, at + magic@.len());
    let mut i: usize = 0;
    while i < magic.len()
        invariant
            i <= magic.len(),
            at + magic.len() <= head.len(),
            window == head@.subrange(at as int, at + magic@.len()),
            forall|j: int| 0 <= j < i ==> window[j] == magic@[j],
        decreases magic.len() - i,
    {
        if head[at + i] != magic[i] {
            assert(window[i as int] != magic@[i as int]);
            return false;
        }
        i = i + 1;
    }
    assert(window =~= magic@);
    true
}

/// Whether a lowered name says "tar compressed with gzip".
fn is_tar_gz_name(low: &Vec<char>) -> (r: bool)
    ensures
        r == (".tgz"@.is_suffix_of(low@) || ".tar.gz"@.is_suffix_of(low@)),
{
    has_suffix(low, ".tgz") || has_suffix(low, ".tar.gz")
}

/// Whether a lowered name says "tar compressed with bzip2". The alias set stands
/// here alone, for the magic branch and for the magic-silent fallback.
fn is_tar_bz2_name(low: &Vec<char>) -> (r: bool)
    ensures
        r == (".tbz2"@.is_suffix_of(low@) || ".tar.bz2"@.is_suffix_of(low@)
            || ".tbz"@.is_suffix_of(low@) || ".tb2"@.is_suffix_of(low@)),
{
    has_suffix(low, ".tbz2") || has_suffix(low, ".tar.bz2") || has_suffix(low, ".tbz")
        || has_suffix(low, ".tb2")
}

/// Determine the packing format of content that begins with `head`.
///
/// Container identity (7z, zip, tar) is decided by magic; a gzip or bzip2 magic
/// fixes the codec and the name tells a compressed tar from a bare stream; where
/// the magic is silent the name decides.
#[must_use]
pub fn sniff(name: Option<&str>, head: &[u8]) -> (r: Format)
    ensures
        r == format_of(opt_chars(name), head@),
{
    let seven_zip: [u8; 6] = [0x37, 0x7A, 0xBC, 0xAF, 0x27, 0x1C];
    let zip: [u8; 4] = [0x50, 0x4B, 0x03, 0x04];
    let tar: [u8; 5] = [0x75, 0x73, 0x74, 0x61, 0x72];
    let gzip: [u8; 2] = [0x1F, 0x8B];
    let bzip2: [u8; 3] = [0x42, 0x5A, 0x68];
    assert(seven_zip@ =~= seven_zip_magic());
    assert(zip@ =~= zip_magic());
    assert(tar@ =~= tar_magic());
    assert(gzip@ =~= gzip_magic());
    assert(bzip2@ =~= bzip2_magic());
    // Containers with a definitive magic.
    if has_magic_at(head, 0, &seven_zip) {
        return Format::SevenZip;
    }
    if has_magic_at(head, 0, &zip) {
        return Format::Zip;
    }
    if has_magic_at(head, 257, &tar) {
        return Format::Tar;
    }
    // Compression codecs: the name decides tar-inside or bare single file.
    let gzipped: bool = has_magic_at(head, 0, &gzip);
    let bzipped: bool = has_magic_at(head, 0, &bzip2);
    let low: Vec<char> = match name {
        Some(s) => lower_chars_of(s),
        None => {
            return if gzipped {
                Format::Gzip
            } else if bzipped {
                Format::Bzip2
            } else {
                Format::Unknown
            };
        },
    };
    if gzipped {
        return if is_tar_gz_name(&low) {
            Format::TarGz
        } else {
            Format::Gzip
        };
    }
    if bzipped {
        return if is_tar_bz2_name(&low) {
            Format::TarBz2
        } else {
            Format::Bzip2
        };
    }
    // Magic silent: fall to the name. A `.clbx` extraction container is an
    // ordinary ZIP at this layer.
    if has_suffix(&low, ".7z") {
        Format::SevenZip
    } else if has_suffix(&low, ".zip") || has_suffix(&low, ".clbx") {
        Format::Zip
    } else if is_tar_gz_name(&low) {
        Format::TarGz
    } else if is_tar_bz2_name(&low) {
        Format::TarBz2
    } else if has_suffix(&low, ".tar") {
        Format::Tar
    } else if has_suffix(&low, ".gz") {
        Format::Gzip
    } else if has_suffix(&low, ".bz2") {
        Format::Bzip2
    } else {
        Format::Unknown
    }
}

} // verus!
