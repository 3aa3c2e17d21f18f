//! What the operations mean, said of the bytes and names that go in and of what comes
//! out. The laws speak in words that are defined here for them, beside the names of the
//! operations: nothing else in the library is written in those words.

use crate::archive::{
    access_of, count_model, entry_models, listing, member_content, member_spill, opened_as,
    read_outcome, spilled_onto, tar_outcome, Archive, ArchiveEntry, EntryModel,
};
use crate::backend::codec::{bzip2_holds, bzip2_prefix, first_bytes, gzip_holds, gzip_prefix};
use crate::backend::sevenz::{sevenz_entries, sevenz_member};
use crate::backend::tarball::{tar_entries, tar_holds, tar_member};
use crate::backend::zipfile::{
    zip_count, zip_decodes, zip_directory, zip_holds, zip_member, zip_record, ZipMethod,
};
use crate::detect::{format_of, Format};
use crate::detour::{capped_detour, detour_model, detour_of, names_compression, Detour, DetourModel};
use crate::error::{bytes_model, result_model, ArchiveError, ErrorModel};
use crate::execute::{
    advanced, bytes_left, clamped, decoded_member, filled, member_source, peeled_as, seek_target,
    sourced_as, PeelSource, PeeledSource, ReadSeek, SeekFrom, SourceModel,
};
use crate::guard::{
    directory_of, le16, le32, members_fit, next_header, place_of, zip_fits, MEMBER_SIGNATURE,
};
use crate::inflate::{
    bit, bits, count, decode, deflate64_fits, fixed_distances, fixed_literals, symbol, walk,
    walk_block,
};
use crate::peel::{
    decode_outcome, one_past, peel_model, peel_of, within_cap, wrapped_content, PeelModel,
    PeelOutcome, MAX_INFLATED,
};
use crate::plan::{
    archive_plan, codec_label, ewf_number, files_are_rows, files_of, ordered_files, plan_model,
    plan_of, raw_number, segment_models, segment_of, vmdk_number, wrapper_plan, Access, AccessPlan,
    Codec, PlanModel, Segment, SegmentKind, SegmentModel,
};
use crate::reassemble::{
    joined, owns, reads_within_segment, reassembled_as, segmented_as, sources_of, Reassembled,
    SegmentSources,
};
use crate::resolve::{
    inner_name, layers_left, node_models, resolve_layer, resolve_members, resolve_model, resolve_of,
    start, stepped, Budget, Limits, Node, NodeModel, Progress, Stop,
};
use crate::tape::{
    land, next_entry, pull, scan_fits, size_of, sparse_header, tar_prefix, tar_source, Pulled,
    STREAM_MAX,
};
use crate::text::{
    all_digits, decimal, extension_chars, is_digit, lower, lower_char, name_ends_in, numeral,
    rfind_chars,
};
use crate::vfs::{
    contents_of, head_bytes, member_models, recognized_by, ArchiveContents, ContentsModel,
    LayerError, Member,
};
use vstd::prelude::*;
use vstd::utf8::encode_utf8;

verus! {

broadcast use vstd::seq::group_seq_axioms;

// ---------------------------------------------------------------------------
// Words

/// The small form of the letter `c` is `l`: 32 further on for an ASCII capital, and
/// itself for anything else.
pub open spec fn folds_to(c: char, l: char) -> bool {
    if 0x41 <= c as u32 && c as u32 <= 0x5A {
        l as u32 == c as u32 + 32
    } else {
        l == c
    }
}

/// The name ends in `suffix`, whatever the case of its ASCII letters.
pub open spec fn called(name: Option<Seq<char>>, suffix: Seq<char>) -> bool {
    match name {
        Some(s) => s.len() >= suffix.len() && forall|i: int|
            0 <= i < suffix.len() ==> folds_to(s[s.len() - suffix.len() + i], #[trigger] suffix[i]),
        None => false,
    }
}

/// The data begins as a 7z archive does.
pub open spec fn begins_7z(d: Seq<u8>) -> bool {
    d.len() >= 6 && d[0] == 0x37 && d[1] == 0x7A && d[2] == 0xBC && d[3] == 0xAF && d[4] == 0x27
        && d[5] == 0x1C
}

/// The data begins as a ZIP archive does.
pub open spec fn begins_zip(d: Seq<u8>) -> bool {
    d.len() >= 4 && d[0] == 0x50 && d[1] == 0x4B && d[2] == 0x03 && d[3] == 0x04
}

/// The data has `ustar` where a tar header has it.
pub open spec fn begins_tar(d: Seq<u8>) -> bool {
    d.len() >= 262 && d[257] == 0x75 && d[258] == 0x73 && d[259] == 0x74 && d[260] == 0x61
        && d[261] == 0x72
}

/// The data begins as a gzip stream does.
pub open spec fn begins_gzip(d: Seq<u8>) -> bool {
    d.len() >= 2 && d[0] == 0x1F && d[1] == 0x8B
}

/// The data begins as a bzip2 stream does.
pub open spec fn begins_bzip2(d: Seq<u8>) -> bool {
    d.len() >= 3 && d[0] == 0x42 && d[1] == 0x5A && d[2] == 0x68
}

/// The data begins as no container does.
pub open spec fn no_container(d: Seq<u8>) -> bool {
    !begins_7z(d) && !begins_zip(d) && !begins_tar(d)
}

/// The data begins as nothing packed does.
pub open spec fn no_magic(d: Seq<u8>) -> bool {
    no_container(d) && !begins_gzip(d) && !begins_bzip2(d)
}

/// The name is that of a tar in a gzip stream.
pub open spec fn called_tgz(name: Option<Seq<char>>) -> bool {
    called(name, ".tgz"@) || called(name, ".tar.gz"@)
}

/// The name is that of a tar in a bzip2 stream.
pub open spec fn called_tbz(name: Option<Seq<char>>) -> bool {
    called(name, ".tbz2"@) || called(name, ".tar.bz2"@) || called(name, ".tbz"@) || called(
        name,
        ".tb2"@,
    )
}

// ---------------------------------------------------------------------------
// Names

proof fn folding(c: char, l: char)
    ensures
        folds_to(c, l) <==> lower_char(c) == l,
{
}

/// A name has a suffix where its last characters, letter by letter and in any case,
/// are the suffix's.
pub proof fn suffixes_ignore_case(name: Option<Seq<char>>, suffix: Seq<char>)
    ensures
        name_ends_in(name, suffix) <==> called(name, suffix),
{
    if let Some(s) = name {
        let n = s.len() - suffix.len();
        if n >= 0 {
            let tail = lower(s).subrange(n, s.len() as int);
            assert forall|i: int| 0 <= i < suffix.len() implies (folds_to(
                s[n + i],
                #[trigger] suffix[i],
            ) <==> tail[i] == suffix[i]) by {
                folding(s[n + i], suffix[i]);
                assert(tail[i] == lower(s)[n + i]);
            }
            if called(name, suffix) {
                assert(suffix =~= tail);
            }
        }
    }
}

// ---------------------------------------------------------------------------
// Formats

proof fn magics(d: Seq<u8>)
    ensures
        crate::detect::holds_at(d, 0, crate::detect::seven_zip_magic()) <==> begins_7z(d),
        crate::detect::holds_at(d, 0, crate::detect::zip_magic()) <==> begins_zip(d),
        crate::detect::holds_at(d, 257, crate::detect::tar_magic()) <==> begins_tar(d),
        crate::detect::holds_at(d, 0, crate::detect::gzip_magic()) <==> begins_gzip(d),
        crate::detect::holds_at(d, 0, crate::detect::bzip2_magic()) <==> begins_bzip2(d),
{
    if begins_7z(d) {
        assert(d.subrange(0, 6) =~= crate::detect::seven_zip_magic());
    } else if d.len() >= 6 && d.subrange(0, 6) == crate::detect::seven_zip_magic() {
        let m = d.subrange(0, 6);
        assert(m[0] == d[0] && m[1] == d[1] && m[2] == d[2] && m[3] == d[3] && m[4] == d[4] && m[5]
            == d[5]);
    }
    if begins_zip(d) {
        assert(d.subrange(0, 4) =~= crate::detect::zip_magic());
    } else if d.len() >= 4 && d.subrange(0, 4) == crate::detect::zip_magic() {
        let m = d.subrange(0, 4);
        assert(m[0] == d[0] && m[1] == d[1] && m[2] == d[2] && m[3] == d[3]);
    }
    if begins_tar(d) {
        assert(d.subrange(257, 262) =~= crate::detect::tar_magic());
    } else if d.len() >= 262 && d.subrange(257, 262) == crate::detect::tar_magic() {
        let m = d.subrange(257, 262);
        assert(m[0] == d[257] && m[1] == d[258] && m[2] == d[259] && m[3] == d[260] && m[4]
            == d[261]);
    }
    if begins_gzip(d) {
        assert(d.subrange(0, 2) =~= crate::detect::gzip_magic());
    } else if d.len() >= 2 && d.subrange(0, 2) == crate::detect::gzip_magic() {
        let m = d.subrange(0, 2);
        assert(m[0] == d[0] && m[1] == d[1]);
    }
    if begins_bzip2(d) {
        assert(d.subrange(0, 3) =~= crate::detect::bzip2_magic());
    } else if d.len() >= 3 && d.subrange(0, 3) == crate::detect::bzip2_magic() {
        let m = d.subrange(0, 3);
        assert(m[0] == d[0] && m[1] == d[1] && m[2] == d[2]);
    }
}

/// A container is known by its first bytes alone, a 7z before a ZIP before a tar, and
/// so is a codec: of a name it only matters whether it is that of a tar in the codec's
/// stream.
pub proof fn content_names_the_format(name: Option<Seq<char>>, head: Seq<u8>)
    ensures
        begins_7z(head) ==> format_of(name, head) is SevenZip,
        begins_zip(head) ==> format_of(name, head) is Zip,
        begins_tar(head) && !begins_7z(head) && !begins_zip(head) ==> format_of(name, head) is Tar,
        no_container(head) && begins_gzip(head) && called_tgz(name) ==> format_of(
            name,
            head,
        ) is TarGz,
        no_container(head) && begins_gzip(head) && !called_tgz(name) ==> format_of(
            name,
            head,
        ) is Gzip,
        no_container(head) && begins_bzip2(head) && called_tbz(name) ==> format_of(
            name,
            head,
        ) is TarBz2,
        no_container(head) && begins_bzip2(head) && !called_tbz(name) ==> format_of(
            name,
            head,
        ) is Bzip2,
{
    magics(head);
    suffixes_ignore_case(name, ".tgz"@);
    suffixes_ignore_case(name, ".tar.gz"@);
    suffixes_ignore_case(name, ".tbz2"@);
    suffixes_ignore_case(name, ".tar.bz2"@);
    suffixes_ignore_case(name, ".tbz"@);
    suffixes_ignore_case(name, ".tb2"@);
}

/// Content that begins as nothing packed does goes by its name, and is no packing
/// layer under any name but these.
pub proof fn names_speak_where_content_is_silent(name: Option<Seq<char>>, head: Seq<u8>)
    requires
        no_magic(head),
    ensures
        format_of(name, head) is SevenZip <==> called(name, ".7z"@),
        format_of(name, head) is Zip <==> called(name, ".zip"@) || called(name, ".clbx"@),
        format_of(name, head) is TarGz <==> called_tgz(name),
        format_of(name, head) is TarBz2 <==> called_tbz(name),
        format_of(name, head) is Tar <==> called(name, ".tar"@),
        format_of(name, head) is Gzip <==> called(name, ".gz"@) && !called(name, ".tar.gz"@),
        format_of(name, head) is Bzip2 <==> called(name, ".bz2"@) && !called(name, ".tar.bz2"@),
{
    magics(head);
    suffixes_ignore_case(name, ".7z"@);
    suffixes_ignore_case(name, ".zip"@);
    suffixes_ignore_case(name, ".clbx"@);
    suffixes_ignore_case(name, ".tgz"@);
    suffixes_ignore_case(name, ".tar.gz"@);
    suffixes_ignore_case(name, ".tbz2"@);
    suffixes_ignore_case(name, ".tar.bz2"@);
    suffixes_ignore_case(name, ".tbz"@);
    suffixes_ignore_case(name, ".tb2"@);
    suffixes_ignore_case(name, ".tar"@);
    suffixes_ignore_case(name, ".gz"@);
    suffixes_ignore_case(name, ".bz2"@);
    last_letters(name);
}

/// What the last characters of a name are under each suffix.
proof fn last_letters(name: Option<Seq<char>>)
    ensures
        called(name, ".7z"@) ==> ends(name, 'z', '7'),
        called(name, ".zip"@) ==> ends(name, 'p', 'i'),
        called(name, ".clbx"@) ==> ends(name, 'x', 'b'),
        called(name, ".tgz"@) ==> ends(name, 'z', 'g') && third(name, 't'),
        called(name, ".tar.gz"@) ==> ends(name, 'z', 'g') && third(name, '.'),
        called(name, ".tbz2"@) ==> ends(name, '2', 'z') && third(name, 'b') && fourth(name, 't'),
        called(name, ".tar.bz2"@) ==> ends(name, '2', 'z') && third(name, 'b') && fourth(name, '.'),
        called(name, ".tbz"@) ==> ends(name, 'z', 'b'),
        called(name, ".tb2"@) ==> ends(name, '2', 'b'),
        called(name, ".tar"@) ==> ends(name, 'r', 'a'),
        called(name, ".gz"@) ==> ends(name, 'z', 'g') && third(name, '.'),
        called(name, ".bz2"@) ==> ends(name, '2', 'z') && third(name, 'b') && fourth(name, '.'),
{
    reveal_strlit(".7z");
    reveal_strlit(".zip");
    reveal_strlit(".clbx");
    reveal_strlit(".tgz");
    reveal_strlit(".tar.gz");
    reveal_strlit(".tbz2");
    reveal_strlit(".tar.bz2");
    reveal_strlit(".tbz");
    reveal_strlit(".tb2");
    reveal_strlit(".tar");
    reveal_strlit(".gz");
    reveal_strlit(".bz2");
    assert(".7z"@[2] == 'z' && ".7z"@[1] == '7');
    assert(".zip"@[3] == 'p' && ".zip"@[2] == 'i');
    assert(".clbx"@[4] == 'x' && ".clbx"@[3] == 'b');
    assert(".tgz"@[3] == 'z' && ".tgz"@[2] == 'g' && ".tgz"@[1] == 't');
    assert(".tar.gz"@[6] == 'z' && ".tar.gz"@[5] == 'g' && ".tar.gz"@[4] == '.');
    assert(".tbz2"@[4] == '2' && ".tbz2"@[3] == 'z' && ".tbz2"@[2] == 'b' && ".tbz2"@[1] == 't');
    assert(".tar.bz2"@[7] == '2' && ".tar.bz2"@[6] == 'z' && ".tar.bz2"@[5] == 'b' && ".tar.bz2"@[4]
        == '.');
    assert(".tbz"@[3] == 'z' && ".tbz"@[2] == 'b');
    assert(".tb2"@[3] == '2' && ".tb2"@[2] == 'b');
    assert(".tar"@[3] == 'r' && ".tar"@[2] == 'a');
    assert(".gz"@[2] == 'z' && ".gz"@[1] == 'g' && ".gz"@[0] == '.');
    assert(".bz2"@[3] == '2' && ".bz2"@[2] == 'z' && ".bz2"@[1] == 'b' && ".bz2"@[0] == '.');
}

/// The last character of the name is `last` and the one before it `other`.
spec fn ends(name: Option<Seq<char>>, last: char, other: char) -> bool {
    name matches Some(s) && s.len() >= 2 && folds_to(s[s.len() - 1], last) && folds_to(
        s[s.len() - 2],
        other,
    )
}

/// The third character from the end.
spec fn third(name: Option<Seq<char>>, c: char) -> bool {
    name matches Some(s) && s.len() >= 3 && folds_to(s[s.len() - 3], c)
}

/// The fourth character from the end.
spec fn fourth(name: Option<Seq<char>>, c: char) -> bool {
    name matches Some(s) && s.len() >= 4 && folds_to(s[s.len() - 4], c)
}

/// The wrappers are gzip and bzip2, the archives are tar, its two compressed forms,
/// ZIP and 7z.
pub proof fn wrappers_and_archives(f: Format)
    ensures
        f.wraps_one() <==> f is Gzip || f is Bzip2,
        f.holds_members() <==> f is Tar || f is TarGz || f is TarBz2 || f is Zip || f is SevenZip,
{
}

// ---------------------------------------------------------------------------
// Peeling

/// A content under a cap: the whole of it, or the failure that names the cap.
pub open spec fn whole_or_too_large(content: Seq<u8>, cap: u64) -> Result<Seq<u8>, ErrorModel> {
    if content.len() <= cap {
        Ok(content)
    } else {
        Err(ErrorModel::TooLarge { cap })
    }
}

/// A stream decodes under a cap to all that it holds or to the failure that names the
/// cap, and a stream that fails does so with its decoder's text.
pub proof fn streams_decode_whole(data: Seq<u8>, inner: Seq<u8>, detail: Seq<char>, cap: u64)
    ensures
        gzip_holds(data, inner) && (cap < u64::MAX || inner.len() <= cap) ==> wrapped_content(
            Format::Gzip,
            data,
            cap,
        ) == Some(
            whole_or_too_large(inner, cap),
        ),
        bzip2_holds(data, inner) && (cap < u64::MAX || inner.len() <= cap) ==> wrapped_content(
            Format::Bzip2,
            data,
            cap,
        ) == Some(
            whole_or_too_large(inner, cap),
        ),
        cap < u64::MAX && gzip_prefix(data, (cap + 1) as u64) == Ok::<Seq<u8>, Seq<char>>(inner)
            ==> wrapped_content(
            Format::Gzip,
            data,
            cap,
        ) == Some(whole_or_too_large(inner, cap)),
        cap < u64::MAX && bzip2_prefix(data, (cap + 1) as u64) == Ok::<Seq<u8>, Seq<char>>(inner)
            ==> wrapped_content(
            Format::Bzip2,
            data,
            cap,
        ) == Some(whole_or_too_large(inner, cap)),
        cap < u64::MAX && gzip_prefix(data, (cap + 1) as u64) == Err::<Seq<u8>, Seq<char>>(detail)
            ==> wrapped_content(Format::Gzip, data, cap) == Some(
            Err::<Seq<u8>, ErrorModel>(ErrorModel::Decode { format: "gzip"@, detail }),
        ),
        cap < u64::MAX && bzip2_prefix(data, (cap + 1) as u64) == Err::<Seq<u8>, Seq<char>>(detail)
            ==> wrapped_content(Format::Bzip2, data, cap) == Some(
            Err::<Seq<u8>, ErrorModel>(ErrorModel::Decode { format: "bzip2"@, detail }),
        ),
{
    let past = if cap < u64::MAX {
        (cap + 1) as u64
    } else {
        cap
    };
    if gzip_holds(data, inner) {
        assert(gzip_prefix(data, past) == Ok::<Seq<u8>, Seq<char>>(first_bytes(inner, past)));
    }
    if bzip2_holds(data, inner) {
        assert(bzip2_prefix(data, past) == Ok::<Seq<u8>, Seq<char>>(first_bytes(inner, past)));
    }
}

/// What is peeled, for a content under the cap of four gigabytes.
pub open spec fn peeled(format: Format, inner: Seq<u8>) -> Result<PeelModel, ErrorModel> {
    if inner.len() <= 0x1_0000_0000 {
        Ok(PeelModel::Peeled { format, inner })
    } else {
        Err(ErrorModel::TooLarge { cap: 0x1_0000_0000 })
    }
}

/// A bare wrapper peels to the whole of its stream, or fails loud past four
/// gigabytes; nothing else is peeled.
pub proof fn wrappers_peel_whole(data: Seq<u8>, name: Option<Seq<char>>, inner: Seq<u8>)
    ensures
        format_of(name, data) is Gzip && gzip_holds(data, inner) ==> peel_of(data, name) == peeled(
            Format::Gzip,
            inner,
        ),
        format_of(name, data) is Bzip2 && bzip2_holds(data, inner) ==> peel_of(data, name)
            == peeled(Format::Bzip2, inner),
        !(format_of(name, data) is Gzip) && !(format_of(name, data) is Bzip2) ==> peel_of(
            data,
            name,
        ) == Ok::<PeelModel, ErrorModel>(PeelModel::NotPacked),
{
    streams_decode_whole(data, inner, Seq::empty(), 0x1_0000_0000);
}

/// A bare wrapper whose stream fails is not passed over: its decoder's text comes
/// back.
pub proof fn broken_wrappers_fail(data: Seq<u8>, name: Option<Seq<char>>, detail: Seq<char>)
    ensures
        format_of(name, data) is Gzip && gzip_prefix(data, 0x1_0000_0001) == Err::<
            Seq<u8>,
            Seq<char>,
        >(detail) ==> peel_of(data, name) == Err::<PeelModel, ErrorModel>(
            ErrorModel::Decode { format: "gzip"@, detail },
        ),
        format_of(name, data) is Bzip2 && bzip2_prefix(data, 0x1_0000_0001) == Err::<
            Seq<u8>,
            Seq<char>,
        >(detail) ==> peel_of(data, name) == Err::<PeelModel, ErrorModel>(
            ErrorModel::Decode { format: "bzip2"@, detail },
        ),
{
    streams_decode_whole(data, Seq::empty(), detail, 0x1_0000_0000);
}

// ---------------------------------------------------------------------------
// Listing

/// A failure to open an archive.
pub open spec fn cannot_open(format: Seq<char>, detail: Seq<char>) -> Result<
    Option<Seq<EntryModel>>,
    ErrorModel,
> {
    Err(ErrorModel::Open { format, detail })
}

proof fn zip_rows(data: Seq<u8>, n: nat)
    requires
        n <= usize::MAX,
    ensures
        crate::archive::zip_table(data, n) matches Ok(rows) ==> rows.len() == n && forall|i: int|
            0 <= i < n ==> {
                &&& zip_record(data, i as usize) matches Ok(record)
                &&& (#[trigger] rows[i]).name == record.name
                &&& rows[i].size == record.size
                &&& rows[i].is_dir == record.is_dir
            },
        crate::archive::zip_table(data, n) is Ok <==> forall|i: int|
            0 <= i < n ==> #[trigger] zip_record(data, i as usize) is Ok,
        crate::archive::zip_table(data, n) matches Err(d) ==> exists|i: int|
            0 <= i < n && #[trigger] zip_record(data, i as usize) == Err::<
                crate::backend::zipfile::RecordModel,
                Seq<char>,
            >(d) && forall|j: int| 0 <= j < i ==> #[trigger] zip_record(data, j as usize) is Ok,
    decreases n,
{
    if n > 0 {
        zip_rows(data, (n - 1) as nat);
        assert(zip_record(data, (n - 1) as usize) is Ok || zip_record(data, (n - 1) as usize)
            is Err);
    }
}

/// A listed ZIP archive has one entry for each member of its directory, in order:
/// each with the name, the uncompressed size and the directory flag of the member's
/// record.
pub proof fn zip_entries_are_the_records(data: Seq<u8>, table: Seq<EntryModel>)
    requires
        listing(Format::Zip, data) == Ok::<Option<Seq<EntryModel>>, ErrorModel>(Some(table)),
    ensures
        table.len() == zip_count(data),
        forall|i: int|
            0 <= i < table.len() ==> {
                &&& zip_record(data, i as usize) matches Ok(record)
                &&& (#[trigger] table[i]).name == record.name
                &&& table[i].size == record.size
                &&& table[i].is_dir == record.is_dir
            },
{
    zip_rows(data, zip_count(data) as nat);
}

/// A ZIP archive that fits its reader lists exactly where its directory parses and
/// every record can be looked up, and otherwise says what the reader says.
pub proof fn zip_archives_list(data: Seq<u8>, detail: Seq<char>)
    requires
        zip_fits(data),
    ensures
        (listing(Format::Zip, data) matches Ok(Some(_))) <==> zip_directory(data) is Ok && forall|
            i: int,
        |
            0 <= i < zip_count(data) ==> #[trigger] zip_record(data, i as usize) is Ok,
        zip_directory(data) == Err::<(), Seq<char>>(detail) ==> listing(Format::Zip, data)
            == cannot_open("zip"@, detail),
        zip_directory(data) is Ok && listing(Format::Zip, data) is Err ==> exists|i: int|
            0 <= i < zip_count(data) && #[trigger] zip_record(data, i as usize) is Err && listing(
                Format::Zip,
                data,
            ) == cannot_open("zip"@, zip_record(data, i as usize)->Err_0) && forall|j: int|
                0 <= j < i ==> #[trigger] zip_record(data, j as usize) is Ok,
{
    zip_rows(data, zip_count(data) as nat);
}

/// A tar lists as its reader lists it, and a 7z archive likewise.
pub proof fn tars_and_7z_list(
    format: Format,
    data: Seq<u8>,
    rows: Seq<EntryModel>,
    detail: Seq<char>,
)
    ensures
        (format is Tar || format is TarGz || format is TarBz2) ==> {
            &&& (tar_source(format, data) matches Ok(tar) && tar_entries(tar) == Ok::<
                Seq<EntryModel>,
                Seq<char>,
            >(rows)) ==> listing(format, data) == Ok::<Option<Seq<EntryModel>>, ErrorModel>(
                Some(rows),
            )
            &&& (tar_source(format, data) matches Ok(tar) && tar_entries(tar) == Err::<
                Seq<EntryModel>,
                Seq<char>,
            >(detail)) ==> listing(format, data) == cannot_open("tar"@, detail)
            &&& tar_source(format, data) == Err::<Seq<u8>, Seq<char>>(detail) ==> listing(
                format,
                data,
            ) == cannot_open("tar"@, detail)
        },
        sevenz_entries(data) == Ok::<Seq<EntryModel>, Seq<char>>(rows) ==> listing(
            Format::SevenZip,
            data,
        ) == Ok::<Option<Seq<EntryModel>>, ErrorModel>(Some(rows)),
        sevenz_entries(data) == Err::<Seq<EntryModel>, Seq<char>>(detail) ==> listing(
            Format::SevenZip,
            data,
        ) == cannot_open("7z"@, detail),
        format is Gzip || format is Bzip2 || format is Unknown ==> listing(format, data) == Ok::<
            Option<Seq<EntryModel>>,
            ErrorModel,
        >(None),
{
}

// ---------------------------------------------------------------------------
// Reading members

/// A member reads under a cap as all that it holds or as the failure that names the
/// cap; a reader's failure comes back with its text.
pub proof fn members_read_whole(
    format: Format,
    data: Seq<u8>,
    table: Seq<EntryModel>,
    index: usize,
    content: Seq<u8>,
    detail: Seq<char>,
    cap: u64,
)
    requires
        index < table.len(),
    ensures
        zip_decodes(data, index) && zip_holds(data, index, content) && (cap < u64::MAX
            || content.len() <= cap) ==> member_content(
            Format::Zip,
            data,
            table,
            index,
            cap,
        ) == whole_or_too_large(content, cap),
        cap < u64::MAX && zip_decodes(data, index) && zip_member(
            data,
            index,
            (cap + 1) as u64,
        ) == Err::<
            Seq<u8>,
            Seq<char>,
        >(detail) ==> member_content(Format::Zip, data, table, index, cap) == Err::<
            Seq<u8>,
            ErrorModel,
        >(ErrorModel::Read { format: "zip"@, detail }),
        (format is Tar || format is TarGz || format is TarBz2) ==> {
            &&& (tar_source(format, data) matches Ok(tar) && tar_holds(tar, index, content)) && (cap
                < u64::MAX || content.len() <= cap)
                ==> member_content(format, data, table, index, cap) == whole_or_too_large(
                content,
                cap,
            )
            &&& cap < u64::MAX && (tar_source(format, data) matches Ok(tar) && tar_member(
                tar,
                index,
                (cap + 1) as u64,
            ) == Err::<Option<Seq<u8>>, Seq<char>>(detail)) ==> member_content(
                format,
                data,
                table,
                index,
                cap,
            ) == Err::<Seq<u8>, ErrorModel>(ErrorModel::Read { format: "tar"@, detail })
            &&& cap < u64::MAX && (tar_source(format, data) matches Ok(tar) && tar_member(
                tar,
                index,
                (cap + 1) as u64,
            ) == Ok::<Option<Seq<u8>>, Seq<char>>(None)) ==> member_content(
                format,
                data,
                table,
                index,
                cap,
            ) == Err::<Seq<u8>, ErrorModel>(ErrorModel::IndexOutOfRange { index, count: index })
            &&& tar_source(format, data) == Err::<Seq<u8>, Seq<char>>(detail) ==> member_content(
                format,
                data,
                table,
                index,
                cap,
            ) == Err::<Seq<u8>, ErrorModel>(ErrorModel::Read { format: "tar"@, detail })
        },
        !zip_decodes(data, index) ==> member_content(Format::Zip, data, table, index, cap)
            == Err::<Seq<u8>, ErrorModel>(
            ErrorModel::Read { format: "zip"@, detail: "zip member runs past its reader"@ },
        ),
        table[index as int].size <= 0x1_0000_0000 && sevenz_member(
            data,
            table[index as int].name,
        ) == Ok::<Seq<u8>, Seq<char>>(content) && content.len() > 0x1_0000_0000 ==> member_content(
            Format::SevenZip,
            data,
            table,
            index,
            cap,
        ) == Err::<Seq<u8>, ErrorModel>(ErrorModel::TooLarge { cap: 0x1_0000_0000 }),
        table[index as int].size <= 0x1_0000_0000 && sevenz_member(
            data,
            table[index as int].name,
        ) == Ok::<Seq<u8>, Seq<char>>(content) && content.len() <= 0x1_0000_0000
            ==> member_content(Format::SevenZip, data, table, index, cap) == whole_or_too_large(
            content,
            cap,
        ),
        table[index as int].size <= 0x1_0000_0000 && sevenz_member(
            data,
            table[index as int].name,
        ) == Err::<Seq<u8>, Seq<char>>(detail) ==> member_content(
            Format::SevenZip,
            data,
            table,
            index,
            cap,
        ) == Err::<Seq<u8>, ErrorModel>(ErrorModel::Read { format: "7z"@, detail }),
        table[index as int].size > 0x1_0000_0000 ==> member_content(
            Format::SevenZip,
            data,
            table,
            index,
            cap,
        ) == Err::<Seq<u8>, ErrorModel>(ErrorModel::TooLarge { cap: 0x1_0000_0000 }),
{
    let past = if cap < u64::MAX {
        (cap + 1) as u64
    } else {
        cap
    };
    if zip_holds(data, index, content) {
        assert(zip_member(data, index, past) == Ok::<Seq<u8>, Seq<char>>(
            first_bytes(content, past),
        ));
    }
    if let Ok(tar) = tar_source(format, data) {
        if tar_holds(tar, index, content) {
            assert(tar_member(tar, index, past) == Ok::<Option<Seq<u8>>, Seq<char>>(
                Some(first_bytes(content, past)),
            ));
        }
    }
}

/// There is no member past the end of the table.
pub proof fn no_member_past_the_table(
    format: Format,
    data: Seq<u8>,
    table: Seq<EntryModel>,
    index: usize,
    cap: u64,
)
    requires
        index >= table.len(),
    ensures
        member_content(format, data, table, index, cap) == Err::<Seq<u8>, ErrorModel>(
            ErrorModel::IndexOutOfRange { index, count: table.len() as usize },
        ),
        access_of(format, data, table.len(), index) == Err::<Access, ErrorModel>(
            ErrorModel::IndexOutOfRange { index, count: table.len() as usize },
        ),
{
}

/// Only a Deflate64 member can be one that its decoder is not handed: one in whose
/// data, as far as the archive holds it, a load would run short.
pub proof fn members_that_decode(data: Seq<u8>, index: usize)
    ensures
        zip_record(data, index) is Err ==> zip_decodes(data, index),
        zip_record(data, index) matches Ok(record) ==> {
            &&& record.method != ZipMethod::Deflate64 ==> zip_decodes(data, index)
            &&& record.method == ZipMethod::Deflate64 && record.data_start + record.compressed_size
                <= data.len() ==> (zip_decodes(data, index) <==> deflate64_fits(
                data,
                record.data_start as int,
                record.data_start + record.compressed_size,
            ))
        },
{
}

/// A stored ZIP member is a window of the archive, a deflated one can be seek-indexed,
/// and every other member of every archive is decoded once.
pub proof fn accesses(format: Format, data: Seq<u8>, count: nat, index: usize)
    requires
        index < count,
    ensures
        !(format is Zip) ==> access_of(format, data, count, index) == Ok::<Access, ErrorModel>(
            Access::SpillToTemp,
        ),
        format is Zip ==> match zip_record(data, index) {
            Err(detail) => access_of(format, data, count, index) == Err::<Access, ErrorModel>(
                ErrorModel::Read { format: "zip"@, detail },
            ),
            Ok(record) => access_of(format, data, count, index) == Ok::<Access, ErrorModel>(
                match record.method {
                    ZipMethod::Stored => Access::InPlace {
                        offset: record.data_start,
                        len: record.compressed_size,
                    },
                    ZipMethod::Deflated => Access::Zran,
                    ZipMethod::Deflate64 => Access::Zran,
                    ZipMethod::Bzip2 => Access::SpillToTemp,
                    ZipMethod::Lzma => Access::SpillToTemp,
                    ZipMethod::Zstd => Access::SpillToTemp,
                    ZipMethod::Xz => Access::SpillToTemp,
                    ZipMethod::Other => Access::SpillToTemp,
                },
            ),
        },
{
}

// ---------------------------------------------------------------------------
// Resolving

/// The name, or what stands in for it.
pub open spec fn or_else(name: Option<Seq<char>>, other: Seq<char>) -> Seq<char> {
    match name {
        Some(s) => s,
        None => other,
    }
}

/// The name of what a wrapper of this name holds: without its compression extension.
pub open spec fn stripped(name: Option<Seq<char>>) -> Option<Seq<char>> {
    match name {
        None => None,
        Some(s) => if called(name, ".gz"@) {
            Some(s.subrange(0, s.len() - 3))
        } else if called(name, ".bz2"@) {
            Some(s.subrange(0, s.len() - 4))
        } else if called(name, ".z"@) {
            Some(s.subrange(0, s.len() - 2))
        } else {
            Some(s)
        },
    }
}

/// Peeling takes one compression extension off a name, in any case, and leaves any
/// other name as it is.
pub proof fn names_are_stripped(name: Option<Seq<char>>)
    ensures
        inner_name(name) == stripped(name),
{
    suffixes_ignore_case(name, ".gz"@);
    suffixes_ignore_case(name, ".bz2"@);
    suffixes_ignore_case(name, ".z"@);
    reveal_strlit(".gz");
    reveal_strlit(".bz2");
    reveal_strlit(".z");
    if let Some(s) = name {
        if s.len() >= 4 {
            assert(s.take(s.len() - 4) =~= s.subrange(0, s.len() - 4));
        }
        if s.len() >= 3 {
            assert(s.take(s.len() - 3) =~= s.subrange(0, s.len() - 3));
        }
        if s.len() >= 2 {
            assert(s.take(s.len() - 2) =~= s.subrange(0, s.len() - 2));
        }
    }
}

/// Input that is no packing layer resolves, under any limits, to one file: all of the
/// input, under its own name.
pub proof fn unpacked_input_is_one_whole_file(
    data: Seq<u8>,
    name: Option<Seq<char>>,
    limits: Limits,
)
    requires
        format_of(name, data) is Unknown,
    ensures
        resolve_of(data, name, limits) matches Ok(nodes) && {
            &&& nodes.len() == 1
            &&& nodes[0] matches NodeModel::File { name: called, bytes }
            &&& called == or_else(name, ""@)
            &&& bytes == data
        },
{
}

/// The node is what one comes to by going into `data`: from a wrapper to its content,
/// from an archive to one of its rows, and at the end to the whole of what is no
/// packing layer, or to a directory.
pub open spec fn leads_to(
    data: Seq<u8>,
    name: Option<Seq<char>>,
    node: NodeModel,
    depth: nat,
) -> bool
    decreases depth,
{
    depth > 0 && {
        ||| format_of(name, data) is Unknown && node == (NodeModel::File {
            name: or_else(name, ""@),
            bytes: data,
        })
        ||| peel_of(data, name) matches Ok(PeelModel::Peeled { inner, .. }) && leads_to(
            inner,
            stripped(name),
            node,
            (depth - 1) as nat,
        )
        ||| listing(format_of(name, data), data) matches Ok(Some(table)) && exists|i: int|
            0 <= i < table.len() && if (#[trigger] table[i]).is_dir {
                node == (NodeModel::Dir { name: table[i].name })
            } else {
                member_content(
                    format_of(name, data),
                    data,
                    table,
                    i as usize,
                    0x1_0000_0000,
                ) matches Ok(content) && leads_to(
                    content,
                    Some(table[i].name),
                    node,
                    (depth - 1) as nat,
                )
            }
    }
}

/// Every node is led to from `data`, but for those at the front.
spec fn all_led(
    data: Seq<u8>,
    name: Option<Seq<char>>,
    nodes: Seq<NodeModel>,
    front: nat,
    depth: nat,
) -> bool {
    forall|k: int| front <= k < nodes.len() ==> leads_to(data, name, #[trigger] nodes[k], depth)
}

/// A row of an archive leads to the node.
spec fn row_leads(
    format: Format,
    data: Seq<u8>,
    table: Seq<EntryModel>,
    i: int,
    node: NodeModel,
    depth: nat,
) -> bool {
    if table[i].is_dir {
        node == (NodeModel::Dir { name: table[i].name })
    } else {
        member_content(format, data, table, i as usize, 0x1_0000_0000) matches Ok(content)
            && leads_to(content, Some(table[i].name), node, depth)
    }
}

/// One of the first `n` rows of an archive leads to the node.
spec fn row_of_some(
    format: Format,
    data: Seq<u8>,
    table: Seq<EntryModel>,
    n: nat,
    node: NodeModel,
    depth: nat,
) -> bool {
    exists|i: int| 0 <= i < n && #[trigger] row_leads(format, data, table, i, node, depth)
}

proof fn layer_leads(
    data: Seq<u8>,
    name: Option<Seq<char>>,
    limits: Limits,
    left: nat,
    chain: Seq<char>,
    at: Progress,
)
    requires
        resolve_layer(data, name, limits, left, chain, at) is Ok,
    ensures
        ({
            let nodes = resolve_layer(data, name, limits, left, chain, at)->Ok_0.nodes;
            &&& nodes.len() >= at.nodes.len()
            &&& nodes.take(at.nodes.len() as int) == at.nodes
            &&& all_led(data, name, nodes, at.nodes.len(), left)
        }),
    decreases left, 1nat, 0nat,
{
    let format = format_of(name, data);
    let nodes = resolve_layer(data, name, limits, left, chain, at)->Ok_0.nodes;
    let front = at.nodes.len();
    if format.wraps_one() {
        let inner = wrapped_content(format, data, 0x1_0000_0000)->Some_0->Ok_0;
        names_are_stripped(name);
        let spent = crate::resolve::spend_inflated(at, inner.len(), limits)->Ok_0;
        layer_leads(
            inner,
            inner_name(name),
            limits,
            (left - 1) as nat,
            crate::resolve::longer_chain(
                chain,
                crate::resolve::name_or(inner_name(name), "<peeled>"@),
            ),
            spent,
        );
        assert forall|k: int| front <= k < nodes.len() implies leads_to(
            data,
            name,
            #[trigger] nodes[k],
            left,
        ) by {
            assert(leads_to(inner, stripped(name), nodes[k], (left - 1) as nat));
            assert(peel_of(data, name) matches Ok(PeelModel::Peeled { inner: x, .. }) && x
                == inner);
        }
    } else if format.holds_members() {
        let table = listing(format, data)->Ok_0->Some_0;
        rows_lead(data, format, table, table.len(), limits, (left - 1) as nat, chain, at);
        assert forall|k: int| front <= k < nodes.len() implies leads_to(
            data,
            name,
            #[trigger] nodes[k],
            left,
        ) by {
            let node = nodes[k];
            let below = (left - 1) as nat;
            assert(row_of_some(format, data, table, table.len(), node, below));
            let i = choose|i: int|
                0 <= i < table.len() && #[trigger] row_leads(format, data, table, i, node, below);
            assert(row_leads(format, data, table, i, node, below));
            assert(table[i].is_dir || !table[i].is_dir);
        }
    } else {
        assert(nodes.take(front as int) =~= at.nodes);
    }
}

proof fn rows_lead(
    data: Seq<u8>,
    format: Format,
    table: Seq<EntryModel>,
    n: nat,
    limits: Limits,
    below: nat,
    chain: Seq<char>,
    at: Progress,
)
    requires
        n <= table.len(),
        resolve_members(data, format, table, n, limits, below, chain, at) is Ok,
    ensures
        ({
            let nodes = resolve_members(
                data,
                format,
                table,
                n,
                limits,
                below,
                chain,
                at,
            )->Ok_0.nodes;
            &&& nodes.len() >= at.nodes.len()
            &&& nodes.take(at.nodes.len() as int) == at.nodes
            &&& forall|k: int|
                at.nodes.len() <= k < nodes.len() ==> row_of_some(
                    format,
                    data,
                    table,
                    n,
                    #[trigger] nodes[k],
                    below,
                )
        }),
    decreases below + 1, 0nat, n,
{
    let front = at.nodes.len();
    let nodes = resolve_members(data, format, table, n, limits, below, chain, at)->Ok_0.nodes;
    if n == 0 {
        assert(nodes.take(front as int) =~= at.nodes);
    } else {
        let index = (n - 1) as nat;
        rows_lead(data, format, table, index, limits, below, chain, at);
        let before = resolve_members(data, format, table, index, limits, below, chain, at)->Ok_0;
        let counted = crate::resolve::spend_entry(before, limits)->Ok_0;
        let entry = table[index as int];
        let was = before.nodes;
        if entry.is_dir {
            assert(nodes.take(was.len() as int) =~= was);
            assert forall|k: int| was.len() <= k < nodes.len() implies row_leads(
                format,
                data,
                table,
                n - 1,
                #[trigger] nodes[k],
                below,
            ) by {}
        } else {
            let bytes = member_content(format, data, table, index as usize, 0x1_0000_0000)->Ok_0;
            let spent = crate::resolve::spend_inflated(counted, bytes.len(), limits)->Ok_0;
            layer_leads(
                bytes,
                Some(entry.name),
                limits,
                below,
                crate::resolve::longer_chain(chain, entry.name),
                spent,
            );
            assert forall|k: int| was.len() <= k < nodes.len() implies row_leads(
                format,
                data,
                table,
                n - 1,
                #[trigger] nodes[k],
                below,
            ) by {
                assert(leads_to(bytes, Some(entry.name), nodes[k], below));
            }
        }
        assert(nodes.take(front as int) =~= nodes.take(was.len() as int).take(front as int));
        assert forall|k: int| front <= k < nodes.len() implies row_of_some(
            format,
            data,
            table,
            n,
            #[trigger] nodes[k],
            below,
        ) by {
            if k < was.len() {
                assert(nodes[k] == nodes.take(was.len() as int)[k]);
                assert(was[k] == nodes[k]);
            } else {
                assert(row_leads(format, data, table, n - 1, nodes[k], below));
            }
        }
    }
}

/// Whatever a resolution returns is really there: each node is led to from the input,
/// and each file carries the whole content of the member or stream that it was found
/// in.
pub proof fn resolved_nodes_are_led_to(data: Seq<u8>, name: Option<Seq<char>>, limits: Limits)
    requires
        resolve_of(data, name, limits) is Ok,
    ensures
        forall|k: int|
            0 <= k < resolve_of(data, name, limits)->Ok_0.len() ==> leads_to(
                data,
                name,
                #[trigger] resolve_of(data, name, limits)->Ok_0[k],
                (limits.max_depth + 1) as nat,
            ),
{
    layer_leads(
        data,
        name,
        limits,
        (limits.max_depth + 1) as nat,
        crate::resolve::name_or(name, "<input>"@),
        start(),
    );
}

/// The running totals after more bytes or one more member, as far as their integers
/// reach.
pub proof fn totals_add_up(budget: Budget, n: nat)
    ensures
        budget.with_inflated(n).entries == budget.entries,
        budget.total_inflated + n <= u64::MAX ==> budget.with_inflated(n).total_inflated
            == budget.total_inflated + n,
        budget.total_inflated + n > u64::MAX ==> budget.with_inflated(n).total_inflated
            == u64::MAX,
        budget.with_entry().total_inflated == budget.total_inflated,
        budget.entries < usize::MAX ==> budget.with_entry().entries == budget.entries + 1,
        budget.entries == usize::MAX ==> budget.with_entry().entries == usize::MAX,
{
}

/// A failure to resolve.
pub open spec fn fails(error: ErrorModel) -> Result<Seq<NodeModel>, ErrorModel> {
    Err(error)
}

/// A wrapper over what is no packing layer resolves to one file, all of its content,
/// under the wrapper's name without the compression extension. It fails where the
/// stream fails, where the content is over the inflation cap, and where no layer may be
/// entered: then the failure names the path.
pub proof fn wrapped_files_resolve(
    data: Seq<u8>,
    name: Option<Seq<char>>,
    inner: Seq<u8>,
    error: ErrorModel,
    limits: Limits,
)
    requires
        format_of(name, data) is Gzip || format_of(name, data) is Bzip2,
    ensures
        peel_of(data, name) == Err::<PeelModel, ErrorModel>(error) ==> resolve_of(
            data,
            name,
            limits,
        ) == fails(error),
        (peel_of(data, name) matches Ok(PeelModel::Peeled { inner: content, .. }) && content
            == inner) ==> {
            &&& inner.len() > limits.max_total_inflated ==> resolve_of(data, name, limits)
                == fails(ErrorModel::TotalInflatedExceeded { cap: limits.max_total_inflated })
            &&& inner.len() <= limits.max_total_inflated && limits.max_depth == 0 ==> resolve_of(
                data,
                name,
                limits,
            ) == fails(
                ErrorModel::DepthExceeded {
                    max: 0,
                    chain: or_else(name, "<input>"@) + " -> "@ + or_else(
                        stripped(name),
                        "<peeled>"@,
                    ),
                },
            )
            &&& inner.len() <= limits.max_total_inflated && limits.max_depth > 0 && format_of(
                stripped(name),
                inner,
            ) is Unknown ==> resolve_of(data, name, limits) == Ok::<Seq<NodeModel>, ErrorModel>(
                seq![NodeModel::File { name: or_else(stripped(name), ""@), bytes: inner }],
            )
        },
{
    names_are_stripped(name);
    let node = NodeModel::File { name: or_else(stripped(name), ""@), bytes: inner };
    assert(start().nodes.push(node) =~= seq![node]);
    reveal_with_fuel(resolve_layer, 3);
    if let Ok(PeelModel::Peeled { inner: content, .. }) = peel_of(data, name) {
        assert(content.len() <= 0x1_0000_0000);
        totals_add_up(Budget { total_inflated: 0, entries: 0 }, content.len());
    }
}

/// What `data` holds first: the content of a wrapper, or the file in the first row of an
/// archive, with its name.
pub open spec fn first_inside(data: Seq<u8>, name: Option<Seq<char>>) -> Option<
    (Seq<u8>, Option<Seq<char>>),
> {
    if peel_of(data, name) matches Ok(PeelModel::Peeled { .. }) {
        Some((peel_of(data, name)->Ok_0->inner, stripped(name)))
    } else if listing(format_of(name, data), data) matches Ok(Some(table)) && table.len() > 0
        && !table[0].is_dir && member_content(
        format_of(name, data),
        data,
        table,
        0,
        0x1_0000_0000,
    ) is Ok {
        let table = listing(format_of(name, data), data)->Ok_0->Some_0;
        Some(
            (
                member_content(format_of(name, data), data, table, 0, 0x1_0000_0000)->Ok_0,
                Some(table[0].name),
            ),
        )
    } else {
        None
    }
}

/// `data` is `n` layers deep, going each time into what is held first.
pub open spec fn nested(data: Seq<u8>, name: Option<Seq<char>>, n: nat) -> bool
    decreases n,
{
    n == 0 || (first_inside(data, name) matches Some((inner, inner_name)) && nested(
        inner,
        inner_name,
        (n - 1) as nat,
    ))
}

/// The names of the first `n` contents below `data`, as a path writes them.
pub open spec fn path_below(data: Seq<u8>, name: Option<Seq<char>>, n: nat) -> Seq<char>
    decreases n,
{
    if n == 0 {
        Seq::empty()
    } else {
        let (inner, inner_name) = first_inside(data, name)->Some_0;
        " -> "@ + or_else(inner_name, "<peeled>"@) + path_below(inner, inner_name, (n - 1) as nat)
    }
}

proof fn too_deep(
    data: Seq<u8>,
    name: Option<Seq<char>>,
    limits: Limits,
    left: nat,
    chain: Seq<char>,
    at: Progress,
)
    requires
        nested(data, name, left),
        limits.max_total_inflated == u64::MAX,
        limits.max_entries == usize::MAX,
    ensures
        resolve_layer(data, name, limits, left, chain, at) matches Err(stop) && stop.error == (
        ErrorModel::DepthExceeded {
            max: limits.max_depth,
            chain: chain + path_below(data, name, left),
        }),
    decreases left,
{
    if left == 0 {
        assert(chain + Seq::<char>::empty() =~= chain);
    } else {
        names_are_stripped(name);
        let (inner, inside) = first_inside(data, name)->Some_0;
        let longer = chain + " -> "@ + or_else(inside, "<peeled>"@);
        assert(longer + path_below(inner, inside, (left - 1) as nat) =~= chain + path_below(
            data,
            name,
            left,
        ));
        if peel_of(data, name) matches Ok(PeelModel::Peeled { .. }) {
            let spent = crate::resolve::spend_inflated(at, inner.len(), limits)->Ok_0;
            too_deep(inner, inside, limits, (left - 1) as nat, longer, spent);
        } else {
            let format = format_of(name, data);
            let table = listing(format, data)->Ok_0->Some_0;
            let counted = crate::resolve::spend_entry(at, limits)->Ok_0;
            let spent = crate::resolve::spend_inflated(counted, inner.len(), limits)->Ok_0;
            too_deep(inner, inside, limits, (left - 1) as nat, longer, spent);
            reveal_with_fuel(resolve_members, 2);
            rows_stop(
                data,
                format,
                table,
                1,
                table.len(),
                limits,
                (left - 1) as nat,
                chain,
                at,
            );
        }
    }
}

/// Layers nested past the depth limit fail with the limit and the path of names from the
/// input to the layer that is not entered, where no other guard is in the way.
pub proof fn deep_nesting_names_its_path(
    data: Seq<u8>,
    name: Option<Seq<char>>,
    limits: Limits,
)
    requires
        nested(data, name, (limits.max_depth + 1) as nat),
        limits.max_total_inflated == u64::MAX,
        limits.max_entries == usize::MAX,
    ensures
        resolve_of(data, name, limits) == fails(
            ErrorModel::DepthExceeded {
                max: limits.max_depth,
                chain: or_else(name, "<input>"@) + path_below(
                    data,
                    name,
                    (limits.max_depth + 1) as nat,
                ),
            },
        ),
{
    too_deep(
        data,
        name,
        limits,
        (limits.max_depth + 1) as nat,
        or_else(name, "<input>"@),
        start(),
    );
}

/// Of the archive's first `n` rows, each file reads as its content, which is no packing
/// layer under the row's name.
pub open spec fn flat(
    format: Format,
    data: Seq<u8>,
    table: Seq<EntryModel>,
    contents: Seq<Seq<u8>>,
    n: nat,
) -> bool {
    &&& contents.len() == table.len()
    &&& n <= table.len() <= usize::MAX
    &&& forall|i: int|
        0 <= i < n && !(#[trigger] table[i]).is_dir ==> {
            &&& member_content(format, data, table, i as usize, 0x1_0000_0000) == Ok::<
                Seq<u8>,
                ErrorModel,
            >(contents[i])
            &&& format_of(Some(table[i].name), contents[i]) is Unknown
        }
}

/// The bytes of the files among the first `n` rows.
pub open spec fn file_total(table: Seq<EntryModel>, contents: Seq<Seq<u8>>, n: nat) -> nat
    decreases n,
{
    if n == 0 {
        0
    } else {
        file_total(table, contents, (n - 1) as nat) + if table[n - 1].is_dir {
            0
        } else {
            contents[n - 1].len()
        }
    }
}

/// The nodes of the first `n` rows: a directory, or a file with all of its content.
pub open spec fn flat_nodes(table: Seq<EntryModel>, contents: Seq<Seq<u8>>, n: nat) -> Seq<
    NodeModel,
> {
    Seq::new(
        n,
        |i: int|
            if table[i].is_dir {
                NodeModel::Dir { name: table[i].name }
            } else {
                NodeModel::File { name: table[i].name, bytes: contents[i] }
            },
    )
}

proof fn flat_rows(
    format: Format,
    data: Seq<u8>,
    table: Seq<EntryModel>,
    contents: Seq<Seq<u8>>,
    n: nat,
    limits: Limits,
    chain: Seq<char>,
)
    requires
        flat(format, data, table, contents, n),
        limits.max_depth > 0 || forall|i: int| 0 <= i < n ==> (#[trigger] table[i]).is_dir,
    ensures
        ({
            let r = resolve_members(
                data,
                format,
                table,
                n,
                limits,
                limits.max_depth as nat,
                chain,
                start(),
            );
            let total = file_total(table, contents, n);
            if n <= limits.max_entries && total <= limits.max_total_inflated {
                r == Ok::<Progress, Stop>(
                    Progress {
                        budget: Budget { total_inflated: total as u64, entries: n as usize },
                        nodes: flat_nodes(table, contents, n),
                    },
                )
            } else if n <= limits.max_entries {
                limits.max_total_inflated < u64::MAX ==> (r matches Err(stop) && stop.error == (
                ErrorModel::TotalInflatedExceeded { cap: limits.max_total_inflated }))
            } else if total <= limits.max_total_inflated {
                r matches Err(stop) && stop.error == (ErrorModel::TooManyEntries {
                    max: limits.max_entries,
                })
            } else {
                true
            }
        }),
    decreases n,
{
    if n == 0 {
        assert(flat_nodes(table, contents, 0) =~= Seq::<NodeModel>::empty());
    } else {
        let index = (n - 1) as nat;
        flat_rows(format, data, table, contents, index, limits, chain);
        let entry = table[index as int];
        let nodes = flat_nodes(table, contents, index);
        let node = if entry.is_dir {
            NodeModel::Dir { name: entry.name }
        } else {
            NodeModel::File { name: entry.name, bytes: contents[index as int] }
        };
        assert(flat_nodes(table, contents, n) =~= nodes.push(node));
        let at = resolve_members(
            data,
            format,
            table,
            index,
            limits,
            limits.max_depth as nat,
            chain,
            start(),
        );
        reveal_with_fuel(resolve_layer, 2);
        reveal_with_fuel(resolve_members, 2);
        if let Ok(before) = at {
            let content = contents[index as int];
            totals_add_up(before.budget, 0);
            if !entry.is_dir {
                totals_add_up(before.budget.with_entry(), content.len());
                assert(member_content(format, data, table, index as usize, 0x1_0000_0000) == Ok::<
                    Seq<u8>,
                    ErrorModel,
                >(content));
                assert(format_of(Some(entry.name), content) is Unknown);
            }
        }
    }
}

/// An archive whose files are no packing layers themselves resolves to its rows in
/// order, each file with all of its content. It does so as long as there are no more
/// rows than the member cap and no more file bytes than the inflation cap, and fails
/// with the cap that was passed otherwise.
pub proof fn flat_archives_resolve(
    data: Seq<u8>,
    name: Option<Seq<char>>,
    table: Seq<EntryModel>,
    contents: Seq<Seq<u8>>,
    limits: Limits,
)
    requires
        listing(format_of(name, data), data) == Ok::<Option<Seq<EntryModel>>, ErrorModel>(
            Some(table),
        ),
        flat(format_of(name, data), data, table, contents, table.len()),
        limits.max_depth > 0 || forall|i: int|
            0 <= i < table.len() ==> (#[trigger] table[i]).is_dir,
    ensures
        table.len() <= limits.max_entries && file_total(table, contents, table.len())
            <= limits.max_total_inflated ==> resolve_of(data, name, limits) == Ok::<
            Seq<NodeModel>,
            ErrorModel,
        >(flat_nodes(table, contents, table.len())),
        table.len() > limits.max_entries && file_total(table, contents, table.len())
            <= limits.max_total_inflated ==> resolve_of(data, name, limits) == fails(
            ErrorModel::TooManyEntries { max: limits.max_entries },
        ),
        table.len() <= limits.max_entries && limits.max_total_inflated < u64::MAX && file_total(
            table,
            contents,
            table.len(),
        ) > limits.max_total_inflated ==> resolve_of(data, name, limits) == fails(
            ErrorModel::TotalInflatedExceeded { cap: limits.max_total_inflated },
        ),
{
    flat_rows(
        format_of(name, data),
        data,
        table,
        contents,
        table.len(),
        limits,
        or_else(name, "<input>"@),
    );
}

proof fn rows_stop(
    data: Seq<u8>,
    format: Format,
    table: Seq<EntryModel>,
    n: nat,
    count: nat,
    limits: Limits,
    below: nat,
    chain: Seq<char>,
    at: Progress,
)
    requires
        n <= count,
        resolve_members(data, format, table, n, limits, below, chain, at) is Err,
    ensures
        resolve_members(data, format, table, count, limits, below, chain, at) == resolve_members(
            data,
            format,
            table,
            n,
            limits,
            below,
            chain,
            at,
        ),
    decreases count,
{
    if n < count {
        rows_stop(data, format, table, n, (count - 1) as nat, limits, below, chain, at);
    }
}

/// The first member of an archive that cannot be read fails the resolution with its
/// error, and an archive that cannot be opened does so with its own.
pub proof fn unreadable_members_fail(
    data: Seq<u8>,
    name: Option<Seq<char>>,
    table: Seq<EntryModel>,
    contents: Seq<Seq<u8>>,
    n: nat,
    error: ErrorModel,
    limits: Limits,
)
    requires
        format_of(name, data).holds_members(),
        limits.max_depth > 0,
    ensures
        listing(format_of(name, data), data) == Err::<Option<Seq<EntryModel>>, ErrorModel>(error)
            ==> resolve_of(data, name, limits) == fails(error),
        listing(format_of(name, data), data) == Ok::<Option<Seq<EntryModel>>, ErrorModel>(
            Some(table),
        ) && n < table.len() && flat(format_of(name, data), data, table, contents, n)
            && !table[n as int].is_dir && member_content(
            format_of(name, data),
            data,
            table,
            n as usize,
            0x1_0000_0000,
        ) == Err::<Seq<u8>, ErrorModel>(error) && n < limits.max_entries && file_total(
            table,
            contents,
            n,
        ) <= limits.max_total_inflated ==> resolve_of(data, name, limits) == fails(error),
{
    let format = format_of(name, data);
    let chain = or_else(name, "<input>"@);
    if listing(format, data) == Ok::<Option<Seq<EntryModel>>, ErrorModel>(Some(table)) && n
        < table.len() && flat(format, data, table, contents, n) && !table[n as int].is_dir
        && member_content(format, data, table, n as usize, 0x1_0000_0000) == Err::<
        Seq<u8>,
        ErrorModel,
    >(error) && n < limits.max_entries && file_total(table, contents, n)
        <= limits.max_total_inflated {
        flat_rows(format, data, table, contents, n, limits, chain);
        rows_stop(
            data,
            format,
            table,
            n + 1,
            table.len(),
            limits,
            limits.max_depth as nat,
            chain,
            start(),
        );
    }
}

/// A member that is nested past the depth limit fails the resolution of its archive, with
/// the path through the archive and the member.
pub proof fn deep_members_name_their_path(
    data: Seq<u8>,
    name: Option<Seq<char>>,
    table: Seq<EntryModel>,
    contents: Seq<Seq<u8>>,
    i: nat,
    limits: Limits,
)
    requires
        listing(format_of(name, data), data) == Ok::<Option<Seq<EntryModel>>, ErrorModel>(
            Some(table),
        ),
        i < table.len(),
        flat(format_of(name, data), data, table, contents, i),
        limits.max_depth > 0 || forall|j: int| 0 <= j < i ==> (#[trigger] table[j]).is_dir,
        !table[i as int].is_dir,
        member_content(format_of(name, data), data, table, i as usize, 0x1_0000_0000) == Ok::<
            Seq<u8>,
            ErrorModel,
        >(contents[i as int]),
        nested(contents[i as int], Some(table[i as int].name), limits.max_depth as nat),
        file_total(table, contents, i) <= u64::MAX,
        limits.max_total_inflated == u64::MAX,
        limits.max_entries == usize::MAX,
    ensures
        resolve_of(data, name, limits) == fails(
            ErrorModel::DepthExceeded {
                max: limits.max_depth,
                chain: or_else(name, "<input>"@) + " -> "@ + table[i as int].name + path_below(
                    contents[i as int],
                    Some(table[i as int].name),
                    limits.max_depth as nat,
                ),
            },
        ),
{
    let format = format_of(name, data);
    let chain = or_else(name, "<input>"@);
    let content = contents[i as int];
    let entry = table[i as int];
    flat_rows(format, data, table, contents, i, limits, chain);
    let before = resolve_members(
        data,
        format,
        table,
        i,
        limits,
        limits.max_depth as nat,
        chain,
        start(),
    )->Ok_0;
    let counted = crate::resolve::spend_entry(before, limits)->Ok_0;
    let spent = crate::resolve::spend_inflated(counted, content.len(), limits)->Ok_0;
    too_deep(
        content,
        Some(entry.name),
        limits,
        limits.max_depth as nat,
        chain + " -> "@ + entry.name,
        spent,
    );
    rows_stop(
        data,
        format,
        table,
        i + 1,
        table.len(),
        limits,
        limits.max_depth as nat,
        chain,
        start(),
    );
}

// ---------------------------------------------------------------------------
// Numbers in names

/// A decimal digit.
pub open spec fn digit(c: char) -> bool {
    0x30 <= c as u32 && c as u32 <= 0x39
}

/// Nothing but decimal digits.
pub open spec fn digits(s: Seq<char>) -> bool {
    forall|i: int| 0 <= i < s.len() ==> digit(#[trigger] s[i])
}

/// The number that a row of decimal digits writes down.
pub open spec fn value(s: Seq<char>) -> int
    decreases s.len(),
{
    if s.len() == 0 {
        0
    } else {
        10 * value(s.drop_last()) + (s.last() as u32 - 0x30)
    }
}

proof fn digits_alike(c: char)
    ensures
        is_digit(c) == digit(c),
{
    if is_digit(c) {
        assert(digit(c));
    }
    if digit(c) {
        assert('0' <= c);
        assert(c <= '9');
    }
}

proof fn numerals(s: Seq<char>)
    ensures
        all_digits(s) <==> digits(s),
        digits(s) ==> numeral(s) == value(s) && value(s) >= 0,
    decreases s.len(),
{
    assert forall|i: int| 0 <= i < s.len() implies is_digit(#[trigger] s[i]) == digit(s[i]) by {
        digits_alike(s[i]);
    }
    if s.len() > 0 {
        numerals(s.drop_last());
        if digits(s) {
            assert(digits(s.drop_last()));
            assert(digit(s[s.len() - 1]));
        }
    }
}

/// A number is written in decimal digits that read back as it, without a zero in
/// front.
pub proof fn numbers_are_written_in_decimal(n: nat)
    ensures
        digits(decimal(n)),
        decimal(n).len() > 0,
        value(decimal(n)) == n,
        n > 0 ==> decimal(n)[0] as u32 != 0x30,
        n == 0 ==> decimal(n).len() == 1,
    decreases n,
{
    crate::text::decimal_reads_back(n);
    numerals(decimal(n));
    if n >= 10 {
        numbers_are_written_in_decimal(n / 10);
        assert(decimal(n)[0] == decimal(n / 10)[0]);
    }
}

/// `pattern` stands in `s` at `at`.
pub open spec fn stands(s: Seq<char>, pattern: Seq<char>, at: int) -> bool {
    &&& 0 <= at
    &&& at + pattern.len() <= s.len()
    &&& forall|i: int| 0 <= i < pattern.len() ==> s[at + i] == #[trigger] pattern[i]
}

/// The last occurrence of a pattern is one, and none is further on.
pub proof fn last_occurrences(s: Seq<char>, pattern: Seq<char>)
    requires
        pattern.len() > 0,
    ensures
        match rfind_chars(s, pattern) {
            Some(at) => stands(s, pattern, at) && forall|k: int|
                k > at ==> !#[trigger] stands(s, pattern, k),
            None => forall|k: int| !#[trigger] stands(s, pattern, k),
        },
    decreases s.len(),
{
    let n = s.len() - pattern.len();
    if pattern.is_suffix_of(s) {
        let tail = s.subrange(n, s.len() as int);
        assert forall|i: int| 0 <= i < pattern.len() implies s[n + i] == #[trigger] pattern[i] by {
            assert(tail[i] == s[n + i]);
        }
    } else if s.len() > 0 {
        last_occurrences(s.drop_last(), pattern);
        assert forall|k: int| #[trigger] stands(s, pattern, k) <==> stands(
            s.drop_last(),
            pattern,
            k,
        ) by {
            if stands(s, pattern, k) {
                if k == n {
                    assert(s.subrange(n, s.len() as int) =~= pattern);
                }
                assert forall|i: int| 0 <= i < pattern.len() implies s.drop_last()[k + i]
                    == #[trigger] pattern[i] by {
                    assert(s[k + i] == pattern[i]);
                }
            } else if stands(s.drop_last(), pattern, k) {
                assert forall|i: int| 0 <= i < pattern.len() implies s[k + i]
                    == #[trigger] pattern[i] by {
                    assert(s.drop_last()[k + i] == pattern[i]);
                }
            }
        }
    }
}

/// The name is `stem`, a dot and `ext`, in which there is no further dot.
pub open spec fn dotted(name: Seq<char>, stem: Seq<char>, ext: Seq<char>) -> bool {
    &&& name == stem + seq!['.'] + ext
    &&& forall|i: int| 0 <= i < ext.len() ==> #[trigger] ext[i] != '.'
}

/// There is no dot in the name.
pub open spec fn dotless(name: Seq<char>) -> bool {
    forall|i: int| 0 <= i < name.len() ==> #[trigger] name[i] != '.'
}

/// The extension of a name is what follows its last dot.
pub proof fn extensions_follow_the_last_dot(name: Seq<char>, stem: Seq<char>, ext: Seq<char>)
    ensures
        dotted(name, stem, ext) ==> extension_chars(name) == Some(ext),
        dotless(name) ==> extension_chars(name) is None,
{
    reveal_strlit(".");
    last_occurrences(name, "."@);
    assert("."@.len() == 1 && "."@[0] == '.');
    if dotted(name, stem, ext) {
        let at = stem.len() as int;
        assert(name[at] == '.');
        assert(stands(name, "."@, at));
        match rfind_chars(name, "."@) {
            Some(found) => {
                assert(name[found + 0] == "."@[0]);
                if found > at {
                    assert(ext[found - at - 1] == name[found]);
                }
                assert(found == at);
                assert(name.skip(at + 1) =~= ext);
            },
            None => {},
        }
    }
    if dotless(name) {
        if let Some(found) = rfind_chars(name, "."@) {
            assert(name[found + 0] == "."@[0]);
        }
    }
}

/// The number of two digits.
pub open spec fn two_digits(a: char, b: char) -> Option<u64> {
    if digit(a) && digit(b) {
        Some((10 * (a as u32 - 0x30) + (b as u32 - 0x30)) as u64)
    } else {
        None
    }
}

/// An EWF segment is one with the extension `e`, `s` or `ex` and two digits behind it,
/// in any case: the digits are its number. Nothing else is one.
pub proof fn ewf_names(name: Seq<char>, stem: Seq<char>, ext: Seq<char>)
    ensures
        dotless(name) ==> ewf_number(name) is None,
        dotted(name, stem, ext) ==> ewf_number(name) == if ext.len() == 3 && (folds_to(ext[0], 'e')
            || folds_to(ext[0], 's')) {
            two_digits(ext[1], ext[2])
        } else if ext.len() == 4 && folds_to(ext[0], 'e') && folds_to(ext[1], 'x') {
            two_digits(ext[2], ext[3])
        } else {
            None
        },
{
    extensions_follow_the_last_dot(name, stem, ext);
    if dotted(name, stem, ext) {
        reveal_strlit("ex");
        reveal_strlit("e");
        reveal_strlit("s");
        let low = lower(ext);
        assert forall|i: int| 0 <= i < ext.len() implies #[trigger] low[i] == lower_char(ext[i]) by {}
        if ext.len() > 0 {
            folding(ext[0], 'e');
            folding(ext[0], 's');
        }
        if ext.len() > 1 {
            folding(ext[1], 'x');
        }
        if "ex"@.is_prefix_of(low) {
            assert(low.subrange(0, 2)[0] == 'e' && low.subrange(0, 2)[1] == 'x');
        } else if low.len() >= 2 && low[0] == 'e' && low[1] == 'x' {
            assert("ex"@ =~= low.subrange(0, 2));
        }
        if "e"@.is_prefix_of(low) {
            assert(low.subrange(0, 1)[0] == 'e');
        } else if low.len() >= 1 && low[0] == 'e' {
            assert("e"@ =~= low.subrange(0, 1));
        }
        if "s"@.is_prefix_of(low) {
            assert(low.subrange(0, 1)[0] == 's');
        } else if low.len() >= 1 && low[0] == 's' {
            assert("s"@ =~= low.subrange(0, 1));
        }
        if let Some(d) = crate::plan::ewf_digits(low) {
            if d.len() == 2 {
                numerals(d);
                reveal_with_fuel(value, 3);
                let k = ext.len() - 2;
                assert(d[0] == lower_char(ext[k]) && d[1] == lower_char(ext[k + 1]));
                assert(d.drop_last().drop_last() =~= Seq::<char>::empty());
                if digits(d) {
                    assert(digit(d[0]) && digit(d[1]));
                }
            }
        }
    }
}

/// A raw-split segment is one whose extension is at least two digits and nothing else:
/// they are its number, as far as 64 bits reach. Nothing else is one.
pub proof fn raw_names(name: Seq<char>, stem: Seq<char>, ext: Seq<char>)
    ensures
        dotless(name) ==> raw_number(name) is None,
        dotted(name, stem, ext) ==> raw_number(name) == if ext.len() >= 2 && digits(ext) && value(
            ext,
        ) <= u64::MAX {
            Some(value(ext) as u64)
        } else {
            None
        },
{
    extensions_follow_the_last_dot(name, stem, ext);
    numerals(ext);
}

/// The name is that of a split-VMDK extent: `-s` at `at`, digits behind it, and `.vmdk`,
/// the letters in any case.
pub open spec fn vmdk_shape(name: Seq<char>, at: int) -> bool {
    &&& called(Some(name), ".vmdk"@)
    &&& 0 <= at
    &&& at + 2 < name.len() - 5
    &&& folds_to(name[at], '-')
    &&& folds_to(name[at + 1], 's')
    &&& digits(name.subrange(at + 2, name.len() - 5))
}

/// A split-VMDK segment is one named `<base>-s<digits>.vmdk`, in any case: the digits
/// are its number, as far as 64 bits reach. Nothing else is one.
pub proof fn vmdk_names(name: Seq<char>, at: int)
    ensures
        vmdk_shape(name, at) ==> vmdk_number(name) == {
            let n = value(name.subrange(at + 2, name.len() - 5));
            if n <= u64::MAX {
                Some(n as u64)
            } else {
                None
            }
        },
        vmdk_number(name) is Some ==> exists|k: int| #[trigger] vmdk_shape(name, k),
{
    reveal_strlit(".vmdk");
    reveal_strlit("-s");
    suffixes_ignore_case(Some(name), ".vmdk"@);
    let low = lower(name);
    if name.len() >= 5 {
        let stem = low.take(low.len() - 5);
        last_occurrences(stem, "-s"@);
        assert("-s"@.len() == 2 && "-s"@[0] == '-' && "-s"@[1] == 's');
        if vmdk_shape(name, at) {
            let num = name.subrange(at + 2, name.len() - 5);
            folding(name[at], '-');
            folding(name[at + 1], 's');
            assert(stands(stem, "-s"@, at));
            let found = rfind_chars(stem, "-s"@)->Some_0;
            if found > at {
                assert(stem[found + 1] == "-s"@[1]);
                assert(digit(num[found + 1 - at - 2]));
                assert(lower_char(name[found + 1]) == 's');
                if found == at + 1 {
                    assert(stem[found + 0] == "-s"@[0]);
                }
            }
            assert(found == at);
            let d = stem.skip(at + 2);
            assert(d =~= num) by {
                assert forall|i: int| 0 <= i < num.len() implies d[i] == num[i] by {
                    assert(digit(num[i]));
                    assert(num[i] == name[at + 2 + i]);
                }
            }
            numerals(num);
        }
        if vmdk_number(name) is Some {
            let k = rfind_chars(stem, "-s"@)->Some_0;
            let d = stem.skip(k + 2);
            numerals(d);
            assert(stem[k + 0] == "-s"@[0] && stem[k + 1] == "-s"@[1]);
            folding(name[k], '-');
            folding(name[k + 1], 's');
            let num = name.subrange(k + 2, name.len() - 5);
            assert forall|i: int| 0 <= i < num.len() implies digit(#[trigger] num[i]) by {
                assert(digit(d[i]));
                assert(d[i] == lower_char(name[k + 2 + i]));
            }
            assert(vmdk_shape(name, k));
        }
    }
}

/// Each kind of split set goes by its own numbers.
pub proof fn kinds_have_their_numbers(name: Seq<char>)
    ensures
        segment_of(name, SegmentKind::Ewf) == ewf_number(name),
        segment_of(name, SegmentKind::SplitRaw) == raw_number(name),
        segment_of(name, SegmentKind::SplitVmdk) == vmdk_number(name),
{
}

// ---------------------------------------------------------------------------
// Planning

/// Row `i` is a file.
pub open spec fn file_at(table: Seq<EntryModel>, i: int) -> bool {
    0 <= i < table.len() && !table[i].is_dir
}

/// Two rows, at least, are files.
pub open spec fn several_files(table: Seq<EntryModel>) -> bool {
    exists|i: int, j: int| i < j && #[trigger] file_at(table, i) && #[trigger] file_at(table, j)
}

/// Every file is named as a segment of the kind.
pub open spec fn all_segments(table: Seq<EntryModel>, kind: SegmentKind) -> bool {
    forall|i: int| #[trigger] file_at(table, i) ==> segment_of(table[i].name, kind) is Some
}

/// Row `i` is the only file.
pub open spec fn only_file(table: Seq<EntryModel>, i: int) -> bool {
    file_at(table, i) && forall|j: int| #[trigger] file_at(table, j) ==> j == i
}

/// The first bytes of a stream are those of a tar.
pub open spec fn tar_head(head: Result<Seq<u8>, Seq<char>>) -> bool {
    head matches Ok(h) && begins_tar(h) && !begins_7z(h) && !begins_zip(h)
}

/// By its content, `data` is an archive of the format: it begins as one, or it is a
/// gzip or bzip2 stream whose first 512 bytes are those of a tar.
pub open spec fn is_archive_of(data: Seq<u8>, format: Format) -> bool {
    match format {
        Format::SevenZip => begins_7z(data),
        Format::Zip => begins_zip(data),
        Format::Tar => begins_tar(data) && !begins_7z(data) && !begins_zip(data),
        Format::TarGz => no_container(data) && begins_gzip(data) && tar_head(
            gzip_prefix(data, 512),
        ),
        Format::TarBz2 => no_container(data) && begins_bzip2(data) && tar_head(
            bzip2_prefix(data, 512),
        ),
        _ => false,
    }
}

proof fn archives_go_by_their_table(data: Seq<u8>, format: Format)
    requires
        is_archive_of(data, format),
    ensures
        plan_of(data) == archive_plan(format, data),
{
    content_names_the_format(None, data);
    match format {
        Format::TarGz => {
            content_names_the_format(None, gzip_prefix(data, 512)->Ok_0);
        },
        Format::TarBz2 => {
            content_names_the_format(None, bzip2_prefix(data, 512)->Ok_0);
        },
        _ => {},
    }
}

proof fn segments_have_accesses(
    format: Format,
    data: Seq<u8>,
    count: nat,
    ordered: Seq<(usize, Seq<char>, u64)>,
    n: nat,
)
    requires
        n <= ordered.len(),
        forall|i: int|
            0 <= i < ordered.len() ==> access_of(format, data, count, (#[trigger] ordered[i]).0)
                is Ok,
    ensures
        crate::plan::segments_of(format, data, count, ordered, n) is Ok,
    decreases n,
{
    if n > 0 {
        segments_have_accesses(format, data, count, ordered, (n - 1) as nat);
        assert(access_of(format, data, count, ordered[n - 1].0) is Ok);
    }
}

proof fn files_and_rows(table: Seq<EntryModel>)
    requires
        table.len() <= usize::MAX,
    ensures
        several_files(table) <==> files_of(table, table.len()).len() >= 2,
        forall|i: int| #[trigger] only_file(table, i) ==> files_of(table, table.len()) == seq![
            (i as usize, table[i].name),
        ],
        (forall|i: int| !#[trigger] file_at(table, i)) <==> files_of(table, table.len()).len() == 0,
        forall|kind: SegmentKind| #[trigger]
            all_segments(table, kind) <==> crate::plan::uniform(
                files_of(table, table.len()),
                kind,
            ),
{
    let files = files_of(table, table.len());
    files_are_rows(table, table.len());
    if files.len() >= 2 {
        assert(file_at(table, files[0].0 as int) && file_at(table, files[1].0 as int));
    }
    if files.len() >= 1 {
        assert(file_at(table, files[0].0 as int));
    }
    assert forall|i: int| #[trigger] file_at(table, i) implies files.contains(
        (i as usize, table[i].name),
    ) by {
        assert(!table[i].is_dir);
    }
    if several_files(table) {
        let (i, j) = choose|i: int, j: int|
            i < j && #[trigger] file_at(table, i) && #[trigger] file_at(table, j);
        assert(files.contains((i as usize, table[i].name)));
        assert(files.contains((j as usize, table[j].name)));
    }
    assert forall|i: int| #[trigger] only_file(table, i) implies files == seq![
        (i as usize, table[i].name),
    ] by {
        assert(files.contains((i as usize, table[i].name)));
        if files.len() >= 2 {
            assert(file_at(table, files[0].0 as int) && file_at(table, files[1].0 as int));
        }
        assert(file_at(table, files[0].0 as int));
        assert(files =~= seq![(i as usize, table[i].name)]);
    }
    assert forall|kind: SegmentKind| #[trigger]
        all_segments(table, kind) <==> crate::plan::uniform(files, kind) by {
        if all_segments(table, kind) {
            assert forall|k: int| 0 <= k < files.len() implies segment_of(
                #[trigger] files[k].1,
                kind,
            ) is Some by {
                assert(file_at(table, files[k].0 as int));
            }
        }
        if crate::plan::uniform(files, kind) {
            assert forall|i: int| #[trigger] file_at(table, i) implies segment_of(
                table[i].name,
                kind,
            ) is Some by {
                let row = (i as usize, table[i].name);
                assert(files.contains(row));
                let k = choose|k: int| 0 <= k < files.len() && files[k] == row;
                assert(segment_of(files[k].1, kind) is Some);
            }
        }
    }
}

/// Opened as any format, an archive is planned by its files, whatever directories stand
/// among them: several files that are all segments of one kind are a split set of that
/// kind, several others are a collection, a single file is a member, and no file at all is
/// a collection.
pub proof fn tables_are_planned_by_their_files(
    data: Seq<u8>,
    format: Format,
    table: Seq<EntryModel>,
    kind: SegmentKind,
    i: int,
)
    requires
        listing(format, data) == Ok::<Option<Seq<EntryModel>>, ErrorModel>(Some(table)),
        table.len() <= usize::MAX,
    ensures
        several_files(table) && all_segments(table, kind) ==> (archive_plan(format, data) matches Ok(
            PlanModel::SegmentSet { format: f, kind: k, .. },
        ) && f == format && k == kind),
        several_files(table) && (forall|k: SegmentKind| !#[trigger] all_segments(table, k))
            ==> archive_plan(format, data) == Ok::<PlanModel, ErrorModel>(PlanModel::Collection { format }),
        only_file(table, i) ==> (archive_plan(format, data) matches Ok(
            PlanModel::Member { format: f, index, name, access },
        ) && f == format && index == i && name == table[i].name && access_of(
            format,
            data,
            table.len(),
            index,
        ) == Ok::<Access, ErrorModel>(access)),
        (forall|j: int| !#[trigger] file_at(table, j)) ==> archive_plan(format, data) == Ok::<
            PlanModel,
            ErrorModel,
        >(PlanModel::Collection { format }),
{
    files_and_rows(table);
    let files = files_of(table, table.len());
    files_are_rows(table, table.len());
    assert forall|k: int| 0 <= k < files.len() implies access_of(
        format,
        data,
        table.len(),
        (#[trigger] files[k]).0,
    ) is Ok by {
        crate::archive::access_fails_only_out_of_range(format, data, files[k].0);
    }
    assert(all_segments(table, SegmentKind::SplitVmdk) || !all_segments(
        table,
        SegmentKind::SplitVmdk,
    ));
    assert(all_segments(table, SegmentKind::Ewf) || !all_segments(table, SegmentKind::Ewf));
    assert(all_segments(table, SegmentKind::SplitRaw) || !all_segments(
        table,
        SegmentKind::SplitRaw,
    ));
    if several_files(table) {
        assert forall|a: SegmentKind, b: SegmentKind|
            all_segments(table, a) && all_segments(table, b) implies a == b by {
            let (x, y) = choose|x: int, y: int|
                x < y && #[trigger] file_at(table, x) && #[trigger] file_at(table, y);
            crate::plan::segment_kinds_are_disjoint(table[x].name, a, b);
        }
        if let Some(k) = crate::plan::kind_of(files) {
            let ordered = crate::plan::ordered_files(files, k);
            let keys = crate::plan::segment_keys(files, k, files.len());
            crate::plan::keys_point_at_files(files, k, files.len());
            crate::order::in_order_sorts(keys);
            assert forall|p: int| 0 <= p < ordered.len() implies access_of(
                format,
                data,
                table.len(),
                (#[trigger] ordered[p]).0,
            ) is Ok by {
                let key = crate::order::in_order(keys)[p];
                assert(keys.contains(key));
                assert(ordered[p] == crate::plan::keyed_file(files, key));
                assert(files[key.1 as int].0 == ordered[p].0);
            }
            segments_have_accesses(format, data, table.len(), ordered, ordered.len());
            assert(all_segments(table, k));
        }
    }
    if only_file(table, i) {
        assert(files[0] == (i as usize, table[i].name));
    }
}

/// An archive's plan goes by its files, whatever directories stand among them: several
/// files that are all segments of one kind are a split set of that kind, several others
/// are a collection, a single file is a member, and no file at all is a collection.
pub proof fn archives_are_planned_by_their_files(
    data: Seq<u8>,
    format: Format,
    table: Seq<EntryModel>,
    kind: SegmentKind,
    i: int,
)
    requires
        is_archive_of(data, format),
        listing(format, data) == Ok::<Option<Seq<EntryModel>>, ErrorModel>(Some(table)),
        table.len() <= usize::MAX,
    ensures
        several_files(table) && all_segments(table, kind) ==> (plan_of(data) matches Ok(
            PlanModel::SegmentSet { format: f, kind: k, .. },
        ) && f == format && k == kind),
        several_files(table) && (forall|k: SegmentKind| !#[trigger] all_segments(table, k))
            ==> plan_of(data) == Ok::<PlanModel, ErrorModel>(PlanModel::Collection { format }),
        only_file(table, i) ==> (plan_of(data) matches Ok(
            PlanModel::Member { format: f, index, name, access },
        ) && f == format && index == i && name == table[i].name && access_of(
            format,
            data,
            table.len(),
            index,
        ) == Ok::<Access, ErrorModel>(access)),
        (forall|j: int| !#[trigger] file_at(table, j)) ==> plan_of(data) == Ok::<
            PlanModel,
            ErrorModel,
        >(PlanModel::Collection { format }),
{
    archives_go_by_their_table(data, format);
    tables_are_planned_by_their_files(data, format, table, kind, i);
}

/// What cannot be opened as the format cannot be planned as it, and what is no archive
/// format has nothing to plan by.
pub proof fn unlisted_tables_are_not_planned(data: Seq<u8>, format: Format, error: ErrorModel)
    ensures
        listing(format, data) == Err::<Option<Seq<EntryModel>>, ErrorModel>(error)
            ==> archive_plan(format, data) == Err::<PlanModel, ErrorModel>(error),
        format is Gzip || format is Bzip2 || format is Unknown ==> archive_plan(format, data) == Ok::<
            PlanModel,
            ErrorModel,
        >(PlanModel::Collection { format }),
{
}

/// A stream is planned by its first 512 bytes, whatever its own first bytes are: one that
/// does not decode is left alone, a tar is planned as the archive that it is, anything
/// that is packed again is decompressed first, and the rest is read through.
pub proof fn wrappers_are_planned_by_their_heads(data: Seq<u8>, head: Seq<u8>)
    ensures
        gzip_prefix(data, 512) is Err ==> wrapper_plan(Codec::Gzip, data) == Ok::<
            PlanModel,
            ErrorModel,
        >(PlanModel::Direct),
        bzip2_prefix(data, 512) is Err ==> wrapper_plan(Codec::Bzip2, data) == Ok::<
            PlanModel,
            ErrorModel,
        >(PlanModel::Direct),
        gzip_prefix(data, 512) == Ok::<Seq<u8>, Seq<char>>(head) ==> wrapper_plan(
            Codec::Gzip,
            data,
        ) == if tar_head(Ok(head)) {
            archive_plan(Format::TarGz, data)
        } else if no_magic(head) {
            Ok(PlanModel::Wrapper { codec: Codec::Gzip, access: Access::Zran })
        } else {
            Ok(PlanModel::Wrapper { codec: Codec::Gzip, access: Access::SpillToTemp })
        },
        bzip2_prefix(data, 512) == Ok::<Seq<u8>, Seq<char>>(head) ==> wrapper_plan(
            Codec::Bzip2,
            data,
        ) == if tar_head(Ok(head)) {
            archive_plan(Format::TarBz2, data)
        } else {
            Ok(PlanModel::Wrapper { codec: Codec::Bzip2, access: Access::SpillToTemp })
        },
{
    content_names_the_format(None, head);
    if no_magic(head) {
        names_speak_where_content_is_silent(None, head);
    }
}

/// An archive that cannot be opened cannot be planned.
pub proof fn unopened_archives_are_not_planned(data: Seq<u8>, format: Format, error: ErrorModel)
    requires
        is_archive_of(data, format),
        listing(format, data) == Err::<Option<Seq<EntryModel>>, ErrorModel>(error),
    ensures
        plan_of(data) == Err::<PlanModel, ErrorModel>(error),
{
    archives_go_by_their_table(data, format);
}

/// The names of the files, in table order.
pub open spec fn file_names(table: Seq<EntryModel>) -> Seq<Seq<char>> {
    table.filter(|e: EntryModel| !e.is_dir).map_values(|e: EntryModel| e.name)
}

proof fn files_and_names(table: Seq<EntryModel>, n: nat)
    requires
        n <= table.len() <= usize::MAX,
    ensures
        files_of(table, n).map_values(|f: (usize, Seq<char>)| f.1) == file_names(
            table.take(n as int),
        ),
    decreases n,
{
    let first = |f: (usize, Seq<char>)| f.1;
    let file = |e: EntryModel| !e.is_dir;
    let named = |e: EntryModel| e.name;
    if n == 0 {
        assert(table.take(0) =~= Seq::<EntryModel>::empty());
        assert(table.take(0).filter(file) =~= Seq::<EntryModel>::empty()) by {
            reveal(Seq::filter);
        }
        assert(files_of(table, 0).map_values(first) =~= file_names(table.take(0)));
    } else {
        files_and_names(table, (n - 1) as nat);
        let before = table.take(n - 1);
        let row = table[n - 1];
        assert(table.take(n as int) =~= before.push(row));
        assert(before.push(row).filter(file) == if file(row) {
            before.filter(file).push(row)
        } else {
            before.filter(file)
        }) by {
            reveal(Seq::filter);
            assert(before.push(row).drop_last() =~= before);
        }
        if file(row) {
            assert(before.filter(file).push(row).map_values(named) =~= before.filter(
                file,
            ).map_values(named).push(row.name));
            assert(files_of(table, n).map_values(first) =~= files_of(
                table,
                (n - 1) as nat,
            ).map_values(first).push(row.name));
        }
    }
}

/// All the names are those of segments of the kind.
pub open spec fn all_named(names: Seq<Seq<char>>, kind: SegmentKind) -> bool {
    forall|i: int| 0 <= i < names.len() ==> segment_of(#[trigger] names[i], kind) is Some
}

proof fn rows_and_names(table: Seq<EntryModel>)
    requires
        table.len() <= usize::MAX,
    ensures
        several_files(table) <==> file_names(table).len() >= 2,
        (forall|i: int| !#[trigger] file_at(table, i)) <==> file_names(table).len() == 0,
        forall|kind: SegmentKind| #[trigger]
            all_segments(table, kind) <==> all_named(file_names(table), kind),
        file_names(table).len() == 1 ==> exists|i: int| #[trigger] only_file(table, i),
{
    let files = files_of(table, table.len());
    let names = file_names(table);
    let first = |f: (usize, Seq<char>)| f.1;
    files_and_names(table, table.len());
    assert(table.take(table.len() as int) =~= table);
    assert(files.map_values(first).len() == files.len());
    files_and_rows(table);
    assert forall|k: int| 0 <= k < files.len() implies (#[trigger] files[k]).1 == names[k] by {
        assert(files.map_values(first)[k] == names[k]);
    }
    assert forall|kind: SegmentKind| #[trigger]
        all_segments(table, kind) <==> all_named(names, kind) by {
        if crate::plan::uniform(files, kind) {
            assert forall|p: int| 0 <= p < names.len() implies segment_of(
                #[trigger] names[p],
                kind,
            ) is Some by {
                assert(segment_of(files[p].1, kind) is Some);
            }
        }
        if all_named(names, kind) {
            assert forall|p: int| 0 <= p < files.len() implies segment_of(
                #[trigger] files[p].1,
                kind,
            ) is Some by {
                assert(segment_of(names[p], kind) is Some);
            }
        }
    }
    if names.len() == 1 {
        lone_file(table);
    }
}

/// What an archive is planned as follows from the names of its files alone.
pub proof fn plans_follow_the_file_names(data: Seq<u8>, format: Format, table: Seq<EntryModel>)
    requires
        is_archive_of(data, format),
        listing(format, data) == Ok::<Option<Seq<EntryModel>>, ErrorModel>(Some(table)),
        table.len() <= usize::MAX,
    ensures
        plan_of(data) is Ok,
        plan_of(data)->Ok_0 is Member <==> file_names(table).len() == 1,
        plan_of(data)->Ok_0 is SegmentSet <==> file_names(table).len() >= 2 && exists|
            k: SegmentKind,
        | #[trigger] all_named(file_names(table), k),
        plan_of(data)->Ok_0 is SegmentSet ==> all_named(
            file_names(table),
            plan_of(data)->Ok_0->kind,
        ),
        plan_of(data)->Ok_0 is Collection <==> file_names(table).len() == 0 || (file_names(
            table,
        ).len() >= 2 && forall|k: SegmentKind| !#[trigger] all_named(file_names(table), k)),
{
    let names = file_names(table);
    rows_and_names(table);
    let i = if names.len() == 1 {
        choose|i: int| #[trigger] only_file(table, i)
    } else {
        0
    };
    let kind = if exists|k: SegmentKind| #[trigger] all_named(names, k) {
        choose|k: SegmentKind| #[trigger] all_named(names, k)
    } else {
        SegmentKind::Ewf
    };
    assert(all_segments(table, kind) == all_named(names, kind));
    assert forall|k: SegmentKind| #[trigger] all_segments(table, k) implies all_named(names, k) by {}
    archives_are_planned_by_their_files(data, format, table, kind, i);
}

/// Directories do not count: two archives with the same file names in the same order
/// are planned alike, however many directories the one has and the other not.
pub proof fn directories_do_not_change_the_plan(
    data: Seq<u8>,
    format: Format,
    table: Seq<EntryModel>,
    data2: Seq<u8>,
    format2: Format,
    table2: Seq<EntryModel>,
)
    requires
        is_archive_of(data, format),
        is_archive_of(data2, format2),
        listing(format, data) == Ok::<Option<Seq<EntryModel>>, ErrorModel>(Some(table)),
        listing(format2, data2) == Ok::<Option<Seq<EntryModel>>, ErrorModel>(Some(table2)),
        table.len() <= usize::MAX,
        table2.len() <= usize::MAX,
        file_names(table) == file_names(table2),
    ensures
        plan_of(data) is Ok,
        plan_of(data2) is Ok,
        (plan_of(data)->Ok_0 is Collection) == (plan_of(data2)->Ok_0 is Collection),
        (plan_of(data)->Ok_0 is Member) == (plan_of(data2)->Ok_0 is Member),
        (plan_of(data)->Ok_0 is SegmentSet) == (plan_of(data2)->Ok_0 is SegmentSet),
        plan_of(data)->Ok_0 is SegmentSet ==> plan_of(data)->Ok_0->kind
            == plan_of(data2)->Ok_0->kind,
{
    plans_follow_the_file_names(data, format, table);
    plans_follow_the_file_names(data2, format2, table2);
    if plan_of(data)->Ok_0 is SegmentSet {
        crate::plan::segment_kinds_are_disjoint(
            file_names(table)[0],
            plan_of(data)->Ok_0->kind,
            plan_of(data2)->Ok_0->kind,
        );
    }
}

proof fn lone_file(table: Seq<EntryModel>)
    requires
        table.len() <= usize::MAX,
        files_of(table, table.len()).len() == 1,
    ensures
        only_file(table, files_of(table, table.len())[0].0 as int),
{
    let files = files_of(table, table.len());
    files_are_rows(table, table.len());
    assert(file_at(table, files[0].0 as int));
    assert forall|j: int| #[trigger] file_at(table, j) implies j == files[0].0 by {
        assert(files.contains((j as usize, table[j].name)));
    }
}

/// Opened as any format, a split set lists every file of the archive once, each with its
/// own name, place and access, in the order of their numbers and, where two are the same,
/// of the table.
pub proof fn tables_list_split_sets_whole(
    data: Seq<u8>,
    format: Format,
    table: Seq<EntryModel>,
    members: Seq<SegmentModel>,
    kind: SegmentKind,
)
    requires
        listing(format, data) == Ok::<Option<Seq<EntryModel>>, ErrorModel>(Some(table)),
        table.len() <= usize::MAX,
        archive_plan(format, data) == Ok::<PlanModel, ErrorModel>(
            PlanModel::SegmentSet { format, members, kind },
        ),
    ensures
        members.len() >= 2,
        forall|i: int|
            0 <= i < members.len() ==> {
                let member = #[trigger] members[i];
                &&& file_at(table, member.index as int)
                &&& member.name == table[member.index as int].name
                &&& segment_of(member.name, kind) is Some
                &&& access_of(format, data, table.len(), member.index) == Ok::<Access, ErrorModel>(
                    member.access,
                )
            },
        forall|i: int, j: int|
            0 <= i < j < members.len() ==> {
                let a = segment_of((#[trigger] members[i]).name, kind)->Some_0;
                let b = segment_of((#[trigger] members[j]).name, kind)->Some_0;
                a < b || (a == b && members[i].index < members[j].index)
            },
        forall|k: int| #[trigger]
            file_at(table, k) ==> exists|i: int|
                0 <= i < members.len() && (#[trigger] members[i]).index == k,
{
    crate::plan::segment_sets_are_complete_and_ordered(format, data, table, members, kind);
    let files = files_of(table, table.len());
    let ordered = crate::plan::ordered_files(files, kind);
    crate::plan::segments_follow_the_order(format, data, table.len(), ordered, ordered.len());
    assert forall|k: int| #[trigger] file_at(table, k) implies exists|i: int|
        0 <= i < members.len() && (#[trigger] members[i]).index == k by {
        assert(!table[k].is_dir);
    }
}

/// A split set lists every file of the archive once, each with its own name, place and
/// access, in the order of their numbers and, where two are the same, of the table.
pub proof fn split_sets_are_whole_and_in_order(
    data: Seq<u8>,
    format: Format,
    table: Seq<EntryModel>,
    members: Seq<SegmentModel>,
    kind: SegmentKind,
)
    requires
        is_archive_of(data, format),
        listing(format, data) == Ok::<Option<Seq<EntryModel>>, ErrorModel>(Some(table)),
        table.len() <= usize::MAX,
        plan_of(data) == Ok::<PlanModel, ErrorModel>(
            PlanModel::SegmentSet { format, members, kind },
        ),
    ensures
        members.len() >= 2,
        forall|i: int|
            0 <= i < members.len() ==> {
                let member = #[trigger] members[i];
                &&& file_at(table, member.index as int)
                &&& member.name == table[member.index as int].name
                &&& segment_of(member.name, kind) is Some
                &&& access_of(format, data, table.len(), member.index) == Ok::<Access, ErrorModel>(
                    member.access,
                )
            },
        forall|i: int, j: int|
            0 <= i < j < members.len() ==> {
                let a = segment_of((#[trigger] members[i]).name, kind)->Some_0;
                let b = segment_of((#[trigger] members[j]).name, kind)->Some_0;
                a < b || (a == b && members[i].index < members[j].index)
            },
        forall|k: int| #[trigger]
            file_at(table, k) ==> exists|i: int|
                0 <= i < members.len() && (#[trigger] members[i]).index == k,
{
    archives_go_by_their_table(data, format);
    tables_list_split_sets_whole(data, format, table, members, kind);
}

/// A stream that is no archive is planned by what its first bytes say: a gzip stream of
/// raw bytes can be seek-indexed, any other wrapper is decoded once, a magic over what
/// does not decode is a coincidence, and data without a magic is read as it is.
pub proof fn streams_are_planned_by_their_heads(data: Seq<u8>, head: Seq<u8>)
    requires
        no_container(data),
    ensures
        no_magic(data) ==> plan_of(data) == Ok::<PlanModel, ErrorModel>(PlanModel::Direct),
        begins_gzip(data) && gzip_prefix(data, 512) is Err ==> plan_of(data) == Ok::<
            PlanModel,
            ErrorModel,
        >(PlanModel::Direct),
        begins_bzip2(data) && bzip2_prefix(data, 512) is Err ==> plan_of(data) == Ok::<
            PlanModel,
            ErrorModel,
        >(PlanModel::Direct),
        begins_gzip(data) && gzip_prefix(data, 512) == Ok::<Seq<u8>, Seq<char>>(head) && no_magic(
            head,
        ) ==> plan_of(data) == Ok::<PlanModel, ErrorModel>(
            PlanModel::Wrapper { codec: Codec::Gzip, access: Access::Zran },
        ),
        begins_bzip2(data) && bzip2_prefix(data, 512) == Ok::<Seq<u8>, Seq<char>>(head)
            && no_magic(head) ==> plan_of(data) == Ok::<PlanModel, ErrorModel>(
            PlanModel::Wrapper { codec: Codec::Bzip2, access: Access::SpillToTemp },
        ),
        begins_gzip(data) && gzip_prefix(data, 512) == Ok::<Seq<u8>, Seq<char>>(head) && !no_magic(
            head,
        ) && !tar_head(Ok(head)) ==> plan_of(data) == Ok::<PlanModel, ErrorModel>(
            PlanModel::Wrapper { codec: Codec::Gzip, access: Access::SpillToTemp },
        ),
        begins_bzip2(data) && bzip2_prefix(data, 512) == Ok::<Seq<u8>, Seq<char>>(head)
            && !no_magic(head) && !tar_head(Ok(head)) ==> plan_of(data) == Ok::<
            PlanModel,
            ErrorModel,
        >(PlanModel::Wrapper { codec: Codec::Bzip2, access: Access::SpillToTemp }),
{
    content_names_the_format(None, data);
    content_names_the_format(None, head);
    if no_magic(data) {
        names_speak_where_content_is_silent(None, data);
    }
    if no_magic(head) {
        names_speak_where_content_is_silent(None, head);
    }
}

// ---------------------------------------------------------------------------
// The detour

/// The name is that of something compressed.
pub open spec fn called_compressed(name: Option<Seq<char>>) -> bool {
    ||| called(name, ".gz"@)
    ||| called(name, ".bz2"@)
    ||| called(name, ".xz"@)
    ||| called(name, ".tgz"@)
    ||| called(name, ".taz"@)
    ||| called(name, ".tbz"@)
    ||| called(name, ".tbz2"@)
    ||| called(name, ".txz"@)
    ||| called(name, ".tzst"@)
    ||| called(name, ".tlz"@)
    ||| called(name, ".zst"@)
    ||| called(name, ".z"@)
}

/// These twelve extensions, in any case, and no others are those of something
/// compressed.
pub proof fn compression_extensions(name: Option<Seq<char>>)
    ensures
        names_compression(name) <==> called_compressed(name),
{
    suffixes_ignore_case(name, ".gz"@);
    suffixes_ignore_case(name, ".bz2"@);
    suffixes_ignore_case(name, ".xz"@);
    suffixes_ignore_case(name, ".tgz"@);
    suffixes_ignore_case(name, ".taz"@);
    suffixes_ignore_case(name, ".tbz"@);
    suffixes_ignore_case(name, ".tbz2"@);
    suffixes_ignore_case(name, ".txz"@);
    suffixes_ignore_case(name, ".tzst"@);
    suffixes_ignore_case(name, ".tlz"@);
    suffixes_ignore_case(name, ".zst"@);
    suffixes_ignore_case(name, ".z"@);
}

/// An image that was found, under the inflation cap.
pub open spec fn found_image(image: Seq<u8>, limits: Limits) -> Result<DetourModel, ErrorModel> {
    if image.len() <= limits.max_total_inflated {
        Ok(DetourModel::Inner(image))
    } else {
        Err(ErrorModel::TotalInflatedExceeded { cap: limits.max_total_inflated })
    }
}

/// Nothing was found.
pub open spec fn nothing_found() -> Result<DetourModel, ErrorModel> {
    Ok(DetourModel::NotPacked)
}

/// A bare wrapper under a compression extension is peeled to all of its content, and
/// under any other name it is left alone.
pub proof fn detours_through_wrappers(
    data: Seq<u8>,
    name: Option<Seq<char>>,
    inner: Seq<u8>,
    error: ErrorModel,
    limits: Limits,
)
    requires
        format_of(name, data) is Gzip || format_of(name, data) is Bzip2,
    ensures
        !called_compressed(name) ==> detour_of(data, name, limits) == nothing_found(),
        called_compressed(name) && format_of(name, data) is Gzip && gzip_holds(data, inner)
            && inner.len() <= 0x1_0000_0000 ==> detour_of(data, name, limits) == found_image(
            inner,
            limits,
        ),
        called_compressed(name) && format_of(name, data) is Bzip2 && bzip2_holds(data, inner)
            && inner.len() <= 0x1_0000_0000 ==> detour_of(data, name, limits) == found_image(
            inner,
            limits,
        ),
        called_compressed(name) && peel_of(data, name) == Err::<PeelModel, ErrorModel>(error)
            ==> detour_of(data, name, limits) == Err::<DetourModel, ErrorModel>(error),
        called_compressed(name) && (peel_of(data, name) matches Ok(
            PeelModel::Peeled { inner: content, .. },
        ) && content == inner) ==> detour_of(data, name, limits) == found_image(inner, limits),
{
    compression_extensions(name);
    wrappers_peel_whole(data, name, inner);
}

/// An archive with a single file is taken for that file, all of it; any other archive,
/// and anything that is no packing layer by its content, is left alone.
pub proof fn detours_through_archives(
    data: Seq<u8>,
    name: Option<Seq<char>>,
    table: Seq<EntryModel>,
    i: int,
    content: Seq<u8>,
    error: ErrorModel,
    limits: Limits,
)
    requires
        !(format_of(name, data) is Gzip),
        !(format_of(name, data) is Bzip2),
        table.len() <= usize::MAX,
    ensures
        no_magic(data) ==> detour_of(data, name, limits) == nothing_found(),
        !no_magic(data) && listing(format_of(name, data), data) == Err::<
            Option<Seq<EntryModel>>,
            ErrorModel,
        >(error) ==> detour_of(data, name, limits) == Err::<DetourModel, ErrorModel>(error),
        !no_magic(data) && listing(format_of(name, data), data) == Ok::<
            Option<Seq<EntryModel>>,
            ErrorModel,
        >(Some(table)) ==> {
            &&& several_files(table) || (forall|j: int| !#[trigger] file_at(table, j))
                ==> detour_of(data, name, limits) == nothing_found()
            &&& only_file(table, i) && member_content(
                format_of(name, data),
                data,
                table,
                i as usize,
                0x1_0000_0000,
            ) == Ok::<Seq<u8>, ErrorModel>(content) ==> detour_of(data, name, limits)
                == found_image(content, limits)
            &&& only_file(table, i) && member_content(
                format_of(name, data),
                data,
                table,
                i as usize,
                0x1_0000_0000,
            ) == Err::<Seq<u8>, ErrorModel>(error) ==> detour_of(data, name, limits) == Err::<
                DetourModel,
                ErrorModel,
            >(error)
        },
{
    files_and_rows(table);
    content_names_the_format(None, data);
    content_names_the_format(name, data);
    if no_magic(data) {
        names_speak_where_content_is_silent(None, data);
    }
    if only_file(table, i) {
        assert(files_of(table, table.len())[0] == (i as usize, table[i].name));
    }
}

// ---------------------------------------------------------------------------
// Sources

/// The text for a window that does not lie in its source.
pub open spec fn outside_text(offset: u64, len: u64, size: nat) -> Seq<char> {
    "member window ["@ + decimal(offset as nat) + ", "@ + decimal(offset as nat) + "+"@ + decimal(
        len as nat,
    ) + ") exceeds the "@ + decimal(size) + "-byte source"@
}

/// A stored member is a window of the archive's own bytes, and fails where it is over
/// the cap or does not lie in them; any other member is all that it reads as.
pub proof fn members_as_sources(
    format: Format,
    data: Seq<u8>,
    table: Seq<EntryModel>,
    index: usize,
    access: Access,
    content: Seq<u8>,
    error: ErrorModel,
    cap: u64,
)
    ensures
        access matches Access::InPlace { offset, len } ==> {
            &&& len > cap ==> member_source(format, data, index, access, cap) == Err::<
                SourceModel,
                ErrorModel,
            >(ErrorModel::TooLarge { cap })
            &&& len <= cap && offset + len > data.len() ==> member_source(
                format,
                data,
                index,
                access,
                cap,
            ) == Err::<SourceModel, ErrorModel>(
                ErrorModel::Read {
                    format: "in-place"@,
                    detail: outside_text(offset, len, data.len()),
                },
            )
            &&& len <= cap && offset + len <= data.len() && data.len() <= u64::MAX ==> (
            member_source(format, data, index, access, cap) matches Ok(model) && model == (
            SourceModel::InPlace { offset, len }) && model.reads_as(data) == data.subrange(
                offset as int,
                offset + len,
            ))
        },
        (access is Zran || access is SpillToTemp) && listing(format, data) == Ok::<
            Option<Seq<EntryModel>>,
            ErrorModel,
        >(Some(table)) ==> {
            &&& member_content(format, data, table, index, cap) == Ok::<Seq<u8>, ErrorModel>(
                content,
            ) ==> (member_source(format, data, index, access, cap) matches Ok(model) && model == (
            SourceModel::Temp { bytes: content }) && model.reads_as(data) == content)
            &&& member_content(format, data, table, index, cap) == Err::<Seq<u8>, ErrorModel>(
                error,
            ) ==> member_source(format, data, index, access, cap) == Err::<
                SourceModel,
                ErrorModel,
            >(error)
        },
{
}

/// The source is at its start, and reads as `content`.
pub open spec fn reads_from_start(source: PeeledSource, content: Seq<u8>) -> bool {
    source.valid() && source.position() == 0 && source.contents() == content
}

/// The seekable peel of a wrapper reads as all of its stream, that of an archive's
/// single file as its window or as all of the member, and nothing else is peeled.
pub proof fn seekable_peels(
    r: crate::error::Result<PeelSource>,
    data: Seq<u8>,
    inner: Seq<u8>,
    limits: Limits,
)
    requires
        peeled_as(r, data, limits),
        limits.max_total_inflated < u64::MAX || inner.len() <= u64::MAX,
    ensures
        plan_of(data) matches Err(e) ==> (r matches Err(error) && error@ == e),
        plan_of(data) matches Ok(plan) ==> {
            &&& plan is Direct || plan is Collection || plan is SegmentSet <==> (r matches Ok(
                PeelSource::NotPacked,
            ))
            &&& plan matches PlanModel::Wrapper { codec: Codec::Gzip, .. } ==> gzip_holds(
                data,
                inner,
            ) ==> if inner.len() <= limits.max_total_inflated {
                r matches Ok(PeelSource::Inner(source)) && reads_from_start(source, inner)
            } else {
                r matches Err(error) && error@ == (ErrorModel::TooLarge {
                    cap: limits.max_total_inflated,
                })
            }
            &&& plan matches PlanModel::Wrapper { codec: Codec::Bzip2, .. } ==> bzip2_holds(
                data,
                inner,
            ) ==> if inner.len() <= limits.max_total_inflated {
                r matches Ok(PeelSource::Inner(source)) && reads_from_start(source, inner)
            } else {
                r matches Err(error) && error@ == (ErrorModel::TooLarge {
                    cap: limits.max_total_inflated,
                })
            }
            &&& plan matches PlanModel::Member { format, index, access, .. } ==> match member_source(
                format,
                data,
                index,
                access,
                limits.max_total_inflated,
            ) {
                Ok(model) => r matches Ok(PeelSource::Inner(source)) && reads_from_start(
                    source,
                    model.reads_as(data),
                ),
                Err(e) => r matches Err(error) && error@ == e,
            }
        },
{
    streams_decode_whole(data, inner, Seq::empty(), limits.max_total_inflated);
}

// ---------------------------------------------------------------------------
// Reading and seeking

/// A read copies the bytes at the position into the front of the buffer, leaves the
/// rest of it as it was, and moves the position past them.
pub proof fn reads_are_copies(buf: Seq<u8>, contents: Seq<u8>, position: u64, n: int)
    requires
        0 <= n <= buf.len(),
        n <= bytes_left(contents, position),
    ensures
        filled(buf, contents, position, n).len() == buf.len(),
        forall|i: int|
            0 <= i < n ==> #[trigger] filled(buf, contents, position, n)[i] == contents[position
                + i],
        forall|i: int|
            n <= i < buf.len() ==> #[trigger] filled(buf, contents, position, n)[i] == buf[i],
        position + n <= u64::MAX ==> advanced(position, n as nat) == position + n,
        position <= contents.len() ==> bytes_left(contents, position) == contents.len() - position,
        position > contents.len() ==> bytes_left(contents, position) == 0,
{
}

/// A seek counts from the start, the end or the position, fails before the start and
/// past 64 bits, and where it is clamped stops at the end.
pub proof fn seeks_count(from: SeekFrom, position: u64, extent: u64)
    ensures
        from matches SeekFrom::Start(offset) ==> seek_target(from, position, extent) == Some(
            offset,
        ),
        from matches SeekFrom::End(offset) ==> seek_target(from, position, extent) == if 0 <= extent
            + offset <= u64::MAX {
            Some((extent + offset) as u64)
        } else {
            None
        },
        from matches SeekFrom::Current(offset) ==> seek_target(from, position, extent) == if 0
            <= position + offset <= u64::MAX {
            Some((position + offset) as u64)
        } else {
            None
        },
        clamped(None, extent) is None,
        forall|target: u64| #[trigger]
            clamped(Some(target), extent) == Some(
                if target < extent {
                    target
                } else {
                    extent
                },
            ),
{
}

// ---------------------------------------------------------------------------
// Reassembly

/// Parts are joined by putting them one behind the other.
pub proof fn parts_are_joined(parts: Seq<Seq<u8>>, n: nat)
    requires
        n <= parts.len(),
    ensures
        joined(parts, n) == parts.take(n as int).flatten(),
    decreases n,
{
    if n == 0 {
        assert(parts.take(0) =~= Seq::<Seq<u8>>::empty());
        assert(parts.take(0).flatten() =~= Seq::<u8>::empty());
    } else {
        parts_are_joined(parts, (n - 1) as nat);
        assert(parts.take(n as int) =~= parts.take(n - 1).push(parts[n - 1]));
        parts.take(n - 1).lemma_flatten_push(parts[n - 1]);
    }
}

proof fn sources_one_by_one(
    format: Format,
    data: Seq<u8>,
    members: Seq<SegmentModel>,
    n: nat,
    cap: u64,
)
    requires
        n <= members.len(),
    ensures
        sources_of(format, data, members, n, cap) matches Ok(models) ==> models.len() == n
            && forall|i: int|
            0 <= i < n ==> member_source(
                format,
                data,
                (#[trigger] members[i]).index,
                members[i].access,
                cap,
            ) == Ok::<SourceModel, ErrorModel>(models[i]),
        sources_of(format, data, members, n, cap) matches Err(e) ==> exists|i: int|
            0 <= i < n && member_source(
                format,
                data,
                (#[trigger] members[i]).index,
                members[i].access,
                cap,
            ) == Err::<SourceModel, ErrorModel>(e),
    decreases n,
{
    if n > 0 {
        sources_one_by_one(format, data, members, (n - 1) as nat, cap);
        assert(members[n - 1].index == members[n - 1].index);
    }
}

/// The sources are those of the members, one for each and in their order.
pub open spec fn sources_in_order(
    sources: Seq<PeeledSource>,
    format: Format,
    data: Seq<u8>,
    members: Seq<SegmentModel>,
    cap: u64,
) -> bool {
    &&& sources.len() == members.len()
    &&& forall|i: int|
        0 <= i < members.len() ==> {
            &&& member_source(
                format,
                data,
                (#[trigger] members[i]).index,
                members[i].access,
                cap,
            ) matches Ok(model)
            &&& reads_from_start(sources[i], model.reads_as(data))
        }
}

/// A member of the set has no source, for this reason.
pub open spec fn some_source_fails(
    format: Format,
    data: Seq<u8>,
    members: Seq<SegmentModel>,
    cap: u64,
    e: ErrorModel,
) -> bool {
    exists|i: int|
        0 <= i < members.len() && member_source(
            format,
            data,
            (#[trigger] members[i]).index,
            members[i].access,
            cap,
        ) == Err::<SourceModel, ErrorModel>(e)
}

proof fn fresh_sources_in_order(
    ss: SegmentSources,
    format: Format,
    data: Seq<u8>,
    members: Seq<SegmentModel>,
    cap: u64,
)
    requires
        sources_of(format, data, members, members.len(), cap) is Ok,
        ss.are_fresh(data, sources_of(format, data, members, members.len(), cap)->Ok_0),
    ensures
        sources_in_order(ss.sources@, format, data, members, cap),
{
    sources_one_by_one(format, data, members, members.len(), cap);
    let models = sources_of(format, data, members, members.len(), cap)->Ok_0;
    assert forall|i: int| 0 <= i < members.len() implies {
        &&& member_source(
            format,
            data,
            (#[trigger] members[i]).index,
            members[i].access,
            cap,
        ) matches Ok(model)
        &&& reads_from_start(ss.sources@[i], model.reads_as(data))
    } by {
        assert(ss.sources@[i].is_fresh(data, models[i]));
    }
}

/// A split set opens to the sources of its members in order, and nothing else does.
pub proof fn split_sets_open(
    r: crate::error::Result<Option<SegmentSources>>,
    data: Seq<u8>,
    cap: u64,
)
    requires
        segmented_as(r, data, cap),
    ensures
        plan_of(data) matches Err(e) ==> (r matches Err(error) && error@ == e),
        plan_of(data) matches Ok(plan) ==> {
            &&& !(plan is SegmentSet) ==> (r matches Ok(None))
            &&& plan matches PlanModel::SegmentSet { format, members, kind } ==> match r {
                Ok(Some(ss)) => ss.format == format && ss.kind == kind && sources_in_order(
                    ss.sources@,
                    format,
                    data,
                    members,
                    cap,
                ),
                Ok(None) => false,
                Err(error) => some_source_fails(format, data, members, cap, error@),
            }
        },
{
    if let Ok(PlanModel::SegmentSet { format, members, .. }) = plan_of(data) {
        sources_one_by_one(format, data, members, members.len(), cap);
        if let Ok(Some(ss)) = r {
            fresh_sources_in_order(ss, format, data, members, cap);
        }
    }
}

/// A raw split becomes one image, and no other split set does: EWF and VMDK segments
/// are handed over as they are, in order. What is no split set is not reassembled.
pub proof fn reassembly_goes_by_the_kind(
    r: crate::error::Result<Reassembled>,
    data: Seq<u8>,
    cap: u64,
)
    requires
        reassembled_as(r, data, cap),
    ensures
        plan_of(data) matches Err(e) ==> (r matches Err(error) && error@ == e),
        plan_of(data) matches Ok(plan) ==> {
            &&& !(plan is SegmentSet) <==> (r matches Ok(Reassembled::NotSegmented))
            &&& plan matches PlanModel::SegmentSet { format, members, kind } ==> match r {
                Ok(Reassembled::Concat(_)) => kind == SegmentKind::SplitRaw,
                Ok(Reassembled::Segments(ss)) => {
                    &&& kind == SegmentKind::Ewf || kind == SegmentKind::SplitVmdk
                    &&& ss.format == format
                    &&& ss.kind == kind
                    &&& sources_in_order(ss.sources@, format, data, members, cap)
                },
                Ok(Reassembled::NotSegmented) => false,
                Err(error) => some_source_fails(format, data, members, cap, error@),
            }
        },
{
    if let Ok(PlanModel::SegmentSet { format, members, .. }) = plan_of(data) {
        sources_one_by_one(format, data, members, members.len(), cap);
        if let Ok(Reassembled::Segments(ss)) = r {
            fresh_sources_in_order(ss, format, data, members, cap);
        }
    }
}

/// The image of a raw split is the bytes of its members, one behind the other in their
/// order, from the start.
pub proof fn images_are_their_members_in_order(
    r: crate::error::Result<Reassembled>,
    data: Seq<u8>,
    cap: u64,
)
    requires
        reassembled_as(r, data, cap),
        r matches Ok(Reassembled::Concat(_)),
    ensures
        ({
            let image = r->Ok_0->Concat_0;
            &&& image.valid()
            &&& image.position() == 0
            &&& image.contents() == image.segments().flatten()
            &&& image.contents().len() <= u64::MAX ==> image.extent() == image.contents().len()
            &&& plan_of(data) matches Ok(PlanModel::SegmentSet { format, members, .. })
            &&& image.segments().len() == members.len()
            &&& forall|i: int|
                0 <= i < members.len() ==> {
                    &&& member_source(
                        format,
                        data,
                        (#[trigger] members[i]).index,
                        members[i].access,
                        cap,
                    ) matches Ok(model)
                    &&& image.segments()[i] == model.reads_as(data)
                }
        }),
{
    if let Ok(PlanModel::SegmentSet { format, members, .. }) = plan_of(data) {
        sources_one_by_one(format, data, members, members.len(), cap);
        let models = sources_of(format, data, members, members.len(), cap)->Ok_0;
        let parts = crate::reassemble::read_parts(data, models);
        parts_are_joined(parts, parts.len());
        assert(parts.take(parts.len() as int) =~= parts);
        assert forall|i: int| 0 <= i < members.len() implies {
            &&& member_source(
                format,
                data,
                (#[trigger] members[i]).index,
                members[i].access,
                cap,
            ) matches Ok(model)
            &&& parts[i] == model.reads_as(data)
        } by {
            assert(parts[i] == models[i].reads_as(data));
        }
    }
}

/// One read of a reassembled image fills the buffer or goes to the end of a part, never
/// further.
pub proof fn reads_end_with_their_part(
    parts: Seq<Seq<u8>>,
    position: u64,
    wanted: nat,
    n: nat,
)
    requires
        reads_within_segment(parts, position, wanted, n),
    ensures
        n <= wanted,
        exists|i: int| #[trigger]
            owns(parts, i, position) && parts.take(i).flatten().len() <= position && position + n
                <= parts.take(i + 1).flatten().len() && (n == wanted || position + n == parts.take(
                i + 1,
            ).flatten().len()),
{
    let i = choose|i: int| #[trigger]
        owns(parts, i, position) && n == if wanted < joined(parts, (i + 1) as nat).len() - position {
            wanted
        } else {
            (joined(parts, (i + 1) as nat).len() - position) as nat
        };
    parts_are_joined(parts, i as nat);
    parts_are_joined(parts, (i + 1) as nat);
    assert(owns(parts, i, position));
}

// ---------------------------------------------------------------------------
// The opener

/// A layer is recognized by its first bytes, and the text says by which.
pub proof fn probes_name_the_magic(window: Seq<u8>)
    ensures
        no_magic(window) ==> recognized_by(format_of(None, window)) is None,
        begins_7z(window) ==> recognized_by(format_of(None, window)) == Some(
            "archive: 7z magic (37 7a bc af 27 1c)"@,
        ),
        begins_zip(window) ==> recognized_by(format_of(None, window)) == Some(
            "archive: zip magic (PK\\x03\\x04)"@,
        ),
        begins_tar(window) && !begins_7z(window) && !begins_zip(window) ==> recognized_by(
            format_of(None, window),
        ) == Some("archive: ustar magic (offset 257)"@),
        no_container(window) && begins_gzip(window) ==> recognized_by(format_of(None, window))
            == Some("archive: gzip magic (1f 8b)"@),
        no_container(window) && begins_bzip2(window) ==> recognized_by(format_of(None, window))
            == Some("archive: bzip2 magic (BZh)"@),
{
    content_names_the_format(None, window);
    if no_magic(window) {
        names_speak_where_content_is_silent(None, window);
    }
}

/// The places of the files in the first `n` rows, in order.
pub open spec fn file_places(table: Seq<EntryModel>, n: nat) -> Seq<int>
    decreases n,
{
    if n == 0 {
        Seq::empty()
    } else if table[n - 1].is_dir {
        file_places(table, (n - 1) as nat)
    } else {
        file_places(table, (n - 1) as nat).push(n - 1)
    }
}

/// The members are the files of the archive, each with its name and all of its bytes.
pub open spec fn opened_members(
    format: Format,
    data: Seq<u8>,
    table: Seq<EntryModel>,
    n: nat,
    members: Seq<(Seq<u8>, Seq<u8>)>,
) -> bool {
    let places = file_places(table, n);
    &&& members.len() == places.len()
    &&& forall|k: int|
        0 <= k < places.len() ==> {
            &&& (#[trigger] members[k]).0 == encode_utf8(table[places[k]].name)
            &&& member_content(format, data, table, places[k] as usize, 0x1_0000_0000) == Ok::<
                Seq<u8>,
                ErrorModel,
            >(members[k].1)
        }
}

proof fn members_one_by_one(format: Format, data: Seq<u8>, table: Seq<EntryModel>, n: nat)
    requires
        n <= table.len() <= usize::MAX,
    ensures
        crate::vfs::members_of(format, data, table, n) matches Ok(members) ==> opened_members(
            format,
            data,
            table,
            n,
            members,
        ),
        crate::vfs::members_of(format, data, table, n) matches Err(e) ==> exists|i: int| #[trigger]
            file_at(table, i) && i < n && member_content(
                format,
                data,
                table,
                i as usize,
                0x1_0000_0000,
            ) == Err::<Seq<u8>, ErrorModel>(e),
    decreases n,
{
    if n > 0 {
        members_one_by_one(format, data, table, (n - 1) as nat);
        assert(file_at(table, n - 1) || table[n - 1].is_dir);
    }
}

/// A layer opens to all of its stream or to all of its files, and fails with the text
/// of what went wrong.
pub proof fn layers_open(
    data: Seq<u8>,
    inner: Seq<u8>,
    error: ErrorModel,
    table: Seq<EntryModel>,
)
    requires
        table.len() <= usize::MAX,
    ensures
        no_magic(data) ==> contents_of(data) == Err::<ContentsModel, Seq<char>>(
            "not a recognized archive layer"@,
        ),
        (peel_of(data, None) matches Ok(PeelModel::Peeled { inner: content, .. }) && content
            == inner) ==> contents_of(data) == Ok::<ContentsModel, Seq<char>>(
            ContentsModel::Stream(inner),
        ),
        peel_of(data, None) == Err::<PeelModel, ErrorModel>(error) ==> contents_of(data) == Err::<
            ContentsModel,
            Seq<char>,
        >(error.message()),
        listing(format_of(None, data), data) == Err::<Option<Seq<EntryModel>>, ErrorModel>(error)
            ==> contents_of(data) == Err::<ContentsModel, Seq<char>>(error.message()),
        listing(format_of(None, data), data) == Ok::<Option<Seq<EntryModel>>, ErrorModel>(
            Some(table),
        ) ==> match contents_of(data) {
            Ok(ContentsModel::Members(members)) => opened_members(
                format_of(None, data),
                data,
                table,
                table.len(),
                members,
            ),
            Ok(ContentsModel::Stream(_)) => false,
            Err(text) => exists|i: int| #[trigger]
                file_at(table, i) && (member_content(
                    format_of(None, data),
                    data,
                    table,
                    i as usize,
                    0x1_0000_0000,
                ) matches Err(e) && text == e.message()),
        },
{
    if no_magic(data) {
        names_speak_where_content_is_silent(None, data);
    }
    members_one_by_one(format_of(None, data), data, table, table.len());
}

/// A failure carries the first sixteen bytes, or all where there are fewer.
pub proof fn failures_carry_the_first_bytes(data: Seq<u8>)
    ensures
        data.len() <= 16 ==> head_bytes(data) == data,
        data.len() > 16 ==> head_bytes(data) == data.subrange(0, 16),
{
    if data.len() > 16 {
        assert(data.take(16) =~= data.subrange(0, 16));
    }
}

// ---------------------------------------------------------------------------
// Messages

/// What each error says.
pub proof fn messages(
    format: Seq<char>,
    detail: Seq<char>,
    cap: u64,
    index: usize,
    count: usize,
)
    ensures
        (ErrorModel::Decode { format, detail }).message() == format + " decode failed: "@ + detail,
        (ErrorModel::TooLarge { cap }).message() == "decompressed output exceeds the "@ + decimal(
            cap as nat,
        ) + "-byte cap"@,
        (ErrorModel::Open { format, detail }).message() == format + " archive open failed: "@
            + detail,
        (ErrorModel::Read { format, detail }).message() == format + " member read failed: "@
            + detail,
        (ErrorModel::IndexOutOfRange { index, count }).message() == "member index "@ + decimal(
            index as nat,
        ) + " out of range ("@ + decimal(count as nat) + " members)"@,
        (ErrorModel::DepthExceeded { max: index, chain: detail }).message()
            == "nesting depth exceeded the max of "@ + decimal(index as nat)
            + " at layer chain: "@ + detail,
        (ErrorModel::TooManyEntries { max: index }).message() == "member count exceeded the max of "@
            + decimal(index as nat),
        (ErrorModel::TotalInflatedExceeded { cap }).message()
            == "cumulative inflated size exceeded the "@ + decimal(cap as nat) + "-byte cap"@,
{
}

// ---------------------------------------------------------------------------
// Models

/// A model holds all that its value holds, and so does that of a row of values.
pub proof fn nodes_and_their_models(node: Node, nodes: Seq<Node>)
    ensures
        node matches Node::File { name, bytes } ==> node@ == (NodeModel::File {
            name: name@,
            bytes: bytes@,
        }),
        node matches Node::Dir { name } ==> node@ == (NodeModel::Dir { name: name@ }),
        node_models(nodes).len() == nodes.len(),
        forall|i: int| 0 <= i < nodes.len() ==> #[trigger] node_models(nodes)[i] == nodes[i]@,
{
}

/// An entry's model holds its name, its size and whether it is a directory.
pub proof fn entries_and_their_models(entry: ArchiveEntry, entries: Seq<ArchiveEntry>)
    ensures
        entry@.name == entry.name@,
        entry@.size == entry.size,
        entry@.is_dir == entry.is_dir,
        entry_models(entries).len() == entries.len(),
        forall|i: int|
            0 <= i < entries.len() ==> #[trigger] entry_models(entries)[i] == entries[i]@,
{
}

/// A plan's model is of the same kind and holds the same parts.
pub proof fn plans_and_their_models(plan: AccessPlan, segment: Segment, segments: Seq<Segment>)
    ensures
        plan is Direct <==> plan@ is Direct,
        plan matches AccessPlan::Wrapper { codec, access } ==> plan@ == (PlanModel::Wrapper {
            codec,
            access,
        }),
        plan matches AccessPlan::Member { format, index, name, access } ==> plan@ == (
        PlanModel::Member { format, index, name: name@, access }),
        plan matches AccessPlan::SegmentSet { format, members, kind } ==> plan@ == (
        PlanModel::SegmentSet { format, members: segment_models(members@), kind }),
        plan matches AccessPlan::Collection { format } ==> plan@ == (PlanModel::Collection {
            format,
        }),
        segment@.name == segment.name@,
        segment@.index == segment.index,
        segment@.access == segment.access,
        segment_models(segments).len() == segments.len(),
        forall|i: int|
            0 <= i < segments.len() ==> #[trigger] segment_models(segments)[i] == segments[i]@,
{
}

/// The models of the smaller outcomes hold what the outcomes hold.
pub proof fn outcomes_and_their_models(
    detour: Detour,
    peel: PeelOutcome,
    contents: ArchiveContents,
    members: Seq<Member>,
)
    ensures
        detour is NotPacked <==> detour@ is NotPacked,
        detour matches Detour::Inner(bytes) ==> detour@ == DetourModel::Inner(bytes@),
        peel is NotPacked <==> peel@ is NotPacked,
        peel matches PeelOutcome::Peeled { format, inner } ==> peel@ == (PeelModel::Peeled {
            format,
            inner: inner@,
        }),
        contents matches ArchiveContents::Stream(source) ==> contents@ == ContentsModel::Stream(
            source@,
        ),
        contents matches ArchiveContents::Members(rows) ==> contents@ == ContentsModel::Members(
            member_models(rows@),
        ),
        member_models(members).len() == members.len(),
        forall|i: int|
            0 <= i < members.len() ==> #[trigger] member_models(members)[i] == (
                members[i].name@,
                members[i].source@,
            ),
{
}

/// An error's model holds its fields.
pub proof fn errors_and_their_models(error: ArchiveError)
    ensures
        error matches ArchiveError::Decode { format, detail } ==> error@ == (ErrorModel::Decode {
            format: format@,
            detail: detail@,
        }),
        error matches ArchiveError::TooLarge { cap } ==> error@ == (ErrorModel::TooLarge { cap }),
        error matches ArchiveError::Open { format, detail } ==> error@ == (ErrorModel::Open {
            format: format@,
            detail: detail@,
        }),
        error matches ArchiveError::Read { format, detail } ==> error@ == (ErrorModel::Read {
            format: format@,
            detail: detail@,
        }),
        error matches ArchiveError::IndexOutOfRange { index, count } ==> error@ == (
        ErrorModel::IndexOutOfRange { index, count }),
        error matches ArchiveError::DepthExceeded { max, chain } ==> error@ == (
        ErrorModel::DepthExceeded { max, chain: chain@ }),
        error matches ArchiveError::TooManyEntries { max } ==> error@ == (
        ErrorModel::TooManyEntries { max }),
        error matches ArchiveError::TotalInflatedExceeded { cap } ==> error@ == (
        ErrorModel::TotalInflatedExceeded { cap }),
{
}

/// A result's model is a success where the result is one, with the value's model, and
/// otherwise holds the error's.
pub proof fn results_and_their_models(
    nodes: crate::error::Result<Vec<Node>>,
    plan: crate::error::Result<AccessPlan>,
    detour: crate::error::Result<Detour>,
    peel: crate::error::Result<PeelOutcome>,
    bytes: crate::error::Result<Vec<u8>>,
    access: crate::error::Result<Access>,
)
    ensures
        resolve_model(nodes) == match nodes {
            Ok(v) => Ok::<Seq<NodeModel>, ErrorModel>(node_models(v@)),
            Err(e) => Err(e@),
        },
        plan_model(plan) == match plan {
            Ok(v) => Ok::<PlanModel, ErrorModel>(v@),
            Err(e) => Err(e@),
        },
        detour_model(detour) == match detour {
            Ok(v) => Ok::<DetourModel, ErrorModel>(v@),
            Err(e) => Err(e@),
        },
        peel_model(peel) == match peel {
            Ok(v) => Ok::<PeelModel, ErrorModel>(v@),
            Err(e) => Err(e@),
        },
        bytes_model(bytes) == match bytes {
            Ok(v) => Ok::<Seq<u8>, ErrorModel>(v@),
            Err(e) => Err(e@),
        },
        result_model(access) == match access {
            Ok(v) => Ok::<Access, ErrorModel>(v),
            Err(e) => Err(e@),
        },
{
}

/// An opened archive is one over the data, of the format, with the listing's table; what
/// is no archive opens to nothing, and a failure is the listing's.
pub proof fn opened_archives(
    r: crate::error::Result<Option<Archive>>,
    format: Format,
    data: Seq<u8>,
)
    requires
        opened_as(r, format, data),
    ensures
        match r {
            Ok(Some(archive)) => {
                &&& archive.kind() == format
                &&& archive.source() == data
                &&& listing(format, data) == Ok::<Option<Seq<EntryModel>>, ErrorModel>(
                    Some(archive.table()),
                )
            },
            Ok(None) => format is Gzip || format is Bzip2 || format is Unknown,
            Err(e) => listing(format, data) == Err::<Option<Seq<EntryModel>>, ErrorModel>(e@),
        },
{
}

/// A streamed member's count is the length of its content, and the sink holds what it
/// held and then the content; of a member over the cap it holds the content up to the
/// byte that shows it.
pub proof fn streamed_members(
    r: crate::error::Result<u64>,
    content: Result<Seq<u8>, ErrorModel>,
    before: Seq<u8>,
    after: Seq<u8>,
    spill: Seq<u8>,
    cap: u64,
)
    ensures
        count_model(r, content) ==> match r {
            Ok(n) => content matches Ok(bytes) && n == bytes.len(),
            Err(e) => content == Err::<Seq<u8>, ErrorModel>(e@),
        },
        spilled_onto(before, after, Some(spill), cap) ==> after == before + spill,
        spilled_onto(before, after, None, cap) ==> after.len() >= before.len() && after.subrange(
            0,
            before.len() as int,
        ) == before && (cap < u64::MAX ==> after.len() <= before.len() + cap + 1),
{
    if spilled_onto(before, after, None, cap) {
        assert(after.subrange(0, before.len() as int) =~= before);
    }
}

/// What goes to the sink of a member that holds `content`: all of it, or where it is over
/// the cap one byte more than the cap.
pub proof fn members_spill_up_to_the_cap(
    format: Format,
    data: Seq<u8>,
    table: Seq<EntryModel>,
    index: usize,
    content: Seq<u8>,
    cap: u64,
)
    requires
        index < table.len(),
        cap < u64::MAX,
    ensures
        zip_decodes(data, index) && zip_holds(data, index, content) ==> member_spill(
            Format::Zip,
            data,
            table,
            index,
            cap,
        ) == Some(
            if content.len() <= cap {
                content
            } else {
                content.subrange(0, cap + 1)
            },
        ),
        (format is Tar || format is TarGz || format is TarBz2) && (tar_source(
            format,
            data,
        ) matches Ok(tar) && tar_holds(tar, index, content)) ==> member_spill(
            format,
            data,
            table,
            index,
            cap,
        ) == Some(
            if content.len() <= cap {
                content
            } else {
                content.subrange(0, cap + 1)
            },
        ),
        member_content(Format::SevenZip, data, table, index, cap) == Ok::<Seq<u8>, ErrorModel>(
            content,
        ) ==> member_spill(Format::SevenZip, data, table, index, cap) == Some(content),
        member_content(Format::SevenZip, data, table, index, cap) is Err ==> member_spill(
            Format::SevenZip,
            data,
            table,
            index,
            cap,
        ) == Some(Seq::<u8>::empty()),
{
    let past = (cap + 1) as u64;
    assert(first_bytes(content, past) =~= if content.len() <= cap {
        content
    } else {
        content.subrange(0, cap + 1)
    });
    if zip_holds(data, index, content) {
        assert(zip_member(data, index, past) == Ok::<Seq<u8>, Seq<char>>(
            first_bytes(content, past),
        ));
    }
    if let Ok(tar) = tar_source(format, data) {
        if tar_holds(tar, index, content) {
            assert(tar_member(tar, index, past) == Ok::<Option<Seq<u8>>, Seq<char>>(
                Some(first_bytes(content, past)),
            ));
        }
    }
}

/// A step of a resolution leaves the totals and the nodes where the resolution says, and
/// fails with its error.
pub proof fn steps_of_a_resolution(
    r: crate::error::Result<()>,
    budget: Budget,
    out: Seq<Node>,
    expected: Result<Progress, Stop>,
    depth: usize,
    limits: Limits,
)
    ensures
        stepped(r, budget, out, expected) ==> match r {
            Ok(_) => expected matches Ok(end) && end.budget == budget && end.nodes == node_models(
                out,
            ),
            Err(e) => expected matches Err(stop) && stop.error == e@ && stop.at.budget == budget
                && stop.at.nodes == node_models(out),
        },
        depth <= limits.max_depth ==> layers_left(depth, limits) == limits.max_depth - depth + 1,
        depth > limits.max_depth ==> layers_left(depth, limits) == 0,
{
}

/// A layer's failure names the archive layer, the start of the data, the detail and the
/// first bytes.
pub proof fn layer_failures(error: LayerError, data: Seq<u8>, detail: Seq<char>)
    requires
        error.says(data, detail),
    ensures
        error.layer@ == "archive"@,
        error.offset == 0,
        error.detail@ == detail,
        data.len() <= 16 ==> error.bytes@ == data,
        data.len() > 16 ==> error.bytes@ == data.subrange(0, 16),
{
    failures_carry_the_first_bytes(data);
}

// ---------------------------------------------------------------------------
// What is not refused

/// A member header in a ZIP directory stands at `at`.
pub open spec fn member_header(s: Seq<u8>, at: int) -> bool {
    &&& 0 <= at
    &&& at + 46 <= s.len()
    &&& s[at] == 0x50
    &&& s[at + 1] == 0x4B
    &&& s[at + 2] == 0x01
    &&& s[at + 3] == 0x02
}

/// Four bytes of all ones stand at `at`.
pub open spec fn all_ones(s: Seq<u8>, at: int) -> bool {
    s[at] == 0xFF && s[at + 1] == 0xFF && s[at + 2] == 0xFF && s[at + 3] == 0xFF
}

/// The offset of the member is a short one; if it is compressed with XZ, no four bytes in
/// the archive are all ones, and if with Zstandard, it has less than 65280 bytes.
pub open spec fn plain_member(s: Seq<u8>, at: int) -> bool {
    &&& s[at + 10] == 95 && s[at + 11] == 0 ==> forall|w: int|
        0 <= w && w + 4 <= s.len() ==> !#[trigger] all_ones(s, w)
    &&& s[at + 10] == 93 && s[at + 11] == 0 ==> s[at + 21] < 0xFF && s[at + 22] == 0 && s[at + 23]
        == 0
    &&& !all_ones(s, at + 42)
}

proof fn short_blocks_fit(s: Seq<u8>, at: int, stop: int)
    requires
        stop - at <= 65_468,
    ensures
        crate::guard::blocks_fit(s, at, stop),
    decreases stop - at,
{
    if at + 3 <= stop && at + 3 + crate::guard::block_body(s, at) <= stop {
        assert(crate::guard::block_body(s, at) >= 0);
        short_blocks_fit(s, at + 3 + crate::guard::block_body(s, at), stop);
    }
}

proof fn plain_data_fits(s: Seq<u8>, header: int, at: int)
    requires
        member_header(s, header),
        plain_member(s, header),
        0 <= at,
    ensures
        crate::guard::data_fits(s, le16(s, header + 10), at, le32(s, header + 20)),
{
    if at + 30 <= s.len() && le32(s, at) == crate::guard::LOCAL_SIGNATURE {
        let size = le32(s, header + 20);
        let data = at + 30 + le16(s, at + 26) + le16(s, at + 28);
        let stop = if data + size < s.len() {
            data + size
        } else {
            s.len() as int
        };
        if le16(s, header + 10) == 95 {
            assert(s[header + 10] == 95 && s[header + 11] == 0);
            assert forall|w: int| data <= w && w + 4 <= stop && (w - data) % 4 == 0 implies #[trigger]
                le32(s, w) != 0xffff_ffff by {
                assert(!all_ones(s, w));
            }
        }
        if le16(s, header + 10) == 93 {
            assert(s[header + 10] == 93 && s[header + 11] == 0);
            assert(size <= 65_279);
            short_blocks_fit(s, data + crate::guard::frame_head(s, data), stop);
        }
    }
}

proof fn plain_members_fit(s: Seq<u8>, at: int, stop: int, n: nat, shift: int)
    requires
        forall|p: int| #[trigger] member_header(s, p) ==> plain_member(s, p),
        0 <= at,
        stop <= s.len(),
        0 <= shift <= s.len(),
        s.len() <= 0x4000_0000_0000_0000,
    ensures
        members_fit(s, at, stop, n, shift),
    decreases n,
{
    if n > 0 && at + 46 <= stop && le32(s, at) == MEMBER_SIGNATURE && next_header(s, at) <= stop {
        assert(member_header(s, at));
        assert(plain_member(s, at));
        assert(le32(s, at + 42) != 0xffff_ffff);
        if let Some(place) = place_of(s, at) {
            assert(place.offset == le32(s, at + 42));
            if le16(s, at + 10) == 93 {
                assert(place.size == le32(s, at + 20));
                plain_data_fits(s, at, place.offset + shift);
            } else if le16(s, at + 10) == 95 {
                if le32(s, at + 20) == 0xffff_ffff {
                    assert(all_ones(s, at + 20));
                }
                assert(place.size == le32(s, at + 20));
                plain_data_fits(s, at, place.offset + shift);
            }
        }
        plain_members_fit(s, next_header(s, at), stop, (n - 1) as nat, shift);
    }
}

/// A ZIP archive is not refused for its size or for how many members it has: with no long
/// offsets, XZ members without words of all ones and short Zstandard members it fits its
/// reader.
pub proof fn ordinary_zips_fit(s: Seq<u8>)
    requires
        s.len() <= 0x4000_0000_0000_0000,
        forall|at: int| #[trigger] member_header(s, at) ==> plain_member(s, at),
    ensures
        zip_fits(s),
{
    assert forall|end: int| #[trigger]
        crate::guard::end_record_at(s, end) implies (directory_of(s, end) matches Some(dir)
        ==> members_fit(s, dir.at, dir.at + dir.size, dir.count, dir.shift)) by {
        if let Some(dir) = directory_of(s, end) {
            plain_members_fit(s, dir.at, dir.at + dir.size, dir.count, dir.shift);
        }
    }
}

/// The number in the two bytes at `at`, the low one first.
pub open spec fn two_bytes(s: Seq<u8>, at: int) -> int {
    s[at] + 256 * s[at + 1]
}

/// The number in the four bytes at `at`, the low ones first.
pub open spec fn four_bytes(s: Seq<u8>, at: int) -> int {
    s[at] + 256 * s[at + 1] + 65_536 * s[at + 2] + 16_777_216 * s[at + 3]
}

/// Where directory header number `k` stands, the first one being at `at`: each has 46 bytes
/// and then a name, extra fields and a comment.
pub open spec fn header_number(s: Seq<u8>, at: int, k: nat) -> int
    decreases k,
{
    if k == 0 {
        at
    } else {
        let h = header_number(s, at, (k - 1) as nat);
        h + 46 + two_bytes(s, h + 28) + two_bytes(s, h + 30) + two_bytes(s, h + 32)
    }
}

/// A directory of `count` headers from `at` on stands right before the end record at the
/// very end of the archive.
pub open spec fn ends_with_directory(s: Seq<u8>, at: int, count: nat) -> bool {
    let end = s.len() - 22;
    &&& 0 <= at
    &&& at <= end
    &&& count < 0xFFFF
    &&& s[end] == 0x50
    &&& s[end + 1] == 0x4B
    &&& s[end + 2] == 0x05
    &&& s[end + 3] == 0x06
    &&& two_bytes(s, end + 10) == count
    &&& four_bytes(s, end + 12) == end - at
    &&& four_bytes(s, end + 16) == at
    &&& !all_ones(s, end + 12)
    &&& !all_ones(s, end + 16)
    &&& forall|k: nat| k < count ==> member_header(s, #[trigger] header_number(s, at, k))
    &&& header_number(s, at, count) == end
}

proof fn headers_grow(s: Seq<u8>, at: int, k: nat, n: nat)
    requires
        k <= n,
    ensures
        header_number(s, at, k) <= header_number(s, at, n),
    decreases n,
{
    if k < n {
        headers_grow(s, at, k, (n - 1) as nat);
    }
}

proof fn each_member_fits(s: Seq<u8>, at: int, count: nat, k: nat)
    requires
        ends_with_directory(s, at, count),
        k <= count,
        members_fit(s, at, s.len() - 22, count, 0),
    ensures
        members_fit(s, header_number(s, at, k), s.len() - 22, (count - k) as nat, 0),
        k < count ==> crate::guard::member_fits(s, header_number(s, at, k), 0),
    decreases k,
{
    if k > 0 {
        each_member_fits(s, at, count, (k - 1) as nat);
        headers_grow(s, at, k, count);
        let h = header_number(s, at, (k - 1) as nat);
        assert(member_header(s, h));
        assert(next_header(s, h) == header_number(s, at, k));
    }
    if k < count {
        let h = header_number(s, at, k);
        headers_grow(s, at, k + 1, count);
        assert(member_header(s, h));
        assert(next_header(s, h) == header_number(s, at, k + 1));
        assert(le32(s, h) == MEMBER_SIGNATURE);
        assert(h + 46 <= s.len() - 22);
        assert((count - k) as nat > 0);
    }
}

/// Every XZ member of a ZIP archive is looked at before the archive is opened: where a word
/// of its data is all ones the archive is refused.
pub proof fn overlong_xz_members_are_refused(s: Seq<u8>, at: int, count: nat, k: nat, w: int)
    requires
        ends_with_directory(s, at, count),
        k < count,
        ({
            let header = header_number(s, at, k);
            let local = four_bytes(s, header + 42);
            let data = local + 30 + two_bytes(s, local + 26) + two_bytes(s, local + 28);
            &&& two_bytes(s, header + 10) == 95
            &&& !all_ones(s, header + 20)
            &&& !all_ones(s, header + 24)
            &&& !all_ones(s, header + 42)
            &&& local + 30 <= s.len()
            &&& s[local] == 0x50 && s[local + 1] == 0x4B && s[local + 2] == 0x03 && s[local + 3]
                == 0x04
            &&& data <= w
            &&& w + 4 <= data + four_bytes(s, header + 20)
            &&& w + 4 <= s.len()
            &&& (w - data) % 4 == 0
            &&& all_ones(s, w)
        }),
    ensures
        listing(Format::Zip, s) == cannot_open("zip"@, "zip member runs past its reader"@),
{
    let end = s.len() - 22;
    assert(le32(s, end) == crate::guard::END_SIGNATURE);
    assert(crate::guard::end_record_at(s, end));
    if zip_fits(s) {
        assert(member_header(s, header_number(s, at, 0)));
        let dir = directory_of(s, end)->Some_0;
        assert(dir.at == at && dir.size == end - at && dir.count == count && dir.shift == 0);
        each_member_fits(s, at, count, k);
        let header = header_number(s, at, k);
        let place = place_of(s, header)->Some_0;
        assert(place.offset == four_bytes(s, header + 42));
        assert(place.size == four_bytes(s, header + 20));
        assert(le32(s, place.offset) == crate::guard::LOCAL_SIGNATURE);
        assert(le32(s, w) == 0xffff_ffff);
        assert(false);
    }
}

/// No block of the tar has the type of a sparse entry.
pub open spec fn no_sparse_entries(s: Seq<u8>) -> bool {
    forall|at: int| 0 <= at && at % 512 == 0 && at + 512 <= s.len() ==> #[trigger] s[at + 156]
        != 0x53
}

proof fn plain_walk(s: Seq<u8>, at: int)
    requires
        no_sparse_entries(s),
        s.len() <= STREAM_MAX,
        0 <= at <= s.len(),
        at % 512 == 0,
    ensures
        pull(Format::Tar, s, at) is Done || pull(Format::Tar, s, at) is Unsure,
    decreases s.len() - at,
{
    reveal(next_entry);
    let read = first_bytes(s, (at + 512) as u64);
    if read.len() >= at + 512 {
        let b = read.subrange(at, at + 512);
        assert(s[at + 156] != 0x53);
        assert(b[156] == s[at + 156]);
        assert(!sparse_header(b, 0));
        if let Ok(next) = next_entry(Format::Tar, s, at) {
            let size = size_of(b)->Some_0;
            sizes_are_positive(b);
            assert(next == at + 512 + crate::tape::in_blocks(size));
            if let Ok(_) = land(Format::Tar, s, next) {
                plain_walk(s, next);
            }
        }
    }
}

proof fn sizes_are_positive(b: Seq<u8>)
    ensures
        size_of(b) matches Some(size) ==> size >= 0,
{
    big_endians_are_positive(b, 128, 8);
    digits_are_octal(b, 0);
    octals_are_positive(b, crate::tape::size_digits(b, 0));
}

proof fn big_endians_are_positive(b: Seq<u8>, at: int, n: nat)
    ensures
        crate::tape::big_endian(b, at, n) >= 0,
    decreases n,
{
    if n > 0 {
        big_endians_are_positive(b, at, (n - 1) as nat);
    }
}

proof fn digits_are_octal(b: Seq<u8>, n: nat)
    ensures
        forall|i: int|
            n <= i < crate::tape::size_digits(b, n) ==> 0x30 <= #[trigger] b[124 + i] <= 0x37,
    decreases 12 - n,
{
    if n < 12 && crate::tape::octal_digit(b[124 + n as int]) {
        digits_are_octal(b, n + 1);
    }
}

proof fn octals_are_positive(b: Seq<u8>, n: nat)
    requires
        forall|i: int| 0 <= i < n ==> 0x30 <= #[trigger] b[124 + i] <= 0x37,
    ensures
        crate::tape::octal(b, 124, n) >= 0,
    decreases n,
{
    if n > 0 {
        octals_are_positive(b, (n - 1) as nat);
        assert(0x30 <= b[124 + (n - 1)]);
    }
}

/// A tar without sparse entries is never refused, however long it is and whatever its
/// members hold, and neither is a stream that packs one.
pub proof fn ordinary_tars_are_walked(outer: Format, data: Seq<u8>, tar: Seq<u8>)
    requires
        no_sparse_entries(tar),
        tar.len() <= 0x4000_0000_0000_0000,
        outer is Tar ==> data == tar,
        outer is TarGz ==> gzip_holds(data, tar),
        outer is TarBz2 ==> bzip2_holds(data, tar),
        outer is Tar || outer is TarGz || outer is TarBz2,
    ensures
        tar_source(outer, data) is Ok,
        tar_source(outer, data) == tar_source(Format::Tar, tar),
{
    plain_walk(tar, 0);
    assert(scan_fits(tar)) by {
        assert forall|at: int| at % 512 == 0 implies !#[trigger] sparse_header(tar, at) by {
            if 0 <= at && at + 512 <= tar.len() {
                assert(tar[at + 156] != 0x53);
            }
        }
    }
    assert(tar_source(Format::Tar, tar) is Ok);
    if !(outer is Tar) {
        assert forall|n: u64| #[trigger] tar_prefix(outer, data, n) == Ok::<Seq<u8>, Seq<char>>(
            first_bytes(tar, n),
        ) by {
            if outer is TarGz {
                assert(gzip_prefix(data, n) is Ok);
            } else {
                assert(bzip2_prefix(data, n) is Ok);
            }
        }
        crate::tape::packed_walk_is_the_plain_one(outer, data, tar);
    }
}

proof fn walked_is_a_prefix(s: Seq<u8>, at: int)
    requires
        s.len() <= u64::MAX,
        0 <= at,
    ensures
        pull(Format::Tar, s, at) matches Pulled::Done(tar) ==> tar == s || (tar.is_prefix_of(s)
            && ends_blank(tar)),
    decreases crate::tape::steps_left(at),
{
    if at <= STREAM_MAX {
        reveal(next_entry);
        extended_is_a_prefix(s, at + 512);
        match next_entry(Format::Tar, s, at) {
            Err(_) => {
                let read = first_bytes(s, (at + 512) as u64);
                if read.len() >= at + 512 {
                    let b = read.subrange(at, at + 512);
                    assert forall|i: int| 0 <= i < 512 implies #[trigger] read[read.len() - 512 + i]
                        == b[i] by {}
                }
            },
            Ok(next) => {
                if next > at {
                    walked_is_a_prefix(s, next);
                }
            },
        }
    }
}

proof fn extended_is_a_prefix(s: Seq<u8>, at: int)
    requires
        s.len() <= u64::MAX,
        0 <= at,
    ensures
        crate::tape::extensions(Format::Tar, s, at) matches Err(Pulled::Done(tar)) ==> tar == s,
    decreases crate::tape::steps_left(at),
{
    if at <= STREAM_MAX {
        extended_is_a_prefix(s, at + 512);
    }
}

/// The last 512 bytes are all zeros.
pub open spec fn ends_blank(tar: Seq<u8>) -> bool {
    &&& tar.len() >= 512
    &&& forall|i: int| 0 <= i < 512 ==> #[trigger] tar[tar.len() - 512 + i] == 0
}

/// What is read of a tar is all of it, or all of it up to a block of zeros.
pub proof fn tars_are_read_to_their_end(data: Seq<u8>)
    requires
        data.len() <= u64::MAX,
    ensures
        tar_source(Format::Tar, data) matches Ok(tar) ==> tar == data || (tar.is_prefix_of(data)
            && ends_blank(tar)),
{
    walked_is_a_prefix(data, 0);
}

/// A tar that begins with a sparse entry with extension blocks and a size of 2^62 or more is
/// refused.
pub proof fn vast_tars_are_refused(data: Seq<u8>)
    requires
        data.len() >= 512,
        data[156] == 0x53,
        data.subrange(257, 265) == seq![0x75u8, 0x73, 0x74, 0x61, 0x72, 0x20, 0x20, 0],
        data[482] == 1,
        data[124] >= 0x80,
        data[128] >= 0x40,
    ensures
        listing(Format::Tar, data) == cannot_open("tar"@, "tar entry runs past 64 bits"@),
{
    reveal(next_entry);
    reveal_with_fuel(crate::tape::big_endian, 9);
    let magic = data.subrange(257, 265);
    assert(magic[0] == 0x75 && magic[1] == 0x73 && magic[2] == 0x74 && magic[3] == 0x61 && magic[4]
        == 0x72 && magic[5] == 0x20 && magic[6] == 0x20 && magic[7] == 0);
    let read = first_bytes(data, 512);
    let b = read.subrange(0, 512);
    assert(forall|i: int| 0 <= i < 512 ==> #[trigger] b[i] == data[i]);
    assert(b[156] == 0x53);
    assert(sparse_header(b, 0));
    assert(size_of(b)->Some_0 >= STREAM_MAX);
    assert(pull(Format::Tar, data, 0) is Vast);
}

proof fn codes_have_a_symbol(lens: Seq<u8>, len: int)
    requires
        count(lens, len) > 0,
    ensures
        exists|i: int| 0 <= i < lens.len() && #[trigger] lens[i] == len,
    decreases lens.len(),
{
    if lens.last() == len {
        assert(lens[lens.len() - 1] == len);
    } else {
        codes_have_a_symbol(lens.drop_last(), len);
        let i = choose|i: int| 0 <= i < lens.drop_last().len() && lens.drop_last()[i] == len;
        assert(lens[i] == len);
    }
}

proof fn decoded_codes_are_given(
    lens: Seq<u8>,
    s: Seq<u8>,
    p: int,
    stop: int,
    len: int,
    code: int,
    first: int,
)
    requires
        len >= 1,
        first <= code,
    ensures
        decode(lens, s, p, stop, len, code, first) matches Some((_, n)) ==> n >= 1 && count(lens, n)
            > 0,
    decreases 16 - len,
{
    if len <= 15 && p + len <= stop {
        let here = code + bit(s, p + len - 1);
        let beyond = first + count(lens, len);
        if here >= beyond {
            decoded_codes_are_given(lens, s, p, stop, len + 1, 2 * here, 2 * beyond);
        }
    }
}

proof fn fixed_blocks_load(s: Seq<u8>, p: int, from: int, stop: int)
    ensures
        !(walk(fixed_literals(), fixed_distances(), s, p, from, stop) is Short),
    decreases stop - p,
{
    let (lit, dist) = (fixed_literals(), fixed_distances());
    decoded_codes_are_given(lit, s, p, stop, 1, 0, 0);
    if let Some((v, len)) = symbol(lit, s, p, stop) {
        codes_have_a_symbol(lit, len);
        assert(len <= 9);
        if p + len <= stop && v <= 285 {
            if v < 256 {
                fixed_blocks_load(s, p + len, from, stop);
            } else if v > 256 {
                let q = p + len + crate::inflate::length_bits(v);
                decoded_codes_are_given(dist, s, q, stop, 1, 0, 0);
                if let Some((d, n)) = symbol(dist, s, q, stop) {
                    codes_have_a_symbol(dist, n);
                    assert(n == 5);
                    let next = q + n + if d <= 3 {
                        0int
                    } else {
                        (d - 2) / 2
                    };
                    if next > p && next <= stop {
                        fixed_blocks_load(s, next, from, stop);
                    }
                }
            }
        }
    }
}

/// A Deflate64 stream of one block is not refused for its length: a stored block and one
/// with the fixed codes fit their decoder.
pub proof fn single_blocks_fit(s: Seq<u8>, at: int, stop: int)
    requires
        0 <= at < stop <= s.len(),
        stop <= 0x800_0000_0000_0000,
        bit(s, 8 * at) == 1,
        bits(s, 8 * at + 1, 2) == 0 || bits(s, 8 * at + 1, 2) == 1,
    ensures
        deflate64_fits(s, at, stop),
{
    reveal(walk_block);
    fixed_blocks_load(s, 8 * at + 3, 8 * at, 8 * stop);
}

/// A ZIP archive that does not fit its reader, and a tar that no reader can walk, are
/// refused in so many words.
pub proof fn refusals_say_so(data: Seq<u8>, format: Format)
    ensures
        !zip_fits(data) ==> listing(Format::Zip, data) == cannot_open(
            "zip"@,
            "zip member runs past its reader"@,
        ),
        (format is Tar || format is TarGz || format is TarBz2) && pull(format, data, 0) is Vast
            ==> listing(format, data) == cannot_open("tar"@, "tar entry runs past 64 bits"@),
{
}

// ---------------------------------------------------------------------------
// Caps and labels

/// The caps and the sizes that are fixed.
pub proof fn fixed_sizes()
    ensures
        MAX_INFLATED == 0x1_0000_0000,
        crate::plan::HEAD_PEEK == 512,
        crate::vfs::HEAD_BYTES == 16,
{
}

/// Under a cap a content is all there or it is the failure that names the cap. It is
/// looked for one byte past the cap, and a failure is that of the format.
pub proof fn caps_are_kept(
    bytes: Seq<u8>,
    detail: Seq<char>,
    format: Seq<char>,
    index: usize,
    cap: u64,
    limits: Limits,
)
    ensures
        cap < u64::MAX ==> one_past(cap) == cap + 1,
        one_past(u64::MAX) == u64::MAX,
        within_cap(bytes, cap) == whole_or_too_large(bytes, cap),
        decode_outcome(Ok(bytes), format, cap) == whole_or_too_large(bytes, cap),
        decode_outcome(Err(detail), format, cap) == Err::<Seq<u8>, ErrorModel>(
            ErrorModel::Decode { format, detail },
        ),
        read_outcome(Ok(bytes), format, cap) == whole_or_too_large(bytes, cap),
        read_outcome(Err(detail), format, cap) == Err::<Seq<u8>, ErrorModel>(
            ErrorModel::Read { format, detail },
        ),
        tar_outcome(Ok(Some(bytes)), index, cap) == whole_or_too_large(bytes, cap),
        tar_outcome(Ok(None), index, cap) == Err::<Seq<u8>, ErrorModel>(
            ErrorModel::IndexOutOfRange { index, count: index },
        ),
        tar_outcome(Err(detail), index, cap) == Err::<Seq<u8>, ErrorModel>(
            ErrorModel::Read { format: "tar"@, detail },
        ),
        capped_detour(bytes, limits) == found_image(bytes, limits),
{
}

/// The codecs' names.
pub proof fn codecs_have_names()
    ensures
        codec_label(Codec::Gzip) == "gzip"@,
        codec_label(Codec::Bzip2) == "bzip2"@,
        crate::plan::bare_access(Codec::Gzip) == Access::Zran,
        crate::plan::bare_access(Codec::Bzip2) == Access::SpillToTemp,
{
}

/// A member is decoded from the archive that the data opens to, and where it opens to none
/// that is the failure.
pub proof fn members_are_decoded_from_their_archive(
    format: Format,
    data: Seq<u8>,
    table: Seq<EntryModel>,
    error: ErrorModel,
    index: usize,
    cap: u64,
)
    ensures
        listing(format, data) == Ok::<Option<Seq<EntryModel>>, ErrorModel>(Some(table))
            ==> decoded_member(format, data, index, cap) == member_content(
            format,
            data,
            table,
            index,
            cap,
        ),
        listing(format, data) == Ok::<Option<Seq<EntryModel>>, ErrorModel>(None)
            ==> decoded_member(format, data, index, cap) == Err::<Seq<u8>, ErrorModel>(
            ErrorModel::Open { format: "archive"@, detail: "not an archive format"@ },
        ),
        listing(format, data) == Err::<Option<Seq<EntryModel>>, ErrorModel>(error)
            ==> decoded_member(format, data, index, cap) == Err::<Seq<u8>, ErrorModel>(error),
{
}

/// A source that was made as expected reads so from its start, and a failure is the
/// expected one.
pub proof fn sources_as_expected(
    r: crate::error::Result<PeeledSource>,
    data: Seq<u8>,
    expected: Result<SourceModel, ErrorModel>,
)
    requires
        sourced_as(r, data, expected),
    ensures
        match r {
            Ok(source) => expected matches Ok(model) && reads_from_start(
                source,
                model.reads_as(data),
            ),
            Err(e) => expected == Err::<SourceModel, ErrorModel>(e@),
        },
{
}

/// The files of a kind are put in the order of their numbers and, where two are the same,
/// of the table: each of them once, and no other.
pub proof fn files_are_ordered_by_number(files: Seq<(usize, Seq<char>)>, kind: SegmentKind)
    requires
        files.len() <= usize::MAX,
        forall|p: int, q: int|
            0 <= p < q < files.len() ==> (#[trigger] files[p]).0 < (#[trigger] files[q]).0,
    ensures
        ({
            let ordered = ordered_files(files, kind);
            &&& forall|i: int|
                0 <= i < ordered.len() ==> {
                    &&& files.contains(((#[trigger] ordered[i]).0, ordered[i].1))
                    &&& segment_of(ordered[i].1, kind) == Some(ordered[i].2)
                }
            &&& forall|i: int, j: int|
                0 <= i < j < ordered.len() ==> (#[trigger] ordered[i]).2 < (#[trigger] ordered[j]).2
                    || (ordered[i].2 == ordered[j].2 && ordered[i].0 < ordered[j].0)
            &&& forall|p: int|
                0 <= p < files.len() && segment_of((#[trigger] files[p]).1, kind) is Some
                    ==> ordered.contains(
                    (files[p].0, files[p].1, segment_of(files[p].1, kind)->Some_0),
                )
        }),
{
    let ordered = ordered_files(files, kind);
    let keys = crate::plan::segment_keys(files, kind, files.len());
    let sorted = crate::order::in_order(keys);
    crate::plan::keys_point_at_files(files, kind, files.len());
    assert(keys.no_duplicates()) by {
        assert forall|i: int, j: int|
            0 <= i < keys.len() && 0 <= j < keys.len() && i != j implies keys[i] != keys[j] by {
            if i < j {
                assert(keys[i].1 < keys[j].1);
            } else {
                assert(keys[j].1 < keys[i].1);
            }
        }
    }
    crate::order::in_order_sorts(keys);
    assert forall|i: int| 0 <= i < ordered.len() implies {
        &&& files.contains(((#[trigger] ordered[i]).0, ordered[i].1))
        &&& segment_of(ordered[i].1, kind) == Some(ordered[i].2)
    } by {
        assert(keys.contains(sorted[i]));
        assert(ordered[i] == crate::plan::keyed_file(files, sorted[i]));
        assert(files[sorted[i].1 as int] == (ordered[i].0, ordered[i].1));
    }
    assert forall|i: int, j: int| 0 <= i < j < ordered.len() implies (#[trigger] ordered[i]).2 < (
    #[trigger] ordered[j]).2 || (ordered[i].2 == ordered[j].2 && ordered[i].0 < ordered[j].0) by {
        assert((crate::order::key_order())(sorted[i], sorted[j]));
        assert(sorted[i] != sorted[j]);
        assert(keys.contains(sorted[i]) && keys.contains(sorted[j]));
        assert(ordered[i] == crate::plan::keyed_file(files, sorted[i]));
        assert(ordered[j] == crate::plan::keyed_file(files, sorted[j]));
    }
    assert forall|p: int|
        0 <= p < files.len() && segment_of((#[trigger] files[p]).1, kind)
            is Some implies ordered.contains(
        (files[p].0, files[p].1, segment_of(files[p].1, kind)->Some_0),
    ) by {
        numbered_files_have_keys(files, kind, files.len(), p);
        let key = (segment_of(files[p].1, kind)->Some_0, p as usize);
        let q = choose|q: int| 0 <= q < keys.len() && keys[q] == key;
        assert(sorted.contains(keys[q]));
        let i = choose|i: int| 0 <= i < sorted.len() && sorted[i] == key;
        assert(ordered[i] == crate::plan::keyed_file(files, key));
    }
}

proof fn numbered_files_have_keys(
    files: Seq<(usize, Seq<char>)>,
    kind: SegmentKind,
    n: nat,
    p: int,
)
    requires
        0 <= p < n <= files.len(),
        n <= usize::MAX,
        segment_of(files[p].1, kind) is Some,
    ensures
        crate::plan::segment_keys(files, kind, n).contains(
            (segment_of(files[p].1, kind)->Some_0, p as usize),
        ),
    decreases n,
{
    let keys = crate::plan::segment_keys(files, kind, n);
    let rest = crate::plan::segment_keys(files, kind, (n - 1) as nat);
    let key = (segment_of(files[p].1, kind)->Some_0, p as usize);
    if p == n - 1 {
        assert(keys[rest.len() as int] == key);
    } else {
        numbered_files_have_keys(files, kind, (n - 1) as nat, p);
        let q = choose|q: int| 0 <= q < rest.len() && rest[q] == key;
        assert(keys[q] == key);
    }
}

} // verus!
