//! Which ZIP archives their reader can take without running over.
//!
//! The reader counts in fixed widths, in a few places without a check: it adds the
//! length of data prepended to an archive to every recorded member offset, its XZ
//! decoder adds one to a recorded index size, and its Zstandard decoder sums up a
//! block in 32 bits. An archive that would carry one of them over the top is told
//! apart here, from its bytes, before the reader sees it. Looking a member up decodes
//! it where it is compressed with XZ or Zstandard, so the archive is held to this as a
//! whole.

use vstd::prelude::*;

verus! {

broadcast use vstd::seq::group_seq_axioms;

/// The text of the error for a ZIP archive that [`zip_fits`] rules out.
pub open spec fn zip_refusal() -> Seq<char> {
    "zip member runs past its reader"@
}

/// The little-endian 16-bit number at `at`.
pub open spec fn le16(s: Seq<u8>, at: int) -> int {
    s[at] + 0x100 * s[at + 1]
}

/// The little-endian 32-bit number at `at`.
pub open spec fn le32(s: Seq<u8>, at: int) -> int {
    le16(s, at) + 0x1_0000 * le16(s, at + 2)
}

/// The little-endian 64-bit number at `at`.
pub open spec fn le64(s: Seq<u8>, at: int) -> int {
    le32(s, at) + 0x1_0000_0000 * le32(s, at + 4)
}

/// The signature of the record that ends a ZIP archive.
pub const END_SIGNATURE: u32 = 0x0605_4b50;

/// The signature of the record that points from the end record to its wide form.
pub const LOCATOR_SIGNATURE: u32 = 0x0706_4b50;

/// The signature of the wide end record, which holds 64-bit numbers.
pub const WIDE_END_SIGNATURE: u32 = 0x0606_4b50;

/// The signature of a member's header in the central directory.
pub const MEMBER_SIGNATURE: u32 = 0x0201_4b50;

/// The signature of a member's header in front of its data.
pub const LOCAL_SIGNATURE: u32 = 0x0403_4b50;

/// How many members the ZIP reader takes at the most.
pub const MEMBERS_MAX: u64 = 16_000_000;

/// The method number of a member compressed with XZ.
pub const XZ_METHOD: u16 = 95;

/// The method number of a member compressed with Zstandard.
pub const ZSTD_METHOD: u16 = 93;

/// The number that a Zstandard frame begins with.
pub const ZSTD_MAGIC: u32 = 0xfd2f_b528;

/// How many sequences a Zstandard block may have, be its sequences section as long as
/// it will: each adds at most 131074 to what the decoder counts of a block in 32
/// bits, and the literals less than 2^20.
pub const SEQUENCES_MAX: u32 = 32_752;

/// How long a sequences section may be, be its sequences as many as they will: one
/// adds at most 34, and 8192 for every extra bit that it takes from the section.
pub const SECTION_MAX: usize = 65_468;

/// A 32-bit number that stands for a wide one recorded elsewhere.
pub const WIDE: u32 = 0xffff_ffff;

/// The end record of the ZIP archive in `s` is taken to stand at `at`: it is the
/// last place, at most a longest comment before the end, with the signature.
pub open spec fn end_record_at(s: Seq<u8>, at: int) -> bool {
    &&& 0 <= at
    &&& s.len() - 22 - 0xffff <= at <= s.len() - 22
    &&& le32(s, at) == END_SIGNATURE
    &&& forall|later: int| at < later <= s.len() - 22 ==> #[trigger] le32(s, later) != END_SIGNATURE
}

/// A central directory: where it stands, its length, how many headers it is to
/// hold, and how many bytes stand before the archive.
pub struct Directory {
    pub at: int,
    pub size: int,
    pub count: nat,
    pub shift: int,
}

/// How many bytes stand before the archive whose end record is at `end` and says
/// that the directory has `size` bytes at `offset`: what parts that place from the
/// real one, where there is no directory in the one but in the other.
pub open spec fn prepended(s: Seq<u8>, end: int, size: int, offset: int) -> int {
    let shift = end - offset - size;
    if shift > 0 && le32(s, offset) != MEMBER_SIGNATURE && le32(s, offset + shift)
        == MEMBER_SIGNATURE {
        shift
    } else {
        0
    }
}

/// The directory that the wide end record speaks of, for the end record at `end`.
pub open spec fn wide_directory(s: Seq<u8>, end: int) -> Option<Directory> {
    let record = le64(s, end - 12);
    if end < 20 || le32(s, end - 20) != LOCATOR_SIGNATURE || record + 56 > s.len() || le32(
        s,
        record,
    ) != WIDE_END_SIGNATURE || le64(s, record + 32) > MEMBERS_MAX || le64(s, record + 48) + le64(
        s,
        record + 40,
    ) > s.len() {
        None
    } else {
        Some(
            Directory {
                at: le64(s, record + 48),
                size: le64(s, record + 40),
                count: le64(s, record + 32) as nat,
                shift: 0,
            },
        )
    }
}

/// The directory of the archive whose end record is at `end`: nothing where the
/// reader refuses it.
pub open spec fn directory_of(s: Seq<u8>, end: int) -> Option<Directory> {
    let count = le16(s, end + 10);
    let size = le32(s, end + 12);
    let offset = le32(s, end + 16);
    if count == 0xffff || size == WIDE || offset == WIDE {
        wide_directory(s, end)
    } else {
        let shift = prepended(s, end, size, offset);
        if offset + shift + size > s.len() {
            None
        } else {
            Some(Directory { at: offset + shift, size, count: count as nat, shift })
        }
    }
}

/// Where the wide numbers begin among the extra fields from `at` to `stop`, and how
/// many bytes they have: nothing where the reader finds none.
pub open spec fn wide_field(s: Seq<u8>, at: int, stop: int) -> Option<(int, int)>
    decreases stop - at,
{
    if stop - at < 4 || at + 4 + le16(s, at + 2) > stop {
        None
    } else if le16(s, at) == 1 {
        Some((at + 4, le16(s, at + 2)))
    } else {
        wide_field(s, at + 4 + le16(s, at + 2), stop)
    }
}

/// Where a member's local header is recorded to stand, and how long its data is.
pub struct Place {
    pub offset: int,
    pub size: int,
}

/// The place that the directory header at `at` records: nothing where the reader
/// refuses it.
pub open spec fn place_of(s: Seq<u8>, at: int) -> Option<Place> {
    let (size, full, offset) = (le32(s, at + 20), le32(s, at + 24), le32(s, at + 42));
    if size != WIDE && full != WIDE && offset != WIDE {
        Some(Place { offset, size })
    } else {
        let extra = at + 46 + le16(s, at + 28);
        match wide_field(s, extra, extra + le16(s, at + 30)) {
            Some((field, len)) => {
                let size_at = field + if full == WIDE {
                    8int
                } else {
                    0
                };
                let offset_at = size_at + if size == WIDE {
                    8int
                } else {
                    0
                };
                let used = offset_at + if offset == WIDE {
                    8int
                } else {
                    0
                };
                if used > field + len {
                    None
                } else {
                    Some(
                        Place {
                            offset: if offset == WIDE {
                                le64(s, offset_at)
                            } else {
                                offset
                            },
                            size: if size == WIDE {
                                le64(s, size_at)
                            } else {
                                size
                            },
                        },
                    )
                }
            },
            None => None,
        }
    }
}

/// The XZ stream from `at` to `stop` has no word of all ones: its decoder adds one
/// to the word that holds the size of the index, wherever that stands.
pub open spec fn xz_fits(s: Seq<u8>, at: int, stop: int) -> bool {
    forall|w: int|
        at <= w && w + 4 <= stop && (w - at) % 4 == 0 ==> #[trigger] le32(s, w) != 0xffff_ffff
}

/// The length of the Zstandard frame header at `at`.
pub open spec fn frame_head(s: Seq<u8>, at: int) -> int {
    let flags = s[at + 4];
    let single = (flags / 32) % 2 == 1;
    let window = if single {
        0int
    } else {
        1
    };
    let dictionary = if flags % 4 == 3 {
        4int
    } else {
        (flags % 4) as int
    };
    let content = if flags / 64 == 0 {
        1 - window
    } else if flags / 64 == 1 {
        2
    } else if flags / 64 == 2 {
        4
    } else {
        8
    };
    5 + window + dictionary + content
}

/// The length of the literals header at `at`, by its first byte.
pub open spec fn literals_head(s: Seq<u8>, at: int) -> int {
    let (kind, form) = (s[at] % 4, (s[at] / 4) % 4);
    if kind < 2 {
        if form == 1 {
            2
        } else if form == 3 {
            3
        } else {
            1
        }
    } else if form < 2 {
        3
    } else if form == 2 {
        4
    } else {
        5
    }
}

/// How many bytes of literals follow the literals header at `at`.
pub open spec fn literals_body(s: Seq<u8>, at: int) -> int {
    let (kind, form) = (s[at] % 4, (s[at] / 4) % 4);
    if kind == 1 {
        1
    } else if kind == 0 {
        if form == 1 {
            s[at] / 16 + 0x10 * s[at + 1]
        } else if form == 3 {
            s[at] / 16 + 0x10 * s[at + 1] + 0x1000 * s[at + 2]
        } else {
            s[at] / 8 + 0
        }
    } else if form < 2 {
        s[at + 1] / 64 + 4 * s[at + 2]
    } else if form == 2 {
        s[at + 2] / 4 + 0x40 * s[at + 3]
    } else {
        s[at + 2] / 64 + 4 * s[at + 3] + 0x400 * s[at + 4]
    }
}

/// How many sequences the header at `at` declares, in a block that ends at `stop`:
/// none where the decoder refuses it.
pub open spec fn declared_sequences(s: Seq<u8>, at: int, stop: int) -> int {
    if at >= stop {
        0
    } else if s[at] < 128 {
        s[at] as int
    } else if s[at] < 255 {
        if at + 2 > stop {
            0
        } else {
            0x100 * (s[at] - 128) + s[at + 1]
        }
    } else if at + 4 > stop {
        0
    } else {
        le16(s, at + 1) + 0x7f00
    }
}

/// What the sequences of the compressed Zstandard block from `at` to `stop` come to
/// stays within 32 bits: they are few, or their section is short.
pub open spec fn block_fits(s: Seq<u8>, at: int, stop: int) -> bool {
    at < stop && at + literals_head(s, at) <= stop ==> {
        let section = at + literals_head(s, at) + literals_body(s, at);
        declared_sequences(s, section, stop) <= SEQUENCES_MAX || stop - section <= SECTION_MAX
    }
}

/// The number of three bytes that begins the Zstandard block at `at`.
pub open spec fn block_word(s: Seq<u8>, at: int) -> int {
    le16(s, at) + 0x1_0000 * s[at + 2]
}

/// How many bytes the body of the Zstandard block at `at` has.
pub open spec fn block_body(s: Seq<u8>, at: int) -> int {
    if (block_word(s, at) / 2) % 4 == 1 {
        1
    } else {
        block_word(s, at) / 8
    }
}

/// The Zstandard blocks from `at` on, as far as they end before `stop`, fit their
/// decoder.
pub open spec fn blocks_fit(s: Seq<u8>, at: int, stop: int) -> bool
    decreases stop - at,
{
    at + 3 <= stop && at + 3 + block_body(s, at) <= stop ==> {
        let next = at + 3 + block_body(s, at);
        &&& (block_word(s, at) / 2) % 4 == 2 ==> block_fits(s, at + 3, next)
        &&& block_word(s, at) % 2 == 0 ==> blocks_fit(s, next, stop)
    }
}

/// The Zstandard frame from `at` to `stop` fits its decoder.
pub open spec fn zstd_fits(s: Seq<u8>, at: int, stop: int) -> bool {
    at + 5 <= stop && le32(s, at) == ZSTD_MAGIC ==> blocks_fit(s, at + frame_head(s, at), stop)
}

/// The data of a member compressed with `method`, whose local header stands at `at`
/// and which has `size` bytes as far as the archive holds them, is such that no
/// decoder runs over.
pub open spec fn data_fits(s: Seq<u8>, method: int, at: int, size: int) -> bool {
    at + 30 <= s.len() && le32(s, at) == LOCAL_SIGNATURE ==> {
        let data = at + 30 + le16(s, at + 26) + le16(s, at + 28);
        let stop = if data + size < s.len() {
            data + size
        } else {
            s.len() as int
        };
        &&& method == XZ_METHOD ==> xz_fits(s, data, stop)
        &&& method == ZSTD_METHOD ==> zstd_fits(s, data, stop)
    }
}

/// The member with its directory header at `at` can be opened behind `shift` bytes:
/// its offset stays within 64 bits, and its data fits its decoder.
pub open spec fn member_fits(s: Seq<u8>, at: int, shift: int) -> bool {
    match place_of(s, at) {
        Some(place) => place.offset + shift <= u64::MAX && data_fits(
            s,
            le16(s, at + 10),
            place.offset + shift,
            place.size,
        ),
        None => true,
    }
}

/// Where the directory header behind the one at `at` stands.
pub open spec fn next_header(s: Seq<u8>, at: int) -> int {
    at + 46 + le16(s, at + 28) + le16(s, at + 30) + le16(s, at + 32)
}

/// The members with the first `count` directory headers from `at` on, as far as
/// they are headers that end before `stop`, can be opened behind `shift` bytes.
pub open spec fn members_fit(s: Seq<u8>, at: int, stop: int, count: nat, shift: int) -> bool
    decreases count,
{
    count > 0 && at + 46 <= stop && le32(s, at) == MEMBER_SIGNATURE && next_header(s, at) <= stop
        ==> member_fits(s, at, shift) && members_fit(
        s,
        next_header(s, at),
        stop,
        (count - 1) as nat,
        shift,
    )
}

/// The ZIP archive in `s` can be opened, and each of its members: no recorded
/// offset leaves 64 bits when the length of what stands before the archive is added
/// to it, and no decoder runs over.
pub open spec fn zip_fits(s: Seq<u8>) -> bool {
    forall|end: int| #[trigger]
        end_record_at(s, end) ==> (directory_of(s, end) matches Some(dir) ==> members_fit(
            s,
            dir.at,
            dir.at + dir.size,
            dir.count,
            dir.shift,
        ))
}

/// Read a 16-bit number.
pub(crate) fn read16(bytes: &[u8], at: usize) -> (r: u16)
    requires
        at + 2 <= bytes@.len() <= usize::MAX,
    ensures
        r == le16(bytes@, at as int),
{
    bytes[at] as u16 + 0x100 * (bytes[at + 1] as u16)
}

/// Read a 32-bit number.
fn read32(bytes: &[u8], at: usize) -> (r: u32)
    requires
        at + 4 <= bytes@.len() <= usize::MAX,
    ensures
        r == le32(bytes@, at as int),
{
    read16(bytes, at) as u32 + 0x1_0000 * (read16(bytes, at + 2) as u32)
}

/// Read a 64-bit number.
fn read64(bytes: &[u8], at: usize) -> (r: u64)
    requires
        at + 8 <= bytes@.len() <= usize::MAX,
    ensures
        r == le64(bytes@, at as int),
{
    read32(bytes, at) as u64 + 0x1_0000_0000 * (read32(bytes, at + 4) as u64)
}

/// Where the end record stands, if there is one.
fn find_end_record(bytes: &[u8]) -> (r: Option<usize>)
    ensures
        match r {
            Some(at) => end_record_at(bytes@, at as int),
            None => forall|at: int| !#[trigger] end_record_at(bytes@, at),
        },
{
    let len: usize = bytes.len();
    if len < 22 {
        return None;
    }
    let low: usize = if len - 22 < 0xffff {
        0
    } else {
        len - 22 - 0xffff
    };
    let mut at: usize = len - 22;
    loop
        invariant
            len == bytes@.len(),
            low <= at <= len - 22,
            low == 0 || low == len - 22 - 0xffff,
            low >= len - 22 - 0xffff,
            forall|later: int|
                at < later <= len - 22 ==> #[trigger] le32(bytes@, later) != END_SIGNATURE,
        decreases at,
    {
        if read32(bytes, at) == END_SIGNATURE {
            return Some(at);
        }
        if at == low {
            return None;
        }
        at = at - 1;
    }
}

/// Where the wide numbers begin, and how many bytes they have.
fn find_wide_field(bytes: &[u8], from: usize, stop: usize) -> (r: Option<(usize, usize)>)
    requires
        from <= stop <= bytes@.len() <= usize::MAX,
    ensures
        match r {
            Some((at, len)) => wide_field(bytes@, from as int, stop as int) == Some(
                (at as int, len as int),
            ) && at + len <= stop,
            None => wide_field(bytes@, from as int, stop as int) is None,
        },
{
    let mut at: usize = from;
    while stop - at >= 4
        invariant
            from <= at <= stop <= bytes@.len() <= usize::MAX,
            wide_field(bytes@, from as int, stop as int) == wide_field(
                bytes@,
                at as int,
                stop as int,
            ),
        decreases stop - at,
    {
        let len: usize = read16(bytes, at + 2) as usize;
        if len > stop - at - 4 {
            return None;
        }
        if read16(bytes, at) == 1 {
            return Some((at + 4, len));
        }
        at = at + 4 + len;
    }
    None
}

/// The offset and the size that a directory header records.
fn find_place(bytes: &[u8], at: usize, stop: usize) -> (r: Option<(u64, u64)>)
    requires
        at + 46 <= stop <= bytes@.len() <= usize::MAX,
        next_header(bytes@, at as int) <= stop,
    ensures
        match r {
            Some((offset, size)) => place_of(bytes@, at as int) == Some(
                Place { offset: offset as int, size: size as int },
            ),
            None => place_of(bytes@, at as int) is None,
        },
{
    let (size, full, offset): (u32, u32, u32) = (
        read32(bytes, at + 20),
        read32(bytes, at + 24),
        read32(bytes, at + 42),
    );
    if size != WIDE && full != WIDE && offset != WIDE {
        return Some((offset as u64, size as u64));
    }
    let extra: usize = at + 46 + read16(bytes, at + 28) as usize;
    let (field, len): (usize, usize) = match find_wide_field(
        bytes,
        extra,
        extra + read16(bytes, at + 30) as usize,
    ) {
        Some(found) => found,
        None => {
            return None;
        },
    };
    let before_size: usize = if full == WIDE {
        8
    } else {
        0
    };
    let before_offset: usize = before_size + if size == WIDE {
        8
    } else {
        0
    };
    let used: usize = before_offset + if offset == WIDE {
        8
    } else {
        0
    };
    if used > len {
        return None;
    }
    Some(
        (
            if offset == WIDE {
                read64(bytes, field + before_offset)
            } else {
                offset as u64
            },
            if size == WIDE {
                read64(bytes, field + before_size)
            } else {
                size as u64
            },
        ),
    )
}

/// Whether an XZ stream fits its decoder.
fn is_fitting_xz(bytes: &[u8], at: usize, stop: usize) -> (r: bool)
    requires
        stop <= bytes@.len() <= usize::MAX,
    ensures
        r == xz_fits(bytes@, at as int, stop as int),
{
    if at > stop {
        return true;
    }
    let mut w: usize = at;
    while stop - w >= 4
        invariant
            at <= w <= stop <= bytes@.len() <= usize::MAX,
            (w - at) % 4 == 0,
            forall|v: int|
                at <= v < w && (v - at) % 4 == 0 ==> #[trigger] le32(bytes@, v) != 0xffff_ffff,
        decreases stop - w,
    {
        if read32(bytes, w) == 0xffff_ffff {
            assert(le32(bytes@, w as int) == 0xffff_ffff);
            return false;
        }
        w = w + 4;
    }
    true
}

/// Whether a compressed Zstandard block fits its decoder.
fn is_fitting_block(bytes: &[u8], at: usize, stop: usize) -> (r: bool)
    requires
        at <= stop <= bytes@.len() <= usize::MAX,
    ensures
        r == block_fits(bytes@, at as int, stop as int),
{
    if at >= stop {
        return true;
    }
    let first: u8 = bytes[at];
    let (kind, form): (u8, u8) = (first % 4, (first / 4) % 4);
    let head: usize = if kind < 2 {
        if form == 1 {
            2
        } else if form == 3 {
            3
        } else {
            1
        }
    } else if form < 2 {
        3
    } else if form == 2 {
        4
    } else {
        5
    };
    if head > stop - at {
        return true;
    }
    let body: usize = if kind == 1 {
        1
    } else if kind == 0 {
        if form == 1 {
            (first / 16) as usize + 0x10 * (bytes[at + 1] as usize)
        } else if form == 3 {
            (first / 16) as usize + 0x10 * (bytes[at + 1] as usize) + 0x1000 * (bytes[at
                + 2] as usize)
        } else {
            (first / 8) as usize
        }
    } else if form < 2 {
        (bytes[at + 1] / 64) as usize + 4 * (bytes[at + 2] as usize)
    } else if form == 2 {
        (bytes[at + 2] / 4) as usize + 0x40 * (bytes[at + 3] as usize)
    } else {
        (bytes[at + 2] / 64) as usize + 4 * (bytes[at + 3] as usize) + 0x400 * (bytes[at
            + 4] as usize)
    };
    if body >= stop - at - head {
        return true;
    }
    let q: usize = at + head + body;
    let lead: u8 = bytes[q];
    let declared: u32 = if lead < 128 {
        lead as u32
    } else if lead < 255 {
        if stop - q < 2 {
            0
        } else {
            0x100 * (lead as u32 - 128) + bytes[q + 1] as u32
        }
    } else if stop - q < 4 {
        0
    } else {
        read16(bytes, q + 1) as u32 + 0x7f00
    };
    declared <= SEQUENCES_MAX || stop - q <= SECTION_MAX
}

/// Whether a Zstandard frame fits its decoder.
fn is_fitting_zstd(bytes: &[u8], from: usize, stop: usize) -> (r: bool)
    requires
        from <= stop <= bytes@.len() <= usize::MAX,
    ensures
        r == zstd_fits(bytes@, from as int, stop as int),
{
    if stop - from < 5 || read32(bytes, from) != ZSTD_MAGIC {
        return true;
    }
    let flags: u8 = bytes[from + 4];
    let window: usize = if (flags / 32) % 2 == 1 {
        0
    } else {
        1
    };
    let dictionary: usize = if flags % 4 == 3 {
        4
    } else {
        (flags % 4) as usize
    };
    let content: usize = if flags / 64 == 0 {
        1 - window
    } else if flags / 64 == 1 {
        2
    } else if flags / 64 == 2 {
        4
    } else {
        8
    };
    let head: usize = 5 + window + dictionary + content;
    if head > stop - from {
        return true;
    }
    let mut at: usize = from + head;
    while stop - at >= 3
        invariant
            from <= at <= stop <= bytes@.len() <= usize::MAX,
            zstd_fits(bytes@, from as int, stop as int) == blocks_fit(
                bytes@,
                at as int,
                stop as int,
            ),
        ensures
            blocks_fit(bytes@, at as int, stop as int),
        decreases stop - at,
    {
        let word: u32 = read16(bytes, at) as u32 + 0x1_0000 * (bytes[at + 2] as u32);
        let body: usize = if (word / 2) % 4 == 1 {
            1
        } else {
            (word / 8) as usize
        };
        if body > stop - at - 3 {
            break ;
        }
        let next: usize = at + 3 + body;
        if (word / 2) % 4 == 2 && !is_fitting_block(bytes, at + 3, next) {
            assert(!blocks_fit(bytes@, at as int, stop as int));
            return false;
        }
        if word % 2 == 1 {
            break ;
        }
        at = next;
    }
    true
}

/// Whether the data of a member fits its decoder.
fn is_fitting_data(bytes: &[u8], method: u16, at: u64, size: u64) -> (r: bool)
    ensures
        r == data_fits(bytes@, method as int, at as int, size as int),
{
    let len: usize = bytes.len();
    if len < 30 || at > (len - 30) as u64 {
        return true;
    }
    let at: usize = at as usize;
    if read32(bytes, at) != LOCAL_SIGNATURE {
        return true;
    }
    let head: usize = 30 + read16(bytes, at + 26) as usize + read16(bytes, at + 28) as usize;
    if head > len - at {
        return true;
    }
    let data: usize = at + head;
    let stop: usize = if size < (len - data) as u64 {
        data + size as usize
    } else {
        len
    };
    if method == XZ_METHOD {
        is_fitting_xz(bytes, data, stop)
    } else if method == ZSTD_METHOD {
        is_fitting_zstd(bytes, data, stop)
    } else {
        true
    }
}

/// Whether a member can be opened.
fn is_fitting_member(bytes: &[u8], at: usize, stop: usize, shift: u64) -> (r: bool)
    requires
        at + 46 <= stop <= bytes@.len() <= usize::MAX,
        next_header(bytes@, at as int) <= stop,
    ensures
        r == member_fits(bytes@, at as int, shift as int),
{
    match find_place(bytes, at, stop) {
        Some((offset, size)) => {
            offset <= u64::MAX - shift && is_fitting_data(
                bytes,
                read16(bytes, at + 10),
                offset + shift,
                size,
            )
        },
        None => true,
    }
}

/// Where a directory stands, its length, how many headers it is to hold, and how
/// many bytes stand before the archive.
struct DirectoryAt {
    at: usize,
    size: usize,
    count: u64,
    shift: u64,
}

impl DirectoryAt {
    /// The directory as numbers.
    spec fn model(&self) -> Directory {
        Directory {
            at: self.at as int,
            size: self.size as int,
            count: self.count as nat,
            shift: self.shift as int,
        }
    }
}

/// The directory that the wide end record speaks of.
fn find_wide_directory(bytes: &[u8], end: usize) -> (r: Option<DirectoryAt>)
    requires
        end + 22 <= bytes@.len() <= usize::MAX,
    ensures
        match r {
            Some(dir) => wide_directory(bytes@, end as int) == Some(dir.model()) && dir.at + dir.size
                <= bytes@.len(),
            None => wide_directory(bytes@, end as int) is None,
        },
{
    let len: usize = bytes.len();
    if end < 20 || read32(bytes, end - 20) != LOCATOR_SIGNATURE {
        return None;
    }
    let record: u64 = read64(bytes, end - 12);
    if len < 56 || record > (len - 56) as u64 {
        return None;
    }
    let record: usize = record as usize;
    if read32(bytes, record) != WIDE_END_SIGNATURE {
        return None;
    }
    let count: u64 = read64(bytes, record + 32);
    let size: u64 = read64(bytes, record + 40);
    let at: u64 = read64(bytes, record + 48);
    if count > MEMBERS_MAX || at > len as u64 || size > len as u64 - at {
        return None;
    }
    Some(DirectoryAt { at: at as usize, size: size as usize, count, shift: 0 })
}

/// The directory of the archive whose end record is at `end`.
fn find_directory(bytes: &[u8], end: usize) -> (r: Option<DirectoryAt>)
    requires
        end + 22 <= bytes@.len() <= usize::MAX,
    ensures
        match r {
            Some(dir) => directory_of(bytes@, end as int) == Some(dir.model()) && dir.at + dir.size
                <= bytes@.len(),
            None => directory_of(bytes@, end as int) is None,
        },
{
    let len: usize = bytes.len();
    let count: u16 = read16(bytes, end + 10);
    let size: u32 = read32(bytes, end + 12);
    let offset: u32 = read32(bytes, end + 16);
    if count == 0xffff || size == WIDE || offset == WIDE {
        return find_wide_directory(bytes, end);
    }
    let size: u64 = size as u64;
    let offset: u64 = offset as u64;
    let mut shift: u64 = 0;
    if offset + size < end as u64 {
        let parted: u64 = end as u64 - offset - size;
        if read32(bytes, offset as usize) != MEMBER_SIGNATURE && read32(
            bytes,
            (offset + parted) as usize,
        ) == MEMBER_SIGNATURE {
            shift = parted;
        }
    }
    if offset + shift + size > len as u64 {
        return None;
    }
    Some(
        DirectoryAt {
            at: (offset + shift) as usize,
            size: size as usize,
            count: count as u64,
            shift,
        },
    )
}

/// Whether [`zip_fits`] holds of a ZIP archive.
pub fn zip_archive_fits(bytes: &[u8]) -> (r: bool)
    ensures
        r == zip_fits(bytes@),
{
    let end: usize = match find_end_record(bytes) {
        Some(end) => end,
        None => {
            return true;
        },
    };
    proof {
        assert forall|other: int| #[trigger] end_record_at(bytes@, other) implies other == end by {
            assert(le32(bytes@, other) == END_SIGNATURE);
            assert(le32(bytes@, end as int) == END_SIGNATURE);
        }
    }
    let len: usize = bytes.len();
    let dir: DirectoryAt = match find_directory(bytes, end) {
        Some(dir) => dir,
        None => {
            return true;
        },
    };
    let ghost all = dir.model();
    let shift: u64 = dir.shift;
    let stop: usize = dir.at + dir.size;
    let mut at: usize = dir.at;
    let mut left: u64 = dir.count;
    while left > 0 && stop - at >= 46
        invariant
            at <= stop <= len,
            len == bytes@.len(),
            end_record_at(bytes@, end as int),
            directory_of(bytes@, end as int) == Some(all),
            shift == all.shift,
            stop == all.at + all.size,
            members_fit(bytes@, all.at, all.at + all.size, all.count, all.shift) == members_fit(
                bytes@,
                at as int,
                stop as int,
                left as nat,
                shift as int,
            ),
        ensures
            members_fit(bytes@, at as int, stop as int, left as nat, shift as int),
        decreases left,
    {
        if read32(bytes, at) != MEMBER_SIGNATURE {
            break ;
        }
        let extent: usize = 46 + read16(bytes, at + 28) as usize + read16(bytes, at + 30) as usize
            + read16(bytes, at + 32) as usize;
        if extent > stop - at {
            break ;
        }
        if !is_fitting_member(bytes, at, stop, shift) {
            assert(!members_fit(bytes@, at as int, stop as int, left as nat, shift as int));
            return false;
        }
        at = at + extent;
        left = left - 1;
    }
    true
}

} // verus!
