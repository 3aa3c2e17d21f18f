//! Where a tar ends in the stream that holds it, and whether a reader can walk it.
//!
//! The tar reader moves its position on by one block for every extension block of a
//! sparse entry, without a check that the position stays within 64 bits. A tar that
//! would carry it over the top is told apart here, header by header, before a reader
//! sees it. A compressed tar is pulled through its decoder in bounded memory, and no
//! further than the tar goes: what stands behind its end is not looked at.

use crate::backend::codec::{
    bzip2_given, bzip2_prefix, bzip2_source, first_bytes, gzip_given, gzip_prefix, gzip_source,
    read_bzip2, read_gzip, start_bzip2, start_gzip, Bzip2Reader, GzipReader,
};
use crate::detect::Format;
use vstd::prelude::*;
use vstd::slice::{slice_subrange, slice_to_vec};

verus! {

broadcast use vstd::seq::group_seq_axioms;

/// The longest tar stream that is walked, and a bound on the size that an entry of
/// it may declare: together they stay within 64 bits.
pub const STREAM_MAX: u64 = 0x4000_0000_0000_0000;

/// The size of the blocks that a tar stream is made of.
pub const BLOCK: usize = 512;

/// How many bytes of a compressed tar are looked at in one step, whole blocks.
pub const STEP: u64 = 32768;

/// The longest extended header whose records are looked at.
pub const RECORDS_MAX: u64 = 0x10_0000;

/// The text of the error for a tar that no reader can walk.
pub open spec fn tar_refusal() -> Seq<char> {
    "tar entry runs past 64 bits"@
}

// ---------------------------------------------------------------------------
// The stream

/// The first `n` bytes of the stream in `data` under the outer format, or the text
/// with which the outer layer fails to decode them. Anything but the two compressed
/// forms is read straight through.
pub open spec fn tar_prefix(outer: Format, data: Seq<u8>, n: u64) -> Result<Seq<u8>, Seq<char>> {
    match outer {
        Format::TarGz => gzip_prefix(data, n),
        Format::TarBz2 => bzip2_prefix(data, n),
        _ => Ok(first_bytes(data, n)),
    }
}

/// The whole stream in `data` under the outer format is `inner`.
pub open spec fn tar_holds_stream(outer: Format, data: Seq<u8>, inner: Seq<u8>) -> bool {
    forall|n: u64| #[trigger] tar_prefix(outer, data, n) == Ok::<Seq<u8>, Seq<char>>(
        first_bytes(inner, n),
    )
}

// ---------------------------------------------------------------------------
// Headers

/// The block is all zeros: the end of a tar.
pub open spec fn blank(b: Seq<u8>) -> bool {
    forall|i: int| 0 <= i < 512 ==> #[trigger] b[i] == 0
}

/// The big-endian number in the `n` bytes from `at` on.
pub open spec fn big_endian(b: Seq<u8>, at: int, n: nat) -> int
    decreases n,
{
    if n == 0 {
        0
    } else {
        0x100 * big_endian(b, at, (n - 1) as nat) + b[at + n - 1]
    }
}

/// The number of which the `n` bytes from `at` on are the octal digits.
pub open spec fn octal(b: Seq<u8>, at: int, n: nat) -> int
    decreases n,
{
    if n == 0 {
        0
    } else {
        8 * octal(b, at, (n - 1) as nat) + b[at + n - 1] - 0x30
    }
}

/// An octal digit.
pub open spec fn octal_digit(c: u8) -> bool {
    0x30 <= c <= 0x37
}

/// How many octal digits the size field has from its byte `n` on, and before.
pub open spec fn size_digits(b: Seq<u8>, n: nat) -> nat
    decreases 12 - n,
{
    if n >= 12 || !octal_digit(b[124 + n as int]) {
        n
    } else {
        size_digits(b, n + 1)
    }
}

/// The size that the header declares: a binary number, or octal digits with nothing
/// but a null byte or a last space behind them. Nothing in any other form.
pub open spec fn size_of(b: Seq<u8>) -> Option<int> {
    let n = size_digits(b, 0);
    if b[124] >= 0x80 {
        Some(big_endian(b, 128, 8))
    } else if n >= 1 && (n == 12 || b[124 + n as int] == 0 || n == 11 && b[135] == 0x20) {
        Some(octal(b, 124, n))
    } else {
        None
    }
}

/// The bytes name a size somewhere: `size=` stands in them.
pub open spec fn names_size(s: Seq<u8>) -> bool {
    exists|at: int| #[trigger] size_key(s, at)
}

/// `size=` stands in the bytes at `at`.
pub open spec fn size_key(s: Seq<u8>, at: int) -> bool {
    &&& 0 <= at
    &&& at + 5 <= s.len()
    &&& s[at] == 0x73
    &&& s[at + 1] == 0x69
    &&& s[at + 2] == 0x7a
    &&& s[at + 3] == 0x65
    &&& s[at + 4] == 0x3d
}

/// A size in whole blocks.
pub open spec fn in_blocks(size: int) -> int {
    (size + 511) / 512 * 512
}

// ---------------------------------------------------------------------------
// The walk

/// What walking a tar from header to header comes to: it runs past 64 bits; its
/// headers cannot be followed; it ends, and is what has been read so far; or the
/// outer layer fails with a text.
pub enum Pulled {
    Vast,
    Unsure,
    Done(Seq<u8>),
    Failed(Seq<char>),
}

/// Read the stream up to `n`, or find that it ends before.
pub open spec fn land(outer: Format, data: Seq<u8>, n: int) -> Result<Seq<u8>, Pulled> {
    let limit = if n <= u64::MAX {
        n as u64
    } else {
        u64::MAX
    };
    match tar_prefix(outer, data, limit) {
        Err(e) => Err(Pulled::Failed(e)),
        Ok(read) => if read.len() < n {
            Err(Pulled::Done(read))
        } else {
            Ok(read)
        },
    }
}

/// How far a walk can go on from `at`.
pub open spec fn steps_left(at: int) -> int {
    if at > STREAM_MAX {
        0
    } else {
        STREAM_MAX + 1 - at
    }
}

/// Where the extension blocks of a sparse entry end, the next one being at `at`.
pub open spec fn extensions(outer: Format, data: Seq<u8>, at: int) -> Result<int, Pulled>
    decreases steps_left(at),
{
    if at > STREAM_MAX {
        Err(Pulled::Vast)
    } else {
        match land(outer, data, at + 512) {
            Err(end) => Err(end),
            Ok(read) => if read[at + 504] == 1 {
                extensions(outer, data, at + 512)
            } else {
                Ok(at + 512)
            },
        }
    }
}

/// Where the header behind the one at `at` stands.
#[verifier::opaque]
pub open spec fn next_entry(outer: Format, data: Seq<u8>, at: int) -> Result<int, Pulled> {
    match land(outer, data, at + 512) {
        Err(end) => Err(end),
        Ok(read) => {
            let b = read.subrange(at, at + 512);
            if blank(b) {
                Err(Pulled::Done(read))
            } else {
                match size_of(b) {
                    None => Err(Pulled::Unsure),
                    Some(size) => if sparse_header(b, 0) {
                        if size >= STREAM_MAX {
                            Err(Pulled::Vast)
                        } else {
                            match extensions(outer, data, at + 512) {
                                Err(end) => Err(end),
                                Ok(end) => Ok(end + in_blocks(size)),
                            }
                        }
                    } else if b[156] == 0x78 {
                        if size > RECORDS_MAX {
                            Err(Pulled::Unsure)
                        } else {
                            match land(outer, data, at + 512 + size) {
                                Err(end) => Err(end),
                                Ok(read) => if names_size(
                                    read.subrange(at + 512, at + 512 + size),
                                ) {
                                    Err(Pulled::Unsure)
                                } else {
                                    Ok(at + 512 + in_blocks(size))
                                },
                            }
                        }
                    } else {
                        Ok(at + 512 + in_blocks(size))
                    },
                }
            }
        },
    }
}

/// Walk the tar in `data` under the outer format from the header at `at` on.
pub open spec fn pull(outer: Format, data: Seq<u8>, at: int) -> Pulled
    decreases steps_left(at),
{
    if at > STREAM_MAX {
        Pulled::Vast
    } else {
        match next_entry(outer, data, at) {
            Err(end) => end,
            Ok(next) => match land(outer, data, next) {
                Err(end) => end,
                Ok(_) => if next <= at {
                    Pulled::Unsure
                } else {
                    pull(outer, data, next)
                },
            },
        }
    }
}

/// The tar in `data` under its outer format, up to its end, where a reader can walk
/// it: header by header, or, where the headers cannot be followed, because nothing in
/// the whole stream can carry the reader past 64 bits. Otherwise the text of the
/// outer layer's failure, or of the refusal.
pub open spec fn tar_source(outer: Format, data: Seq<u8>) -> Result<Seq<u8>, Seq<char>> {
    match pull(outer, data, 0) {
        Pulled::Vast => Err(tar_refusal()),
        Pulled::Done(stream) => Ok(stream),
        Pulled::Failed(e) => Err(e),
        Pulled::Unsure => match tar_prefix(outer, data, (STREAM_MAX + 1) as u64) {
            Err(e) => Err(e),
            Ok(stream) => if stream.len() <= STREAM_MAX && scan_fits(stream) {
                Ok(stream)
            } else {
                Err(tar_refusal())
            },
        },
    }
}

// ---------------------------------------------------------------------------
// The whole stream at once

/// The block of `s` at `at` has the form of a GNU header of a sparse entry with
/// extension blocks behind it.
pub open spec fn sparse_header(s: Seq<u8>, at: int) -> bool {
    &&& 0 <= at
    &&& at + BLOCK <= s.len()
    &&& s[at + 156] == 0x53
    &&& s[at + 257] == 0x75
    &&& s[at + 258] == 0x73
    &&& s[at + 259] == 0x74
    &&& s[at + 260] == 0x61
    &&& s[at + 261] == 0x72
    &&& s[at + 262] == 0x20
    &&& s[at + 263] == 0x20
    &&& s[at + 264] == 0
    &&& s[at + 482] == 1
}

/// The size field of the header at `at` is binary and reaches [`STREAM_MAX`].
pub open spec fn vast_size(s: Seq<u8>, at: int) -> bool {
    &&& s[at + 124] >= 0x80
    &&& s[at + 128] >= 0x40
}

/// The bytes of `s` at `at` read `size=` and nineteen more digits or signs: the
/// beginning of an extended-header record for a size that may reach [`STREAM_MAX`].
pub open spec fn vast_record(s: Seq<u8>, at: int) -> bool {
    &&& 0 <= at
    &&& at + 24 <= s.len()
    &&& s[at] == 0x73
    &&& s[at + 1] == 0x69
    &&& s[at + 2] == 0x7a
    &&& s[at + 3] == 0x65
    &&& s[at + 4] == 0x3d
    &&& forall|i: int| at + 5 <= i < at + 24 ==> (0x30 <= #[trigger] s[i] <= 0x39 || s[i] == 0x2b)
}

/// Some block of `s` is an extended sparse header.
pub open spec fn holds_sparse(s: Seq<u8>) -> bool {
    exists|at: int| at % 512 == 0 && #[trigger] sparse_header(s, at)
}

/// Some block of `s` is an extended sparse header of a vast size.
pub open spec fn holds_vast_sparse(s: Seq<u8>) -> bool {
    exists|at: int| at % 512 == 0 && #[trigger] sparse_header(s, at) && vast_size(s, at)
}

/// Some record of a vast size begins in `s`.
pub open spec fn holds_vast_record(s: Seq<u8>) -> bool {
    exists|at: int| #[trigger] vast_record(s, at)
}

/// Nothing in `s` can carry a reader past 64 bits: no sparse entry with extension
/// blocks has a vast size, be it from its own header or from an extended-header
/// record.
pub open spec fn scan_fits(s: Seq<u8>) -> bool {
    &&& !holds_vast_sparse(s)
    &&& !(holds_sparse(s) && holds_vast_record(s))
}

// ---------------------------------------------------------------------------
// Laws

/// A stream that decodes whole is walked as its content is.
pub proof fn packed_walk_is_the_plain_one(outer: Format, data: Seq<u8>, inner: Seq<u8>)
    requires
        tar_holds_stream(outer, data, inner),
    ensures
        tar_source(outer, data) == tar_source(Format::Tar, inner),
{
    assert forall|n: u64| #[trigger] tar_prefix(outer, data, n) == tar_prefix(
        Format::Tar,
        inner,
        n,
    ) by {}
    pulls_alike(outer, data, inner, 0);
}

/// Streams with the same first bytes have the same extension blocks.
proof fn extends_alike(outer: Format, data: Seq<u8>, inner: Seq<u8>, at: int)
    requires
        forall|n: u64| #[trigger] tar_prefix(outer, data, n) == tar_prefix(Format::Tar, inner, n),
    ensures
        extensions(outer, data, at) == extensions(Format::Tar, inner, at),
    decreases steps_left(at),
{
    if at <= STREAM_MAX {
        extends_alike(outer, data, inner, at + 512);
    }
}

/// Streams with the same first bytes are walked alike.
proof fn pulls_alike(outer: Format, data: Seq<u8>, inner: Seq<u8>, at: int)
    requires
        forall|n: u64| #[trigger] tar_prefix(outer, data, n) == tar_prefix(Format::Tar, inner, n),
    ensures
        pull(outer, data, at) == pull(Format::Tar, inner, at),
    decreases steps_left(at),
{
    if at <= STREAM_MAX {
        extends_alike(outer, data, inner, at + 512);
        assert(next_entry(outer, data, at) == next_entry(Format::Tar, inner, at)) by {
            reveal(next_entry);
        }
        if let Ok(next) = next_entry(outer, data, at) {
            if next > at {
                pulls_alike(outer, data, inner, next);
            }
        }
    }
}

// ---------------------------------------------------------------------------
// Executable forms

/// Whether the block at `at` is an extended sparse header.
fn is_sparse_header(bytes: &[u8], at: usize) -> (r: bool)
    requires
        at + BLOCK <= bytes@.len() <= usize::MAX,
    ensures
        r == sparse_header(bytes@, at as int),
{
    bytes[at + 156] == 0x53 && bytes[at + 257] == 0x75 && bytes[at + 258] == 0x73 && bytes[at + 259]
        == 0x74 && bytes[at + 260] == 0x61 && bytes[at + 261] == 0x72 && bytes[at + 262] == 0x20
        && bytes[at + 263] == 0x20 && bytes[at + 264] == 0 && bytes[at + 482] == 1
}

/// Whether some block is an extended sparse header, and whether one is of a vast
/// size.
fn sparse_headers(bytes: &[u8]) -> (r: (bool, bool))
    ensures
        r.0 == holds_sparse(bytes@),
        r.1 == holds_vast_sparse(bytes@),
{
    let mut sparse: bool = false;
    let mut vast: bool = false;
    let mut at: usize = 0;
    while bytes.len() - at >= BLOCK
        invariant
            at <= bytes@.len(),
            at % 512 == 0,
            sparse == exists|b: int|
                b % 512 == 0 && b < at && #[trigger] sparse_header(bytes@, b),
            vast == exists|b: int|
                b % 512 == 0 && b < at && #[trigger] sparse_header(bytes@, b) && vast_size(
                    bytes@,
                    b,
                ),
        decreases bytes@.len() - at,
    {
        if is_sparse_header(bytes, at) {
            sparse = true;
            if bytes[at + 124] >= 0x80 && bytes[at + 128] >= 0x40 {
                vast = true;
            }
        }
        let ghost before = at;
        at = at + BLOCK;
        proof {
            assert forall|b: int|
                b % 512 == 0 && before <= b < at && #[trigger] sparse_header(
                    bytes@,
                    b,
                ) implies b == before by {}
        }
    }
    (sparse, vast)
}

/// Whether a record of a vast size begins at `at`.
fn is_vast_record(bytes: &[u8], at: usize) -> (r: bool)
    requires
        at + 24 <= bytes@.len() <= usize::MAX,
    ensures
        r == vast_record(bytes@, at as int),
{
    if !(bytes[at] == 0x73 && bytes[at + 1] == 0x69 && bytes[at + 2] == 0x7a && bytes[at + 3]
        == 0x65 && bytes[at + 4] == 0x3d) {
        return false;
    }
    let mut i: usize = 5;
    while i < 24
        invariant
            5 <= i <= 24,
            at + 24 <= bytes@.len() <= usize::MAX,
            forall|j: int|
                at + 5 <= j < at + i ==> (0x30 <= #[trigger] bytes@[j] <= 0x39 || bytes@[j] == 0x2b),
        decreases 24 - i,
    {
        let b: u8 = bytes[at + i];
        if !(0x30 <= b && b <= 0x39 || b == 0x2b) {
            assert(bytes@[at + i] == b);
            return false;
        }
        i = i + 1;
    }
    true
}

/// Whether a record of a vast size begins anywhere.
fn vast_records(bytes: &[u8]) -> (r: bool)
    ensures
        r == holds_vast_record(bytes@),
{
    let mut at: usize = 0;
    while bytes.len() - at >= 24
        invariant
            at <= bytes@.len(),
            forall|p: int| p < at ==> !#[trigger] vast_record(bytes@, p),
        decreases bytes@.len() - at,
    {
        if is_vast_record(bytes, at) {
            return true;
        }
        at = at + 1;
    }
    false
}

/// The last bytes of `s` in which a record can have begun that goes on behind it.
pub open spec fn record_tail(s: Seq<u8>) -> Seq<u8> {
    if s.len() <= 23 {
        s
    } else {
        s.skip(s.len() - 23)
    }
}

/// What has been seen of a tar stream that is walked through in steps of whole
/// blocks.
struct TarScan {
    sparse: bool,
    vast: bool,
    record: bool,
    tail: Vec<u8>,
}

impl TarScan {
    /// The scan has seen exactly `s`.
    spec fn has_seen(&self, s: Seq<u8>) -> bool {
        &&& self.sparse == holds_sparse(s)
        &&& self.vast == holds_vast_sparse(s)
        &&& self.record == holds_vast_record(s)
        &&& s.len() % 512 == 0 ==> self.tail@ == record_tail(s)
    }

    /// Nothing seen yet.
    fn new() -> (r: TarScan)
        ensures
            r.has_seen(Seq::empty()),
    {
        let tail: Vec<u8> = Vec::new();
        assert(tail@ =~= record_tail(Seq::empty()));
        TarScan { sparse: false, vast: false, record: false, tail }
    }

    /// Look at the next bytes of the stream.
    fn step(&mut self, chunk: &[u8], Ghost(s): Ghost<Seq<u8>>)
        requires
            old(self).has_seen(s),
            s.len() % 512 == 0,
        ensures
            final(self).has_seen(s + chunk@),
    {
        let (sparse, vast): (bool, bool) = sparse_headers(chunk);
        let inside: bool = vast_records(chunk);
        let mut seam: Vec<u8> = self.tail.clone();
        let head: usize = if chunk.len() < 23 {
            chunk.len()
        } else {
            23
        };
        let mut front: Vec<u8> = slice_to_vec(slice_subrange(chunk, 0, head));
        seam.append(&mut front);
        let across: bool = vast_records(seam.as_slice());
        proof {
            blocks_of_joined(s, chunk@);
            assert(seam@ =~= record_tail(s) + first_bytes(chunk@, 23));
            records_of_joined(s, chunk@, seam@);
        }
        self.sparse = self.sparse || sparse;
        self.vast = self.vast || vast;
        self.record = self.record || inside || across;
        if chunk.len() >= 23 {
            self.tail = slice_to_vec(slice_subrange(chunk, chunk.len() - 23, chunk.len()));
            assert(self.tail@ =~= record_tail(s + chunk@));
        } else if chunk.len() == 0 {
            assert(s + chunk@ =~= s);
        }
    }

    /// Whether [`scan_fits`] holds of what has been seen.
    fn fits(&self, Ghost(s): Ghost<Seq<u8>>) -> (r: bool)
        requires
            self.has_seen(s),
        ensures
            r == scan_fits(s),
    {
        !self.vast && !(self.sparse && self.record)
    }
}

/// The blocks of two joined streams, the first of whole blocks, are those of the
/// two.
proof fn blocks_of_joined(s: Seq<u8>, t: Seq<u8>)
    requires
        s.len() % 512 == 0,
    ensures
        holds_sparse(s + t) == (holds_sparse(s) || holds_sparse(t)),
        holds_vast_sparse(s + t) == (holds_vast_sparse(s) || holds_vast_sparse(t)),
{
    let n = s.len() as int;
    assert forall|at: int| at % 512 == 0 && #[trigger] sparse_header(s, at) implies sparse_header(
        s + t,
        at,
    ) && vast_size(s + t, at) == vast_size(s, at) by {}
    assert forall|at: int| at % 512 == 0 && #[trigger] sparse_header(t, at) implies sparse_header(
        s + t,
        at + n,
    ) && (at + n) % 512 == 0 && vast_size(s + t, at + n) == vast_size(t, at) by {}
    assert forall|at: int| at % 512 == 0 && #[trigger] sparse_header(s + t, at) implies (
    sparse_header(s, at) && vast_size(s + t, at) == vast_size(s, at)) || (sparse_header(t, at - n)
        && (at - n) % 512 == 0 && vast_size(s + t, at) == vast_size(t, at - n)) by {}
}

/// The records that begin in two joined streams begin in one of them, or in the
/// seam between them.
proof fn records_of_joined(s: Seq<u8>, t: Seq<u8>, seam: Seq<u8>)
    requires
        seam == record_tail(s) + first_bytes(t, 23),
    ensures
        holds_vast_record(s + t) == (holds_vast_record(s) || holds_vast_record(t)
            || holds_vast_record(seam)),
{
    let n = s.len() as int;
    let k = n - record_tail(s).len();
    assert forall|at: int| #[trigger] vast_record(s, at) implies vast_record(s + t, at) by {
        assert forall|i: int| at + 5 <= i < at + 24 implies (0x30 <= #[trigger] (s + t)[i] <= 0x39
            || (s + t)[i] == 0x2b) by {
            assert(s[i] == (s + t)[i]);
        }
    }
    assert forall|at: int| #[trigger] vast_record(t, at) implies vast_record(s + t, at + n) by {
        assert forall|i: int| at + n + 5 <= i < at + n + 24 implies (0x30 <= #[trigger] (s + t)[i]
            <= 0x39 || (s + t)[i] == 0x2b) by {
            assert(t[i - n] == (s + t)[i]);
        }
    }
    assert forall|j: int| 0 <= j < seam.len() implies #[trigger] seam[j] == (s + t)[j + k] by {}
    assert forall|at: int| #[trigger] vast_record(seam, at) implies vast_record(s + t, at + k) by {
        assert forall|i: int| at + k + 5 <= i < at + k + 24 implies (0x30 <= #[trigger] (s + t)[i]
            <= 0x39 || (s + t)[i] == 0x2b) by {
            assert(seam[i - k] == (s + t)[i]);
        }
    }
    assert forall|at: int| #[trigger] vast_record(s + t, at) implies vast_record(s, at)
        || vast_record(t, at - n) || vast_record(seam, at - k) by {
        if at + 24 <= n {
            assert forall|i: int| at + 5 <= i < at + 24 implies (0x30 <= #[trigger] s[i] <= 0x39
                || s[i] == 0x2b) by {
                assert(s[i] == (s + t)[i]);
            }
            assert(vast_record(s, at));
        } else if at >= n {
            assert forall|i: int| at - n + 5 <= i < at - n + 24 implies (0x30 <= #[trigger] t[i]
                <= 0x39 || t[i] == 0x2b) by {
                assert(t[i] == (s + t)[i + n]);
            }
            assert(vast_record(t, at - n));
        } else {
            assert(k <= at);
            assert(at - k + 24 <= seam.len());
            assert forall|i: int| at - k + 5 <= i < at - k + 24 implies (0x30 <= #[trigger] seam[i]
                <= 0x39 || seam[i] == 0x2b) by {
                assert(seam[i] == (s + t)[i + k]);
            }
            assert(vast_record(seam, at - k));
        }
    }
}

/// A stream that is read on from where it stands.
enum Inflow<'a> {
    /// Bytes in memory, and how many of them have been read.
    Plain(&'a [u8], usize),
    Gzip(GzipReader<'a>),
    Bzip2(Bzip2Reader<'a>),
}

impl<'a> Inflow<'a> {
    /// The bytes that the stream is made from.
    spec fn source(&self) -> Seq<u8> {
        match *self {
            Inflow::Plain(bytes, at) => bytes@,
            Inflow::Gzip(d) => gzip_source(d),
            Inflow::Bzip2(d) => bzip2_source(d),
        }
    }

    /// What has been read of the stream.
    spec fn given(&self) -> Seq<u8> {
        match *self {
            Inflow::Plain(bytes, at) => bytes@.take(at as int),
            Inflow::Gzip(d) => gzip_given(d),
            Inflow::Bzip2(d) => bzip2_given(d),
        }
    }

    /// The stream is one under the given outer format.
    spec fn runs(&self, outer: Format) -> bool {
        match *self {
            Inflow::Plain(bytes, at) => !(outer is TarGz) && !(outer is TarBz2) && at
                <= bytes@.len(),
            Inflow::Gzip(_) => outer is TarGz,
            Inflow::Bzip2(_) => outer is TarBz2,
        }
    }

    /// The stream in `data` under its outer format, from its start.
    fn start(data: &'a [u8], outer: Format) -> (r: Inflow<'a>)
        ensures
            r.runs(outer),
            r.source() == data@,
            r.given() == Seq::<u8>::empty(),
    {
        match outer {
            Format::TarGz => Inflow::Gzip(start_gzip(data)),
            Format::TarBz2 => Inflow::Bzip2(start_bzip2(data)),
            _ => {
                assert(data@.take(0) =~= Seq::<u8>::empty());
                Inflow::Plain(data, 0)
            },
        }
    }

    /// Read at most `limit` bytes more.
    fn read(self, limit: u64, outer: Format) -> (r: Result<(Vec<u8>, Inflow<'a>), String>)
        requires
            self.runs(outer),
        ensures
            match r {
                Ok((out, next)) => {
                    &&& out@.len() <= limit
                    &&& next.runs(outer)
                    &&& next.source() == self.source()
                    &&& next.given() == self.given() + out@
                    &&& next.given().len() <= u64::MAX ==> tar_prefix(
                        outer,
                        self.source(),
                        next.given().len() as u64,
                    ) == Ok::<Seq<u8>, Seq<char>>(next.given())
                    &&& out@.len() < limit ==> tar_holds_stream(
                        outer,
                        self.source(),
                        next.given(),
                    )
                },
                Err(e) => forall|n: u64|
                    n >= self.given().len() + limit ==> #[trigger] tar_prefix(
                        outer,
                        self.source(),
                        n,
                    ) == Err::<Seq<u8>, Seq<char>>(e@),
            },
    {
        match self {
            Inflow::Gzip(d) => match read_gzip(d, limit) {
                Ok((out, next)) => {
                    proof {
                        if out@.len() < limit {
                            assert forall|n: u64| #[trigger] tar_prefix(
                                outer,
                                gzip_source(d),
                                n,
                            ) == Ok::<Seq<u8>, Seq<char>>(
                                first_bytes(gzip_given(next), n),
                            ) by {
                                assert(gzip_prefix(gzip_source(d), n) is Ok);
                            }
                        }
                    }
                    Ok((out, Inflow::Gzip(next)))
                },
                Err(e) => {
                    proof {
                        assert forall|n: u64|
                            n >= gzip_given(d).len() + limit implies #[trigger] tar_prefix(
                            outer,
                            gzip_source(d),
                            n,
                        ) == Err::<Seq<u8>, Seq<char>>(e@) by {
                            assert(gzip_prefix(gzip_source(d), n) is Err);
                        }
                    }
                    Err(e)
                },
            },
            Inflow::Bzip2(d) => match read_bzip2(d, limit) {
                Ok((out, next)) => {
                    proof {
                        if out@.len() < limit {
                            assert forall|n: u64| #[trigger] tar_prefix(
                                outer,
                                bzip2_source(d),
                                n,
                            ) == Ok::<Seq<u8>, Seq<char>>(
                                first_bytes(bzip2_given(next), n),
                            ) by {
                                assert(bzip2_prefix(bzip2_source(d), n) is Ok);
                            }
                        }
                    }
                    Ok((out, Inflow::Bzip2(next)))
                },
                Err(e) => {
                    proof {
                        assert forall|n: u64|
                            n >= bzip2_given(d).len() + limit implies #[trigger] tar_prefix(
                            outer,
                            bzip2_source(d),
                            n,
                        ) == Err::<Seq<u8>, Seq<char>>(e@) by {
                            assert(bzip2_prefix(bzip2_source(d), n) is Err);
                        }
                    }
                    Err(e)
                },
            },
            Inflow::Plain(bytes, at) => {
                let left: usize = bytes.len() - at;
                let more: usize = if limit < left as u64 {
                    limit as usize
                } else {
                    left
                };
                let out: Vec<u8> = slice_to_vec(slice_subrange(bytes, at, at + more));
                proof {
                    assert(bytes@.take(at + more) =~= bytes@.take(at as int) + out@);
                    assert(first_bytes(bytes@, (at + more) as u64) =~= bytes@.take(at + more));
                    if more < limit {
                        assert(bytes@.take(at + more) =~= bytes@);
                    }
                }
                Ok((out, Inflow::Plain(bytes, at + more)))
            },
        }
    }

    /// Read on from `at` to `n`, and tell whether the stream goes that far.
    fn pass(self, at: u64, n: u64, outer: Format) -> (r: Result<(bool, Inflow<'a>), String>)
        requires
            self.runs(outer),
            self.given().len() == at,
            tar_prefix(outer, self.source(), at) == Ok::<Seq<u8>, Seq<char>>(self.given()),
            at <= n,
        ensures
            match r {
                Ok((full, next)) => {
                    &&& next.runs(outer)
                    &&& next.source() == self.source()
                    &&& tar_prefix(outer, self.source(), n) == Ok::<Seq<u8>, Seq<char>>(
                        next.given(),
                    )
                    &&& full == (next.given().len() == n)
                    &&& next.given().len() <= n
                },
                Err(e) => tar_prefix(outer, self.source(), n) == Err::<Seq<u8>, Seq<char>>(e@),
            },
    {
        if let Inflow::Plain(bytes, _) = self {
            let len: usize = bytes.len();
            proof {
                assert(first_bytes(bytes@, n) =~= bytes@.take(
                    if n <= len {
                        n as int
                    } else {
                        len as int
                    },
                ));
            }
            if n <= len as u64 {
                return Ok((true, Inflow::Plain(bytes, n as usize)));
            }
            return Ok((false, Inflow::Plain(bytes, len)));
        }
        let ghost source = self.source();
        let mut d: Inflow<'a> = self;
        let mut at: u64 = at;
        while at < n
            invariant
                at <= n,
                d.runs(outer),
                d.source() == source,
                self.source() == source,
                d.given().len() == at,
                tar_prefix(outer, source, at) == Ok::<Seq<u8>, Seq<char>>(d.given()),
            decreases n - at,
        {
            let piece: u64 = if n - at < STEP {
                n - at
            } else {
                STEP
            };
            let (out, next): (Vec<u8>, Inflow<'a>) = match d.read(piece, outer) {
                Ok(read) => read,
                Err(e) => {
                    return Err(e);
                },
            };
            if (out.len() as u64) < piece {
                proof {
                    assert(tar_prefix(outer, source, n) == Ok::<Seq<u8>, Seq<char>>(
                        first_bytes(next.given(), n),
                    ));
                }
                return Ok((false, next));
            }
            d = next;
            at = at + piece;
        }
        Ok((true, d))
    }
}

/// What one step of the walk comes to.
enum Step<'a> {
    On(Inflow<'a>, u64),
    Vast,
    Unsure,
    Done,
    Failed(String),
}

impl<'a> Step<'a> {
    /// The step ends the walk, as `end` says.
    spec fn stops(&self, end: Pulled) -> bool {
        match *self {
            Step::On(_, _) => false,
            Step::Vast => end is Vast,
            Step::Unsure => end is Unsure,
            Step::Done => end is Done,
            Step::Failed(e) => end == Pulled::Failed(e@),
        }
    }

    /// The step is one from the header at `at` of the tar in `data`.
    spec fn leads(&self, outer: Format, data: Seq<u8>, at: int) -> bool {
        match *self {
            Step::On(d, n) => {
                &&& d.runs(outer)
                &&& d.source() == data
                &&& d.given().len() == n
                &&& n > at
                &&& pull(outer, data, at) == pull(outer, data, n as int)
            },
            _ => self.stops(pull(outer, data, at)),
        }
    }
}

/// Eight to the power of `n`.
spec fn power8(n: nat) -> int
    decreases n,
{
    if n == 0 {
        1
    } else {
        8 * power8((n - 1) as nat)
    }
}

proof fn powers8(n: nat)
    requires
        n <= 12,
    ensures
        1 <= power8(n) <= 0x10_0000_0000,
{
    reveal_with_fuel(power8, 13);
}

/// The size that a header declares.
fn declared_size(b: &[u8]) -> (r: Option<u64>)
    requires
        b@.len() == 512,
    ensures
        match r {
            Some(size) => size_of(b@) == Some(size as int),
            None => size_of(b@) is None,
        },
{
    if b[124] >= 0x80 {
        proof {
            reveal_with_fuel(big_endian, 9);
        }
        let high: u64 = 0x100_0000 * (b[128] as u64) + 0x1_0000 * (b[129] as u64) + 0x100 * (
        b[130] as u64) + b[131] as u64;
        let low: u64 = 0x100_0000 * (b[132] as u64) + 0x1_0000 * (b[133] as u64) + 0x100 * (
        b[134] as u64) + b[135] as u64;
        return Some(0x1_0000_0000 * high + low);
    }
    let mut n: usize = 0;
    let mut size: u64 = 0;
    while n < 12 && 0x30 <= b[124 + n] && b[124 + n] <= 0x37
        invariant
            n <= 12,
            b@.len() == 512,
            size == octal(b@, 124, n as nat),
            size < power8(n as nat),
            size_digits(b@, 0) == size_digits(b@, n as nat),
        decreases 12 - n,
    {
        proof {
            powers8(n as nat);
        }
        size = 8 * size + (b[124 + n] - 0x30) as u64;
        n = n + 1;
    }
    if n >= 1 && (n == 12 || b[124 + n] == 0 || n == 11 && b[135] == 0x20) {
        Some(size)
    } else {
        None
    }
}

/// Whether a block is all zeros.
fn is_blank(b: &[u8]) -> (r: bool)
    requires
        b@.len() == 512,
    ensures
        r == blank(b@),
{
    let mut i: usize = 0;
    while i < 512
        invariant
            i <= 512,
            b@.len() == 512,
            forall|j: int| 0 <= j < i ==> #[trigger] b@[j] == 0,
        decreases 512 - i,
    {
        if b[i] != 0 {
            return false;
        }
        i = i + 1;
    }
    true
}

/// Whether the bytes name a size.
fn is_naming_size(bytes: &[u8]) -> (r: bool)
    ensures
        r == names_size(bytes@),
{
    let mut at: usize = 0;
    while bytes.len() - at >= 5
        invariant
            at <= bytes@.len(),
            forall|p: int| p < at ==> !#[trigger] size_key(bytes@, p),
        decreases bytes@.len() - at,
    {
        if bytes[at] == 0x73 && bytes[at + 1] == 0x69 && bytes[at + 2] == 0x7a && bytes[at + 3]
            == 0x65 && bytes[at + 4] == 0x3d {
            assert(size_key(bytes@, at as int));
            return true;
        }
        at = at + 1;
    }
    false
}

/// Read on behind the extension blocks of a sparse entry.
fn pass_extensions<'a>(from: Inflow<'a>, start: u64, outer: Format) -> (r: core::result::Result<
    (Inflow<'a>, u64),
    Step<'a>,
>)
    requires
        from.runs(outer),
        from.given().len() == start,
        start <= STREAM_MAX + 512,
    ensures
        match r {
            Ok((next, end)) => {
                &&& next.runs(outer)
                &&& next.source() == from.source()
                &&& next.given().len() == end
                &&& end <= STREAM_MAX + 1024
                &&& end > start
                &&& tar_prefix(outer, from.source(), end) == Ok::<Seq<u8>, Seq<char>>(next.given())
                &&& extensions(outer, from.source(), start as int) == Ok::<int, Pulled>(end as int)
            },
            Err(step) => extensions(outer, from.source(), start as int) matches Err(end)
                && step.stops(end),
        },
{
    let ghost source = from.source();
    let mut d: Inflow<'a> = from;
    let mut at: u64 = start;
    loop
        invariant
            start <= at <= STREAM_MAX + 512,
            d.runs(outer),
            d.source() == source,
            from.source() == source,
            d.given().len() == at,
            extensions(outer, source, start as int) == extensions(outer, source, at as int),
        decreases STREAM_MAX + 512 - at,
    {
        if at > STREAM_MAX {
            return Err(Step::Vast);
        }
        let (block, next): (Vec<u8>, Inflow<'a>) = match d.read(512, outer) {
            Ok(read) => read,
            Err(e) => {
                assert(tar_prefix(outer, source, (at + 512) as u64) is Err);
                return Err(Step::Failed(e));
            },
        };
        if block.len() < 512 {
            assert(tar_prefix(outer, source, (at + 512) as u64) == Ok::<Seq<u8>, Seq<char>>(
                first_bytes(next.given(), (at + 512) as u64),
            ));
            return Err(Step::Done);
        }
        assert(next.given()[at + 504] == block@[504]);
        if block[504] != 1 {
            return Ok((next, at + 512));
        }
        d = next;
        at = at + 512;
    }
}

/// Read the header at `at`, and find where the one behind it stands: the stream,
/// where it has been read to, and that place.
#[verifier::rlimit(40)]
fn find_next<'a>(d: Inflow<'a>, at: u64, outer: Format) -> (r: core::result::Result<
    (Inflow<'a>, u64, u128),
    Step<'a>,
>)
    requires
        d.runs(outer),
        d.given().len() == at,
        at <= STREAM_MAX,
    ensures
        match r {
            Ok((read, here, next)) => {
                &&& read.runs(outer)
                &&& read.source() == d.source()
                &&& read.given().len() == here
                &&& tar_prefix(outer, d.source(), here) == Ok::<Seq<u8>, Seq<char>>(read.given())
                &&& at < here <= next
                &&& next_entry(outer, d.source(), at as int) == Ok::<int, Pulled>(next as int)
            },
            Err(step) => next_entry(outer, d.source(), at as int) matches Err(end) && step.stops(
                end,
            ),
        },
{
    reveal(next_entry);
    let ghost source = d.source();
    let (block, d): (Vec<u8>, Inflow<'a>) = match d.read(512, outer) {
        Ok(read) => read,
        Err(e) => {
            assert(tar_prefix(outer, source, (at + 512) as u64) is Err);
            return Err(Step::Failed(e));
        },
    };
    if block.len() < 512 {
        assert(tar_prefix(outer, source, (at + 512) as u64) == Ok::<Seq<u8>, Seq<char>>(
            first_bytes(d.given(), (at + 512) as u64),
        ));
        return Err(Step::Done);
    }
    assert(d.given().subrange(at as int, at + 512) =~= block@);
    if is_blank(block.as_slice()) {
        return Err(Step::Done);
    }
    let size: u64 = match declared_size(block.as_slice()) {
        Some(size) => size,
        None => {
            return Err(Step::Unsure);
        },
    };
    let (d, end): (Inflow<'a>, u64) = if is_sparse_header(block.as_slice(), 0) {
        if size >= STREAM_MAX {
            return Err(Step::Vast);
        }
        match pass_extensions(d, at + 512, outer) {
            Ok(passed) => passed,
            Err(step) => {
                return Err(step);
            },
        }
    } else {
        (d, at + 512)
    };
    let (d, here): (Inflow<'a>, u64) = if block[156] == 0x78 {
        if size > RECORDS_MAX {
            return Err(Step::Unsure);
        }
        let (records, next): (Vec<u8>, Inflow<'a>) = match d.read(size, outer) {
            Ok(read) => read,
            Err(e) => {
                assert(tar_prefix(outer, source, (at + 512 + size) as u64) is Err);
                return Err(Step::Failed(e));
            },
        };
        if (records.len() as u64) < size {
            assert(tar_prefix(outer, source, (at + 512 + size) as u64) == Ok::<
                Seq<u8>,
                Seq<char>,
            >(first_bytes(next.given(), (at + 512 + size) as u64)));
            return Err(Step::Done);
        }
        assert(next.given().subrange(at + 512, at + 512 + size) =~= records@);
        if is_naming_size(records.as_slice()) {
            return Err(Step::Unsure);
        }
        (next, at + 512 + size)
    } else {
        (d, end)
    };
    Ok((d, here, end as u128 + (size as u128 + 511) / 512 * 512))
}

/// Walk on from the header at `at` to the one behind it.
fn advance<'a>(d: Inflow<'a>, at: u64, outer: Format) -> (r: Step<'a>)
    requires
        d.runs(outer),
        d.given().len() == at,
        at <= STREAM_MAX,
    ensures
        r.leads(outer, d.source(), at as int),
{
    let (d, here, next): (Inflow<'a>, u64, u128) = match find_next(d, at, outer) {
        Ok(found) => found,
        Err(step) => {
            return step;
        },
    };
    if next > u64::MAX as u128 {
        return match d.pass(here, u64::MAX, outer) {
            Ok(_) => Step::Done,
            Err(e) => Step::Failed(e),
        };
    }
    match d.pass(here, next as u64, outer) {
        Ok((true, d)) => Step::On(d, next as u64),
        Ok((false, _)) => Step::Done,
        Err(e) => Step::Failed(e),
    }
}

/// Read a stream to its end, and tell whether nothing in it can carry a reader past
/// 64 bits.
fn scan_stream(data: &[u8], outer: Format) -> (r: Result<bool, String>)
    ensures
        match r {
            Ok(fits) => tar_prefix(outer, data@, (STREAM_MAX + 1) as u64) matches Ok(stream) && fits
                == (stream.len() <= STREAM_MAX && scan_fits(stream)),
            Err(e) => tar_prefix(outer, data@, (STREAM_MAX + 1) as u64) == Err::<
                Seq<u8>,
                Seq<char>,
            >(e@),
        },
{
    let ghost all = (STREAM_MAX + 1) as u64;
    let mut d: Inflow<'_> = Inflow::start(data, outer);
    let mut scan: TarScan = TarScan::new();
    let mut at: u64 = 0;
    loop
        invariant
            all == STREAM_MAX + 1,
            d.runs(outer),
            d.source() == data@,
            d.given().len() == at,
            at <= STREAM_MAX,
            at % STEP == 0,
            scan.has_seen(d.given()),
        decreases STREAM_MAX + 1 - at,
    {
        let ghost before = d.given();
        let limit: u64 = if at == STREAM_MAX {
            1
        } else {
            STEP
        };
        assert(at + limit <= all);
        let (chunk, next): (Vec<u8>, Inflow<'_>) = match d.read(limit, outer) {
            Ok(step) => step,
            Err(e) => {
                assert(tar_prefix(outer, data@, all) is Err);
                return Err(e);
            },
        };
        d = next;
        if (chunk.len() as u64) < limit {
            scan.step(chunk.as_slice(), Ghost(before));
            let ghost whole = d.given();
            proof {
                assert(tar_prefix(outer, data@, all) == Ok::<Seq<u8>, Seq<char>>(
                    first_bytes(whole, all),
                ));
            }
            return Ok(scan.fits(Ghost(whole)));
        }
        if at == STREAM_MAX {
            return Ok(false);
        }
        scan.step(chunk.as_slice(), Ghost(before));
        at = at + STEP;
    }
}

/// Whether a reader can walk the tar in `compressed`, from its bytes.
///
/// # Errors
/// The text of the outer layer's failure, or of the refusal.
pub fn check_tar(compressed: &[u8], outer: Format) -> (r: Result<(), String>)
    ensures
        match r {
            Ok(_) => tar_source(outer, compressed@) is Ok,
            Err(e) => tar_source(outer, compressed@) == Err::<Seq<u8>, Seq<char>>(e@),
        },
{
    let mut d: Inflow<'_> = Inflow::start(compressed, outer);
    let mut at: u64 = 0;
    loop
        invariant
            d.runs(outer),
            d.source() == compressed@,
            d.given().len() == at,
            pull(outer, compressed@, 0) == pull(outer, compressed@, at as int),
        decreases u64::MAX - at,
    {
        if at > STREAM_MAX {
            return Err("tar entry runs past 64 bits".to_owned());
        }
        match advance(d, at, outer) {
            Step::On(next, n) => {
                d = next;
                at = n;
            },
            Step::Vast => {
                return Err("tar entry runs past 64 bits".to_owned());
            },
            Step::Done => {
                return Ok(());
            },
            Step::Failed(e) => {
                return Err(e);
            },
            Step::Unsure => {
                return match scan_stream(compressed, outer) {
                    Ok(true) => Ok(()),
                    Ok(false) => Err("tar entry runs past 64 bits".to_owned()),
                    Err(e) => Err(e),
                };
            },
        }
    }
}

} // verus!
