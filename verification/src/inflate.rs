//! Where a Deflate64 stream leads its decoder, symbol by symbol.
//!
//! The decoder loads two bytes at a time in its fast loop, which it enters with eight
//! bytes at hand. A match whose length has sixteen extra bits takes up to four loads,
//! and near the end of what the decoder has at hand the fourth can find a single
//! byte. A stream with such a match is told apart here: its blocks and codes are
//! followed, without producing what they stand for.

use crate::guard::{le16, read16};
use crate::tape::STREAM_MAX;
use vstd::prelude::*;
use vstd::slice::slice_subrange;

verus! {

broadcast use vstd::seq::group_seq_axioms;

/// The decoder is handed its input in chunks of a multiple of this many bits: those
/// of a buffered reader, of eight kilobytes or a multiple of that.
pub const CHUNK: u64 = 65_536;

/// The longest code of an alphabet.
pub const CODE_MAX: usize = 15;

// ---------------------------------------------------------------------------
// Bits and codes

/// Bit `p` of `s`, the low bits of a byte first.
pub open spec fn bit(s: Seq<u8>, p: int) -> int {
    ((s[p / 8] >> ((p % 8) as u8)) & 1u8) as int
}

/// The number in the `n` bits of `s` from `p` on, the low bits first.
pub open spec fn bits(s: Seq<u8>, p: int, n: nat) -> int
    decreases n,
{
    if n == 0 {
        0
    } else {
        bit(s, p) + 2 * bits(s, p + 1, (n - 1) as nat)
    }
}

/// How many symbols have a code of `len` bits.
pub open spec fn count(lens: Seq<u8>, len: int) -> nat
    decreases lens.len(),
{
    if lens.len() == 0 {
        0
    } else {
        count(lens.drop_last(), len) + if lens.last() == len {
            1nat
        } else {
            0
        }
    }
}

/// The symbol with `rank` symbols before it among those with a code of `len` bits.
pub open spec fn ranked(lens: Seq<u8>, len: int, rank: int) -> int
    decreases lens.len(),
{
    if lens.len() == 0 {
        0
    } else if lens.last() == len && count(lens.drop_last(), len) == rank {
        lens.len() - 1
    } else {
        ranked(lens.drop_last(), len, rank)
    }
}

/// What the codes of up to `len` bits leave of the code space, in codes of `len`
/// bits.
pub open spec fn space(lens: Seq<u8>, len: nat) -> int
    decreases len,
{
    if len == 0 {
        1
    } else {
        2 * space(lens, (len - 1) as nat) - count(lens, len as int)
    }
}

/// The code lengths ask for more codes than there are.
pub open spec fn oversubscribed(lens: Seq<u8>) -> bool {
    space(lens, CODE_MAX as nat) < 0
}

/// The symbol whose code stands in `s` at `p`, and the length of the code, where it
/// has at least `len` bits and ends by `stop`. `code` is what the bits before that
/// come to, and `first` is the first code of their length to follow, both doubled.
pub open spec fn decode(
    lens: Seq<u8>,
    s: Seq<u8>,
    p: int,
    stop: int,
    len: int,
    code: int,
    first: int,
) -> Option<(int, int)>
    decreases 16 - len,
{
    if len > CODE_MAX || p + len > stop {
        None
    } else {
        let here = code + bit(s, p + len - 1);
        let beyond = first + count(lens, len);
        if here < beyond {
            Some((ranked(lens, len, here - first), len))
        } else {
            decode(lens, s, p, stop, len + 1, 2 * here, 2 * beyond)
        }
    }
}

/// The symbol whose code stands in `s` at `p` before `stop`, and the length of the
/// code.
pub open spec fn symbol(lens: Seq<u8>, s: Seq<u8>, p: int, stop: int) -> Option<(int, int)> {
    decode(lens, s, p, stop, 1, 0, 0)
}

// ---------------------------------------------------------------------------
// Blocks

/// What following a block came to: a load runs short, the decoder stops, or the
/// block ends and the next one stands there.
pub enum Walk {
    Short,
    Over,
    Next(int),
}

/// Where the input that is at hand at `q` ends, for a stream from `from` to `stop`.
pub open spec fn chunk_end(q: int, from: int, stop: int) -> int {
    let end = from + ((q - from) / CHUNK as int + 1) * CHUNK;
    if end < stop {
        end
    } else {
        stop
    }
}

/// A match that begins at `p` and whose distance code ends at `q` leaves the last
/// load a single byte: eight bytes were at hand at `p`, and less than sixteen bits
/// and a byte are left at `q`.
pub open spec fn runs_short(p: int, q: int, from: int, stop: int) -> bool {
    let end = chunk_end(q, from, stop);
    &&& end - p >= 64
    &&& 18 <= end - q <= 23
}

/// How many extra bits the length symbol `v` has.
pub open spec fn length_bits(v: int) -> int {
    if v < 265 {
        0
    } else if v < 285 {
        (v - 261) / 4
    } else {
        16
    }
}

/// The symbols of a block in `s` from `p` on, with the literal and distance codes of
/// the given lengths.
pub open spec fn walk(
    lit: Seq<u8>,
    dist: Seq<u8>,
    s: Seq<u8>,
    p: int,
    from: int,
    stop: int,
) -> Walk
    decreases stop - p,
{
    match symbol(lit, s, p, stop) {
        None => Walk::Over,
        Some((v, len)) => if len <= 0 || p + len > stop || v > 285 {
            Walk::Over
        } else if v < 256 {
            walk(lit, dist, s, p + len, from, stop)
        } else if v == 256 {
            Walk::Next(p + len)
        } else {
            let q = p + len + length_bits(v);
            match symbol(dist, s, q, stop) {
                None => Walk::Over,
                Some((d, n)) => {
                    let next = q + n + if d <= 3 {
                        0int
                    } else {
                        (d - 2) / 2
                    };
                    if d > 3 && runs_short(p, q + n, from, stop) {
                        Walk::Short
                    } else if next <= p || next > stop {
                        Walk::Over
                    } else {
                        walk(lit, dist, s, next, from, stop)
                    }
                },
            }
        },
    }
}

/// The code lengths of the literals of a block with fixed codes.
pub open spec fn fixed_literals() -> Seq<u8> {
    Seq::new(
        288,
        |i: int|
            if i < 144 {
                8u8
            } else if i < 256 {
                9
            } else if i < 280 {
                7
            } else {
                8
            },
    )
}

/// The code lengths of the distances of a block with fixed codes.
pub open spec fn fixed_distances() -> Seq<u8> {
    Seq::new(32, |i: int| 5u8)
}

/// The place of code length `i` in the order in which their own lengths are given.
pub open spec fn order_of(i: int) -> int {
    if i >= 16 {
        i - 16
    } else if i == 0 {
        3
    } else if i >= 8 {
        2 * (i - 8) + 4
    } else {
        2 * (8 - i) + 3
    }
}

/// The lengths of the codes for code lengths: `n` of them stand in `s` from `p` on.
pub open spec fn length_lengths(s: Seq<u8>, p: int, n: int) -> Seq<u8> {
    Seq::new(
        19,
        |i: int|
            if order_of(i) < n {
                bits(s, p + 3 * order_of(i), 3) as u8
            } else {
                0
            },
    )
}

/// `lens` with `n` times `v` behind it.
pub open spec fn extended(lens: Seq<u8>, v: u8, n: int) -> Seq<u8> {
    lens + Seq::new(n as nat, |i: int| v)
}

/// The code lengths in `s` from `p` on behind `lens`, `total` in all, and where they
/// end: nothing where the decoder stops.
pub open spec fn read_lengths(
    codes: Seq<u8>,
    s: Seq<u8>,
    p: int,
    stop: int,
    total: int,
    lens: Seq<u8>,
) -> Option<(Seq<u8>, int)>
    decreases total - lens.len(),
{
    if lens.len() >= total {
        Some((lens, p))
    } else {
        match symbol(codes, s, p, stop) {
            None => None,
            Some((v, len)) => {
                let q = p + len;
                let (more, repeat, value) = if v <= 15 {
                    (0int, 1int, v as u8)
                } else if v == 16 {
                    (2, 3 + bits(s, q, 2), lens.last())
                } else if v == 17 {
                    (3, 3 + bits(s, q, 3), 0u8)
                } else {
                    (7, 11 + bits(s, q, 7), 0u8)
                };
                if v == 16 && lens.len() == 0 || q + more > stop || repeat < 1 || lens.len()
                    + repeat > total {
                    None
                } else {
                    read_lengths(
                        codes,
                        s,
                        q + more,
                        stop,
                        total,
                        extended(lens, value, repeat),
                    )
                }
            },
        }
    }
}

/// The block with codes of its own whose header stands in `s` at `p`.
pub open spec fn walk_own(s: Seq<u8>, p: int, from: int, stop: int) -> Walk {
    if p + 14 > stop {
        Walk::Over
    } else {
        let (literals, distances, n) = (
            bits(s, p, 5) + 257,
            bits(s, p + 5, 5) + 1,
            bits(s, p + 10, 4) + 4,
        );
        let codes = length_lengths(s, p + 14, n);
        if p + 14 + 3 * n > stop {
            Walk::Over
        } else if oversubscribed(codes) {
            Walk::Short
        } else {
            match read_lengths(
                codes,
                s,
                p + 14 + 3 * n,
                stop,
                literals + distances,
                Seq::empty(),
            ) {
                None => Walk::Over,
                Some((lens, q)) => {
                    let (lit, dist) = (lens.take(literals), lens.skip(literals));
                    if oversubscribed(lit) || oversubscribed(dist) {
                        Walk::Short
                    } else {
                        walk(lit, dist, s, q, from, stop)
                    }
                },
            }
        }
    }
}

/// The stored block whose header stands in `s` behind bit `p`.
pub open spec fn walk_stored(s: Seq<u8>, p: int, stop: int) -> Walk {
    let at = (p + 7) / 8;
    if 8 * at + 32 > stop || le16(s, at) + le16(s, at + 2) != 0xffff {
        Walk::Over
    } else {
        Walk::Next(8 * (at + 4 + le16(s, at)))
    }
}

/// The block whose header stands in `s` at `p`.
#[verifier::opaque]
pub open spec fn walk_block(s: Seq<u8>, p: int, from: int, stop: int) -> Walk {
    if p + 3 > stop {
        Walk::Over
    } else if bits(s, p + 1, 2) == 0 {
        walk_stored(s, p + 3, stop)
    } else if bits(s, p + 1, 2) == 1 {
        walk(fixed_literals(), fixed_distances(), s, p + 3, from, stop)
    } else if bits(s, p + 1, 2) == 2 {
        walk_own(s, p + 3, from, stop)
    } else {
        Walk::Over
    }
}

/// No load runs short in the blocks of `s` from `p` on.
pub open spec fn blocks_load(s: Seq<u8>, p: int, from: int, stop: int) -> bool
    decreases stop - p,
{
    match walk_block(s, p, from, stop) {
        Walk::Short => false,
        Walk::Over => true,
        Walk::Next(q) => bit(s, p) == 1 || q <= p || q > stop || blocks_load(s, q, from, stop),
    }
}

/// The Deflate64 stream in `s` from byte `at` to byte `stop` can be handed to its
/// decoder: no load runs short, and its codes are such that it decodes them as they
/// are meant.
pub open spec fn deflate64_fits(s: Seq<u8>, at: int, stop: int) -> bool {
    at < stop ==> stop <= STREAM_MAX / 8 && blocks_load(s, 8 * at, 8 * at, 8 * stop)
}

// ---------------------------------------------------------------------------
// Executable forms

/// Two to the power of `n`.
pub open spec fn top(n: nat) -> int
    decreases n,
{
    if n == 0 {
        1
    } else {
        2 * top((n - 1) as nat)
    }
}

/// The powers up to the sixteenth.
proof fn tops(n: nat)
    requires
        n <= 16,
    ensures
        1 <= top(n) <= 0x1_0000,
        n <= 7 ==> top(n) <= 128,
        n <= 5 ==> top(n) <= 32,
        n <= 4 ==> top(n) <= 16,
        n <= 3 ==> top(n) <= 8,
        n <= 2 ==> top(n) <= 4,
{
    reveal_with_fuel(top, 17);
}

/// Once the codes are too many, longer ones do not mend it.
proof fn space_stays_used(lens: Seq<u8>, len: nat, more: nat)
    requires
        space(lens, len) < 0,
        len <= more,
    ensures
        space(lens, more) < 0,
    decreases more,
{
    if len < more {
        space_stays_used(lens, len, (more - 1) as nat);
    }
}

/// Read one bit.
fn take_bit(bytes: &[u8], p: u64) -> (r: u64)
    requires
        p < 8 * bytes@.len(),
    ensures
        r == bit(bytes@, p as int),
        r <= 1,
{
    let b: u8 = bytes[(p / 8) as usize];
    let k: u8 = (p % 8) as u8;
    let v: u8 = (b >> k) & 1u8;
    assert((b >> k) & 1u8 <= 1u8) by (bit_vector);
    v as u64
}

/// Read a number of `n` bits.
fn take_bits(bytes: &[u8], p: u64, n: u64) -> (r: u64)
    requires
        p + n <= 8 * bytes@.len(),
        p + n <= u64::MAX,
        n <= 16,
    ensures
        r == bits(bytes@, p as int, n as nat),
        r < top(n as nat),
    decreases n,
{
    if n == 0 {
        0
    } else {
        let low: u64 = take_bit(bytes, p);
        let high: u64 = take_bits(bytes, p + 1, n - 1);
        proof {
            tops((n - 1) as nat);
        }
        low + 2 * high
    }
}

/// The symbols with a code of `len` bits, in order.
fn group(lens: &[u8], len: u8) -> (r: Vec<u16>)
    requires
        lens@.len() <= 320,
    ensures
        r@.len() == count(lens@, len as int),
        forall|rank: int|
            0 <= rank < r@.len() ==> #[trigger] r@[rank] == ranked(lens@, len as int, rank),
{
    let mut out: Vec<u16> = Vec::new();
    let mut i: usize = 0;
    while i < lens.len()
        invariant
            i <= lens@.len() <= 320,
            out@.len() == count(lens@.take(i as int), len as int),
            forall|rank: int|
                0 <= rank < out@.len() ==> #[trigger] out@[rank] == ranked(
                    lens@.take(i as int),
                    len as int,
                    rank,
                ),
        decreases lens@.len() - i,
    {
        proof {
            assert(lens@.take(i + 1).drop_last() =~= lens@.take(i as int));
            assert(lens@.take(i + 1).last() == lens@[i as int]);
        }
        if lens[i] == len {
            out.push(i as u16);
        }
        i = i + 1;
    }
    assert(lens@.take(i as int) =~= lens@);
    out
}

/// The symbols of an alphabet, by the lengths of their codes.
struct Codes {
    groups: Vec<Vec<u16>>,
}

impl Codes {
    /// The codes are those of the given lengths.
    spec fn are(&self, lens: Seq<u8>) -> bool {
        &&& self.groups@.len() == 16
        &&& forall|len: int, rank: int|
            1 <= len <= 15 && 0 <= rank < self.groups@[len]@.len()
                ==> #[trigger] self.groups@[len]@[rank] == ranked(lens, len, rank)
        &&& forall|len: int|
            1 <= len <= 15 ==> (#[trigger] self.groups@[len])@.len() == count(lens, len)
        &&& forall|len: int| 1 <= len <= 15 ==> (#[trigger] self.groups@[len])@.len() <= 320
    }

    /// The codes of the given lengths.
    fn new(lens: &[u8]) -> (r: Codes)
        requires
            lens@.len() <= 320,
        ensures
            r.are(lens@),
    {
        let mut groups: Vec<Vec<u16>> = Vec::new();
        let mut len: u8 = 0;
        while len < 16
            invariant
                len <= 16,
                lens@.len() <= 320,
                groups@.len() == len,
                forall|l: int, rank: int|
                    0 <= l < len && 0 <= rank < groups@[l]@.len()
                        ==> #[trigger] groups@[l]@[rank] == ranked(lens@, l, rank),
                forall|l: int|
                    0 <= l < len ==> (#[trigger] groups@[l])@.len() == count(lens@, l)
                        && groups@[l]@.len() <= 320,
            decreases 16 - len,
        {
            let next: Vec<u16> = group(lens, len);
            proof {
                count_is_bounded(lens@, len as int);
            }
            groups.push(next);
            len = len + 1;
        }
        Codes { groups }
    }

    /// Whether there are more codes than room for them.
    fn are_too_many(&self, Ghost(lens): Ghost<Seq<u8>>) -> (r: bool)
        requires
            self.are(lens),
        ensures
            r == oversubscribed(lens),
    {
        let mut left: u64 = 1;
        let mut len: usize = 0;
        while len < CODE_MAX
            invariant
                len <= CODE_MAX,
                self.are(lens),
                left == space(lens, len as nat),
                left <= top(len as nat),
            decreases CODE_MAX - len,
        {
            len = len + 1;
            proof {
                tops((len - 1) as nat);
            }
            let taken: u64 = self.groups[len].len() as u64;
            assert(self.groups@[len as int]@.len() == count(lens, len as int));
            if 2 * left < taken {
                proof {
                    space_stays_used(lens, len as nat, CODE_MAX as nat);
                }
                return true;
            }
            left = 2 * left - taken;
        }
        false
    }

    /// Read the symbol whose code stands at `p`.
    fn read(&self, bytes: &[u8], p: u64, stop: u64, Ghost(lens): Ghost<Seq<u8>>) -> (r: Option<
        (u16, u64),
    >)
        requires
            self.are(lens),
            stop <= 8 * bytes@.len(),
            p <= stop <= STREAM_MAX,
        ensures
            match r {
                Some((v, len)) => symbol(lens, bytes@, p as int, stop as int) == Some(
                    (v as int, len as int),
                ) && 1 <= len <= 15 && p + len <= stop,
                None => symbol(lens, bytes@, p as int, stop as int) is None,
            },
    {
        let mut code: u64 = 0;
        let mut first: u64 = 0;
        let mut len: u64 = 1;
        proof {
            reveal_with_fuel(top, 2);
        }
        while len <= 15 && p + len <= stop
            invariant
                1 <= len <= 16,
                self.are(lens),
                stop <= 8 * bytes@.len(),
                p <= stop <= STREAM_MAX,
                first <= code,
                code + 2 <= top(len as nat),
                symbol(lens, bytes@, p as int, stop as int) == decode(
                    lens,
                    bytes@,
                    p as int,
                    stop as int,
                    len as int,
                    code as int,
                    first as int,
                ),
            decreases 16 - len,
        {
            proof {
                tops(len as nat);
            }
            let here: u64 = code + take_bit(bytes, p + len - 1);
            let taken: u64 = self.groups[len as usize].len() as u64;
            assert(self.groups@[len as int]@.len() == count(lens, len as int));
            if here < first + taken {
                let v: u16 = self.groups[len as usize][(here - first) as usize];
                return Some((v, len));
            }
            code = 2 * here;
            first = 2 * (first + taken);
            len = len + 1;
        }
        None
    }
}

/// No more symbols have a code of one length than there are symbols.
proof fn count_is_bounded(lens: Seq<u8>, len: int)
    ensures
        count(lens, len) <= lens.len(),
    decreases lens.len(),
{
    if lens.len() > 0 {
        count_is_bounded(lens.drop_last(), len);
    }
}

/// What following a block came to.
enum Step {
    Short,
    Over,
    Next(u64),
}

impl Step {
    /// The outcome as a [`Walk`].
    spec fn model(&self) -> Walk {
        match self {
            Step::Short => Walk::Short,
            Step::Over => Walk::Over,
            Step::Next(q) => Walk::Next(*q as int),
        }
    }
}

/// Whether the last load of a match runs short.
fn loads_short(p: u64, q: u64, from: u64, stop: u64) -> (r: bool)
    requires
        from <= p <= q <= stop <= STREAM_MAX,
    ensures
        r == runs_short(p as int, q as int, from as int, stop as int),
{
    let chunk: u64 = from + ((q - from) / CHUNK + 1) * CHUNK;
    let end: u64 = if chunk < stop {
        chunk
    } else {
        stop
    };
    end >= p + 64 && q + 18 <= end && end <= q + 23
}

/// Follow the symbols of a block.
fn follow(
    lit: &Codes,
    dist: &Codes,
    bytes: &[u8],
    start: u64,
    from: u64,
    stop: u64,
    Ghost(literals): Ghost<Seq<u8>>,
    Ghost(distances): Ghost<Seq<u8>>,
) -> (r: Step)
    requires
        lit.are(literals),
        dist.are(distances),
        stop <= 8 * bytes@.len(),
        from <= start <= stop <= STREAM_MAX,
    ensures
        r.model() == walk(
            literals,
            distances,
            bytes@,
            start as int,
            from as int,
            stop as int,
        ),
{
    let mut p: u64 = start;
    loop
        invariant
            lit.are(literals),
            dist.are(distances),
            stop <= 8 * bytes@.len(),
            from <= p <= stop <= STREAM_MAX,
            walk(literals, distances, bytes@, start as int, from as int, stop as int) == walk(
                literals,
                distances,
                bytes@,
                p as int,
                from as int,
                stop as int,
            ),
        decreases stop - p,
    {
        let (v, len): (u16, u64) = match lit.read(bytes, p, stop, Ghost(literals)) {
            Some(found) => found,
            None => {
                return Step::Over;
            },
        };
        if v > 285 {
            return Step::Over;
        }
        if v == 256 {
            return Step::Next(p + len);
        }
        if v < 256 {
            p = p + len;
        } else {
            let extra: u64 = if v < 265 {
                0
            } else if v < 285 {
                ((v - 261) / 4) as u64
            } else {
                16
            };
            let q: u64 = p + len + extra;
            if q > stop {
                return Step::Over;
            }
            let (d, n): (u16, u64) = match dist.read(bytes, q, stop, Ghost(distances)) {
                Some(found) => found,
                None => {
                    return Step::Over;
                },
            };
            if d > 3 && loads_short(p, q + n, from, stop) {
                return Step::Short;
            }
            let next: u64 = q + n + if d <= 3 {
                0
            } else {
                ((d - 2) / 2) as u64
            };
            if next > stop {
                return Step::Over;
            }
            p = next;
        }
    }
}

/// The codes of a block with fixed codes.
fn fixed_codes() -> (r: (Codes, Codes))
    ensures
        r.0.are(fixed_literals()),
        r.1.are(fixed_distances()),
{
    let mut lit: Vec<u8> = Vec::new();
    let mut i: usize = 0;
    while i < 288
        invariant
            i <= 288,
            lit@ =~= fixed_literals().take(i as int),
        decreases 288 - i,
    {
        lit.push(
            if i < 144 {
                8
            } else if i < 256 {
                9
            } else if i < 280 {
                7
            } else {
                8
            },
        );
        i = i + 1;
    }
    assert(lit@ =~= fixed_literals());
    let dist: Vec<u8> = vec![5u8; 32];
    assert(dist@ =~= fixed_distances());
    (Codes::new(lit.as_slice()), Codes::new(dist.as_slice()))
}

/// Put `n` times `v` behind the code lengths.
fn extend(lens: &mut Vec<u8>, v: u8, n: u64)
    ensures
        final(lens)@ == extended(old(lens)@, v, n as int),
{
    let ghost before = lens@;
    let mut i: u64 = 0;
    assert(lens@ =~= extended(before, v, 0));
    while i < n
        invariant
            i <= n,
            lens@ == extended(before, v, i as int),
        decreases n - i,
    {
        lens.push(v);
        i = i + 1;
        assert(lens@ =~= extended(before, v, i as int));
    }
}

/// The place of a code length in the order in which their own lengths are given.
fn place_in_order(i: u64) -> (r: u64)
    requires
        i < 19,
    ensures
        r == order_of(i as int),
        r < 19,
{
    if i >= 16 {
        i - 16
    } else if i == 0 {
        3
    } else if i >= 8 {
        2 * (i - 8) + 4
    } else {
        2 * (8 - i) + 3
    }
}

/// Read the lengths of the codes for code lengths.
fn take_length_lengths(bytes: &[u8], p: u64, n: u64) -> (r: Vec<u8>)
    requires
        n <= 19,
        p + 3 * n <= 8 * bytes@.len(),
        p + 3 * n <= STREAM_MAX,
    ensures
        r@ == length_lengths(bytes@, p as int, n as int),
{
    let mut out: Vec<u8> = Vec::new();
    let mut i: u64 = 0;
    while i < 19
        invariant
            i <= 19,
            n <= 19,
            p + 3 * n <= 8 * bytes@.len(),
            p + 3 * n <= STREAM_MAX,
            out@ =~= length_lengths(bytes@, p as int, n as int).take(i as int),
        decreases 19 - i,
    {
        let k: u64 = place_in_order(i);
        let v: u8 = if k < n {
            proof {
                tops(3);
            }
            take_bits(bytes, p + 3 * k, 3) as u8
        } else {
            0
        };
        out.push(v);
        i = i + 1;
    }
    assert(out@ =~= length_lengths(bytes@, p as int, n as int));
    out
}

/// Read the code lengths of a block.
fn take_lengths(
    codes: &Codes,
    bytes: &[u8],
    start: u64,
    stop: u64,
    total: u64,
    Ghost(of): Ghost<Seq<u8>>,
) -> (r: Option<(Vec<u8>, u64)>)
    requires
        codes.are(of),
        stop <= 8 * bytes@.len(),
        start <= stop <= STREAM_MAX,
        total <= 320,
    ensures
        match r {
            Some((lens, q)) => read_lengths(
                of,
                bytes@,
                start as int,
                stop as int,
                total as int,
                Seq::empty(),
            ) == Some((lens@, q as int)) && lens@.len() == total && start <= q <= stop,
            None => read_lengths(
                of,
                bytes@,
                start as int,
                stop as int,
                total as int,
                Seq::empty(),
            ) is None,
        },
{
    let mut p: u64 = start;
    let mut lens: Vec<u8> = Vec::new();
    assert(lens@ =~= Seq::<u8>::empty());
    while (lens.len() as u64) < total
        invariant
            codes.are(of),
            stop <= 8 * bytes@.len(),
            start <= p <= stop <= STREAM_MAX,
            lens@.len() <= total <= 320,
            read_lengths(of, bytes@, start as int, stop as int, total as int, Seq::empty())
                == read_lengths(of, bytes@, p as int, stop as int, total as int, lens@),
        decreases total - lens@.len(),
    {
        let (v, len): (u16, u64) = match codes.read(bytes, p, stop, Ghost(of)) {
            Some(found) => found,
            None => {
                return None;
            },
        };
        let q: u64 = p + len;
        let more: u64 = if v <= 15 {
            0
        } else if v == 16 {
            2
        } else if v == 17 {
            3
        } else {
            7
        };
        let had: usize = lens.len();
        if v == 16 && had == 0 || q + more > stop {
            return None;
        }
        proof {
            tops(more as nat);
        }
        let number: u64 = take_bits(bytes, q, more);
        let repeat: u64 = if v <= 15 {
            1
        } else if v <= 17 {
            3 + number
        } else {
            11 + number
        };
        let value: u8 = if v <= 15 {
            v as u8
        } else if v == 16 {
            lens[had - 1]
        } else {
            0
        };
        if repeat > total - had as u64 {
            return None;
        }
        extend(&mut lens, value, repeat);
        p = q + more;
    }
    Some((lens, p))
}

/// Follow a block with codes of its own.
fn follow_own(bytes: &[u8], p: u64, from: u64, stop: u64) -> (r: Step)
    requires
        stop <= 8 * bytes@.len(),
        from <= p <= stop <= STREAM_MAX,
    ensures
        r.model() == walk_own(bytes@, p as int, from as int, stop as int),
{
    if p + 14 > stop {
        return Step::Over;
    }
    proof {
        tops(5);
        tops(4);
    }
    let literals: u64 = take_bits(bytes, p, 5) + 257;
    let distances: u64 = take_bits(bytes, p + 5, 5) + 1;
    let n: u64 = take_bits(bytes, p + 10, 4) + 4;
    if p + 14 + 3 * n > stop {
        return Step::Over;
    }
    let of: Vec<u8> = take_length_lengths(bytes, p + 14, n);
    let codes: Codes = Codes::new(of.as_slice());
    if codes.are_too_many(Ghost(of@)) {
        return Step::Short;
    }
    match take_lengths(&codes, bytes, p + 14 + 3 * n, stop, literals + distances, Ghost(of@)) {
        None => Step::Over,
        Some((lens, q)) => {
            let split: usize = literals as usize;
            let lit: &[u8] = slice_subrange(lens.as_slice(), 0, split);
            let dist: &[u8] = slice_subrange(lens.as_slice(), split, lens.len());
            assert(lit@ =~= lens@.take(literals as int));
            assert(dist@ =~= lens@.skip(literals as int));
            let (lit_codes, dist_codes): (Codes, Codes) = (Codes::new(lit), Codes::new(dist));
            if lit_codes.are_too_many(Ghost(lit@)) || dist_codes.are_too_many(Ghost(dist@)) {
                return Step::Short;
            }
            follow(&lit_codes, &dist_codes, bytes, q, from, stop, Ghost(lit@), Ghost(dist@))
        },
    }
}

/// Follow the block whose header stands at `p`.
fn follow_block(bytes: &[u8], p: u64, from: u64, stop: u64) -> (r: Step)
    requires
        stop <= 8 * bytes@.len(),
        from <= p <= stop <= STREAM_MAX,
    ensures
        r.model() == walk_block(bytes@, p as int, from as int, stop as int),
{
    reveal(walk_block);
    let size: usize = bytes.len();
    if p + 3 > stop {
        return Step::Over;
    }
    let kind: u64 = take_bits(bytes, p + 1, 2);
    if kind == 0 {
        let at: u64 = (p + 10) / 8;
        if 8 * at + 32 > stop {
            return Step::Over;
        }
        assert(at + 4 <= size);
        let len: u64 = read16(bytes, at as usize) as u64;
        if len + read16(bytes, at as usize + 2) as u64 != 0xffff {
            return Step::Over;
        }
        Step::Next(8 * (at + 4 + len))
    } else if kind == 1 {
        let (lit, dist): (Codes, Codes) = fixed_codes();
        follow(
            &lit,
            &dist,
            bytes,
            p + 3,
            from,
            stop,
            Ghost(fixed_literals()),
            Ghost(fixed_distances()),
        )
    } else if kind == 2 {
        follow_own(bytes, p + 3, from, stop)
    } else {
        Step::Over
    }
}

/// Whether [`deflate64_fits`] holds of the stream from byte `at` to byte `stop`.
pub fn deflate64_stream_fits(bytes: &[u8], at: usize, stop: usize) -> (r: bool)
    requires
        stop <= bytes@.len(),
    ensures
        r == deflate64_fits(bytes@, at as int, stop as int),
{
    if at >= stop {
        return true;
    }
    if stop as u64 > STREAM_MAX / 8 {
        return false;
    }
    let from: u64 = 8 * (at as u64);
    let end: u64 = 8 * (stop as u64);
    let mut p: u64 = from;
    loop
        invariant
            at < stop <= STREAM_MAX / 8,
            stop <= bytes@.len(),
            from == 8 * at,
            end == 8 * stop,
            from <= p <= end,
            blocks_load(bytes@, from as int, from as int, end as int) == blocks_load(
                bytes@,
                p as int,
                from as int,
                end as int,
            ),
        decreases end - p,
    {
        match follow_block(bytes, p, from, end) {
            Step::Short => {
                return false;
            },
            Step::Over => {
                return true;
            },
            Step::Next(q) => {
                if q <= p || q > end || take_bit(bytes, p) == 1 {
                    return true;
                }
                p = q;
            },
        }
    }
}

} // verus!
