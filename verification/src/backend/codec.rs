//! Single-stream decoders: `flate2` for gzip, `bzip2-rs` for bzip2. A decoder is
//! started over the bytes of a stream and read from as often as needed, so that a
//! stream can be decoded whole or walked through in bounded memory.

use std::io::Read;
use vstd::prelude::*;

verus! {

/// `flate2::read::GzDecoder`, a gzip decoder over its source.
#[verifier::external_type_specification]
#[verifier::external_body]
#[verifier::reject_recursive_types(R)]
pub struct ExGzDecoder<R>(flate2::read::GzDecoder<R>);

/// `bzip2_rs::DecoderReader`, a bzip2 decoder over its source.
#[verifier::external_type_specification]
#[verifier::external_body]
#[verifier::reject_recursive_types(R)]
pub struct ExDecoderReader<R>(bzip2_rs::DecoderReader<R>);

/// A gzip decoder over bytes in memory.
pub type GzipReader<'a> = flate2::read::GzDecoder<&'a [u8]>;

/// A bzip2 decoder over bytes in memory.
pub type Bzip2Reader<'a> = bzip2_rs::DecoderReader<&'a [u8]>;

/// The first `limit` bytes of `stream`, or all of it where it is shorter.
pub open spec fn first_bytes(stream: Seq<u8>, limit: u64) -> Seq<u8> {
    if stream.len() <= limit {
        stream
    } else {
        stream.take(limit as int)
    }
}

/// What a decoder gave, by views: the bytes, or the text of its error.
pub open spec fn decoded(r: Result<Vec<u8>, String>) -> Result<Seq<u8>, Seq<char>> {
    match r {
        Ok(v) => Ok(v@),
        Err(e) => Err(e@),
    }
}

/// What decoding at most `limit` bytes of the gzip stream in `data` gives.
pub uninterp spec fn gzip_prefix(data: Seq<u8>, limit: u64) -> Result<Seq<u8>, Seq<char>>;

/// What decoding at most `limit` bytes of the bzip2 stream in `data` gives.
pub uninterp spec fn bzip2_prefix(data: Seq<u8>, limit: u64) -> Result<Seq<u8>, Seq<char>>;

/// The bytes that a gzip decoder was started on.
pub uninterp spec fn gzip_source(d: GzipReader<'_>) -> Seq<u8>;

/// The bytes that a bzip2 decoder was started on.
pub uninterp spec fn bzip2_source(d: Bzip2Reader<'_>) -> Seq<u8>;

/// The bytes that a gzip decoder has given.
pub uninterp spec fn gzip_given(d: GzipReader<'_>) -> Seq<u8>;

/// The bytes that a bzip2 decoder has given.
pub uninterp spec fn bzip2_given(d: Bzip2Reader<'_>) -> Seq<u8>;

/// `data` is a gzip stream whose whole content is `inner`: every bounded decode
/// gives the first bytes of it.
pub open spec fn gzip_holds(data: Seq<u8>, inner: Seq<u8>) -> bool {
    forall|limit: u64| #[trigger] gzip_prefix(data, limit) == Ok::<Seq<u8>, Seq<char>>(
        first_bytes(inner, limit),
    )
}

/// `data` is a bzip2 stream whose whole content is `inner`: every bounded decode
/// gives the first bytes of it.
pub open spec fn bzip2_holds(data: Seq<u8>, inner: Seq<u8>) -> bool {
    forall|limit: u64| #[trigger] bzip2_prefix(data, limit) == Ok::<Seq<u8>, Seq<char>>(
        first_bytes(inner, limit),
    )
}

/// Start a gzip decoder with `flate2::read::GzDecoder::new`.
///
/// Claimed of it: the decoder stands on `data` and has given nothing yet.
#[verifier::external_body]
pub(crate) fn start_gzip(data: &[u8]) -> (d: GzipReader<'_>)
    ensures
        gzip_source(d) == data@,
        gzip_given(d) == Seq::<u8>::empty(),
{
    flate2::read::GzDecoder::new(data)
}

/// Read at most `limit` bytes more of a gzip stream: `flate2::read::GzDecoder`,
/// read to its end under `Read::take`.
///
/// Claimed of the decoder: no more than `limit` bytes come back; they go on where the
/// last read ended; what has been given in all is what decoding as many bytes at once
/// gives, which depends on the bytes and that number alone; a read that ends before the limit has seen the
/// whole stream, so that decoding under any limit gives the first bytes of the same
/// content; and a read that fails does so with the text with which decoding as many
/// bytes at once, or more, fails. A decoder that has failed is not handed back. Which content a stream has, and which streams
/// fail with which text, is left to the decoder.
#[verifier::external_body]
pub(crate) fn read_gzip(d: GzipReader<'_>, limit: u64) -> (r: Result<
    (Vec<u8>, GzipReader<'_>),
    String,
>)
    ensures
        match r {
            Ok((out, d1)) => {
                &&& out@.len() <= limit
                &&& gzip_source(d1) == gzip_source(d)
                &&& gzip_given(d1) == gzip_given(d) + out@
                &&& gzip_given(d1).len() <= u64::MAX ==> gzip_prefix(
                    gzip_source(d),
                    gzip_given(d1).len() as u64,
                ) == Ok::<Seq<u8>, Seq<char>>(gzip_given(d1))
                &&& out@.len() < limit ==> gzip_holds(gzip_source(d), gzip_given(d1))
            },
            Err(e) => forall|n: u64|
                n >= gzip_given(d).len() + limit ==> #[trigger] gzip_prefix(gzip_source(d), n) == Err::<
                    Seq<u8>,
                    Seq<char>,
                >(e@),
        },
{
    let mut out = Vec::new();
    let mut limited = d.take(limit);
    limited.read_to_end(&mut out).map_err(|e| e.to_string())?;
    Ok((out, limited.into_inner()))
}

/// Start a bzip2 decoder with `bzip2_rs::DecoderReader::new`.
///
/// Claimed of it: the decoder stands on `data` and has given nothing yet.
#[verifier::external_body]
pub(crate) fn start_bzip2(data: &[u8]) -> (d: Bzip2Reader<'_>)
    ensures
        bzip2_source(d) == data@,
        bzip2_given(d) == Seq::<u8>::empty(),
{
    bzip2_rs::DecoderReader::new(data)
}

/// Read at most `limit` bytes more of a bzip2 stream: `bzip2_rs::DecoderReader`,
/// read to its end under `Read::take`.
///
/// Claimed of the decoder: no more than `limit` bytes come back; they go on where the
/// last read ended; what has been given in all is what decoding as many bytes at once
/// gives, which depends on the bytes and that number alone; a read that ends before the limit has seen the
/// whole stream, so that decoding under any limit gives the first bytes of the same
/// content; and a read that fails does so with the text with which decoding as many
/// bytes at once, or more, fails. A decoder that has failed is not handed back. Which content a stream has, and which streams
/// fail with which text, is left to the decoder.
#[verifier::external_body]
pub(crate) fn read_bzip2(d: Bzip2Reader<'_>, limit: u64) -> (r: Result<
    (Vec<u8>, Bzip2Reader<'_>),
    String,
>)
    ensures
        match r {
            Ok((out, d1)) => {
                &&& out@.len() <= limit
                &&& bzip2_source(d1) == bzip2_source(d)
                &&& bzip2_given(d1) == bzip2_given(d) + out@
                &&& bzip2_given(d1).len() <= u64::MAX ==> bzip2_prefix(
                    bzip2_source(d),
                    bzip2_given(d1).len() as u64,
                ) == Ok::<Seq<u8>, Seq<char>>(bzip2_given(d1))
                &&& out@.len() < limit ==> bzip2_holds(bzip2_source(d), bzip2_given(d1))
            },
            Err(e) => forall|n: u64|
                n >= bzip2_given(d).len() + limit ==> #[trigger] bzip2_prefix(bzip2_source(d), n) == Err::<
                    Seq<u8>,
                    Seq<char>,
                >(e@),
        },
{
    let mut out = Vec::new();
    let mut limited = d.take(limit);
    limited.read_to_end(&mut out).map_err(|e| e.to_string())?;
    Ok((out, limited.into_inner()))
}

} // verus!
