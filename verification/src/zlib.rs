//! Streaming zlib, with the compressed format itself left abstract.

use vstd::prelude::*;

verus! {

/// Declares the decompressor of the `flate2` crate as an opaque value.
#[verifier::external_type_specification]
#[verifier::external_body]
pub struct ExternalDecompress(flate2::Decompress);

/// Declares the compressor of the `flate2` crate as an opaque value.
#[verifier::external_type_specification]
#[verifier::external_body]
pub struct ExternalCompress(flate2::Compress);

/// The compressed bytes that a decompressor has consumed so far.
pub uninterp spec fn inflate_input(decoder: flate2::Decompress) -> Seq<u8>;

/// The plain bytes that a decompressor has produced so far.
pub uninterp spec fn inflate_output(decoder: flate2::Decompress) -> Seq<u8>;

/// The plain bytes that a compressor has consumed so far.
pub uninterp spec fn deflate_input(encoder: flate2::Compress) -> Seq<u8>;

/// The compressed bytes that a compressor has produced so far.
pub uninterp spec fn deflate_output(encoder: flate2::Compress) -> Seq<u8>;

/// What a byte sequence decodes to, if it is exactly one complete zlib stream.
pub uninterp spec fn zlib_decoded(stream: Seq<u8>) -> Option<Seq<u8>>;

/// What one call of a compressor with this input and this much room comes to: how far it got, how
/// many bytes it consumed and how many it produced; nothing where it failed.
pub uninterp spec fn deflate_outcome(
    encoder: flate2::Compress,
    input: Seq<u8>,
    room: nat,
    finish: bool,
) -> Option<(ZlibStatus, nat, nat)>;

/// What one call of a decompressor with this input and this much room comes to: how far it got,
/// how many bytes it consumed and how many it produced; nothing where it failed.
pub uninterp spec fn inflate_outcome(
    decoder: flate2::Decompress,
    input: Seq<u8>,
    room: nat,
    finish: bool,
) -> Option<(ZlibStatus, nat, nat)>;

/// How far one streaming call got.
#[derive(Clone, Copy, Debug, PartialEq, Eq, Structural)]
pub enum ZlibStatus {
    /// More input or more room is needed.
    More,
    /// No progress is possible with the buffers given.
    Stalled,
    /// The stream is complete.
    Ended,
}

/// A streaming call failed.
#[derive(Clone, Copy, Debug, PartialEq, Eq, Structural)]
pub struct ZlibError;

/// Calls `Decompress::new` for zlib streams: nothing is consumed and nothing produced.
#[verifier::external_body]
pub(crate) fn decompress_new() -> (decoder: flate2::Decompress)
    ensures
        inflate_input(decoder) == Seq::<u8>::empty(),
        inflate_output(decoder) == Seq::<u8>::empty(),
{
    flate2::Decompress::new(true)
}

/// Calls `Decompress::total_in`: the number of bytes consumed so far.
#[verifier::external_body]
pub(crate) fn decompress_total_in(decoder: &flate2::Decompress) -> (total: u64)
    ensures
        total == inflate_input(*decoder).len(),
{
    decoder.total_in()
}

/// Calls `Decompress::total_out`: the number of bytes produced so far.
#[verifier::external_body]
pub(crate) fn decompress_total_out(decoder: &flate2::Decompress) -> (total: u64)
    ensures
        total == inflate_output(*decoder).len(),
{
    decoder.total_out()
}

/// Calls `Decompress::decompress`: some prefix of `input` is consumed, and what is produced is
/// written to the front of `output`. When the stream ends, everything consumed is one complete
/// zlib stream that decodes to everything produced. How far it got, and whether it failed, follows
/// from the decompressor as it was, the input, the length of the buffer and the flush alone. Of a
/// failed call nothing else is claimed but that the buffer keeps its length.
#[verifier::external_body]
pub(crate) fn decompress_step(
    decoder: &mut flate2::Decompress,
    input: &[u8],
    output: &mut Vec<u8>,
    finish: bool,
) -> (result: Result<ZlibStatus, ZlibError>)
    ensures
        final(output)@.len() == old(output)@.len(),
        result is Ok ==> {
            let consumed = inflate_input(*final(decoder)).len() - inflate_input(
                *old(decoder),
            ).len();
            &&& 0 <= consumed <= input@.len()
            &&& inflate_input(*final(decoder)) == inflate_input(*old(decoder)) + input@.take(
                consumed,
            )
        },
        result is Ok ==> {
            let produced = inflate_output(*final(decoder)).len() - inflate_output(
                *old(decoder),
            ).len();
            &&& 0 <= produced <= final(output)@.len()
            &&& inflate_output(*final(decoder)) == inflate_output(*old(decoder)) + final(output)@.take(produced)
        },
        inflate_outcome(*old(decoder), input@, old(output)@.len(), finish) == match result {
            Ok(status) => Some(
                (
                    status,
                    (inflate_input(*final(decoder)).len() - inflate_input(*old(decoder)).len()) as nat,
                    (inflate_output(*final(decoder)).len() - inflate_output(
                        *old(decoder),
                    ).len()) as nat,
                ),
            ),
            Err(_) => None,
        },
        result == Ok::<ZlibStatus, ZlibError>(ZlibStatus::Ended) ==> zlib_decoded(
            inflate_input(*final(decoder)),
        ) == Some(inflate_output(*final(decoder))),
{
    let flush = match finish {
        true => flate2::FlushDecompress::Finish,
        false => flate2::FlushDecompress::None,
    };
    match decoder.decompress(input, output.as_mut_slice(), flush) {
        Ok(flate2::Status::Ok) => Ok(ZlibStatus::More),
        Ok(flate2::Status::BufError) => Ok(ZlibStatus::Stalled),
        Ok(flate2::Status::StreamEnd) => Ok(ZlibStatus::Ended),
        Err(_) => Err(ZlibError),
    }
}

/// Calls `Compress::new` for zlib streams at the default level: nothing is consumed and nothing
/// produced.
#[verifier::external_body]
pub(crate) fn compress_new() -> (encoder: flate2::Compress)
    ensures
        deflate_input(encoder) == Seq::<u8>::empty(),
        deflate_output(encoder) == Seq::<u8>::empty(),
{
    flate2::Compress::new(flate2::Compression::default(), true)
}

/// Calls `Compress::total_in`: the number of bytes consumed so far.
#[verifier::external_body]
pub(crate) fn compress_total_in(encoder: &flate2::Compress) -> (total: u64)
    ensures
        total == deflate_input(*encoder).len(),
{
    encoder.total_in()
}

/// Calls `Compress::total_out`: the number of bytes produced so far.
#[verifier::external_body]
pub(crate) fn compress_total_out(encoder: &flate2::Compress) -> (total: u64)
    ensures
        total == deflate_output(*encoder).len(),
{
    encoder.total_out()
}

/// Calls `Compress::compress`: some prefix of `input` is consumed, and what is produced is written
/// to the front of `output`. When the stream ends, everything produced is one complete zlib stream
/// that decodes to everything consumed. How far it got, and whether it failed, follows from the
/// compressor as it was, the input, the length of the buffer and the flush alone. Of a failed call
/// nothing else is claimed but that the buffer keeps its length.
#[verifier::external_body]
pub(crate) fn compress_step(
    encoder: &mut flate2::Compress,
    input: &[u8],
    output: &mut Vec<u8>,
    finish: bool,
) -> (result: Result<ZlibStatus, ZlibError>)
    ensures
        final(output)@.len() == old(output)@.len(),
        result is Ok ==> {
            let consumed = deflate_input(*final(encoder)).len() - deflate_input(
                *old(encoder),
            ).len();
            &&& 0 <= consumed <= input@.len()
            &&& deflate_input(*final(encoder)) == deflate_input(*old(encoder)) + input@.take(
                consumed,
            )
        },
        result is Ok ==> {
            let produced = deflate_output(*final(encoder)).len() - deflate_output(
                *old(encoder),
            ).len();
            &&& 0 <= produced <= final(output)@.len()
            &&& deflate_output(*final(encoder)) == deflate_output(*old(encoder)) + final(output)@.take(produced)
        },
        deflate_outcome(*old(encoder), input@, old(output)@.len(), finish) == match result {
            Ok(status) => Some(
                (
                    status,
                    (deflate_input(*final(encoder)).len() - deflate_input(*old(encoder)).len()) as nat,
                    (deflate_output(*final(encoder)).len() - deflate_output(
                        *old(encoder),
                    ).len()) as nat,
                ),
            ),
            Err(_) => None,
        },
        result == Ok::<ZlibStatus, ZlibError>(ZlibStatus::Ended) ==> zlib_decoded(
            deflate_output(*final(encoder)),
        ) == Some(deflate_input(*final(encoder))),
{
    let flush = match finish {
        true => flate2::FlushCompress::Finish,
        false => flate2::FlushCompress::None,
    };
    match encoder.compress(input, output.as_mut_slice(), flush) {
        Ok(flate2::Status::Ok) => Ok(ZlibStatus::More),
        Ok(flate2::Status::BufError) => Ok(ZlibStatus::Stalled),
        Ok(flate2::Status::StreamEnd) => Ok(ZlibStatus::Ended),
        Err(_) => Err(ZlibError),
    }
}

/// Makes a zeroed buffer of `length` bytes.
pub fn zeroed(length: usize) -> (buffer: Vec<u8>)
    ensures
        buffer@ == Seq::new(length as nat, |i: int| 0u8),
{
    let mut buffer: Vec<u8> = Vec::new();
    buffer.resize(length, 0);
    buffer
}

} // verus!
