//! Zlib compression and decompression, taken from `flate2`.

use flate2::write::ZlibEncoder;
use flate2::{Compression, Decompress, DecompressError, FlushDecompress, Status};
use std::io::Write;
use vstd::prelude::*;

verus! {

/// An in-memory decompression stream.
#[verifier::external_type_specification]
#[verifier::external_body]
pub struct ExDecompress(Decompress);

/// The error of a decompression call on corrupt input.
#[verifier::external_type_specification]
#[verifier::external_body]
pub struct ExDecompressError(DecompressError);

/// The error of a compression call.
#[verifier::external_type_specification]
#[verifier::external_body]
pub struct ExIoError(std::io::Error);

/// The compressed bytes that a decompression stream has consumed so far.
pub uninterp spec fn inflater_input(d: Decompress) -> Seq<u8>;

/// The bytes that a decompression stream has produced so far.
pub uninterp spec fn inflater_output(d: Decompress) -> Seq<u8>;

/// Whether a decompression stream has reported its input as corrupt.
pub uninterp spec fn inflater_failed(d: Decompress) -> bool;

/// What a byte string decompresses to, where it is exactly one complete zlib
/// stream, checksum and all, and nothing where it is not.
pub uninterp spec fn zlib_decode(stream: Seq<u8>) -> Option<Seq<u8>>;

/// The zlib stream that compressing `data` at a level gives.
pub uninterp spec fn zlib_encode(data: Seq<u8>, level: int) -> Seq<u8>;

/// How a decompression call ended.
#[derive(Clone, Copy, PartialEq, Eq, Structural, Debug)]
pub enum InflateStatus {
    Running,
    Stalled,
    StreamEnd,
}

/// The compressed bytes that the step from `before` to `after` consumed.
pub open spec fn consumed_by(before: Decompress, after: Decompress) -> int {
    inflater_input(after).len() - inflater_input(before).len()
}

/// The bytes that the step from `before` to `after` produced.
pub open spec fn produced_by(before: Decompress, after: Decompress) -> int {
    inflater_output(after).len() - inflater_output(before).len()
}

/// A step takes a prefix of its input, puts what it makes at the front of the
/// output buffer, reports the end of the stream exactly when a complete stream
/// has been consumed and written out.
pub open spec fn inflate_step_done(
    before: Decompress,
    after: Decompress,
    input: Seq<u8>,
    output: Seq<u8>,
    status: InflateStatus,
) -> bool {
    let consumed = consumed_by(before, after);
    let produced = produced_by(before, after);
    &&& 0 <= consumed <= input.len()
    &&& inflater_input(after) == inflater_input(before) + input.take(consumed)
    &&& 0 <= produced <= output.len()
    &&& inflater_output(after) == inflater_output(before) + output.take(produced)
    &&& status is StreamEnd ==> zlib_decode(inflater_input(after)) == Some(inflater_output(after))
    &&& !(status is StreamEnd) && produced < output.len() ==> zlib_decode(
        inflater_input(after),
    ) is None
}

/// One of the two begins with the other.
pub open spec fn begin_alike(a: Seq<u8>, b: Seq<u8>) -> bool {
    a.is_prefix_of(b) || b.is_prefix_of(a)
}

/// A step does not refuse the beginning of a complete stream, nor one that is
/// followed by other bytes: it consumes nothing beyond the stream, writes the
/// beginning of what the stream holds, reports the end only at the end of the
/// stream, and before that makes progress whenever there is input.
pub open spec fn inflate_step_accepts(
    before: Decompress,
    after: Decompress,
    input: Seq<u8>,
    status: InflateStatus,
    stream: Seq<u8>,
) -> bool {
    &&& inflater_input(after).is_prefix_of(stream)
    &&& inflater_output(after).is_prefix_of(zlib_decode(stream)->0)
    &&& status is StreamEnd ==> inflater_input(after) == stream
    &&& !(status is StreamEnd) && input.len() > 0 ==> consumed_by(before, after) > 0 || produced_by(
        before,
        after,
    ) > 0
}

/// `Decompress::new(true)`: a stream for data with a zlib header, which has
/// consumed and produced nothing. No bytes at all are no zlib stream.
#[verifier::external_body]
pub(crate) fn new_inflater() -> (d: Decompress)
    ensures
        inflater_input(d) == Seq::<u8>::empty(),
        inflater_output(d) == Seq::<u8>::empty(),
        !inflater_failed(d),
        zlib_decode(inflater_input(d)) is None,
{
    Decompress::new(true)
}

/// `Decompress::total_in`: how many bytes the stream has consumed.
pub assume_specification[ Decompress::total_in ](d: &Decompress) -> (r: u64)
    ensures
        r == inflater_input(*d).len(),
;

/// `Decompress::total_out`: how many bytes the stream has produced.
pub assume_specification[ Decompress::total_out ](d: &Decompress) -> (r: u64)
    ensures
        r == inflater_output(*d).len(),
;

/// `Decompress::decompress` without flushing: consumes input and produces output
/// as far as both buffers allow. It fails only on input that neither begins a zlib
/// stream nor begins with one, and from then on the stream is of no use.
#[verifier::external_body]
pub(crate) fn inflate_step(d: &mut Decompress, input: &[u8], output: &mut Vec<u8>) -> (r: Result<
    InflateStatus,
    DecompressError,
>)
    requires
        !inflater_failed(*old(d)),
        old(output)@.len() > 0,
    ensures
        final(output)@.len() == old(output)@.len(),
        inflater_failed(*final(d)) == (r is Err),
        r matches Ok(status) ==> inflate_step_done(
            *old(d),
            *final(d),
            input@,
            final(output)@,
            status,
        ),
        forall|stream: Seq<u8>| #[trigger]
            zlib_decode(stream) is Some && begin_alike(inflater_input(*old(d)) + input@, stream)
                ==> r is Ok && inflate_step_accepts(*old(d), *final(d), input@, r->Ok_0, stream),
{
    match d.decompress(input, output, FlushDecompress::None)? {
        Status::Ok => Ok(InflateStatus::Running),
        Status::BufError => Ok(InflateStatus::Stalled),
        Status::StreamEnd => Ok(InflateStatus::StreamEnd),
    }
}

/// `ZlibEncoder` into a vector: compresses all of `data` at a level. What comes
/// out is one complete zlib stream that decompresses to `data`. Only the sink
/// could fail, and a vector does not.
#[verifier::external_body]
pub(crate) fn deflate(data: &[u8], level: u32) -> (r: Result<Vec<u8>, std::io::Error>)
    requires
        level <= 9,
    ensures
        r is Ok,
        r->Ok_0@ == zlib_encode(data@, level as int),
        zlib_decode(r->Ok_0@) == Some(data@),
{
    let mut encoder = ZlibEncoder::new(Vec::new(), Compression::new(level));
    encoder.write_all(data)?;
    encoder.finish()
}

} // verus!
