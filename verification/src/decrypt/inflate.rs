//! Incremental zlib inflation of an authenticated payload.

use crate::common::append_range;
use crate::runtime::JdvrifError;
use crate::zlib::{
    begin_alike, inflate_step, inflater_failed, inflater_input, inflater_output, new_inflater, zlib_decode,
    InflateStatus,
};
use flate2::Decompress;
use vstd::prelude::*;
use vstd::slice::slice_subrange;

verus! {

/// Room for the output of one decompression step.
pub const INFLATE_BUFFER_BYTES: usize = 2 * 1024 * 1024;

/// What to do after one decompression step.
#[derive(Clone, Copy, PartialEq, Eq, Structural, Debug)]
pub enum InflateVerdict {
    /// The stream is complete and the input used up.
    Ended,
    /// The input is used up and nothing waits to be written.
    NeedInput,
    /// Another step is due.
    Again,
    Failed(JdvrifError),
}

/// What to do after a step that consumed and produced so many bytes, with
/// `left` bytes of input still to go and `size` bytes written before it.
pub open spec fn inflate_decision(
    status: InflateStatus,
    consumed: int,
    produced: int,
    left: int,
    size: int,
    max_output: int,
) -> InflateVerdict {
    if size + produced > max_output {
        InflateVerdict::Failed(JdvrifError::InflateOutputLimit)
    } else if status is StreamEnd {
        if left > 0 {
            InflateVerdict::Failed(JdvrifError::InflateTrailingData)
        } else {
            InflateVerdict::Ended
        }
    } else if consumed == 0 && produced == 0 {
        if left == 0 {
            InflateVerdict::NeedInput
        } else {
            InflateVerdict::Failed(JdvrifError::InflateNoProgress)
        }
    } else if left == 0 && produced < INFLATE_BUFFER_BYTES {
        InflateVerdict::NeedInput
    } else {
        InflateVerdict::Again
    }
}

pub fn inflate_verdict(
    status: InflateStatus,
    consumed: usize,
    produced: usize,
    left: usize,
    size: usize,
    max_output: usize,
) -> (r: InflateVerdict)
    ensures
        r == inflate_decision(
            status,
            consumed as int,
            produced as int,
            left as int,
            size as int,
            max_output as int,
        ),
{
    let next_size: usize = match size.checked_add(produced) {
        Some(v) => v,
        None => {
            return InflateVerdict::Failed(JdvrifError::InflateOutputLimit);
        },
    };
    if next_size > max_output {
        return InflateVerdict::Failed(JdvrifError::InflateOutputLimit);
    }
    if status == InflateStatus::StreamEnd {
        if left > 0 {
            return InflateVerdict::Failed(JdvrifError::InflateTrailingData);
        }
        return InflateVerdict::Ended;
    }
    if consumed == 0 && produced == 0 {
        if left == 0 {
            return InflateVerdict::NeedInput;
        }
        return InflateVerdict::Failed(JdvrifError::InflateNoProgress);
    }
    // A full output buffer can mean more output is pending even after all
    // input was consumed. Drain that pending output with an empty input.
    if left == 0 && produced < INFLATE_BUFFER_BYTES {
        return InflateVerdict::NeedInput;
    }
    InflateVerdict::Again
}

/// The errors that inflating can end in.
pub open spec fn is_inflate_error(e: JdvrifError) -> bool {
    e is InflateFailed || e is InflateOutputLimit || e is InflateTrailingData
        || e is InflateNoProgress || e is InflateTruncated
}

/// The bytes begin with a complete zlib stream.
pub open spec fn begins_with_stream(bytes: Seq<u8>) -> bool {
    exists|w: Seq<u8>| #[trigger] zlib_decode(w) is Some && w.is_prefix_of(bytes)
}

/// The bytes begin with a complete zlib stream and go on after it.
pub open spec fn continues_after_stream(bytes: Seq<u8>) -> bool {
    exists|w: Seq<u8>| #[trigger]
        zlib_decode(w) is Some && w.is_prefix_of(bytes) && w.len() < bytes.len()
}

/// `e` is the error that bytes which begin like the stream `w` end in: that the
/// stream holds too much, or else that the bytes go on after it.
pub open spec fn refused_stream(
    bytes: Seq<u8>,
    w: Seq<u8>,
    limit: int,
    e: JdvrifError,
) -> bool {
    if zlib_decode(w)->0.len() > limit {
        e is InflateOutputLimit
    } else {
        w.len() < bytes.len() && e is InflateTrailingData
    }
}

/// `e` is an error that inflating these bytes may end in: which one it is is
/// settled for bytes that begin like a zlib stream.
pub open spec fn inflate_refuses(bytes: Seq<u8>, limit: int, e: JdvrifError) -> bool {
    &&& bytes.len() > 0
    &&& is_inflate_error(e)
    &&& !(e is InflateTruncated)
    &&& forall|w: Seq<u8>| #[trigger]
        zlib_decode(w) is Some && begin_alike(bytes, w) ==> refused_stream(bytes, w, limit, e)
}

/// Incremental zlib inflater which requires an authenticated stream to contain
/// exactly one complete RFC 1950 stream: both truncation and trailing data are
/// refused.
pub struct StreamingInflater {
    decompressor: Decompress,
    output: Vec<u8>,
    output_buf: Vec<u8>,
    max_output: usize,
    stream_ended: bool,
    fed: Ghost<Seq<u8>>,
}

impl StreamingInflater {
    /// All the compressed bytes that were handed in.
    pub closed spec fn fed(self) -> Seq<u8> {
        self.fed@
    }

    /// All the bytes that came out.
    pub closed spec fn written(self) -> Seq<u8> {
        self.output@
    }

    /// The most that may come out.
    pub closed spec fn limit(self) -> int {
        self.max_output as int
    }

    /// Whether the compressed stream is complete.
    pub closed spec fn ended(self) -> bool {
        self.stream_ended
    }

    pub closed spec fn wf(self) -> bool {
        &&& self.output_buf@.len() == INFLATE_BUFFER_BYTES
        &&& self.output@.len() <= self.max_output
        &&& self.stream_ended ==> {
            &&& zlib_decode(self.fed@) == Some(self.output@)
            &&& forall|w: Seq<u8>| #[trigger]
                zlib_decode(w) is Some && begin_alike(self.fed@, w) ==> w == self.fed@
        }
        &&& !self.stream_ended ==> {
            &&& !inflater_failed(self.decompressor)
            &&& inflater_input(self.decompressor) == self.fed@
            &&& inflater_output(self.decompressor) == self.output@
            &&& forall|w: Seq<u8>| #[trigger]
                zlib_decode(w) is Some ==> !w.is_prefix_of(self.fed@)
        }
    }

    /// The stream is complete exactly when what was handed in is a zlib stream,
    /// and then what came out is what that stream holds.
    pub proof fn lemma_wf(self)
        requires
            self.wf(),
        ensures
            self.written().len() <= self.limit(),
            self.ended() ==> zlib_decode(self.fed()) == Some(self.written()),
            !self.ended() ==> !begins_with_stream(self.fed()),
            !self.ended() ==> zlib_decode(self.fed()) is None,
            !continues_after_stream(self.fed()),
    {
        assert(self.fed@.is_prefix_of(self.fed@));
        assert forall|w: Seq<u8>| #[trigger] zlib_decode(w) is Some && w.is_prefix_of(
            self.fed@,
        ) implies w.len() == self.fed@.len() by {
            assert(begin_alike(self.fed@, w));
        }
    }

    pub fn new(max_output: usize) -> (r: Self)
        ensures
            r.wf(),
            r.fed() == Seq::<u8>::empty(),
            r.written() == Seq::<u8>::empty(),
            r.limit() == max_output,
            !r.ended(),
    {
        let decompressor = new_inflater();
        let output_buf: Vec<u8> = vec![0u8; INFLATE_BUFFER_BYTES];
        assert forall|w: Seq<u8>| #[trigger] zlib_decode(w) is Some implies !w.is_prefix_of(
            Seq::<u8>::empty(),
        ) by {
            if w.is_prefix_of(Seq::<u8>::empty()) {
                assert(w =~= Seq::<u8>::empty());
            }
        }
        StreamingInflater {
            decompressor,
            output: Vec::new(),
            output_buf,
            max_output,
            stream_ended: false,
            fed: Ghost(Seq::empty()),
        }
    }

    /// Hands in the next piece of the compressed stream.
    pub fn consume(&mut self, input: &[u8]) -> (r: Result<(), JdvrifError>)
        requires
            old(self).wf(),
        ensures
            final(self).limit() == old(self).limit(),
            r is Ok ==> final(self).wf() && final(self).fed() == old(self).fed() + input@
                && old(self).written().is_prefix_of(final(self).written()),
            input@.len() == 0 ==> r is Ok,
            old(self).ended() && input@.len() > 0 ==> r == Err::<(), JdvrifError>(
                JdvrifError::InflateTrailingData,
            ),
            r matches Err(e) ==> inflate_refuses(old(self).fed() + input@, old(self).limit(), e),
            r is Ok ==> !continues_after_stream(old(self).fed() + input@),
    {
        if input.len() == 0 {
            assert(self.fed@ + input@ =~= self.fed@);
            return Ok(());
        }
        let ghost fed0: Seq<u8> = self.fed@;
        let ghost all: Seq<u8> = fed0 + input@;
        let ghost out0: Seq<u8> = self.output@;
        if self.stream_ended {
            proof {
                assert forall|w: Seq<u8>| #[trigger]
                    zlib_decode(w) is Some && begin_alike(all, w) implies w == fed0 by {
                    if all.is_prefix_of(w) {
                        assert(fed0 =~= w.take(fed0.len() as int));
                    } else if w.len() <= fed0.len() {
                        assert(w =~= fed0.take(w.len() as int));
                    } else {
                        assert(fed0 =~= w.take(fed0.len() as int));
                    }
                    assert(begin_alike(fed0, w));
                }
            }
            return Err(JdvrifError::InflateTrailingData);
        }
        let mut at: usize = 0;
        loop
            invariant
                at <= input@.len(),
                all == fed0 + input@,
                input@.len() > 0,
                self.output_buf@.len() == INFLATE_BUFFER_BYTES,
                self.output@.len() <= self.max_output,
                self.max_output == old(self).max_output,
                fed0 == old(self).fed@,
                out0 == old(self).output@,
                out0.is_prefix_of(self.output@),
                !self.stream_ended,
                !old(self).stream_ended,
                !inflater_failed(self.decompressor),
                inflater_input(self.decompressor) == fed0 + input@.take(at as int),
                inflater_output(self.decompressor) == self.output@,
                forall|w: Seq<u8>| #[trigger]
                    zlib_decode(w) is Some ==> !w.is_prefix_of(fed0),
            decreases input@.len() - at + self.max_output - self.output@.len(),
        {
            let ghost d0: Decompress = self.decompressor;
            let before_in: u64 = self.decompressor.total_in();
            let before_out: u64 = self.decompressor.total_out();
            let rest: &[u8] = slice_subrange(input, at, input.len());
            assert(inflater_input(d0) + rest@ =~= all);
            let status: InflateStatus = match inflate_step(
                &mut self.decompressor,
                rest,
                &mut self.output_buf,
            ) {
                Ok(s) => s,
                Err(_) => {
                    return Err(JdvrifError::InflateFailed);
                },
            };
            let ghost d1: Decompress = self.decompressor;
            let consumed: usize = (self.decompressor.total_in() - before_in) as usize;
            let produced: usize = (self.decompressor.total_out() - before_out) as usize;
            let next: usize = at + consumed;
            assert(fed0 + input@.take(at as int) + rest@.take(consumed as int) =~= fed0
                + input@.take(next as int));
            let verdict: InflateVerdict = inflate_verdict(
                status,
                consumed,
                produced,
                input.len() - next,
                self.output.len(),
                self.max_output,
            );
            if let InflateVerdict::Failed(e) = verdict {
                proof {
                    assert forall|w: Seq<u8>| #[trigger]
                        zlib_decode(w) is Some && begin_alike(all, w) implies refused_stream(
                        all,
                        w,
                        self.max_output as int,
                        e,
                    ) by {
                        if e is InflateTrailingData {
                            assert(inflater_input(d1) == w);
                        }
                    }
                }
                return Err(e);
            }
            append_range(&mut self.output, slice_subrange(&self.output_buf, 0, produced), 0, produced);
            at = next;
            assert(inflater_output(d1) =~= self.output@);
            match verdict {
                InflateVerdict::Ended => {
                    assert(input@.take(at as int) =~= input@);
                    self.stream_ended = true;
                    self.fed = Ghost(all);
                    return Ok(());
                },
                InflateVerdict::NeedInput => {
                    assert(input@.take(at as int) =~= input@);
                    assert forall|w: Seq<u8>| #[trigger] zlib_decode(w) is Some implies !w.is_prefix_of(
                        all,
                    ) by {
                        if w.is_prefix_of(all) {
                            assert(begin_alike(all, w));
                            assert(w =~= all);
                        }
                    }
                    self.fed = Ghost(all);
                    return Ok(());
                },
                _ => {},
            }
        }
    }

    /// Ends the inflation and gives out all that was written, where the
    /// compressed stream was complete.
    pub fn finish(self) -> (r: Result<Vec<u8>, JdvrifError>)
        requires
            self.wf(),
        ensures
            match zlib_decode(self.fed()) {
                Some(data) => r is Ok && r->Ok_0@ == data,
                None => r == Err::<Vec<u8>, JdvrifError>(JdvrifError::InflateTruncated),
            },
    {
        if !self.stream_ended {
            return Err(JdvrifError::InflateTruncated);
        }
        Ok(self.output)
    }
}

} // verus!
