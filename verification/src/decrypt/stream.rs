//! The framed secretstream: every frame is preceded by its length, and the last
//! one carries the final tag.

use super::inflate::{
    begins_with_stream, continues_after_stream, inflate_refuses, refused_stream, StreamingInflater,
};
use super::prefix::{
    has_empty_name, lemma_payload_prefix, payload_of, prefixed_name, FilenamePrefixExtractor,
};
use crate::common::{append, be32, read_be32};
use crate::constants::{
    stream_mode, stream_mode_byte, MAX_SECRETSTREAM_FRAME_BYTES, SECRETSTREAM_OVERHEAD_BYTES,
    STREAM_FRAME_LEN_BYTES, STREAM_INFLATE_MAX_OUTPUT,
};
use crate::crypto::{
    ad_view, decryption_history, is_defined_tag, open_decryption, open_frame, secretstream_open,
    wipe_vec_capacity, TAG_FINAL,
};
use crate::runtime::{JdvrifError, KdfMetadataVersion};
use crate::zlib::{begin_alike, zlib_decode};
use dryoc::classic::crypto_secretstream_xchacha20poly1305::State;
use vstd::prelude::*;
use vstd::slice::slice_subrange;

verus! {

/// The length of the frame that stands first, where its length field can hold.
pub open spec fn next_frame(rest: Seq<u8>) -> Option<int> {
    if rest.len() < STREAM_FRAME_LEN_BYTES {
        None
    } else {
        let n = be32(rest, 0);
        if n < SECRETSTREAM_OVERHEAD_BYTES || n > rest.len() - STREAM_FRAME_LEN_BYTES || n
            > MAX_SECRETSTREAM_FRAME_BYTES {
            None
        } else {
            Some(n)
        }
    }
}

/// What the authentic frames at the front of a ciphertext hold, and whether they
/// make it up from beginning to end, closed by a final frame. A frame with a tag
/// that is not defined counts as not authentic.
#[verifier::ext_equal]
pub ghost struct OpenedFrames {
    pub text: Seq<u8>,
    pub complete: bool,
}

pub open spec fn open_frames(
    history: Seq<Seq<u8>>,
    ad: Option<Seq<u8>>,
    rest: Seq<u8>,
) -> OpenedFrames
    decreases rest.len(),
{
    match next_frame(rest) {
        None => OpenedFrames { text: Seq::empty(), complete: false },
        Some(n) => {
            let frame = rest.subrange(4, 4 + n);
            match secretstream_open(history, frame, ad) {
                None => OpenedFrames { text: Seq::empty(), complete: false },
                Some((message, tag)) => {
                    if !is_defined_tag(tag) {
                        OpenedFrames { text: Seq::empty(), complete: false }
                    } else if tag == TAG_FINAL {
                        OpenedFrames { text: message, complete: rest.len() == 4 + n }
                    } else {
                        let tail = open_frames(history.push(frame), ad, rest.skip(4 + n));
                        OpenedFrames { text: message + tail.text, complete: tail.complete }
                    }
                },
            }
        },
    }
}

/// Where a payload goes once its filename has been taken off.
pub enum PayloadSink {
    Raw(Vec<u8>),
    Zlib(StreamingInflater),
}

impl PayloadSink {
    pub open spec fn wf(self) -> bool {
        self matches PayloadSink::Zlib(inflater) ==> inflater.wf() && inflater.limit()
            == STREAM_INFLATE_MAX_OUTPUT
    }

    /// All of the payload so far.
    pub open spec fn taken(self) -> Seq<u8> {
        match self {
            PayloadSink::Raw(out) => out@,
            PayloadSink::Zlib(inflater) => inflater.fed(),
        }
    }

    pub fn new(is_data_compressed: bool) -> (r: Self)
        ensures
            r.wf(),
            r.taken() == Seq::<u8>::empty(),
            r is Zlib == is_data_compressed,
    {
        if is_data_compressed {
            PayloadSink::Zlib(StreamingInflater::new(STREAM_INFLATE_MAX_OUTPUT))
        } else {
            PayloadSink::Raw(Vec::new())
        }
    }

    pub fn consume(&mut self, piece: &[u8]) -> (r: Result<(), JdvrifError>)
        requires
            old(self).wf(),
        ensures
            (*final(self)) is Zlib == (*old(self)) is Zlib,
            r is Ok ==> final(self).wf() && final(self).taken() == old(self).taken() + piece@,
            r matches Err(e) ==> (*old(self)) is Zlib && inflate_refuses(
                old(self).taken() + piece@,
                STREAM_INFLATE_MAX_OUTPUT as int,
                e,
            ),
    {
        match self {
            PayloadSink::Raw(out) => {
                append(out, piece);
                Ok(())
            },
            PayloadSink::Zlib(inflater) => inflater.consume(piece),
        }
    }
}

proof fn lemma_inflate_refuses(payload: Seq<u8>, longer: Seq<u8>, e: JdvrifError)
    requires
        inflate_refuses(payload, STREAM_INFLATE_MAX_OUTPUT as int, e),
        payload.is_prefix_of(longer),
    ensures
        inflate_refuses(longer, STREAM_INFLATE_MAX_OUTPUT as int, e),
{
    assert forall|w: Seq<u8>| #[trigger]
        zlib_decode(w) is Some && begin_alike(longer, w) implies refused_stream(
        longer,
        w,
        STREAM_INFLATE_MAX_OUTPUT as int,
        e,
    ) by {
        if longer.is_prefix_of(w) {
            assert(payload =~= w.take(payload.len() as int));
        } else if w.len() <= payload.len() {
            assert(w =~= payload.take(w.len() as int));
        } else {
            assert(payload =~= w.take(payload.len() as int));
        }
        assert(begin_alike(payload, w));
    }
}

/// Takes the decrypted text apart as it arrives.
pub struct PayloadDecoder {
    pub extractor: FilenamePrefixExtractor,
    pub sink: PayloadSink,
}

impl PayloadDecoder {
    pub open spec fn wf(self) -> bool {
        &&& self.extractor.wf()
        &&& self.sink.wf()
        &&& self.sink.taken() == payload_of(self.extractor.seen())
    }

    /// The whole text so far.
    pub open spec fn seen(self) -> Seq<u8> {
        self.extractor.seen()
    }

    /// `e` is an error that a text with this beginning may end in.
    pub open spec fn refuses(compressed: bool, text: Seq<u8>, e: JdvrifError) -> bool {
        if has_empty_name(text) {
            e is CorruptFile
        } else {
            compressed && inflate_refuses(payload_of(text), STREAM_INFLATE_MAX_OUTPUT as int, e)
        }
    }

    pub fn new(is_data_compressed: bool) -> (r: Self)
        ensures
            r.wf(),
            r.seen() == Seq::<u8>::empty(),
            r.sink is Zlib == is_data_compressed,
    {
        PayloadDecoder {
            extractor: FilenamePrefixExtractor::new(),
            sink: PayloadSink::new(is_data_compressed),
        }
    }

    pub fn consume(&mut self, chunk: &[u8]) -> (r: Result<(), JdvrifError>)
        requires
            old(self).wf(),
        ensures
            final(self).sink is Zlib == old(self).sink is Zlib,
            has_empty_name(old(self).seen() + chunk@) ==> r is Err,
            r is Ok ==> final(self).wf() && final(self).seen() == old(self).seen() + chunk@,
            r matches Err(e) ==> Self::refuses(
                old(self).sink is Zlib,
                old(self).seen() + chunk@,
                e,
            ),
    {
        match self.extractor.consume(chunk) {
            Ok(at) => {
                let piece: &[u8] = slice_subrange(chunk, at, chunk.len());
                assert(piece@ =~= chunk@.skip(at as int));
                self.sink.consume(piece)
            },
            Err(e) => Err(e),
        }
    }
}

/// Decrypts frame after frame and hands each message to the decoder. The result
/// says whether the ciphertext was authentic from beginning to end.
pub fn decrypt_with_secretstream_chunks(
    stream: State,
    cipher: &[u8],
    associated_data: Option<&[u8]>,
    decoder: &mut PayloadDecoder,
) -> (r: Result<bool, JdvrifError>)
    requires
        old(decoder).wf(),
        old(decoder).seen() == Seq::<u8>::empty(),
    ensures
        final(decoder).sink is Zlib == old(decoder).sink is Zlib,
        ({
            let opened = open_frames(decryption_history(stream), ad_view(associated_data), cipher@);
            match r {
                Ok(authentic) => {
                    &&& authentic == opened.complete
                    &&& final(decoder).wf()
                    &&& final(decoder).seen() == opened.text
                },
                Err(e) => PayloadDecoder::refuses(old(decoder).sink is Zlib, opened.text, e),
            }
        }),
{
    let ghost h0: Seq<Seq<u8>> = decryption_history(stream);
    let mut pull = stream;
    let ghost ad: Option<Seq<u8>> = ad_view(associated_data);
    let ghost opened: OpenedFrames = open_frames(h0, ad, cipher@);
    let mut at: usize = 0;
    assert(cipher@.skip(0) =~= cipher@);
    assert(decoder.seen() + opened.text =~= opened.text);
    while at < cipher.len()
        invariant
            at <= cipher@.len(),
            ad == ad_view(associated_data),
            h0 == decryption_history(stream),
            opened == open_frames(h0, ad, cipher@),
            decoder.wf(),
            decoder.sink is Zlib == old(decoder).sink is Zlib,
            opened.text == decoder.seen() + open_frames(
                decryption_history(pull),
                ad,
                cipher@.skip(at as int),
            ).text,
            opened.complete == open_frames(
                decryption_history(pull),
                ad,
                cipher@.skip(at as int),
            ).complete,
        decreases cipher@.len() - at,
    {
        let left: usize = cipher.len() - at;
        let ghost rest: Seq<u8> = cipher@.skip(at as int);
        let ghost history: Seq<Seq<u8>> = decryption_history(pull);
        if left < STREAM_FRAME_LEN_BYTES {
            assert(decoder.seen() + open_frames(history, ad, rest).text =~= decoder.seen());
            return Ok(false);
        }
        let frame_len: usize = read_be32(cipher, at) as usize;
        assert(be32(rest, 0) == be32(cipher@, at as int));
        if frame_len < SECRETSTREAM_OVERHEAD_BYTES || frame_len > left - STREAM_FRAME_LEN_BYTES
            || frame_len > MAX_SECRETSTREAM_FRAME_BYTES {
            assert(decoder.seen() + open_frames(history, ad, rest).text =~= decoder.seen());
            return Ok(false);
        }
        let begin: usize = at + STREAM_FRAME_LEN_BYTES;
        let frame: &[u8] = slice_subrange(cipher, begin, begin + frame_len);
        assert(frame@ =~= rest.subrange(4, 4 + frame_len));
        let plain_len: usize = frame_len - SECRETSTREAM_OVERHEAD_BYTES;
        let mut plain: Vec<u8> = vec![0u8; plain_len];
        let tag: u8 = match open_frame(&mut pull, frame, associated_data, &mut plain) {
            Ok(tag) => tag,
            Err(_) => {
                assert(decoder.seen() + open_frames(history, ad, rest).text =~= decoder.seen());
                return Ok(false);
            },
        };
        if tag > TAG_FINAL {
            wipe_vec_capacity(&mut plain);
            assert(decoder.seen() + open_frames(history, ad, rest).text =~= decoder.seen());
            return Ok(false);
        }
        let ghost seen: Seq<u8> = decoder.seen();
        let ghost message: Seq<u8> = plain@;
        let ghost tail: Seq<u8> = rest.skip(4 + frame_len);
        assert(tail =~= cipher@.skip(begin + frame_len));
        proof {
            let after = open_frames(history.push(frame@), ad, tail);
            assert((seen + message).is_prefix_of(opened.text)) by {
                assert(opened.text =~= (seen + message) + opened.text.skip(
                    (seen + message).len() as int,
                ));
                assert(seen + message =~= opened.text.take((seen + message).len() as int));
            }
            if tag != TAG_FINAL {
                assert(opened.text =~= (seen + message) + after.text);
            } else {
                assert(opened.text =~= seen + message);
            }
        }
        if plain.len() > 0 {
            let consumed = decoder.consume(&plain);
            wipe_vec_capacity(&mut plain);
            match consumed {
                Ok(_) => {},
                Err(e) => {
                    proof {
                        lemma_payload_prefix(seen + message, opened.text);
                        if !has_empty_name(seen + message) {
                            assert(opened.text[0] == (seen + message)[0]);
                            lemma_inflate_refuses(
                                payload_of(seen + message),
                                payload_of(opened.text),
                                e,
                            );
                        }
                    }
                    return Err(e);
                },
            }
        } else {
            assert(seen + message =~= seen);
        }
        at = begin + frame_len;
        if tag == TAG_FINAL {
            return Ok(at == cipher.len());
        }
    }
    assert(decoder.seen() + open_frames(
        decryption_history(pull),
        ad,
        cipher@.skip(at as int),
    ).text =~= decoder.seen());
    Ok(false)
}

/// How a decryption ended.
pub enum DecryptStatus {
    Success { decrypted_filename: Vec<u8>, output: Vec<u8> },
    FailedPin,
}

impl DecryptStatus {
    /// The file that came out is `data`, under the name `name`.
    pub open spec fn is_file(self, name: Seq<u8>, data: Seq<u8>) -> bool {
        self matches DecryptStatus::Success { decrypted_filename, output }
            && decrypted_filename@ == name && output@ == data
    }
}

/// A payload that inflating refuses as far as it goes, whatever would follow: it
/// goes on after a complete zlib stream, or is one that holds too much.
pub open spec fn must_be_refused(payload: Seq<u8>) -> bool {
    ||| continues_after_stream(payload)
    ||| zlib_decode(payload) matches Some(data) && data.len() > STREAM_INFLATE_MAX_OUTPUT
}

/// How the decryption of a ciphertext with these frames ends. Where the frames
/// are not authentic to the end, inflating what there is of a compressed payload
/// can fail before that is found.
pub open spec fn decrypt_outcome(
    opened: OpenedFrames,
    compressed: bool,
    r: Result<DecryptStatus, JdvrifError>,
) -> bool {
    let payload = payload_of(opened.text);
    if has_empty_name(opened.text) {
        r matches Err(e) && e is CorruptFile
    } else if !opened.complete || prefixed_name(opened.text) is None {
        match r {
            Ok(status) => {
                &&& status is FailedPin
                &&& compressed ==> !must_be_refused(payload)
            },
            Err(e) => compressed && inflate_refuses(payload, STREAM_INFLATE_MAX_OUTPUT as int, e),
        }
    } else {
        let name = prefixed_name(opened.text)->0;
        if !compressed {
            if payload.len() == 0 {
                r matches Err(e) && e is OutputEmpty
            } else {
                r matches Ok(status) && status.is_file(name, payload)
            }
        } else {
            match zlib_decode(payload) {
                Some(data) => if data.len() > STREAM_INFLATE_MAX_OUTPUT {
                    r matches Err(e) && e is InflateOutputLimit
                } else if data.len() == 0 {
                    r matches Err(e) && e is InflateOutputEmpty
                } else {
                    r matches Ok(status) && status.is_file(name, data)
                },
                None => r matches Err(e) && if e is InflateTruncated {
                    !begins_with_stream(payload)
                } else {
                    inflate_refuses(payload, STREAM_INFLATE_MAX_OUTPUT as int, e)
                },
            }
        }
    }
}

/// The associated data of every frame.
pub open spec fn frame_ad(version: KdfMetadataVersion, compressed: bool) -> Option<Seq<u8>> {
    if version.binds_mode() {
        Some(seq![stream_mode(compressed)])
    } else {
        None
    }
}

/// The formats that bind the mode authenticate different data in the two modes,
/// so that no frame of the one is a frame of the other by what is authenticated;
/// the oldest format authenticates no mode.
pub proof fn law_mode_is_bound(version: KdfMetadataVersion)
    ensures
        version.binds_mode() ==> frame_ad(version, true) != frame_ad(version, false),
        version is V2Secretstream ==> frame_ad(version, true) == frame_ad(version, false),
{
    assert(seq![stream_mode(true)][0] != seq![stream_mode(false)][0]);
}

/// Decrypts a ciphertext with a stream that stands at its beginning.
pub fn decrypt_opened_ciphertext(
    stream: State,
    cipher: &[u8],
    metadata_version: KdfMetadataVersion,
    is_data_compressed: bool,
) -> (r: Result<DecryptStatus, JdvrifError>)
    ensures
        decrypt_outcome(
            open_frames(
                decryption_history(stream),
                frame_ad(metadata_version, is_data_compressed),
                cipher@,
            ),
            is_data_compressed,
            r,
        ),
{
    let mut decoder = PayloadDecoder::new(is_data_compressed);
    let mode_data: [u8; 1] = [stream_mode_byte(is_data_compressed)];
    let mode_slice: &[u8] = &mode_data;
    let associated_data: Option<&[u8]> = if metadata_version.authenticates_stream_mode() {
        Some(mode_slice)
    } else {
        None
    };
    assert(mode_slice@ =~= seq![stream_mode(is_data_compressed)]);
    let ghost opened: OpenedFrames = open_frames(
        decryption_history(stream),
        frame_ad(metadata_version, is_data_compressed),
        cipher@,
    );
    let authentic: bool = match decrypt_with_secretstream_chunks(
        stream,
        cipher,
        associated_data,
        &mut decoder,
    ) {
        Ok(authentic) => authentic,
        Err(e) => {
            proof {
                if !has_empty_name(opened.text) && opened.complete && prefixed_name(
                    opened.text,
                ) is Some && zlib_decode(payload_of(opened.text)) is Some {
                    assert(payload_of(opened.text).is_prefix_of(payload_of(opened.text)));
                }
            }
            return Err(e);
        },
    };
    proof {
        decoder.extractor.lemma_wf();
        if decoder.sink is Zlib {
            decoder.sink->Zlib_0.lemma_wf();
        }
    }
    if !authentic || !decoder.extractor.is_complete() {
        return Ok(DecryptStatus::FailedPin);
    }
    let output: Vec<u8> = match decoder.sink {
        PayloadSink::Raw(out) => {
            if out.len() == 0 {
                return Err(JdvrifError::OutputEmpty);
            }
            out
        },
        PayloadSink::Zlib(inflater) => {
            proof {
                inflater.lemma_wf();
            }
            let out: Vec<u8> = match inflater.finish() {
                Ok(out) => out,
                Err(e) => {
                    return Err(e);
                },
            };
            if out.len() == 0 {
                return Err(JdvrifError::InflateOutputEmpty);
            }
            out
        },
    };
    match decoder.extractor.into_filename() {
        Ok(decrypted_filename) => Ok(DecryptStatus::Success { decrypted_filename, output }),
        Err(e) => Err(e),
    }
}

/// Decrypts a ciphertext under a key and a header.
pub fn decrypt_ciphertext(
    cipher: &[u8],
    key: &[u8],
    header: &[u8; 24],
    metadata_version: KdfMetadataVersion,
    is_data_compressed: bool,
) -> (r: Result<DecryptStatus, JdvrifError>)
    requires
        key@.len() == 32,
    ensures
        decrypt_outcome(
            open_frames(
                seq![key@, header@],
                frame_ad(metadata_version, is_data_compressed),
                cipher@,
            ),
            is_data_compressed,
            r,
        ),
{
    decrypt_opened_ciphertext(
        open_decryption(key, header),
        cipher,
        metadata_version,
        is_data_compressed,
    )
}

} // verus!
