//! Encrypting a payload into the framed secretstream.

use crate::common::{append, be32, be32_bytes, lemma_be32_roundtrip, push_be32};
use crate::constants::{
    MAX_SECRETSTREAM_FRAME_BYTES, SECRETSTREAM_OVERHEAD_BYTES, STREAM_CHUNK_SIZE,
    STREAM_FRAME_LEN_BYTES,
};
use crate::crypto::{
    encryption_header, encryption_history, open_encryption, seal_final_frame, seal_frame,
    secretstream_open, secretstream_seal, wipe_vec_capacity, TAG_FINAL, TAG_MESSAGE,
};
use crate::decrypt::stream::{next_frame, open_frames, OpenedFrames};
use crate::runtime::JdvrifError;
use alkali::symmetric::cipher_stream::EncryptionStream;
use vstd::prelude::*;
use vstd::slice::slice_subrange;

verus! {

/// How many frames a text of this length fills.
pub open spec fn frame_count(total: int) -> int {
    (total + STREAM_CHUNK_SIZE - 1) / STREAM_CHUNK_SIZE as int
}

/// The length of the encrypted form of a text of this length: every frame adds
/// its length field and its authentication overhead.
pub open spec fn encrypted_size(total: int) -> int {
    total + frame_count(total) * (SECRETSTREAM_OVERHEAD_BYTES + STREAM_FRAME_LEN_BYTES)
}

/// The encrypted size of an input with a prefix in front of it, where it is a
/// size at all.
pub fn estimate_prefixed_stream_encrypted_size(input_size: usize, prefix_plain_len: usize) -> (r:
    Result<usize, JdvrifError>)
    ensures
        match r {
            Ok(size) => size == encrypted_size(input_size + prefix_plain_len),
            Err(e) => e is EncryptedSizeOverflow && encrypted_size(input_size + prefix_plain_len)
                > usize::MAX,
        },
        r matches Ok(size) ==> size == input_size + prefix_plain_len + (input_size
            + prefix_plain_len + 1048575) / 1048576 * 21,
{
    if prefix_plain_len > usize::MAX - input_size {
        return Err(JdvrifError::EncryptedSizeOverflow);
    }
    let total_plain_size: usize = input_size + prefix_plain_len;
    if total_plain_size == 0 {
        return Ok(0);
    }
    let chunk_count: usize = (total_plain_size - 1) / STREAM_CHUNK_SIZE + 1;
    let per_chunk_overhead: usize = SECRETSTREAM_OVERHEAD_BYTES + STREAM_FRAME_LEN_BYTES;
    if chunk_count > (usize::MAX - total_plain_size) / per_chunk_overhead {
        return Err(JdvrifError::EncryptedSizeOverflow);
    }
    Ok(total_plain_size + chunk_count * per_chunk_overhead)
}

/// A frame with its length in front of it.
pub open spec fn framed(frame: Seq<u8>) -> Seq<u8> {
    be32_bytes(frame.len() as int) + frame
}

/// The framed secretstream that a text is encrypted to: full chunks as ordinary
/// messages, what is left as the final one.
pub open spec fn sealed(history: Seq<Seq<u8>>, ad: Option<Seq<u8>>, text: Seq<u8>) -> Seq<u8>
    decreases text.len(),
{
    if text.len() <= STREAM_CHUNK_SIZE {
        framed(secretstream_seal(history, text, ad, TAG_FINAL))
    } else {
        let frame = secretstream_seal(
            history,
            text.take(STREAM_CHUNK_SIZE as int),
            ad,
            TAG_MESSAGE,
        );
        framed(frame) + sealed(history.push(frame), ad, text.skip(STREAM_CHUNK_SIZE as int))
    }
}

proof fn lemma_next_frame(frame: Seq<u8>, tail: Seq<u8>)
    requires
        SECRETSTREAM_OVERHEAD_BYTES <= frame.len() <= MAX_SECRETSTREAM_FRAME_BYTES,
    ensures
        next_frame(framed(frame) + tail) == Some(frame.len() as int),
        (framed(frame) + tail).subrange(4, 4 + frame.len() as int) == frame,
        (framed(frame) + tail).skip(4 + frame.len() as int) == tail,
{
    let s = framed(frame) + tail;
    lemma_be32_roundtrip(frame.len() as int);
    assert(be32(s, 0) == be32(be32_bytes(frame.len() as int), 0));
    assert(s.subrange(4, 4 + frame.len() as int) =~= frame);
    assert(s.skip(4 + frame.len() as int) =~= tail);
}

proof fn lemma_open_message(
    history: Seq<Seq<u8>>,
    ad: Option<Seq<u8>>,
    frame: Seq<u8>,
    message: Seq<u8>,
    tail: Seq<u8>,
)
    requires
        SECRETSTREAM_OVERHEAD_BYTES <= frame.len() <= MAX_SECRETSTREAM_FRAME_BYTES,
        secretstream_open(history, frame, ad) == Some((message, TAG_MESSAGE)),
    ensures
        open_frames(history, ad, framed(frame) + tail).text == message + open_frames(
            history.push(frame),
            ad,
            tail,
        ).text,
        open_frames(history, ad, framed(frame) + tail).complete == open_frames(
            history.push(frame),
            ad,
            tail,
        ).complete,
{
    lemma_next_frame(frame, tail);
}

proof fn lemma_open_final(
    history: Seq<Seq<u8>>,
    ad: Option<Seq<u8>>,
    frame: Seq<u8>,
    message: Seq<u8>,
)
    requires
        SECRETSTREAM_OVERHEAD_BYTES <= frame.len() <= MAX_SECRETSTREAM_FRAME_BYTES,
        secretstream_open(history, frame, ad) == Some((message, TAG_FINAL)),
    ensures
        open_frames(history, ad, framed(frame)) == (OpenedFrames { text: message, complete: true }),
{
    lemma_next_frame(frame, Seq::empty());
    assert(framed(frame) + Seq::<u8>::empty() =~= framed(frame));
}

/// Frames that open to a text and leave the stream with a new history, whatever
/// follows them.
#[verifier::opaque]
spec fn opens_up_to(
    start: Seq<Seq<u8>>,
    ad: Option<Seq<u8>>,
    frames: Seq<u8>,
    text: Seq<u8>,
    history: Seq<Seq<u8>>,
) -> bool {
    forall|tail: Seq<u8>|
        open_frames(start, ad, #[trigger] (frames + tail)).text == text + open_frames(
            history,
            ad,
            tail,
        ).text && open_frames(start, ad, frames + tail).complete == open_frames(
            history,
            ad,
            tail,
        ).complete
}

proof fn lemma_opens_nothing(start: Seq<Seq<u8>>, ad: Option<Seq<u8>>)
    ensures
        opens_up_to(start, ad, Seq::empty(), Seq::empty(), start),
{
    reveal(opens_up_to);
    assert forall|tail: Seq<u8>|
        open_frames(start, ad, #[trigger] (Seq::<u8>::empty() + tail)).text == Seq::<u8>::empty()
            + open_frames(start, ad, tail).text && open_frames(
            start,
            ad,
            Seq::<u8>::empty() + tail,
        ).complete == open_frames(start, ad, tail).complete by {
        assert(Seq::<u8>::empty() + tail =~= tail);
        assert(Seq::<u8>::empty() + open_frames(start, ad, tail).text =~= open_frames(
            start,
            ad,
            tail,
        ).text);
    }
}

proof fn lemma_opens_one_more(
    start: Seq<Seq<u8>>,
    ad: Option<Seq<u8>>,
    frames: Seq<u8>,
    text: Seq<u8>,
    history: Seq<Seq<u8>>,
    frame: Seq<u8>,
    message: Seq<u8>,
)
    requires
        opens_up_to(start, ad, frames, text, history),
        SECRETSTREAM_OVERHEAD_BYTES <= frame.len() <= MAX_SECRETSTREAM_FRAME_BYTES,
        secretstream_open(history, frame, ad) == Some((message, TAG_MESSAGE)),
    ensures
        opens_up_to(start, ad, frames + framed(frame), text + message, history.push(frame)),
{
    reveal(opens_up_to);
    let more = frames + framed(frame);
    let next = history.push(frame);
    assert forall|tail: Seq<u8>|
        open_frames(start, ad, #[trigger] (more + tail)).text == (text + message) + open_frames(
            next,
            ad,
            tail,
        ).text && open_frames(start, ad, more + tail).complete == open_frames(
            next,
            ad,
            tail,
        ).complete by {
        let inner = framed(frame) + tail;
        assert(more + tail =~= frames + inner);
        lemma_open_message(history, ad, frame, message, tail);
        let rest = open_frames(next, ad, tail).text;
        assert(text + (message + rest) =~= (text + message) + rest);
    }
}

proof fn lemma_opens_to_the_end(
    start: Seq<Seq<u8>>,
    ad: Option<Seq<u8>>,
    frames: Seq<u8>,
    text: Seq<u8>,
    history: Seq<Seq<u8>>,
    frame: Seq<u8>,
    message: Seq<u8>,
)
    requires
        opens_up_to(start, ad, frames, text, history),
        SECRETSTREAM_OVERHEAD_BYTES <= frame.len() <= MAX_SECRETSTREAM_FRAME_BYTES,
        secretstream_open(history, frame, ad) == Some((message, TAG_FINAL)),
    ensures
        open_frames(start, ad, frames + framed(frame)) == (OpenedFrames {
            text: text + message,
            complete: true,
        }),
{
    reveal(opens_up_to);
    lemma_open_final(history, ad, frame, message);
}

/// Encrypting goes on chunk by chunk.
proof fn lemma_sealed_step(history: Seq<Seq<u8>>, ad: Option<Seq<u8>>, text: Seq<u8>, at: int)
    requires
        0 <= at,
        at + STREAM_CHUNK_SIZE < text.len(),
    ensures
        ({
            let frame = secretstream_seal(
                history,
                text.subrange(at, at + STREAM_CHUNK_SIZE),
                ad,
                TAG_MESSAGE,
            );
            sealed(history, ad, text.skip(at)) == framed(frame) + sealed(
                history.push(frame),
                ad,
                text.skip(at + STREAM_CHUNK_SIZE),
            )
        }),
{
    let rest = text.skip(at);
    assert(rest.take(STREAM_CHUNK_SIZE as int) =~= text.subrange(at, at + STREAM_CHUNK_SIZE));
    assert(rest.skip(STREAM_CHUNK_SIZE as int) =~= text.skip(at + STREAM_CHUNK_SIZE));
}

/// An encrypted payload and the header that its stream begins with.
pub struct EncryptedPayload {
    pub header: [u8; 24],
    pub frames: Vec<u8>,
}

impl EncryptedPayload {
    /// The payload holds `text`, encrypted under `key` with `mode` bound into
    /// every frame, and gives it back in full.
    pub open spec fn holds(self, key: Seq<u8>, mode: u8, text: Seq<u8>) -> bool {
        &&& self.frames@ == sealed(seq![key, self.header@], Some(seq![mode]), text)
        &&& open_frames(seq![key, self.header@], Some(seq![mode]), self.frames@) == (OpenedFrames {
            text,
            complete: true,
        })
        &&& self.frames@.len() == encrypted_size(text.len() as int)
    }
}

/// Encrypts a prefix and the input behind it with a stream that stands at its
/// beginning. No frame is longer than libsodium takes, so that none is refused.
pub fn encrypt_with_opened_stream(
    opened: EncryptionStream,
    data: &[u8],
    prefix_plaintext: &[u8],
    authenticated_mode: u8,
) -> (r: Result<Vec<u8>, JdvrifError>)
    requires
        data@.len() > 0,
        prefix_plaintext@.len() + data@.len() <= usize::MAX,
    ensures
        r is Ok,
        r->Ok_0@ == sealed(
            encryption_history(opened),
            Some(seq![authenticated_mode]),
            prefix_plaintext@ + data@,
        ),
        open_frames(encryption_history(opened), Some(seq![authenticated_mode]), r->Ok_0@) == (
        OpenedFrames { text: prefix_plaintext@ + data@, complete: true }),
        r->Ok_0@.len() == encrypted_size((prefix_plaintext@ + data@).len() as int),
{
    let mut stream = opened;
    let mode_data: [u8; 1] = [authenticated_mode];
    let mode_slice: &[u8] = &mode_data;
    let ghost ad: Option<Seq<u8>> = Some(seq![authenticated_mode]);
    assert(mode_slice@ =~= seq![authenticated_mode]);
    let mut plain: Vec<u8> = Vec::new();
    append(&mut plain, prefix_plaintext);
    append(&mut plain, data);
    let ghost text: Seq<u8> = prefix_plaintext@ + data@;
    assert(plain@ =~= text);
    let ghost h0: Seq<Seq<u8>> = encryption_history(stream);
    let mut frames: Vec<u8> = Vec::new();
    let mut at: usize = 0;
    let ghost mut count: int = 0;
    assert(text.skip(0) =~= text);
    assert(frames@ + sealed(h0, ad, text) =~= sealed(h0, ad, text));
    proof {
        lemma_opens_nothing(h0, ad);
        assert(text.take(0) =~= Seq::<u8>::empty());
        assert(frames@ =~= Seq::<u8>::empty());
    }
    while plain.len() - at > STREAM_CHUNK_SIZE
        invariant
            at < plain@.len(),
            plain@ == text,
            ad == Some(seq![authenticated_mode]),
            mode_slice@ == seq![authenticated_mode],
            at == count * 1048576,
            data@.len() > 0,
            prefix_plaintext@.len() + data@.len() <= usize::MAX,
            count >= 0,
            frames@.len() == at + count * 21,
            sealed(h0, ad, text) == frames@ + sealed(
                encryption_history(stream),
                ad,
                text.skip(at as int),
            ),
            opens_up_to(h0, ad, frames@, text.take(at as int), encryption_history(stream)),
        decreases plain@.len() - at,
    {
        let chunk: &[u8] = slice_subrange(&plain, at, at + STREAM_CHUNK_SIZE);
        let mut cipher: Vec<u8> = vec![0u8; MAX_SECRETSTREAM_FRAME_BYTES];
        let ghost history: Seq<Seq<u8>> = encryption_history(stream);
        let ghost before: Seq<u8> = frames@;
        match seal_frame(&mut stream, chunk, Some(mode_slice), &mut cipher) {
            Ok(_) => {},
            Err(_) => {
                wipe_vec_capacity(&mut plain);
                return Err(JdvrifError::StreamPush);
            },
        }
        push_be32(&mut frames, cipher.len() as u32);
        append(&mut frames, &cipher);
        let next: usize = at + STREAM_CHUNK_SIZE;
        proof {
            assert(frames@ =~= before + framed(cipher@));
            lemma_sealed_step(history, ad, text, at as int);
            assert(chunk@ == text.subrange(at as int, at + STREAM_CHUNK_SIZE));
            let rest = sealed(history.push(cipher@), ad, text.skip(next as int));
            assert(before + (framed(cipher@) + rest) =~= frames@ + rest);
            lemma_opens_one_more(
                h0,
                ad,
                before,
                text.take(at as int),
                history,
                cipher@,
                chunk@,
            );
            assert(text.take(at as int) + chunk@ =~= text.take(next as int));
            count = count + 1;
        }
        at = next;
    }
    let last_len: usize = plain.len() - at + SECRETSTREAM_OVERHEAD_BYTES;
    let chunk: &[u8] = slice_subrange(&plain, at, plain.len());
    let mut cipher: Vec<u8> = vec![0u8; last_len];
    let ghost history: Seq<Seq<u8>> = encryption_history(stream);
    let ghost before: Seq<u8> = frames@;
    match seal_final_frame(stream, chunk, Some(mode_slice), &mut cipher) {
        Ok(_) => {},
        Err(_) => {
            wipe_vec_capacity(&mut plain);
            return Err(JdvrifError::StreamPush);
        },
    }
    push_be32(&mut frames, cipher.len() as u32);
    append(&mut frames, &cipher);
    proof {
        assert(chunk@ =~= text.skip(at as int));
        assert(frames@ =~= before + framed(cipher@));
        lemma_opens_to_the_end(h0, ad, before, text.take(at as int), history, cipher@, chunk@);
        assert(text.take(at as int) + chunk@ =~= text);
        assert(frame_count(text.len() as int) == count + 1);
    }
    wipe_vec_capacity(&mut plain);
    Ok(frames)
}

/// Encrypts a prefix and the input behind it. The input has to be of the size
/// that it was announced with. Setting up the stream can fail for want of
/// protected memory.
pub fn encrypt_with_secretstream(
    data: &[u8],
    input_size: usize,
    prefix_plaintext: &[u8],
    authenticated_mode: u8,
    key: &[u8],
) -> (r: Result<EncryptedPayload, JdvrifError>)
    requires
        key@.len() == 32,
    ensures
        if input_size == 0 {
            r matches Err(e) && e is DataFileEmpty
        } else if prefix_plaintext@.len() + input_size > usize::MAX {
            r matches Err(e) && e is EncryptedSizeOverflow
        } else if data@.len() < input_size {
            r matches Err(e) && e is EncryptionInputShort
        } else if data@.len() > input_size {
            r matches Err(e) && e is EncryptionInputChanged
        } else {
            match r {
                Ok(payload) => payload.holds(
                    key@,
                    authenticated_mode,
                    prefix_plaintext@ + data@,
                ),
                Err(e) => e is StreamInit,
            }
        },
{
    if input_size == 0 {
        return Err(JdvrifError::DataFileEmpty);
    }
    if prefix_plaintext.len() > usize::MAX - input_size {
        return Err(JdvrifError::EncryptedSizeOverflow);
    }
    if data.len() < input_size {
        return Err(JdvrifError::EncryptionInputShort);
    }
    if data.len() > input_size {
        return Err(JdvrifError::EncryptionInputChanged);
    }
    let stream = match open_encryption(key) {
        Ok(stream) => stream,
        Err(_) => {
            return Err(JdvrifError::StreamInit);
        },
    };
    let header: [u8; 24] = encryption_header(&stream);
    assert(encryption_history(stream) =~= seq![key@, header@]);
    match encrypt_with_opened_stream(stream, data, prefix_plaintext, authenticated_mode) {
        Ok(frames) => Ok(EncryptedPayload { header, frames }),
        Err(e) => Err(e),
    }
}

} // verus!
