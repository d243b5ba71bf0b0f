//! The encrypted stream frame by frame, what its text says, and the envelope around
//! it.

use super::keys::long_number_at;
use crate::common::{be32_bytes, lemma_be32_roundtrip};
use crate::crypto::{secretstream_open, secretstream_seal};
use crate::decrypt::inflate::{inflate_decision, InflateVerdict};
use crate::decrypt::prefix::{has_empty_name, payload_of, prefixed_name, with_name};
use crate::decrypt::stream::{
    decrypt_outcome, next_frame, open_frames, DecryptStatus, OpenedFrames,
};
use crate::encrypt::{framed, sealed};
use crate::reddit::{envelope, figures_of, is_largest_payload, largest_payload, law_largest_payload};
use crate::runtime::JdvrifError;
use crate::zlib::{zlib_decode, InflateStatus};
use vstd::prelude::*;

verus! {

/// A frame is its length in four bytes, then as many bytes: at least the 17 of the
/// authentication, at most a mebibyte more.
pub open spec fn begins_with_frame(cipher: Seq<u8>, frame: Seq<u8>) -> bool {
    &&& 17 <= frame.len() <= 1048593
    &&& 4 + frame.len() <= cipher.len()
    &&& long_number_at(cipher, 0) == frame.len()
    &&& forall|i: int| 0 <= i < frame.len() ==> #[trigger] frame[i] == cipher[4 + i]
}

proof fn lemma_begins_with_frame(cipher: Seq<u8>, frame: Seq<u8>)
    requires
        begins_with_frame(cipher, frame),
    ensures
        next_frame(cipher) == Some(frame.len() as int),
        cipher.subrange(4, 4 + frame.len() as int) == frame,
{
    assert(cipher.subrange(4, 4 + frame.len() as int) =~= frame);
}

/// A ciphertext begins with a frame exactly when its length field can hold.
pub proof fn law_frame_lengths(cipher: Seq<u8>, n: int)
    ensures
        next_frame(cipher) == Some(n) <==> cipher.len() >= 4 && n == long_number_at(cipher, 0) && 17
            <= n <= 1048593 && 4 + n <= cipher.len(),
{
}

/// A frame with the final tag closes the ciphertext: its message is the text, and the
/// ciphertext is complete exactly when nothing follows.
pub proof fn law_final_frame(
    history: Seq<Seq<u8>>,
    ad: Option<Seq<u8>>,
    cipher: Seq<u8>,
    frame: Seq<u8>,
    message: Seq<u8>,
)
    requires
        begins_with_frame(cipher, frame),
        secretstream_open(history, frame, ad) == Some((message, 3u8)),
    ensures
        open_frames(history, ad, cipher).text == message,
        open_frames(history, ad, cipher).complete <==> cipher.len() == 4 + frame.len(),
{
    lemma_begins_with_frame(cipher, frame);
}

/// After any other frame the text goes on with what follows, which opens as the
/// continuation of the stream.
pub proof fn law_further_frames(
    history: Seq<Seq<u8>>,
    ad: Option<Seq<u8>>,
    cipher: Seq<u8>,
    frame: Seq<u8>,
    message: Seq<u8>,
    tag: u8,
)
    requires
        begins_with_frame(cipher, frame),
        secretstream_open(history, frame, ad) == Some((message, tag)),
        tag < 3,
    ensures
        ({
            let rest = open_frames(history.push(frame), ad, cipher.skip(4 + frame.len() as int));
            &&& open_frames(history, ad, cipher).text == message + rest.text
            &&& open_frames(history, ad, cipher).complete == rest.complete
        }),
{
    lemma_begins_with_frame(cipher, frame);
}

/// A frame that does not open, or with an unknown tag, ends the text without
/// completing it; so does what is too short for a frame.
pub proof fn law_broken_frames(
    history: Seq<Seq<u8>>,
    ad: Option<Seq<u8>>,
    cipher: Seq<u8>,
    frame: Seq<u8>,
)
    ensures
        begins_with_frame(cipher, frame) && secretstream_open(history, frame, ad) is None ==> {
            &&& open_frames(history, ad, cipher).text.len() == 0
            &&& !open_frames(history, ad, cipher).complete
        },
        begins_with_frame(cipher, frame) && (secretstream_open(history, frame, ad) matches Some(
            (_, tag),
        ) && tag > 3) ==> {
            &&& open_frames(history, ad, cipher).text.len() == 0
            &&& !open_frames(history, ad, cipher).complete
        },
        cipher.len() < 21 ==> {
            &&& open_frames(history, ad, cipher).text.len() == 0
            &&& !open_frames(history, ad, cipher).complete
        },
{
    if begins_with_frame(cipher, frame) {
        lemma_begins_with_frame(cipher, frame);
    }
}

/// What a text is encrypted to: a last frame of up to a mebibyte with the final tag,
/// behind full frames of a mebibyte with the ordinary one.
pub proof fn law_sealed_frames(history: Seq<Seq<u8>>, ad: Option<Seq<u8>>, text: Seq<u8>)
    ensures
        ({
            let s = sealed(history, ad, text);
            let last = secretstream_seal(history, text, ad, 3u8);
            let full = secretstream_seal(history, text.take(1048576), ad, 0u8);
            &&& text.len() <= 1048576 && last.len() <= u32::MAX ==> {
                &&& s.len() == 4 + last.len()
                &&& long_number_at(s, 0) == last.len()
                &&& s.skip(4) == last
            }
            &&& text.len() > 1048576 && full.len() <= u32::MAX ==> {
                &&& long_number_at(s, 0) == full.len()
                &&& s.subrange(4, 4 + full.len() as int) == full
                &&& s.skip(4 + full.len() as int) == sealed(
                    history.push(full),
                    ad,
                    text.skip(1048576),
                )
            }
        }),
{
    let s = sealed(history, ad, text);
    if text.len() <= 1048576 {
        let last = secretstream_seal(history, text, ad, 3u8);
        if last.len() <= u32::MAX {
            lemma_framed(last, Seq::empty());
            assert(framed(last) + Seq::<u8>::empty() =~= s);
            assert(s.skip(4) =~= last);
        }
    } else {
        let full = secretstream_seal(history, text.take(1048576), ad, 0u8);
        if full.len() <= u32::MAX {
            lemma_framed(full, sealed(history.push(full), ad, text.skip(1048576)));
        }
    }
}

proof fn lemma_framed(frame: Seq<u8>, tail: Seq<u8>)
    requires
        frame.len() <= u32::MAX,
    ensures
        ({
            let s = framed(frame) + tail;
            &&& long_number_at(s, 0) == frame.len()
            &&& s.subrange(4, 4 + frame.len() as int) == frame
            &&& s.skip(4 + frame.len() as int) == tail
        }),
{
    let s = framed(frame) + tail;
    let n = be32_bytes(frame.len() as int);
    lemma_be32_roundtrip(frame.len() as int);
    assert(s[0] == n[0] && s[1] == n[1] && s[2] == n[2] && s[3] == n[3]);
    assert(s.subrange(4, 4 + frame.len() as int) =~= frame);
    assert(s.skip(4 + frame.len() as int) =~= tail);
}

/// A text is the length of the name in one byte, the name, and the payload; it has no
/// name where that byte is zero, and is unfinished where the name is cut off.
pub proof fn law_names_in_texts(name: Seq<u8>, payload: Seq<u8>, text: Seq<u8>)
    requires
        1 <= name.len() <= 255,
        text == seq![name.len() as u8] + name + payload,
    ensures
        with_name(name, payload) == text,
        !has_empty_name(text),
        prefixed_name(text) == Some(name),
        payload_of(text) == payload,
        forall|n: int|
            0 <= n <= name.len() ==> prefixed_name(#[trigger] text.take(n)) is None,
        has_empty_name(seq![0u8] + payload),
        !has_empty_name(Seq::empty()),
{
    assert(text[0] == name.len());
    assert(text.subrange(1, 1 + name.len() as int) =~= name);
    assert(text.skip(1 + name.len() as int) =~= payload);
    assert((seq![0u8] + payload)[0] == 0);
}

/// A text that authenticated to its end is the file: its payload as it is, or what the
/// zlib stream holds.
pub proof fn law_decrypted_file(
    name: Seq<u8>,
    payload: Seq<u8>,
    text: Seq<u8>,
    compressed: bool,
    r: Result<DecryptStatus, JdvrifError>,
)
    requires
        1 <= name.len() <= 255,
        text == seq![name.len() as u8] + name + payload,
        decrypt_outcome(OpenedFrames { text, complete: true }, compressed, r),
    ensures
        !compressed && payload.len() > 0 ==> (r matches Ok(status) && status.is_file(name, payload)),
        !compressed && payload.len() == 0 ==> (r matches Err(e) && e is OutputEmpty),
        compressed ==> (zlib_decode(payload) matches Some(data) ==> {
            &&& 0 < data.len() <= 3221225472 ==> (r matches Ok(status) && status.is_file(name, data))
            &&& data.len() > 3221225472 ==> (r matches Err(e) && e is InflateOutputLimit)
            &&& data.len() == 0 ==> (r matches Err(e) && e is InflateOutputEmpty)
        }),
        compressed && zlib_decode(payload) is None ==> r is Err,
{
    law_names_in_texts(name, payload, text);
}

/// Nothing is given back of a text that did not authenticate to its end, nor of one
/// that breaks off within the name, nor of one without a name.
pub proof fn law_nothing_of_a_broken_text(
    opened: OpenedFrames,
    compressed: bool,
    r: Result<DecryptStatus, JdvrifError>,
)
    requires
        decrypt_outcome(opened, compressed, r),
        !opened.complete || opened.text.len() == 0 || opened.text[0] == 0 || opened.text.len()
            <= opened.text[0],
    ensures
        !(r matches Ok(status) && status is Success),
        opened.text.len() > 0 && opened.text[0] == 0 ==> (r matches Err(e) && e is CorruptFile),
        !compressed && !(opened.text.len() > 0 && opened.text[0] == 0) ==> (r matches Ok(status)
            && status is FailedPin),
        compressed && opened.text.len() <= 1 && !(opened.text.len() > 0 && opened.text[0] == 0) ==> (
        r matches Ok(status) && status is FailedPin),
{
}

/// A payload that breaks off within its zlib stream is refused as truncated, and one
/// that goes on behind it for what follows, unless the stream holds too much.
pub proof fn law_one_whole_stream(
    name: Seq<u8>,
    payload: Seq<u8>,
    text: Seq<u8>,
    stream: Seq<u8>,
    r: Result<DecryptStatus, JdvrifError>,
)
    requires
        1 <= name.len() <= 255,
        text == seq![name.len() as u8] + name + payload,
        zlib_decode(stream) is Some,
        zlib_decode(payload) is None,
        decrypt_outcome(OpenedFrames { text, complete: true }, true, r),
    ensures
        payload.len() < stream.len() && payload == stream.take(payload.len() as int)
            && zlib_decode(stream)->0.len() <= 3221225472 ==> (r matches Err(e)
            && e is InflateTruncated),
        stream.len() < payload.len() && stream == payload.take(stream.len() as int)
            && zlib_decode(stream)->0.len() <= 3221225472 ==> (r matches Err(e)
            && e is InflateTrailingData),
        stream.len() < payload.len() && stream == payload.take(stream.len() as int)
            && zlib_decode(stream)->0.len() > 3221225472 ==> (r matches Err(e)
            && e is InflateOutputLimit),
{
    law_names_in_texts(name, payload, text);
    if payload.len() < stream.len() && payload == stream.take(payload.len() as int) {
        assert(payload.is_prefix_of(stream));
        assert(crate::zlib::begin_alike(payload, stream));
    }
    if stream.len() < payload.len() && stream == payload.take(stream.len() as int) {
        assert(stream.is_prefix_of(payload));
        assert(crate::zlib::begin_alike(payload, stream));
        assert(crate::decrypt::inflate::begins_with_stream(payload));
    }
}

/// What to do after a step of decompression: too much output comes first, then what
/// follows the stream, then a step that led nowhere; there is more to come while the
/// two mebibytes of room are full.
pub proof fn law_inflate_steps(
    status: InflateStatus,
    consumed: int,
    produced: int,
    left: int,
    size: int,
    limit: int,
)
    requires
        0 <= consumed,
        0 <= produced,
        0 <= left,
    ensures
        ({
            let verdict = inflate_decision(status, consumed, produced, left, size, limit);
            &&& size + produced > limit ==> verdict == InflateVerdict::Failed(
                JdvrifError::InflateOutputLimit,
            )
            &&& size + produced <= limit && status is StreamEnd && left > 0 ==> verdict
                == InflateVerdict::Failed(JdvrifError::InflateTrailingData)
            &&& verdict is Ended <==> size + produced <= limit && status is StreamEnd && left == 0
            &&& size + produced <= limit && !(status is StreamEnd) ==> {
                &&& verdict == InflateVerdict::Failed(JdvrifError::InflateNoProgress) <==> consumed
                    == 0 && produced == 0 && left > 0
                &&& verdict is NeedInput <==> left == 0 && produced < 2097152
            }
        }),
{
}

/// The envelope of a carrier, in bytes: "JDVRIFR1", one where the payload is
/// compressed, three zeros, the size of the payload with the lowest byte first, the
/// metadata and the payload.
pub proof fn law_envelope_bytes(metadata: Seq<u8>, encrypted: Seq<u8>, compressed: bool)
    requires
        metadata.len() == 56,
        encrypted.len() <= u32::MAX,
    ensures
        ({
            let e = envelope(metadata, encrypted, compressed);
            &&& e.len() == 72 + encrypted.len()
            &&& e.take(8) == seq![0x4Au8, 0x44u8, 0x56u8, 0x52u8, 0x49u8, 0x46u8, 0x52u8, 0x31u8]
            &&& e[8] == (if compressed {
                1u8
            } else {
                0u8
            })
            &&& e[9] == 0 && e[10] == 0 && e[11] == 0
            &&& e[12] + e[13] * 256 + e[14] * 65536 + e[15] * 16777216 == encrypted.len()
            &&& e.subrange(16, 72) == metadata
            &&& e.skip(72) == encrypted
        }),
{
    let e = envelope(metadata, encrypted, compressed);
    let n = encrypted.len() as int;
    assert(e.take(8) =~= seq![0x4Au8, 0x44u8, 0x56u8, 0x52u8, 0x49u8, 0x46u8, 0x52u8, 0x31u8]);
    assert(e[12] == n % 256 && e[13] == n / 256 % 256 && e[14] == n / 65536 % 256 && e[15] == n
        / 16777216 % 256);
    assert(e.subrange(16, 72) =~= metadata);
    assert(e.skip(72) =~= encrypted);
}

/// The capacity of a cover in numbers: the conservative figure is the most that, with
/// a filename of twenty bytes, fits beside the 72 bytes of the header, the 21 of the
/// name, and 21 for every mebibyte begun; 1024 bytes less are recommended, where there
/// are more.
pub proof fn law_capacity_figures(capacity: usize, size: int)
    requires
        0 <= size,
    ensures
        ({
            let f = figures_of(capacity);
            &&& f.theoretical == capacity
            &&& capacity >= 114 ==> (size <= f.conservative <==> 72 + 21 + size + (21 + size
                + 1048575) / 1048576 * 21 <= capacity)
            &&& capacity < 114 ==> f.conservative == 0
            &&& f.recommended == f.conservative - (if f.conservative > 1024 {
                1024int
            } else {
                0
            })
        }),
{
    let largest = largest_payload(capacity as int);
    law_largest_payload(capacity as int, 0);
    assert(is_largest_payload(capacity as int, largest));
    assert(crate::reddit::payload_fits(capacity as int, 0) <==> capacity >= 114);
    assert(crate::reddit::payload_fits(capacity as int, size) <==> 72 + 21 + size + (21 + size
        + 1048575) / 1048576 * 21 <= capacity);
    if capacity >= 114 {
        assert(crate::reddit::payload_fits(capacity as int, largest));
        let a = 21 + size + 1048575;
        let b = 21 + largest + 1048575;
        assert(b / 1048576 >= 0);
        if size <= largest {
            assert(a / 1048576 <= b / 1048576);
        }
    }
}

} // verus!
