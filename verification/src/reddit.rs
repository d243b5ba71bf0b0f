//! The encrypted envelope that the Reddit carrier stores in the coefficients of
//! an image.

use crate::common::{append, le32_bytes, push_le32};
use crate::constants::{
    DATA_FILENAME_MAX_LENGTH, KDF_METADATA_REGION_BYTES, SECRETSTREAM_OVERHEAD_BYTES,
    STREAM_CHUNK_SIZE, STREAM_FRAME_LEN_BYTES,
};
use crate::decimal::{decimal_text, push_decimal_text};
use crate::encrypt::{encrypted_size, frame_count};
use crate::runtime::JdvrifError;
use vstd::prelude::*;
use vstd::string::*;

verus! {

/// "JDVRIFR1"
pub const REDDIT_ENVELOPE_MAGIC: [u8; 8] = [0x4A, 0x44, 0x56, 0x52, 0x49, 0x46, 0x52, 0x31];

pub const ENVELOPE_FLAG_COMPRESSED: u8 = 1;

pub const ENVELOPE_PREFIX_BYTES: usize = 16;

pub const REDDIT_ENVELOPE_HEADER_BYTES: usize = ENVELOPE_PREFIX_BYTES + KDF_METADATA_REGION_BYTES;

/// What the carrier hands back.
pub struct RedditEncryptedEnvelope {
    pub kdf_metadata: Vec<u8>,
    pub encrypted_data: Vec<u8>,
    pub is_compressed: bool,
}

pub fn envelope_size(encrypted_size: usize) -> (r: Result<usize, JdvrifError>)
    ensures
        r == (if REDDIT_ENVELOPE_HEADER_BYTES + encrypted_size <= usize::MAX {
            Ok((REDDIT_ENVELOPE_HEADER_BYTES + encrypted_size) as usize)
        } else {
            Err(JdvrifError::RedditEnvelopeOverflow)
        }),
        r matches Ok(size) ==> size == 72 + encrypted_size,
{
    match REDDIT_ENVELOPE_HEADER_BYTES.checked_add(encrypted_size) {
        Some(size) => Ok(size),
        None => Err(JdvrifError::RedditEnvelopeOverflow),
    }
}

/// Whether an envelope of the needed size goes into a cover of this capacity.
pub fn validate_carrier_capacity(needed: usize, capacity: usize) -> (r: Result<(), JdvrifError>)
    ensures
        r == (if needed <= capacity {
            Ok(())
        } else {
            Err(JdvrifError::CarrierCapacity { needed, capacity })
        }),
{
    if needed > capacity {
        return Err(JdvrifError::CarrierCapacity { needed, capacity });
    }
    Ok(())
}

/// The envelope: magic, flag, three reserved bytes, payload size, metadata,
/// payload.
pub open spec fn envelope(kdf_metadata: Seq<u8>, encrypted: Seq<u8>, compressed: bool) -> Seq<u8> {
    REDDIT_ENVELOPE_MAGIC@ + seq![
        if compressed {
            ENVELOPE_FLAG_COMPRESSED
        } else {
            0u8
        },
        0u8,
        0u8,
        0u8,
    ] + le32_bytes(encrypted.len() as int) + kdf_metadata + encrypted
}

pub fn make_envelope(kdf_metadata: &[u8], encrypted_data: &[u8], is_compressed: bool) -> (r: Result<
    Vec<u8>,
    JdvrifError,
>)
    ensures
        if kdf_metadata@.len() != KDF_METADATA_REGION_BYTES {
            r == Err::<Vec<u8>, JdvrifError>(JdvrifError::RedditKdfSize)
        } else if encrypted_data@.len() > u32::MAX {
            r == Err::<Vec<u8>, JdvrifError>(JdvrifError::RedditPayloadTooLarge)
        } else if REDDIT_ENVELOPE_HEADER_BYTES + encrypted_data@.len() > usize::MAX {
            r == Err::<Vec<u8>, JdvrifError>(JdvrifError::RedditEnvelopeOverflow)
        } else {
            r is Ok && r->Ok_0@ == envelope(kdf_metadata@, encrypted_data@, is_compressed)
        },
        r is Ok <==> kdf_metadata@.len() == 56 && encrypted_data@.len() <= u32::MAX && 72
            + encrypted_data@.len() <= usize::MAX,
        r is Ok ==> r->Ok_0@.len() == 72 + encrypted_data@.len(),
{
    if kdf_metadata.len() != KDF_METADATA_REGION_BYTES {
        return Err(JdvrifError::RedditKdfSize);
    }
    if encrypted_data.len() as u64 > u32::MAX as u64 {
        return Err(JdvrifError::RedditPayloadTooLarge);
    }
    match envelope_size(encrypted_data.len()) {
        Ok(_) => {},
        Err(e) => {
            return Err(e);
        },
    }
    let mut out: Vec<u8> = Vec::new();
    append(&mut out, &REDDIT_ENVELOPE_MAGIC);
    out.push(
        if is_compressed {
            ENVELOPE_FLAG_COMPRESSED
        } else {
            0
        },
    );
    out.push(0);
    out.push(0);
    out.push(0);
    push_le32(&mut out, encrypted_data.len() as u32);
    append(&mut out, kdf_metadata);
    append(&mut out, encrypted_data);
    assert(out@ =~= envelope(kdf_metadata@, encrypted_data@, is_compressed));
    Ok(out)
}

/// An envelope is its header and its payload, and tells them apart: the metadata
/// stands behind the prefix, the payload behind the metadata.
pub proof fn law_envelope_layout(kdf_metadata: Seq<u8>, encrypted: Seq<u8>, compressed: bool)
    requires
        kdf_metadata.len() == KDF_METADATA_REGION_BYTES,
    ensures
        envelope(kdf_metadata, encrypted, compressed).len() == REDDIT_ENVELOPE_HEADER_BYTES
            + encrypted.len(),
        envelope(kdf_metadata, encrypted, compressed).subrange(
            ENVELOPE_PREFIX_BYTES as int,
            REDDIT_ENVELOPE_HEADER_BYTES as int,
        ) == kdf_metadata,
        envelope(kdf_metadata, encrypted, compressed).skip(REDDIT_ENVELOPE_HEADER_BYTES as int)
            == encrypted,
        envelope(kdf_metadata, encrypted, compressed)[8] == (if compressed {
            1u8
        } else {
            0u8
        }),
{
    let e = envelope(kdf_metadata, encrypted, compressed);
    assert(e.subrange(16, 72) =~= kdf_metadata);
    assert(e.skip(72) =~= encrypted);
}

/// Filename, encryption and recovery metadata together take 95 to 114 bytes of
/// an envelope whose payload fits into a single frame.
pub proof fn law_single_frame_overhead(name_len: int, data_len: int)
    requires
        1 <= name_len <= 20,
        0 < data_len,
        1 + name_len + data_len <= STREAM_CHUNK_SIZE,
    ensures
        REDDIT_ENVELOPE_HEADER_BYTES + encrypted_size(1 + name_len + data_len) - data_len == 94
            + name_len,
        95 <= 94 + name_len <= 114,
{
}

/// How far below the limit a payload is best kept.
pub const CAPACITY_MARGIN: usize = 1024;

/// The length byte and a filename of full length.
pub const FULL_PREFIX_BYTES: usize = 1 + DATA_FILENAME_MAX_LENGTH;

/// How much a cover can carry: an envelope, the payload of one with a filename
/// of full length, and what is recommended of that.
#[derive(Clone, Copy, PartialEq, Eq, Structural, Debug)]
pub struct CapacityFigures {
    pub theoretical: usize,
    pub conservative: usize,
    pub recommended: usize,
}

/// A payload of this size, with a filename of full length, makes an envelope that
/// the cover can carry.
pub open spec fn payload_fits(capacity: int, size: int) -> bool {
    REDDIT_ENVELOPE_HEADER_BYTES + encrypted_size(FULL_PREFIX_BYTES + size) <= capacity
}

/// The largest payload that fits; zero where none does.
pub open spec fn is_largest_payload(capacity: int, size: int) -> bool {
    if payload_fits(capacity, 0) {
        &&& 0 <= size
        &&& payload_fits(capacity, size)
        &&& forall|larger: int| size < larger ==> !#[trigger] payload_fits(capacity, larger)
    } else {
        size == 0
    }
}

pub open spec fn largest_payload(capacity: int) -> int {
    choose|size: int| is_largest_payload(capacity, size)
}

/// The figures of a capacity; the margin is kept where the capacity allows.
pub open spec fn figures_of(capacity: usize) -> CapacityFigures {
    let conservative = largest_payload(capacity as int);
    CapacityFigures {
        theoretical: capacity,
        conservative: conservative as usize,
        recommended: (if conservative > CAPACITY_MARGIN {
            conservative - CAPACITY_MARGIN
        } else {
            conservative
        }) as usize,
    }
}

/// So many frames it takes, with the last one not empty.
proof fn lemma_frame_count(total: int, count: int)
    requires
        (count - 1) * 1048576 < total <= count * 1048576,
    ensures
        frame_count(total) == count,
{
    let x = total + 1048575;
    assert(x / 1048576 == count) by (nonlinear_arith)
        requires
            count * 1048576 <= x < (count + 1) * 1048576,
    ;
}

/// More text takes more room.
proof fn lemma_encrypted_size_grows(shorter: int, longer: int)
    requires
        0 <= shorter < longer,
    ensures
        encrypted_size(shorter) < encrypted_size(longer),
{
    let a = shorter + 1048575;
    let b = longer + 1048575;
    assert(a / 1048576 <= b / 1048576) by (nonlinear_arith)
        requires
            a <= b,
    ;
}

/// How much text goes into a room: full frames, and what is left beside the
/// overhead of one more.
spec fn text_for(room: int) -> int {
    let per_frame = STREAM_CHUNK_SIZE + SECRETSTREAM_OVERHEAD_BYTES + STREAM_FRAME_LEN_BYTES;
    let overhead = SECRETSTREAM_OVERHEAD_BYTES + STREAM_FRAME_LEN_BYTES;
    let rest = room % per_frame;
    room / per_frame * STREAM_CHUNK_SIZE + if rest > overhead {
        rest - overhead
    } else {
        0
    }
}

proof fn lemma_text_for(room: int)
    requires
        0 <= room,
    ensures
        0 <= text_for(room) <= room,
        encrypted_size(text_for(room)) <= room,
        encrypted_size(text_for(room) + 1) > room,
{
    let q = room / 1048597;
    let rest = room % 1048597;
    let t = text_for(room);
    assert(room == q * 1048597 + rest && 0 <= q && 0 <= rest < 1048597);
    if rest > 21 {
        assert(t == q * 1048576 + rest - 21);
        lemma_frame_count(t, q + 1);
        lemma_frame_count(t + 1, q + 1);
    } else {
        assert(t == q * 1048576);
        assert((q - 1) * 1048576 == q * 1048576 - 1048576) by (nonlinear_arith);
        lemma_frame_count(t, q);
        lemma_frame_count(t + 1, q + 1);
    }
}

/// There is one largest payload, and no other.
pub proof fn law_largest_payload(capacity: int, size: int)
    ensures
        is_largest_payload(capacity, largest_payload(capacity)),
        is_largest_payload(capacity, size) ==> size == largest_payload(capacity),
{
    let room = capacity - REDDIT_ENVELOPE_HEADER_BYTES;
    if payload_fits(capacity, 0) {
        lemma_text_for(room);
        let n = text_for(room) - FULL_PREFIX_BYTES;
        if n < 0 {
            if text_for(room) + 1 < FULL_PREFIX_BYTES {
                lemma_encrypted_size_grows(text_for(room) + 1, FULL_PREFIX_BYTES as int);
            }
            assert(!payload_fits(capacity, 0));
        }
        assert forall|larger: int| n < larger implies !#[trigger] payload_fits(capacity, larger) by {
            if n + 1 < larger {
                lemma_encrypted_size_grows(text_for(room) + 1, FULL_PREFIX_BYTES + larger);
            }
        }
        assert(is_largest_payload(capacity, n));
    } else {
        assert(is_largest_payload(capacity, 0));
    }
    let largest = largest_payload(capacity);
    if is_largest_payload(capacity, size) && size != largest {
        assert(payload_fits(capacity, size) || !payload_fits(capacity, 0));
        assert(payload_fits(capacity, largest) || !payload_fits(capacity, 0));
    }
}

pub fn capacity_figures(payload_capacity: usize) -> (r: CapacityFigures)
    ensures
        r == figures_of(payload_capacity),
        is_largest_payload(payload_capacity as int, r.conservative as int),
{
    let conservative: usize = largest_payload_for(payload_capacity);
    let recommended: usize = if conservative > CAPACITY_MARGIN {
        conservative - CAPACITY_MARGIN
    } else {
        conservative
    };
    CapacityFigures { theoretical: payload_capacity, conservative, recommended }
}

fn largest_payload_for(capacity: usize) -> (r: usize)
    ensures
        r == largest_payload(capacity as int),
        is_largest_payload(capacity as int, r as int),
{
    let overhead: usize = SECRETSTREAM_OVERHEAD_BYTES + STREAM_FRAME_LEN_BYTES;
    let per_frame: usize = STREAM_CHUNK_SIZE + overhead;
    let ghost room: int = capacity - REDDIT_ENVELOPE_HEADER_BYTES;
    proof {
        law_largest_payload(capacity as int, 0);
        law_largest_payload(capacity as int, text_for(room) - FULL_PREFIX_BYTES);
        assert(encrypted_size(FULL_PREFIX_BYTES as int) == FULL_PREFIX_BYTES + 21);
    }
    if capacity < REDDIT_ENVELOPE_HEADER_BYTES {
        return 0;
    }
    let left: usize = capacity - REDDIT_ENVELOPE_HEADER_BYTES;
    let rest: usize = left % per_frame;
    proof {
        lemma_text_for(room);
        assert(left / per_frame * 1048576 <= left) by (nonlinear_arith)
            requires
                per_frame == 1048597,
        ;
    }
    let text: usize = left / per_frame * STREAM_CHUNK_SIZE + if rest > overhead {
        rest - overhead
    } else {
        0
    };
    assert(text == text_for(room));
    if text < FULL_PREFIX_BYTES {
        proof {
            if text + 1 < FULL_PREFIX_BYTES {
                lemma_encrypted_size_grows(text + 1, FULL_PREFIX_BYTES as int);
            }
        }
        return 0;
    }
    proof {
        if text > FULL_PREFIX_BYTES {
            lemma_encrypted_size_grows(FULL_PREFIX_BYTES as int, text as int);
        }
        let n = text - FULL_PREFIX_BYTES;
        assert forall|larger: int| n < larger implies !#[trigger] payload_fits(
            capacity as int,
            larger,
        ) by {
            if n + 1 < larger {
                lemma_encrypted_size_grows(text + 1, FULL_PREFIX_BYTES + larger);
            }
        }
        assert(is_largest_payload(capacity as int, n));
    }
    text - FULL_PREFIX_BYTES
}

/// Whatever its filename, a payload up to the conservative figure makes an envelope
/// that the cover can carry; a larger one with a filename of full length does not.
pub proof fn law_conservative_capacity_fits(capacity: usize, name_len: int, data_len: int)
    requires
        1 <= name_len <= DATA_FILENAME_MAX_LENGTH,
        0 < data_len,
    ensures
        data_len <= largest_payload(capacity as int) ==> REDDIT_ENVELOPE_HEADER_BYTES
            + encrypted_size(1 + name_len + data_len) <= capacity,
        name_len == DATA_FILENAME_MAX_LENGTH && data_len > largest_payload(capacity as int)
            ==> REDDIT_ENVELOPE_HEADER_BYTES + encrypted_size(1 + name_len + data_len) > capacity,
{
    let largest = largest_payload(capacity as int);
    law_largest_payload(capacity as int, 0);
    if data_len <= largest {
        if name_len < DATA_FILENAME_MAX_LENGTH || data_len < largest {
            lemma_encrypted_size_grows(1 + name_len + data_len, FULL_PREFIX_BYTES + largest);
        }
    } else {
        assert(payload_fits(capacity as int, data_len) == (REDDIT_ENVELOPE_HEADER_BYTES
            + encrypted_size(FULL_PREFIX_BYTES + data_len) <= capacity));
        lemma_encrypted_size_grows(FULL_PREFIX_BYTES as int, FULL_PREFIX_BYTES + data_len);
    }
}

/// A size in bytes and in whole kibibytes.
pub open spec fn size_text(size: usize) -> Seq<char> {
    decimal_text(size as nat) + " bytes (~"@ + decimal_text((size / 1024) as nat) + "KiB).\n"@
}

fn push_size_text(out: &mut String, size: usize)
    ensures
        final(out)@ == old(out)@ + size_text(size),
{
    push_decimal_text(out, size as u64);
    out.append(" bytes (~");
    push_decimal_text(out, (size / 1024) as u64);
    out.append("KiB).\n");
    assert(out@ =~= old(out)@ + size_text(size));
}

/// The report of a capacity check.
pub open spec fn capacity_report(capacity: usize) -> Seq<char> {
    let figures = figures_of(capacity);
    "Theoretical C3 capacity limit for this cover image:                    "@ + size_text(
        figures.theoretical,
    ) + "Conservative maximum compressed capacity with a 20-character filename: "@ + size_text(
        figures.conservative,
    ) + "Recommended  maximum compressed capacity with a 20-character filename: "@ + size_text(
        figures.recommended,
    )
}

pub fn capacity_report_text(payload_capacity: usize) -> (r: String)
    ensures
        r@ == capacity_report(payload_capacity),
{
    let figures: CapacityFigures = capacity_figures(payload_capacity);
    let mut out: String =
        "Theoretical C3 capacity limit for this cover image:                    ".to_owned();
    push_size_text(&mut out, figures.theoretical);
    out.append("Conservative maximum compressed capacity with a 20-character filename: ");
    push_size_text(&mut out, figures.conservative);
    out.append("Recommended  maximum compressed capacity with a 20-character filename: ");
    push_size_text(&mut out, figures.recommended);
    out
}

} // verus!
