//! Taking the ciphertext out of an image.

use crate::base64::{base64_before, decode_base64_until_delimiter};
use crate::common::{
    append, append_range, be16, first_match, is_first_match, lemma_first_match, matches_at,
    occurs_at, read_be16, search_sig,
};
use crate::constants::MAX_DATA_SIZE_BLUESKY;
use crate::runtime::JdvrifError;
use crate::scan::{find_signature_in_file, is_match_in_file, scanned_part};
use vstd::prelude::*;
use vstd::slice::slice_subrange;

verus! {

pub const BLUESKY_ENCRYPTED_FILE_START_INDEX: usize = 0x1D1;

pub const BLUESKY_EXIF_SEGMENT_DATA_SIZE: usize = 65027;

pub const BLUESKY_FIRST_DATASET_SIZE_LIMIT: usize = 32767;

pub const BLUESKY_LAST_DATASET_SIZE_LIMIT: usize = 32730;

pub const BLUESKY_XMP_SEGMENT_SIZE_LIMIT: usize = 60033;

pub const BLUESKY_XMP_FOOTER_SIZE: usize = 92;

pub const BLUESKY_XMP_BASE64_MAX_SCAN_BYTES: usize = 128 * 1024;

pub const BLUESKY_PHOTOSHOP_SEARCH_WINDOW: usize = BLUESKY_XMP_SEGMENT_SIZE_LIMIT + 128 * 1024;

pub const BLUESKY_EXIF_MARKER_SEARCH_LIMIT: usize = 100;

pub const BLUESKY_PHOTOSHOP_SIG_TO_APP13: usize = 9;

pub const BLUESKY_DATASET_MAX_SIZE: usize = 32800;

pub const BLUESKY_BASE64_END: u8 = 0x3C;

pub const JPEG_EXIF_MARKER: [u8; 2] = [0xFF, 0xE1];

pub const JPEG_APP13_MARKER: [u8; 2] = [0xFF, 0xED];

pub const JPEG_APP2_MARKER: [u8; 2] = [0xFF, 0xE2];

pub const BLUESKY_PHOTOSHOP_SIGNATURE: [u8; 7] = [0x73, 0x68, 0x6F, 0x70, 0x20, 0x33, 0x2E];

pub const BLUESKY_XMP_CREATOR_SIGNATURE: [u8; 7] = [0x3C, 0x72, 0x64, 0x66, 0x3A, 0x6C, 0x69];

/// Where the ciphertext begins in a default image, counted from the profile.
pub const ENCRYPTED_FILE_START_INDEX: usize = 0x33B;

/// How much of the ciphertext stands in front of the first profile header.
pub const FIRST_PROFILE_HEADER_INDEX: usize = 0xFCB0;

pub const PROFILE_HEADER_LENGTH: usize = 18;

/// The distance from one profile header to the next.
pub const PROFILE_HEADER_DISTANCE: usize = 65537;

fn checked_add_corrupt(a: usize, b: usize) -> (r: Result<usize, JdvrifError>)
    ensures
        r == (if a + b <= usize::MAX {
            Ok((a + b) as usize)
        } else {
            Err(JdvrifError::CorruptFile)
        }),
{
    match a.checked_add(b) {
        Some(v) => Ok(v),
        None => Err(JdvrifError::CorruptFile),
    }
}

/// How much ciphertext the segments of a Bluesky image hold, where the XMP
/// template leaves any room.
pub open spec fn bluesky_capacity(xmp_template_len: int) -> Option<int> {
    let overhead = xmp_template_len + BLUESKY_XMP_FOOTER_SIZE;
    if overhead >= BLUESKY_XMP_SEGMENT_SIZE_LIMIT {
        None
    } else {
        Some(
            BLUESKY_EXIF_SEGMENT_DATA_SIZE + BLUESKY_FIRST_DATASET_SIZE_LIMIT
                + BLUESKY_LAST_DATASET_SIZE_LIMIT + (BLUESKY_XMP_SEGMENT_SIZE_LIMIT - overhead) / 4
                * 3,
        )
    }
}

pub fn max_bluesky_embedded_cipher_capacity(xmp_template_len: usize) -> (r: Result<
    usize,
    JdvrifError,
>)
    ensures
        match bluesky_capacity(xmp_template_len as int) {
            Some(capacity) => r is Ok && r->Ok_0 == capacity,
            None => r == Err::<usize, JdvrifError>(JdvrifError::CorruptFile),
        },
{
    let xmp_overhead: usize = match checked_add_corrupt(xmp_template_len, BLUESKY_XMP_FOOTER_SIZE) {
        Ok(v) => v,
        Err(e) => {
            return Err(e);
        },
    };
    if xmp_overhead >= BLUESKY_XMP_SEGMENT_SIZE_LIMIT {
        return Err(JdvrifError::CorruptFile);
    }
    let max_xmp_base64: usize = BLUESKY_XMP_SEGMENT_SIZE_LIMIT - xmp_overhead;
    let max_xmp_binary: usize = max_xmp_base64 / 4 * 3;
    Ok(
        BLUESKY_EXIF_SEGMENT_DATA_SIZE + BLUESKY_FIRST_DATASET_SIZE_LIMIT
            + BLUESKY_LAST_DATASET_SIZE_LIMIT + max_xmp_binary,
    )
}

/// The largest ciphertext of a Bluesky image.
pub open spec fn bluesky_payload_limit(xmp_template_len: int) -> Option<int> {
    match bluesky_capacity(xmp_template_len) {
        Some(capacity) => Some(
            if capacity < MAX_DATA_SIZE_BLUESKY {
                capacity
            } else {
                MAX_DATA_SIZE_BLUESKY as int
            },
        ),
        None => None,
    }
}

pub fn max_bluesky_payload(xmp_template_len: usize) -> (r: Result<usize, JdvrifError>)
    ensures
        match bluesky_payload_limit(xmp_template_len as int) {
            Some(limit) => r is Ok && r->Ok_0 == limit,
            None => r == Err::<usize, JdvrifError>(JdvrifError::CorruptFile),
        },
{
    match max_bluesky_embedded_cipher_capacity(xmp_template_len) {
        Ok(capacity) => Ok(
            if capacity < MAX_DATA_SIZE_BLUESKY {
                capacity
            } else {
                MAX_DATA_SIZE_BLUESKY
            },
        ),
        Err(e) => Err(e),
    }
}

/// The beginning of the metadata, in which the EXIF marker is looked for.
pub open spec fn exif_header(metadata: Seq<u8>) -> Seq<u8> {
    if metadata.len() < BLUESKY_EXIF_MARKER_SEARCH_LIMIT {
        metadata
    } else {
        metadata.take(BLUESKY_EXIF_MARKER_SEARCH_LIMIT as int)
    }
}

/// Where the EXIF segment ends, by the length that it declares.
pub open spec fn exif_end(metadata: Seq<u8>) -> Option<int> {
    match first_match(exif_header(metadata), JPEG_EXIF_MARKER@, 0) {
        Some(i) => if metadata.len() - i < 4 || be16(metadata, i + 2) < 2 {
            None
        } else {
            Some(i + 2 + be16(metadata, i + 2))
        },
        None => None,
    }
}

/// The EXIF segment has room for its share of a ciphertext of this size, and the
/// image as a whole for all of it.
pub open spec fn exif_has_room(metadata: Seq<u8>, size: int, xmp_template_len: int) -> bool {
    match (exif_end(metadata), bluesky_payload_limit(xmp_template_len)) {
        (Some(end), Some(limit)) => {
            &&& BLUESKY_ENCRYPTED_FILE_START_INDEX < end
            &&& size <= limit
            &&& if size <= BLUESKY_EXIF_SEGMENT_DATA_SIZE {
                size <= end - BLUESKY_ENCRYPTED_FILE_START_INDEX
            } else {
                BLUESKY_EXIF_SEGMENT_DATA_SIZE <= end - BLUESKY_ENCRYPTED_FILE_START_INDEX
            }
        },
        _ => false,
    }
}

/// Where the EXIF segment ends, by the length that it declares.
fn find_exif_end(metadata: &[u8]) -> (r: Option<usize>)
    ensures
        match exif_end(metadata@) {
            Some(end) => r is Some && r->0 == end,
            None => r is None,
        },
{
    let header_size: usize = if metadata.len() < BLUESKY_EXIF_MARKER_SEARCH_LIMIT {
        metadata.len()
    } else {
        BLUESKY_EXIF_MARKER_SEARCH_LIMIT
    };
    let header: &[u8] = slice_subrange(metadata, 0, header_size);
    assert(header@ =~= exif_header(metadata@));
    let found: Option<usize> = search_sig(header, &JPEG_EXIF_MARKER);
    proof {
        lemma_first_match(header@, JPEG_EXIF_MARKER@, 0, found);
    }
    match found {
        None => None,
        Some(i) => {
            if metadata.len() - i < 4 {
                return None;
            }
            let exif_segment_size: usize = read_be16(metadata, i + 2) as usize;
            if exif_segment_size < 2 {
                return None;
            }
            Some(i + 2 + exif_segment_size)
        },
    }
}

pub fn validate_bluesky_exif_metadata_capacity(
    metadata: &[u8],
    embedded_file_size: usize,
    xmp_template_len: usize,
) -> (r: Result<(), JdvrifError>)
    ensures
        r == (if exif_has_room(metadata@, embedded_file_size as int, xmp_template_len as int) {
            Ok(())
        } else {
            Err(JdvrifError::CorruptFile)
        }),
{
    let end: usize = match find_exif_end(metadata) {
        Some(end) => end,
        None => {
            return Err(JdvrifError::CorruptFile);
        },
    };
    if BLUESKY_ENCRYPTED_FILE_START_INDEX >= end {
        return Err(JdvrifError::CorruptFile);
    }
    let available_exif_payload: usize = end - BLUESKY_ENCRYPTED_FILE_START_INDEX;
    let max_capacity: usize = match max_bluesky_payload(xmp_template_len) {
        Ok(v) => v,
        Err(e) => {
            return Err(e);
        },
    };
    if embedded_file_size > max_capacity {
        return Err(JdvrifError::CorruptFile);
    }
    if embedded_file_size <= BLUESKY_EXIF_SEGMENT_DATA_SIZE {
        if embedded_file_size > available_exif_payload {
            return Err(JdvrifError::CorruptFile);
        }
    } else if available_exif_payload < BLUESKY_EXIF_SEGMENT_DATA_SIZE {
        return Err(JdvrifError::CorruptFile);
    }
    Ok(())
}

/// The EXIF segment has room for its share of the ciphertext and lies inside the
/// image.
pub open spec fn exif_fits(image: Seq<u8>, size: int, xmp_template_len: int) -> bool {
    exif_has_room(exif_header(image), size, xmp_template_len) && exif_end(exif_header(image))->0
        <= image.len()
}

pub fn validate_bluesky_exif_capacity(
    image: &[u8],
    embedded_file_size: usize,
    xmp_template_len: usize,
) -> (r: Result<(), JdvrifError>)
    ensures
        r == (if exif_fits(image@, embedded_file_size as int, xmp_template_len as int) {
            Ok(())
        } else {
            Err(JdvrifError::CorruptFile)
        }),
{
    let header_size: usize = if image.len() < BLUESKY_EXIF_MARKER_SEARCH_LIMIT {
        image.len()
    } else {
        BLUESKY_EXIF_MARKER_SEARCH_LIMIT
    };
    let header: &[u8] = slice_subrange(image, 0, header_size);
    assert(header@ =~= exif_header(image@));
    match validate_bluesky_exif_metadata_capacity(header, embedded_file_size, xmp_template_len) {
        Ok(_) => {},
        Err(e) => {
            return Err(e);
        },
    }
    match find_exif_end(header) {
        Some(end) => {
            if end > image.len() {
                return Err(JdvrifError::CorruptFile);
            }
            Ok(())
        },
        None => Err(JdvrifError::CorruptFile),
    }
}

/// Where in a file the first match of a scan stands.
pub open spec fn match_in_file(
    file: Seq<u8>,
    sig: Seq<u8>,
    search_limit: int,
    start: int,
) -> Option<int> {
    match first_match(scanned_part(file, search_limit, start), sig, 0) {
        Some(i) => Some(start + i),
        None => None,
    }
}

/// What a scan finds is the first match in the scanned part.
pub proof fn lemma_match_in_file(
    file: Seq<u8>,
    sig: Seq<u8>,
    search_limit: int,
    start: int,
    r: Option<usize>,
)
    requires
        sig.len() > 0,
        0 <= start,
        is_match_in_file(file, sig, search_limit, start, r),
    ensures
        match_in_file(file, sig, search_limit, start) == match r {
            Some(i) => Some(i as int),
            None => None,
        },
{
    let part = scanned_part(file, search_limit, start);
    let rel = match r {
        Some(i) => Some((i - start) as usize),
        None => None,
    };
    assert(is_first_match(part, sig, 0, rel));
    lemma_first_match(part, sig, 0, rel);
}

/// The Photoshop signature behind the EXIF ciphertext: the first hit in the
/// search window, which has to be framed by its segment marker.
pub open spec fn photoshop_index(image: Seq<u8>, exif_chunk_size: int) -> Option<int> {
    let start = BLUESKY_ENCRYPTED_FILE_START_INDEX + exif_chunk_size;
    if start >= image.len() {
        None
    } else {
        let end = if start + BLUESKY_PHOTOSHOP_SEARCH_WINDOW < image.len() {
            start + BLUESKY_PHOTOSHOP_SEARCH_WINDOW
        } else {
            image.len() as int
        };
        match match_in_file(image, BLUESKY_PHOTOSHOP_SIGNATURE@, end, start) {
            Some(i) => if occurs_at(
                image,
                JPEG_APP13_MARKER@,
                i - BLUESKY_PHOTOSHOP_SIG_TO_APP13,
            ) {
                Some(i)
            } else {
                None
            },
            None => None,
        }
    }
}

/// Does not look into the EXIF ciphertext for a coincidental or injected
/// signature.
pub fn find_bluesky_photoshop_signature(image: &[u8], exif_chunk_size: usize) -> (r: Result<
    usize,
    JdvrifError,
>)
    ensures
        match photoshop_index(image@, exif_chunk_size as int) {
            Some(i) => r is Ok && r->Ok_0 == i,
            None => r == Err::<usize, JdvrifError>(JdvrifError::CorruptFile),
        },
{
    let image_size: usize = image.len();
    let search_start: usize = match checked_add_corrupt(
        BLUESKY_ENCRYPTED_FILE_START_INDEX,
        exif_chunk_size,
    ) {
        Ok(v) => v,
        Err(e) => {
            return Err(e);
        },
    };
    if search_start >= image_size {
        return Err(JdvrifError::CorruptFile);
    }
    let search_end: usize = if image_size - search_start > BLUESKY_PHOTOSHOP_SEARCH_WINDOW {
        search_start + BLUESKY_PHOTOSHOP_SEARCH_WINDOW
    } else {
        image_size
    };
    let found: Option<usize> = find_signature_in_file(
        image,
        &BLUESKY_PHOTOSHOP_SIGNATURE,
        search_end,
        search_start,
    );
    proof {
        lemma_match_in_file(
            image@,
            BLUESKY_PHOTOSHOP_SIGNATURE@,
            search_end as int,
            search_start as int,
            found,
        );
    }
    match found {
        None => Err(JdvrifError::CorruptFile),
        Some(sig_index) => {
            let app13_index: usize = sig_index - BLUESKY_PHOTOSHOP_SIG_TO_APP13;
            if !matches_at(image, &JPEG_APP13_MARKER, app13_index) {
                return Err(JdvrifError::CorruptFile);
            }
            Ok(sig_index)
        },
    }
}

/// The XMP signature, which has to stand in front of the Photoshop segment.
pub open spec fn xmp_index(image: Seq<u8>, start: int, photoshop_segment: int) -> Option<int> {
    if start >= photoshop_segment {
        None
    } else {
        match_in_file(image, BLUESKY_XMP_CREATOR_SIGNATURE@, photoshop_segment, start)
    }
}

pub fn find_bluesky_xmp_signature(
    image: &[u8],
    search_start: usize,
    photoshop_segment_size_index: usize,
) -> (r: Result<usize, JdvrifError>)
    ensures
        match xmp_index(image@, search_start as int, photoshop_segment_size_index as int) {
            Some(i) => r is Ok && r->Ok_0 == i,
            None => r == Err::<usize, JdvrifError>(JdvrifError::CorruptFile),
        },
{
    if search_start >= photoshop_segment_size_index {
        return Err(JdvrifError::CorruptFile);
    }
    let found: Option<usize> = find_signature_in_file(
        image,
        &BLUESKY_XMP_CREATOR_SIGNATURE,
        photoshop_segment_size_index,
        search_start,
    );
    proof {
        lemma_match_in_file(
            image@,
            BLUESKY_XMP_CREATOR_SIGNATURE@,
            photoshop_segment_size_index as int,
            search_start as int,
            found,
        );
    }
    match found {
        Some(i) => Ok(i),
        None => Err(JdvrifError::CorruptFile),
    }
}

/// A ciphertext with the profile headers that cut through it taken out: the
/// first stands `gap` bytes from the beginning.
pub open spec fn without_profile_headers(s: Seq<u8>, gap: int) -> Seq<u8>
    decreases s.len(),
{
    if gap < 0 || s.len() <= gap {
        s
    } else if s.len() <= gap + PROFILE_HEADER_LENGTH {
        s.take(gap)
    } else {
        s.take(gap) + without_profile_headers(
            s.skip(gap + PROFILE_HEADER_LENGTH),
            PROFILE_HEADER_DISTANCE - PROFILE_HEADER_LENGTH,
        )
    }
}

/// A ciphertext with profile headers put in where they cut through it.
pub open spec fn with_profile_headers(s: Seq<u8>, headers: Seq<Seq<u8>>, gap: int) -> Seq<u8>
    decreases headers.len(),
{
    if s.len() <= gap || headers.len() == 0 {
        s
    } else {
        s.take(gap) + headers[0] + with_profile_headers(
            s.skip(gap),
            headers.skip(1),
            PROFILE_HEADER_DISTANCE - PROFILE_HEADER_LENGTH,
        )
    }
}

/// Taking the profile headers out undoes putting them in, whatever they hold.
pub proof fn law_profile_headers_come_out(s: Seq<u8>, headers: Seq<Seq<u8>>, gap: int)
    requires
        0 <= gap,
        s.len() <= gap + headers.len() * (PROFILE_HEADER_DISTANCE - PROFILE_HEADER_LENGTH),
        forall|i: int|
            0 <= i < headers.len() ==> (#[trigger] headers[i]).len() == PROFILE_HEADER_LENGTH,
    ensures
        without_profile_headers(with_profile_headers(s, headers, gap), gap) == s,
    decreases headers.len(),
{
    if s.len() > gap {
        let step = PROFILE_HEADER_DISTANCE - PROFILE_HEADER_LENGTH;
        assert(headers.len() > 0) by {
            if headers.len() == 0 {
                assert(headers.len() * step == 0) by (nonlinear_arith)
                    requires
                        headers.len() == 0,
                ;
            }
        }
        let t = s.skip(gap);
        let rest = headers.skip(1);
        assert(headers.len() * step == step + rest.len() * step) by (nonlinear_arith)
            requires
                headers.len() == rest.len() + 1,
        ;
        assert forall|i: int| 0 <= i < rest.len() implies (#[trigger] rest[i]).len()
            == PROFILE_HEADER_LENGTH by {
            assert(rest[i] == headers[i + 1]);
        }
        law_profile_headers_come_out(t, rest, step);
        let inner = with_profile_headers(t, rest, step);
        let all = with_profile_headers(s, headers, gap);
        assert(headers[0].len() == PROFILE_HEADER_LENGTH);
        assert(all =~= s.take(gap) + headers[0] + inner);
        assert(all.take(gap) =~= s.take(gap));
        assert(all.skip(gap + PROFILE_HEADER_LENGTH) =~= inner);
        lemma_headers_grow(t, rest, step);
        assert(s =~= s.take(gap) + t);
    }
}

/// The headers only make it longer.
pub proof fn lemma_headers_grow(s: Seq<u8>, headers: Seq<Seq<u8>>, gap: int)
    requires
        0 <= gap,
    ensures
        with_profile_headers(s, headers, gap).len() >= s.len(),
    decreases headers.len(),
{
    if s.len() > gap && headers.len() > 0 {
        lemma_headers_grow(
            s.skip(gap),
            headers.skip(1),
            PROFILE_HEADER_DISTANCE - PROFILE_HEADER_LENGTH,
        );
    }
}

/// The marker of the last segment stands where the number of segments puts it.
pub open spec fn segments_error(image: Seq<u8>, base: int, segments: int) -> Option<JdvrifError> {
    let at = (segments - 1) * PROFILE_HEADER_DISTANCE - 0x16;
    if segments == 0 {
        None
    } else if at < 0 || at + 2 > image.len() - base {
        Some(JdvrifError::CorruptFile)
    } else if !occurs_at(image, JPEG_APP2_MARKER@, base + at) {
        Some(JdvrifError::MissingSegments)
    } else {
        None
    }
}

/// The ciphertext of a default image.
pub open spec fn default_ciphertext(
    image: Seq<u8>,
    base: int,
    size: int,
    segments: int,
) -> Result<Seq<u8>, JdvrifError> {
    let start = base + ENCRYPTED_FILE_START_INDEX;
    if start + size > image.len() {
        Err(JdvrifError::CorruptFile)
    } else {
        match segments_error(image, base, segments) {
            Some(e) => Err(e),
            None => {
                let stored = image.subrange(start, start + size);
                Ok(
                    if segments == 0 {
                        stored
                    } else {
                        without_profile_headers(stored, FIRST_PROFILE_HEADER_INDEX as int)
                    },
                )
            },
        }
    }
}

/// Takes the ciphertext out of the profile segments of a default image.
pub fn extract_default_ciphertext(
    image: &[u8],
    base_offset: usize,
    embedded_file_size: usize,
    total_profile_header_segments: u16,
) -> (r: Result<Vec<u8>, JdvrifError>)
    ensures
        match default_ciphertext(
            image@,
            base_offset as int,
            embedded_file_size as int,
            total_profile_header_segments as int,
        ) {
            Ok(cipher) => r is Ok && r->Ok_0@ == cipher,
            Err(e) => r == Err::<Vec<u8>, JdvrifError>(e),
        },
{
    let image_size: usize = image.len();
    if base_offset > image_size || ENCRYPTED_FILE_START_INDEX > image_size - base_offset {
        return Err(JdvrifError::CorruptFile);
    }
    let payload_start: usize = base_offset + ENCRYPTED_FILE_START_INDEX;
    if embedded_file_size > image_size - payload_start {
        return Err(JdvrifError::CorruptFile);
    }
    let has_profile_headers: bool = total_profile_header_segments != 0;
    if has_profile_headers {
        let marker_offset: u64 = (total_profile_header_segments as u64 - 1) * 65537;
        if marker_offset < 0x16 {
            return Err(JdvrifError::CorruptFile);
        }
        let marker_index: u64 = marker_offset - 0x16;
        if marker_index + 2 > (image_size - base_offset) as u64 {
            return Err(JdvrifError::CorruptFile);
        }
        if !matches_at(image, &JPEG_APP2_MARKER, base_offset + marker_index as usize) {
            return Err(JdvrifError::MissingSegments);
        }
    }
    let ghost stored: Seq<u8> = image@.subrange(
        payload_start as int,
        payload_start + embedded_file_size,
    );
    let mut out: Vec<u8> = Vec::new();
    if !has_profile_headers {
        append_range(&mut out, image, payload_start, payload_start + embedded_file_size);
        assert(out@ =~= stored);
        return Ok(out);
    }
    let ghost wanted: Seq<u8> = without_profile_headers(stored, FIRST_PROFILE_HEADER_INDEX as int);
    let mut cursor: usize = 0;
    let mut gap: usize = FIRST_PROFILE_HEADER_INDEX;
    assert(stored.skip(0) =~= stored);
    assert(out@ + wanted =~= wanted);
    while cursor < embedded_file_size
        invariant
            cursor <= embedded_file_size,
            payload_start + embedded_file_size <= image.len(),
            stored == image@.subrange(payload_start as int, payload_start + embedded_file_size),
            wanted == out@ + without_profile_headers(stored.skip(cursor as int), gap as int),
        decreases embedded_file_size - cursor,
    {
        let ghost rest: Seq<u8> = stored.skip(cursor as int);
        let ghost before: Seq<u8> = out@;
        let left: usize = embedded_file_size - cursor;
        let run: usize = if left < gap {
            left
        } else {
            gap
        };
        append_range(
            &mut out,
            image,
            payload_start + cursor,
            payload_start + cursor + run,
        );
        assert(out@ =~= before + rest.take(run as int));
        let skip: usize = if left - run < PROFILE_HEADER_LENGTH {
            left - run
        } else {
            PROFILE_HEADER_LENGTH
        };
        let ghost cut: int = cursor + run + skip;
        assert(rest.skip(run + skip) =~= stored.skip(cut));
        proof {
            let step = PROFILE_HEADER_DISTANCE - PROFILE_HEADER_LENGTH;
            if left <= gap + PROFILE_HEADER_LENGTH {
                assert(stored.skip(cut) =~= Seq::<u8>::empty());
                assert(rest.take(run as int) =~= without_profile_headers(rest, gap as int));
                assert(before + rest.take(run as int) =~= out@ + Seq::<u8>::empty());
            } else {
                assert(before + (rest.take(run as int) + without_profile_headers(
                    stored.skip(cut),
                    step,
                )) =~= out@ + without_profile_headers(stored.skip(cut), step));
            }
        }
        cursor = cursor + run + skip;
        gap = PROFILE_HEADER_DISTANCE - PROFILE_HEADER_LENGTH;
    }
    assert(stored.skip(cursor as int) =~= Seq::<u8>::empty());
    assert(out@ + Seq::<u8>::empty() =~= out@);
    Ok(out)
}

/// A field with its length in front of it, of at least one and at most `limit`
/// bytes.
pub open spec fn counted_field(image: Seq<u8>, at: int, limit: int) -> Option<Seq<u8>> {
    if at + 2 > image.len() {
        None
    } else {
        let n = be16(image, at);
        if n == 0 || n > limit || at + 2 + n > image.len() {
            None
        } else {
            Some(image.subrange(at + 2, at + 2 + n))
        }
    }
}

/// What the Photoshop segment, and the XMP segment after it, hold of a
/// ciphertext of which `remaining` bytes are still missing.
pub open spec fn bluesky_overflow(
    image: Seq<u8>,
    signature: int,
    remaining: int,
    exif_chunk_size: int,
) -> Option<Seq<u8>> {
    let segment = signature - 7;
    let first_at = signature + 24;
    if first_at + 2 > image.len() || segment + be16(image, segment) > image.len() {
        None
    } else {
        match counted_field(image, first_at, remaining) {
            None => None,
            Some(first) => {
                if first.len() == remaining {
                    Some(first)
                } else if be16(image, segment) <= BLUESKY_DATASET_MAX_SIZE {
                    None
                } else {
                    let left = remaining - first.len();
                    match counted_field(image, first_at + 2 + first.len() + 3, left) {
                        None => None,
                        Some(second) => {
                            if second.len() == left {
                                Some(first + second)
                            } else {
                                match bluesky_xmp_tail(
                                    image,
                                    exif_chunk_size,
                                    segment,
                                    left - second.len(),
                                ) {
                                    None => None,
                                    Some(tail) => Some(first + second + tail),
                                }
                            }
                        },
                    }
                }
            },
        }
    }
}

/// What the XMP segment holds, of the given length.
pub open spec fn bluesky_xmp_tail(
    image: Seq<u8>,
    exif_chunk_size: int,
    photoshop_segment: int,
    length: int,
) -> Option<Seq<u8>> {
    match xmp_index(
        image,
        BLUESKY_ENCRYPTED_FILE_START_INDEX + exif_chunk_size,
        photoshop_segment,
    ) {
        None => None,
        Some(i) => base64_before(
            image,
            i + 8,
            BLUESKY_BASE64_END,
            BLUESKY_XMP_BASE64_MAX_SCAN_BYTES as int,
            length,
        ),
    }
}

/// How much of a ciphertext the EXIF segment holds.
pub open spec fn bluesky_exif_share(size: int) -> int {
    if size < BLUESKY_EXIF_SEGMENT_DATA_SIZE {
        size
    } else {
        BLUESKY_EXIF_SEGMENT_DATA_SIZE as int
    }
}

/// The ciphertext of a Bluesky image.
pub open spec fn bluesky_ciphertext(image: Seq<u8>, size: int, xmp_template_len: int) -> Option<
    Seq<u8>,
> {
    let share = bluesky_exif_share(size);
    let start = BLUESKY_ENCRYPTED_FILE_START_INDEX as int;
    if size == 0 || start + share > image.len() || !exif_fits(image, size, xmp_template_len) {
        None
    } else {
        let head = image.subrange(start, start + share);
        if share == size {
            Some(head)
        } else {
            match photoshop_index(image, share) {
                None => None,
                Some(signature) => match bluesky_overflow(image, signature, size - share, share) {
                    None => None,
                    Some(tail) => Some(head + tail),
                },
            }
        }
    }
}

/// What the Photoshop segment, and the XMP segment after it, hold of a
/// ciphertext of which `remaining` bytes are still missing.
fn extract_bluesky_overflow(
    image: &[u8],
    pshop_sig_index: usize,
    remaining: usize,
    exif_chunk_size: usize,
) -> (r: Option<Vec<u8>>)
    requires
        7 <= pshop_sig_index,
        pshop_sig_index + 7 <= image.len(),
        BLUESKY_ENCRYPTED_FILE_START_INDEX + exif_chunk_size <= image.len(),
    ensures
        match bluesky_overflow(
            image@,
            pshop_sig_index as int,
            remaining as int,
            exif_chunk_size as int,
        ) {
            Some(tail) => r is Some && r->0@ == tail,
            None => r is None,
        },
{
    let image_size: usize = image.len();
    let segment: usize = pshop_sig_index - 7;
    if image_size - pshop_sig_index < 26 {
        return None;
    }
    let first_at: usize = pshop_sig_index + 24;
    let pshop_segment_size: usize = read_be16(image, segment) as usize;
    if pshop_segment_size > image_size - segment {
        return None;
    }
    let first_size: usize = read_be16(image, first_at) as usize;
    if first_size == 0 || first_size > remaining || first_size > image_size - (first_at + 2) {
        return None;
    }
    let mut out: Vec<u8> = Vec::new();
    append_range(&mut out, image, first_at + 2, first_at + 2 + first_size);
    let ghost first: Seq<u8> = image@.subrange(first_at + 2, first_at + 2 + first_size);
    assert(out@ =~= first);
    if first_size == remaining {
        return Some(out);
    }
    if pshop_segment_size <= BLUESKY_DATASET_MAX_SIZE {
        return None;
    }
    let left: usize = remaining - first_size;
    let first_end: usize = first_at + 2 + first_size;
    if image_size - first_end < 5 {
        return None;
    }
    let second_at: usize = first_end + 3;
    let second_size: usize = read_be16(image, second_at) as usize;
    if second_size == 0 || second_size > left || second_size > image_size - (second_at + 2) {
        return None;
    }
    append_range(&mut out, image, second_at + 2, second_at + 2 + second_size);
    let ghost second: Seq<u8> = image@.subrange(second_at + 2, second_at + 2 + second_size);
    assert(out@ =~= first + second);
    if second_size == left {
        return Some(out);
    }
    let xmp_sig_index: usize = match find_bluesky_xmp_signature(
        image,
        BLUESKY_ENCRYPTED_FILE_START_INDEX + exif_chunk_size,
        segment,
    ) {
        Ok(i) => i,
        Err(_) => {
            return None;
        },
    };
    proof {
        lemma_match_bounds(
            image@,
            BLUESKY_XMP_CREATOR_SIGNATURE@,
            segment as int,
            BLUESKY_ENCRYPTED_FILE_START_INDEX + exif_chunk_size,
        );
    }
    match decode_base64_until_delimiter(
        image,
        xmp_sig_index + 8,
        BLUESKY_BASE64_END,
        BLUESKY_XMP_BASE64_MAX_SCAN_BYTES,
        left - second_size,
    ) {
        Ok(tail) => {
            append(&mut out, &tail);
            Some(out)
        },
        Err(_) => None,
    }
}

proof fn lemma_match_bounds(file: Seq<u8>, sig: Seq<u8>, search_limit: int, start: int)
    requires
        0 <= start,
        0 < search_limit,
        0 < sig.len(),
    ensures
        match_in_file(file, sig, search_limit, start) matches Some(i) ==> start <= i && i
            + sig.len() <= file.len() && i + sig.len() <= search_limit,
{
    let part = scanned_part(file, search_limit, start);
    lemma_first_match_bounds(part, sig, 0);
}

proof fn lemma_first_match_bounds(s: Seq<u8>, sig: Seq<u8>, from: int)
    requires
        0 <= from,
    ensures
        first_match(s, sig, from) matches Some(i) ==> from <= i && i + sig.len() <= s.len(),
    decreases s.len() + 1 - from,
{
    if from + sig.len() <= s.len() && from <= s.len() && !occurs_at(s, sig, from) {
        lemma_first_match_bounds(s, sig, from + 1);
    }
}

/// Takes the ciphertext out of the EXIF, Photoshop and XMP segments of a Bluesky
/// image.
pub fn extract_bluesky_ciphertext(
    image: &[u8],
    embedded_file_size: usize,
    xmp_template_len: usize,
) -> (r: Result<Vec<u8>, JdvrifError>)
    ensures
        match bluesky_ciphertext(image@, embedded_file_size as int, xmp_template_len as int) {
            Some(cipher) => r is Ok && r->Ok_0@ == cipher,
            None => r == Err::<Vec<u8>, JdvrifError>(JdvrifError::CorruptFile),
        },
{
    let image_size: usize = image.len();
    if embedded_file_size == 0 || BLUESKY_ENCRYPTED_FILE_START_INDEX > image_size {
        return Err(JdvrifError::CorruptFile);
    }
    let exif_chunk_size: usize = if embedded_file_size < BLUESKY_EXIF_SEGMENT_DATA_SIZE {
        embedded_file_size
    } else {
        BLUESKY_EXIF_SEGMENT_DATA_SIZE
    };
    if exif_chunk_size > image_size - BLUESKY_ENCRYPTED_FILE_START_INDEX {
        return Err(JdvrifError::CorruptFile);
    }
    match validate_bluesky_exif_capacity(image, embedded_file_size, xmp_template_len) {
        Ok(_) => {},
        Err(e) => {
            return Err(e);
        },
    }
    let mut out: Vec<u8> = Vec::new();
    append_range(
        &mut out,
        image,
        BLUESKY_ENCRYPTED_FILE_START_INDEX,
        BLUESKY_ENCRYPTED_FILE_START_INDEX + exif_chunk_size,
    );
    let ghost head: Seq<u8> = image@.subrange(
        BLUESKY_ENCRYPTED_FILE_START_INDEX as int,
        BLUESKY_ENCRYPTED_FILE_START_INDEX + exif_chunk_size,
    );
    assert(out@ =~= head);
    let remaining: usize = embedded_file_size - exif_chunk_size;
    if remaining == 0 {
        return Ok(out);
    }
    let pshop_sig_index: usize = match find_bluesky_photoshop_signature(image, exif_chunk_size) {
        Ok(i) => i,
        Err(e) => {
            return Err(e);
        },
    };
    proof {
        let start = BLUESKY_ENCRYPTED_FILE_START_INDEX + exif_chunk_size;
        let end = if start + BLUESKY_PHOTOSHOP_SEARCH_WINDOW < image@.len() {
            start + BLUESKY_PHOTOSHOP_SEARCH_WINDOW
        } else {
            image@.len() as int
        };
        lemma_match_bounds(image@, BLUESKY_PHOTOSHOP_SIGNATURE@, end, start);
    }
    match extract_bluesky_overflow(image, pshop_sig_index, remaining, exif_chunk_size) {
        Some(tail) => {
            append(&mut out, &tail);
            Ok(out)
        },
        None => Err(JdvrifError::CorruptFile),
    }
}

/// What comes out of a Bluesky image is of the size that the image declares.
pub proof fn law_bluesky_ciphertext_size(image: Seq<u8>, size: int, xmp_template_len: int)
    requires
        0 <= size,
    ensures
        bluesky_ciphertext(image, size, xmp_template_len) matches Some(cipher) ==> cipher.len()
            == size,
{
}

} // verus!
