//! Images by where their bytes stand, and the ciphertext that comes out of them.

use crate::base64::{
    base64_before, base64_char, base64_encode, base64_quartet, base64_region, base64_value,
    delimiter_index, is_base64_before, law_base64_decodes_uniquely,
};
use crate::common::{be16, first_match, occurs_at};
use crate::extract::{
    bluesky_ciphertext, bluesky_overflow, bluesky_xmp_tail, default_ciphertext, exif_end,
    exif_fits, exif_has_room, exif_header, match_in_file, photoshop_index,
    without_profile_headers, xmp_index, BLUESKY_PHOTOSHOP_SIGNATURE,
    BLUESKY_XMP_CREATOR_SIGNATURE, JPEG_APP13_MARKER, JPEG_APP2_MARKER, JPEG_EXIF_MARKER,
};
use crate::runtime::JdvrifError;
use crate::scan::scanned_part;
use vstd::prelude::*;

verus! {

/// How many profile headers stand in front of byte `j` of a ciphertext: the first
/// 64,688 bytes come before any, then there is one every 65,519 bytes.
pub open spec fn headers_before(j: int) -> int {
    if j < 64688 {
        0
    } else {
        1 + (j - 64688) / 65519
    }
}

/// From position 827 behind `base` on, the image holds the ciphertext, with `n`
/// profile headers of 18 bytes cut into it: each byte of the ciphertext stands
/// behind the headers that come before it.
pub open spec fn holds_profile_segments(
    image: Seq<u8>,
    base: int,
    cipher: Seq<u8>,
    n: int,
) -> bool {
    &&& base + 827 + cipher.len() + 18 * n <= image.len()
    &&& forall|j: int|
        0 <= j < cipher.len() ==> #[trigger] cipher[j] == image[base + 827 + j + 18
            * headers_before(j)]
}

/// The image bears the marker of a profile segment where the last of so many
/// segments begins, 65,537 bytes apart.
pub open spec fn has_last_segment(image: Seq<u8>, base: int, segments: int) -> bool {
    let at = base + 65537 * (segments - 1) - 22;
    &&& segments >= 2
    &&& at + 2 <= image.len()
    &&& image[at] == 0xFF
    &&& image[at + 1] == 0xE2
}

/// How many headers stand in front of byte `j` when the first comes after `gap`
/// bytes.
spec fn headers_from(gap: int, j: int) -> int {
    if j < gap {
        0
    } else {
        1 + (j - gap) / 65519
    }
}

proof fn lemma_headers_from(gap: int, j: int)
    requires
        0 <= gap <= j,
    ensures
        headers_from(gap, j) == 1 + headers_from(65519, j - gap),
{
}

proof fn lemma_headers_taken_out(stored: Seq<u8>, cipher: Seq<u8>, gap: int, n: int)
    requires
        0 <= n,
        0 <= gap,
        stored.len() == cipher.len() + 18 * n,
        n == 0 ==> cipher.len() <= gap,
        n > 0 ==> gap + 65519 * (n - 1) < cipher.len() <= gap + 65519 * n,
        forall|j: int|
            0 <= j < cipher.len() ==> #[trigger] cipher[j] == stored[j + 18 * headers_from(gap, j)],
    ensures
        without_profile_headers(stored, gap) == cipher,
    decreases n,
{
    if n == 0 {
        assert forall|j: int| 0 <= j < cipher.len() implies cipher[j] == stored[j] by {
            assert(headers_from(gap, j) == 0);
        }
        assert(stored =~= cipher);
    } else {
        let rest = stored.skip(gap + 18);
        let tail = cipher.skip(gap);
        assert(65519 * (n - 1) >= 0);
        assert forall|j: int| 0 <= j < tail.len() implies #[trigger] tail[j] == rest[j + 18
            * headers_from(65519, j)] by {
            lemma_headers_from(gap, j + gap);
            assert(tail[j] == cipher[j + gap]);
            assert(headers_from(65519, j) >= 0);
        }
        assert forall|j: int| 0 <= j < gap implies stored.take(gap)[j] == cipher[j] by {
            assert(headers_from(gap, j) == 0);
        }
        assert(stored.take(gap) =~= cipher.take(gap));
        if n - 1 > 0 {
            assert(65519 * (n - 1) == 65519 + 65519 * (n - 2));
        }
        lemma_headers_taken_out(rest, tail, 65519, n - 1);
        assert(stored.take(gap) + tail =~= cipher);
    }
}

/// A ciphertext that is cut up by profile headers comes out of an image that declares
/// segments, whatever else the image and its headers hold, as long as the last
/// segment is where it is declared to be.
pub proof fn law_profile_segments_give_the_ciphertext(
    image: Seq<u8>,
    base: int,
    cipher: Seq<u8>,
    n: int,
    segments: int,
)
    requires
        0 <= base,
        0 <= n,
        n == 0 ==> cipher.len() <= 64688,
        n > 0 ==> 64688 + 65519 * (n - 1) < cipher.len() <= 64688 + 65519 * n,
        holds_profile_segments(image, base, cipher, n),
        has_last_segment(image, base, segments),
    ensures
        default_ciphertext(image, base, cipher.len() + 18 * n, segments) == Ok::<
            Seq<u8>,
            JdvrifError,
        >(cipher),
{
    let start = base + 827;
    let size = cipher.len() + 18 * n;
    let stored = image.subrange(start, start + size);
    let at = (segments - 1) * 65537 - 0x16;
    assert(image.subrange(base + at, base + at + 2) =~= JPEG_APP2_MARKER@);
    assert(occurs_at(image, JPEG_APP2_MARKER@, base + at));
    assert forall|j: int| 0 <= j < cipher.len() implies #[trigger] cipher[j] == stored[j + 18
        * headers_from(64688, j)] by {
        assert(headers_before(j) == headers_from(64688, j));
        assert(headers_from(64688, j) <= n);
        assert(headers_from(64688, j) >= 0);
    }
    lemma_headers_taken_out(stored, cipher, 64688, n);
}

/// In particular, a ciphertext with one or more profile headers in it, the last of
/// which begins with the marker of its segment, comes out of an image that declares
/// one segment more than there are headers.
pub proof fn law_each_header_begins_a_segment(
    image: Seq<u8>,
    base: int,
    cipher: Seq<u8>,
    n: int,
)
    requires
        0 <= base,
        1 <= n,
        64688 + 65519 * (n - 1) < cipher.len() <= 64688 + 65519 * n,
        holds_profile_segments(image, base, cipher, n),
        image[base + 827 + 64688 + 65537 * (n - 1)] == 0xFF,
        image[base + 827 + 64688 + 65537 * (n - 1) + 1] == 0xE2,
    ensures
        default_ciphertext(image, base, cipher.len() + 18 * n, n + 1) == Ok::<
            Seq<u8>,
            JdvrifError,
        >(cipher),
{
    assert(base + 65537 * n - 22 == base + 827 + 64688 + 65537 * (n - 1));
    law_profile_segments_give_the_ciphertext(image, base, cipher, n, n + 1);
}

/// A header that is cut off by the end of what is declared counts as a header all the
/// same: nothing of it comes out.
pub proof fn law_a_header_cut_off(
    image: Seq<u8>,
    base: int,
    cipher: Seq<u8>,
    part: int,
    segments: int,
)
    requires
        0 <= base,
        0 <= part <= 18,
        cipher.len() == 64688,
        base + 827 + 64688 + part <= image.len(),
        holds_at(image, base + 827, cipher),
        has_last_segment(image, base, segments),
    ensures
        default_ciphertext(image, base, 64688 + part, segments) == Ok::<Seq<u8>, JdvrifError>(
            cipher,
        ),
{
    let start = base + 827;
    let stored = image.subrange(start, start + 64688 + part);
    let at = (segments - 1) * 65537 - 0x16;
    assert(image.subrange(base + at, base + at + 2) =~= JPEG_APP2_MARKER@);
    assert(occurs_at(image, JPEG_APP2_MARKER@, base + at));
    assert(stored.take(64688) =~= cipher);
    if part == 0 {
        assert(stored =~= cipher);
    }
}

/// A ciphertext in one piece comes out of an image that declares no segments.
pub proof fn law_one_segment_gives_the_ciphertext(image: Seq<u8>, base: int, cipher: Seq<u8>)
    requires
        0 <= base,
        base + 827 + cipher.len() <= image.len(),
        forall|j: int|
            0 <= j < cipher.len() ==> #[trigger] cipher[j] == image[base + 827 + j],
    ensures
        default_ciphertext(image, base, cipher.len() as int, 0) == Ok::<Seq<u8>, JdvrifError>(
            cipher,
        ),
{
    assert(image.subrange(base + 827, base + 827 + cipher.len()) =~= cipher);
}

/// An image whose last profile header is missing is refused as lacking segments,
/// and one that is too short for what it declares as corrupt.
pub proof fn law_missing_segments_are_noticed(image: Seq<u8>, base: int, size: int, segments: int)
    requires
        0 <= base,
        0 <= size,
        1 <= segments,
    ensures
        base + 827 + size > image.len() ==> default_ciphertext(image, base, size, segments)
            == Err::<Seq<u8>, JdvrifError>(JdvrifError::CorruptFile),
        segments == 1 ==> default_ciphertext(image, base, size, segments) == Err::<
            Seq<u8>,
            JdvrifError,
        >(JdvrifError::CorruptFile),
        ({
            let at = base + (segments - 1) * 65537 - 22;
            segments >= 2 && base + 827 + size <= image.len() && at + 2 <= image.len() && !(
            image[at] == 0xFF && image[at + 1] == 0xE2) ==> default_ciphertext(
                image,
                base,
                size,
                segments,
            ) == Err::<Seq<u8>, JdvrifError>(JdvrifError::MissingSegments)
        }),
{
    let at = base + (segments - 1) * 65537 - 22;
    if segments >= 2 && occurs_at(image, JPEG_APP2_MARKER@, at) {
        assert(image.subrange(at, at + 2)[0] == 0xFF);
        assert(image.subrange(at, at + 2)[1] == 0xE2);
    }
}

/// Two bytes of an image as a number, the more significant one first.
pub open spec fn number_at(image: Seq<u8>, i: int) -> int {
    256 * image[i] + image[i + 1]
}

/// The image holds these bytes from `at` on.
pub open spec fn holds_at(image: Seq<u8>, at: int, bytes: Seq<u8>) -> bool {
    &&& 0 <= at
    &&& at + bytes.len() <= image.len()
    &&& forall|j: int| 0 <= j < bytes.len() ==> #[trigger] bytes[j] == image[at + j]
}

/// The signature of the Photoshop segment stands at `i`.
pub open spec fn photoshop_at(image: Seq<u8>, i: int) -> bool {
    &&& image[i] == 0x73
    &&& image[i + 1] == 0x68
    &&& image[i + 2] == 0x6F
    &&& image[i + 3] == 0x70
    &&& image[i + 4] == 0x20
    &&& image[i + 5] == 0x33
    &&& image[i + 6] == 0x2E
}

/// The signature in front of the Base64 part of the XMP segment stands at `i`.
pub open spec fn creator_at(image: Seq<u8>, i: int) -> bool {
    &&& image[i] == 0x3C
    &&& image[i + 1] == 0x72
    &&& image[i + 2] == 0x64
    &&& image[i + 3] == 0x66
    &&& image[i + 4] == 0x3A
    &&& image[i + 5] == 0x6C
    &&& image[i + 6] == 0x69
}

/// The first EXIF marker stands at `e`, among the first hundred bytes, and its
/// segment reaches from there over the 465th byte and `share` bytes behind it. The
/// XMP template leaves room for a ciphertext of `size` bytes.
pub open spec fn has_exif_segment(
    image: Seq<u8>,
    e: int,
    size: int,
    share: int,
    xmp_template_len: int,
) -> bool {
    &&& 0 <= e <= 96
    &&& image.len() >= 100
    &&& image[e] == 0xFF
    &&& image[e + 1] == 0xE1
    &&& forall|j: int| 0 <= j < e ==> !(#[trigger] image[j] == 0xFF && image[j + 1] == 0xE1)
    &&& 465 < e + 2 + number_at(image, e + 2) <= image.len()
    &&& 465 + share <= e + 2 + number_at(image, e + 2)
    &&& 0 <= xmp_template_len < 59941
    &&& 0 < size <= 130524 + (59941 - xmp_template_len) / 4 * 3
}

proof fn lemma_first_match_at(s: Seq<u8>, sig: Seq<u8>, from: int, i: int)
    requires
        0 <= from <= i,
        occurs_at(s, sig, i),
        forall|j: int| from <= j < i ==> !occurs_at(s, sig, j),
    ensures
        first_match(s, sig, from) == Some(i),
    decreases i - from,
{
    if from < i {
        lemma_first_match_at(s, sig, from + 1, i);
    }
}

proof fn lemma_exif_fits(
    image: Seq<u8>,
    e: int,
    size: int,
    share: int,
    xmp_template_len: int,
)
    requires
        has_exif_segment(image, e, size, share, xmp_template_len),
        share == if size <= 65027 {
            size
        } else {
            65027
        },
    ensures
        exif_fits(image, size, xmp_template_len),
{
    let header = exif_header(image);
    assert(header =~= image.take(100));
    assert(exif_header(header) =~= header);
    let sig = JPEG_EXIF_MARKER@;
    assert(header.subrange(e, e + 2) =~= sig);
    assert forall|j: int| 0 <= j < e implies !occurs_at(header, sig, j) by {
        assert(image[j] != 0xFF || image[j + 1] != 0xE1);
        if occurs_at(header, sig, j) {
            assert(header.subrange(j, j + 2)[0] == sig[0]);
            assert(header.subrange(j, j + 2)[1] == sig[1]);
        }
    }
    lemma_first_match_at(header, sig, 0, e);
    assert(be16(header, e + 2) == number_at(image, e + 2));
    assert(exif_end(header) == Some(e + 2 + number_at(image, e + 2)));
    assert(exif_has_room(header, size, xmp_template_len));
}

/// A ciphertext that fits into the EXIF segment of a Bluesky image comes out of it.
pub proof fn law_exif_segment_gives_the_ciphertext(
    image: Seq<u8>,
    e: int,
    xmp_template_len: int,
    cipher: Seq<u8>,
)
    requires
        cipher.len() <= 65027,
        has_exif_segment(
            image,
            e,
            cipher.len() as int,
            cipher.len() as int,
            xmp_template_len,
        ),
        holds_at(image, 465, cipher),
    ensures
        bluesky_ciphertext(image, cipher.len() as int, xmp_template_len) == Some(cipher),
{
    lemma_exif_fits(image, e, cipher.len() as int, cipher.len() as int, xmp_template_len);
    assert(image.subrange(465, 465int + cipher.len()) =~= cipher);
}

/// Behind the full EXIF segment, the first Photoshop signature stands at `p`, in
/// its window and framed by its marker, and its segment lies in the image.
pub open spec fn has_photoshop_segment(image: Seq<u8>, p: int) -> bool {
    &&& 65492 <= p
    &&& p + 7 <= 65492 + 191105
    &&& p + 26 <= image.len()
    &&& photoshop_at(image, p)
    &&& forall|j: int| 65492 <= j < p ==> !#[trigger] photoshop_at(image, j)
    &&& image[p - 9] == 0xFF
    &&& image[p - 8] == 0xED
    &&& p - 7 + number_at(image, p - 7) <= image.len()
}

spec fn stands(image: Seq<u8>, sig: Seq<u8>, i: int) -> bool {
    forall|k: int| 0 <= k < sig.len() ==> image[i + k] == #[trigger] sig[k]
}

proof fn lemma_match_at(image: Seq<u8>, sig: Seq<u8>, limit: int, start: int, p: int)
    requires
        0 <= start <= p,
        0 < limit <= image.len(),
        p + sig.len() <= limit,
        sig.len() > 0,
        stands(image, sig, p),
        forall|j: int| start <= j < p ==> !#[trigger] stands(image, sig, j),
    ensures
        match_in_file(image, sig, limit, start) == Some(p),
{
    let part = scanned_part(image, limit, start);
    assert(part =~= image.subrange(start, limit));
    assert(part.subrange(p - start, p - start + sig.len()) =~= sig);
    assert forall|j: int| 0 <= j < p - start implies !occurs_at(part, sig, j) by {
        assert(!stands(image, sig, start + j));
        if occurs_at(part, sig, j) {
            assert forall|k: int| 0 <= k < sig.len() implies image[start + j + k]
                == #[trigger] sig[k] by {
                assert(part.subrange(j, j + sig.len())[k] == sig[k]);
            }
        }
    }
    lemma_first_match_at(part, sig, 0, p - start);
}

proof fn lemma_photoshop_index(image: Seq<u8>, p: int)
    requires
        has_photoshop_segment(image, p),
    ensures
        photoshop_index(image, 65027) == Some(p),
{
    let sig = BLUESKY_PHOTOSHOP_SIGNATURE@;
    let limit: int = if 256597 < image.len() {
        256597int
    } else {
        image.len() as int
    };
    assert(image[p + 0] == image[p]);
    assert(stands(image, sig, p));
    assert forall|j: int| 65492 <= j < p implies !#[trigger] stands(image, sig, j) by {
        assert(!photoshop_at(image, j));
        if stands(image, sig, j) {
            assert(sig[0] == image[j + 0]);
            assert(sig[1] == image[j + 1]);
            assert(sig[2] == image[j + 2]);
            assert(sig[3] == image[j + 3]);
            assert(sig[4] == image[j + 4]);
            assert(sig[5] == image[j + 5]);
            assert(sig[6] == image[j + 6]);
        }
    }
    lemma_match_at(image, sig, limit, 65492, p);
    assert(image.subrange(p - 9, p - 7) =~= JPEG_APP13_MARKER@);
}

/// A ciphertext whose rest stands in the first dataset of the Photoshop segment
/// comes out as the EXIF part, then that dataset.
pub proof fn law_one_dataset_gives_the_ciphertext(
    image: Seq<u8>,
    e: int,
    xmp_template_len: int,
    p: int,
    share: Seq<u8>,
    first: Seq<u8>,
)
    requires
        share.len() == 65027,
        first.len() > 0,
        has_exif_segment(image, e, 65027int + first.len(), 65027, xmp_template_len),
        holds_at(image, 465, share),
        has_photoshop_segment(image, p),
        number_at(image, p + 24) == first.len(),
        holds_at(image, p + 26, first),
    ensures
        bluesky_ciphertext(image, 65027int + first.len(), xmp_template_len) == Some(share + first),
{
    lemma_exif_fits(image, e, 65027int + first.len(), 65027, xmp_template_len);
    lemma_photoshop_index(image, p);
    assert(image.subrange(465, 465 + 65027int) =~= share);
    assert(image.subrange(p + 26, p + 26 + first.len()) =~= first);
    assert(bluesky_overflow(image, p, first.len() as int, 65027) == Some(first));
}

/// A ciphertext whose rest stands in both datasets of the Photoshop segment comes
/// out as the EXIF part, then the first dataset, then the second.
pub proof fn law_two_datasets_give_the_ciphertext(
    image: Seq<u8>,
    e: int,
    xmp_template_len: int,
    p: int,
    share: Seq<u8>,
    first: Seq<u8>,
    second: Seq<u8>,
)
    requires
        share.len() == 65027,
        first.len() > 0,
        second.len() > 0,
        has_exif_segment(
            image,
            e,
            65027int + first.len() + second.len(),
            65027,
            xmp_template_len,
        ),
        holds_at(image, 465, share),
        has_photoshop_segment(image, p),
        number_at(image, p - 7) > 32800,
        number_at(image, p + 24) == first.len(),
        holds_at(image, p + 26, first),
        number_at(image, p + 26 + first.len() + 3) == second.len(),
        holds_at(image, p + 26 + first.len() + 5, second),
    ensures
        bluesky_ciphertext(image, 65027int + first.len() + second.len(), xmp_template_len) == Some(
            share + first + second,
        ),
{
    lemma_exif_fits(image, e, 65027int + first.len() + second.len(), 65027, xmp_template_len);
    lemma_photoshop_index(image, p);
    assert(image.subrange(465, 465 + 65027int) =~= share);
    assert(image.subrange(p + 26, p + 26 + first.len()) =~= first);
    let at = p + 26 + first.len() + 3;
    assert(image.subrange(at + 2, at + 2 + second.len()) =~= second);
    assert(bluesky_overflow(image, p, (first.len() + second.len()) as int, 65027) == Some(
        first + second,
    ));
    assert(share + (first + second) =~= share + first + second);
}

/// The letter that Base64 has for a number below 64.
pub open spec fn letter(v: int) -> int {
    if v < 26 {
        65 + v
    } else if v < 52 {
        97 + (v - 26)
    } else if v < 62 {
        48 + (v - 52)
    } else if v == 62 {
        43
    } else {
        47
    }
}

/// From `at` on, the image holds the Base64 text of these bytes: four letters for
/// every three bytes, with equals signs for what is missing at the end.
pub open spec fn holds_base64(image: Seq<u8>, at: int, bytes: Seq<u8>) -> bool
    decreases bytes.len(),
{
    if bytes.len() == 0 {
        true
    } else {
        let b0 = bytes[0] as int;
        let b1 = if bytes.len() > 1 {
            bytes[1] as int
        } else {
            0
        };
        let b2 = if bytes.len() > 2 {
            bytes[2] as int
        } else {
            0
        };
        let value = 65536 * b0 + 256 * b1 + b2;
        &&& image[at] == letter(value / 262144)
        &&& image[at + 1] == letter(value / 4096 % 64)
        &&& image[at + 2] == if bytes.len() > 1 {
            letter(value / 64 % 64)
        } else {
            61
        }
        &&& image[at + 3] == if bytes.len() > 2 {
            letter(value % 64)
        } else {
            61
        }
        &&& bytes.len() > 3 ==> holds_base64(image, at + 4, bytes.skip(3))
    }
}

/// How many letters the Base64 text of so many bytes has.
pub open spec fn base64_length(n: int) -> int {
    (n + 2) / 3 * 4
}

proof fn lemma_sextets(b0: int, b1: int, b2: int)
    requires
        0 <= b0 < 256,
        0 <= b1 < 256,
        0 <= b2 < 256,
    ensures
        ({
            let value = 65536 * b0 + 256 * b1 + b2;
            &&& value / 262144 == b0 / 4
            &&& value / 4096 % 64 == b0 % 4 * 16 + b1 / 16
            &&& value / 64 % 64 == b1 % 16 * 4 + b2 / 64
            &&& value % 64 == b2 % 64
        }),
{
    let value = 65536 * b0 + 256 * b1 + b2;
    let q0 = b0 / 4;
    let r0 = b0 % 4;
    let q1 = b1 / 16;
    let r1 = b1 % 16;
    let q2 = b2 / 64;
    let r2 = b2 % 64;
    assert(b0 == 4 * q0 + r0 && b1 == 16 * q1 + r1 && b2 == 64 * q2 + r2);
    assert(value == 262144 * q0 + 4096 * (16 * r0 + q1) + 64 * (4 * r1 + q2) + r2);
    assert(value / 4096 == 64 * q0 + 16 * r0 + q1);
    assert(value / 64 == 4096 * q0 + 64 * (16 * r0 + q1) + 4 * r1 + q2);
}

proof fn lemma_holds_base64(image: Seq<u8>, at: int, bytes: Seq<u8>)
    requires
        0 <= at,
        at + base64_length(bytes.len() as int) <= image.len(),
        holds_base64(image, at, bytes),
    ensures
        image.subrange(at, at + base64_length(bytes.len() as int)) == base64_encode(bytes),
        forall|j: int|
            at <= j < at + base64_length(bytes.len() as int) ==> #[trigger] image[j] != 0x3C,
    decreases bytes.len(),
{
    let text = image.subrange(at, at + base64_length(bytes.len() as int));
    if bytes.len() == 0 {
        assert(text =~= base64_encode(bytes));
    } else {
        let b1 = if bytes.len() > 1 {
            bytes[1] as int
        } else {
            0
        };
        let b2 = if bytes.len() > 2 {
            bytes[2] as int
        } else {
            0
        };
        lemma_sextets(bytes[0] as int, b1, b2);
        let here = if bytes.len() <= 3 {
            bytes
        } else {
            bytes.take(3)
        };
        let q = base64_quartet(here);
        assert(forall|v: int| 0 <= v < 64 ==> #[trigger] base64_char(v) == letter(v) && letter(v)
            != 0x3C);
        assert(text.take(4) =~= q);
        assert(forall|j: int| at <= j < at + 4 ==> #[trigger] image[j] != 0x3C);
        if bytes.len() > 3 {
            lemma_holds_base64(image, at + 4, bytes.skip(3));
            assert(text =~= text.take(4) + image.subrange(
                at + 4,
                at + 4 + base64_length(bytes.len() - 3),
            ));
        } else {
            assert(text =~= text.take(4));
        }
    }
}

proof fn lemma_delimiter_at(s: Seq<u8>, delimiter: u8, i: int)
    requires
        0 <= i < s.len(),
        s[i] == delimiter,
        forall|j: int| 0 <= j < i ==> #[trigger] s[j] != delimiter,
    ensures
        delimiter_index(s, delimiter) == i,
    decreases i,
{
    if i > 0 {
        let t = s.skip(1);
        assert forall|j: int| 0 <= j < i - 1 implies #[trigger] t[j] != delimiter by {
            assert(t[j] == s[j + 1]);
        }
        lemma_delimiter_at(t, delimiter, i - 1);
    }
}

/// Base64 that stands in front of the delimiter, and in reach of it, is decoded to
/// the bytes whose text it is.
pub proof fn law_base64_text_is_decoded(
    file: Seq<u8>,
    offset: int,
    delimiter: u8,
    max_bytes: int,
    bytes: Seq<u8>,
)
    requires
        0 <= offset,
        delimiter == 0x3C,
        base64_length(bytes.len() as int) < max_bytes,
        offset + base64_length(bytes.len() as int) < file.len(),
        holds_base64(file, offset, bytes),
        file[offset + base64_length(bytes.len() as int)] == delimiter,
    ensures
        base64_before(file, offset, delimiter, max_bytes, bytes.len() as int) == Some(bytes),
{
    let n = base64_length(bytes.len() as int);
    let region = base64_region(file, offset, max_bytes);
    lemma_holds_base64(file, offset, bytes);
    assert forall|j: int| 0 <= j < n implies #[trigger] region[j] != delimiter by {
        assert(region[j] == file[offset + j]);
    }
    lemma_delimiter_at(region, delimiter, n);
    assert(region.take(n) =~= file.subrange(offset, offset + n));
    assert(is_base64_before(file, offset, delimiter, max_bytes, bytes));
    let found = base64_before(file, offset, delimiter, max_bytes, bytes.len() as int)->0;
    assert(is_base64_before(file, offset, delimiter, max_bytes, found));
    law_base64_decodes_uniquely(found, bytes);
}

/// The letters are told apart again: each of the 64 has its number, and no other byte
/// has one.
pub proof fn law_base64_letters(c: u8, v: int)
    requires
        0 <= v < 64,
    ensures
        base64_value(c) matches Some(n) ==> n < 64 && letter(n as int) == c,
        c == letter(v) ==> base64_value(c) == Some(v as u8),
{
}

proof fn lemma_encoded_is_held(image: Seq<u8>, at: int, bytes: Seq<u8>)
    requires
        0 <= at,
        at + base64_encode(bytes).len() <= image.len(),
        image.subrange(at, at + base64_encode(bytes).len()) == base64_encode(bytes),
    ensures
        holds_base64(image, at, bytes),
        base64_encode(bytes).len() == base64_length(bytes.len() as int),
    decreases bytes.len(),
{
    let text = base64_encode(bytes);
    let part = image.subrange(at, at + text.len());
    if bytes.len() > 0 {
        let b1 = if bytes.len() > 1 {
            bytes[1] as int
        } else {
            0
        };
        let b2 = if bytes.len() > 2 {
            bytes[2] as int
        } else {
            0
        };
        lemma_sextets(bytes[0] as int, b1, b2);
        let here = if bytes.len() <= 3 {
            bytes
        } else {
            bytes.take(3)
        };
        let q = base64_quartet(here);
        assert(forall|v: int| 0 <= v < 64 ==> #[trigger] base64_char(v) == letter(v));
        assert(text.len() >= 4 && text[0] == q[0] && text[1] == q[1] && text[2] == q[2] && text[3]
            == q[3]);
        assert(part[0] == image[at] && part[1] == image[at + 1] && part[2] == image[at + 2]
            && part[3] == image[at + 3]);
        if bytes.len() > 3 {
            let rest = base64_encode(bytes.skip(3));
            assert(text.skip(4) =~= rest);
            assert(image.subrange(at + 4, at + 4 + rest.len()) =~= part.skip(4));
            lemma_encoded_is_held(image, at + 4, bytes.skip(3));
        }
    }
}

proof fn lemma_delimiter_found(s: Seq<u8>, delimiter: u8)
    ensures
        0 <= delimiter_index(s, delimiter) <= s.len(),
        delimiter_index(s, delimiter) < s.len() ==> s[delimiter_index(s, delimiter)] == delimiter,
    decreases s.len(),
{
    if s.len() > 0 && s[0] != delimiter {
        lemma_delimiter_found(s.skip(1), delimiter);
    }
}

/// What comes out of a Base64 text is of the wanted length, and its own text, to the
/// letter, is what stands in front of the delimiter.
pub proof fn law_base64_is_canonical(
    file: Seq<u8>,
    offset: int,
    delimiter: u8,
    max_bytes: int,
    length: int,
)
    requires
        0 <= offset,
        0 <= max_bytes,
    ensures
        base64_before(file, offset, delimiter, max_bytes, length) matches Some(out) ==> {
            let n = base64_length(out.len() as int);
            &&& out.len() == length
            &&& holds_base64(file, offset, out)
            &&& n < max_bytes
            &&& offset + n < file.len()
            &&& file[offset + n] == delimiter
        },
{
    let found = base64_before(file, offset, delimiter, max_bytes, length);
    if found is Some {
        let out = found->0;
        let region = base64_region(file, offset, max_bytes);
        let n = delimiter_index(region, delimiter);
        assert(is_base64_before(file, offset, delimiter, max_bytes, out));
        lemma_delimiter_found(region, delimiter);
        assert(region.take(n) =~= file.subrange(offset, offset + n));
        lemma_encoded_is_held(file, offset, out);
    }
}

/// A ciphertext whose end stands as Base64 in the XMP segment comes out as the EXIF
/// part, then the two datasets of the Photoshop segment, then that end.
pub proof fn law_xmp_segment_completes_the_ciphertext(
    image: Seq<u8>,
    e: int,
    xmp_template_len: int,
    p: int,
    x: int,
    share: Seq<u8>,
    first: Seq<u8>,
    second: Seq<u8>,
    tail: Seq<u8>,
)
    requires
        share.len() == 65027,
        first.len() > 0,
        second.len() > 0,
        tail.len() > 0,
        has_exif_segment(
            image,
            e,
            65027int + first.len() + second.len() + tail.len(),
            65027,
            xmp_template_len,
        ),
        holds_at(image, 465, share),
        has_photoshop_segment(image, p),
        number_at(image, p - 7) > 32800,
        number_at(image, p + 24) == first.len(),
        holds_at(image, p + 26, first),
        number_at(image, p + 26 + first.len() + 3) == second.len(),
        holds_at(image, p + 26 + first.len() + 5, second),
        65492 <= x,
        x + 7 <= p - 7,
        creator_at(image, x),
        forall|j: int| 65492 <= j < x ==> !#[trigger] creator_at(image, j),
        base64_length(tail.len() as int) < 131072,
        x + 8 + base64_length(tail.len() as int) < image.len(),
        holds_base64(image, x + 8, tail),
        image[x + 8 + base64_length(tail.len() as int)] == 0x3C,
    ensures
        bluesky_ciphertext(
            image,
            65027int + first.len() + second.len() + tail.len(),
            xmp_template_len,
        ) == Some(share + first + second + tail),
{
    let size = 65027int + first.len() + second.len() + tail.len();
    lemma_exif_fits(image, e, size as int, 65027, xmp_template_len);
    lemma_photoshop_index(image, p);
    assert(image.subrange(465, 465 + 65027int) =~= share);
    assert(image.subrange(p + 26, p + 26 + first.len()) =~= first);
    let at = p + 26 + first.len() + 3;
    assert(image.subrange(at + 2, at + 2 + second.len()) =~= second);
    let sig = BLUESKY_XMP_CREATOR_SIGNATURE@;
    assert(image[x + 0] == image[x]);
    assert(stands(image, sig, x));
    assert forall|j: int| 65492 <= j < x implies !#[trigger] stands(image, sig, j) by {
        assert(!creator_at(image, j));
        if stands(image, sig, j) {
            assert(sig[0] == image[j + 0]);
            assert(sig[1] == image[j + 1]);
            assert(sig[2] == image[j + 2]);
            assert(sig[3] == image[j + 3]);
            assert(sig[4] == image[j + 4]);
            assert(sig[5] == image[j + 5]);
            assert(sig[6] == image[j + 6]);
        }
    }
    lemma_match_at(image, sig, p - 7, 65492, x);
    assert(xmp_index(image, 65492, p - 7) == Some(x));
    law_base64_text_is_decoded(image, x + 8, 0x3C, 131072, tail);
    assert(bluesky_xmp_tail(image, 65027, p - 7, tail.len() as int) == Some(tail));
    assert(bluesky_overflow(
        image,
        p,
        (first.len() + second.len() + tail.len()) as int,
        65027,
    ) == Some(first + second + tail));
    assert(share + (first + second + tail) =~= share + first + second + tail);
}

/// The EXIF segment whose marker is the first in the metadata has room exactly when it
/// reaches over the 465th byte and the share of the ciphertext behind it, and the
/// segments together hold the ciphertext.
pub proof fn law_exif_room(metadata: Seq<u8>, e: int, size: int, xmp_template_len: int)
    requires
        0 <= e <= 98,
        metadata.len() >= 102,
        metadata[e] == 0xFF,
        metadata[e + 1] == 0xE1,
        forall|j: int|
            0 <= j < e ==> !(#[trigger] metadata[j] == 0xFF && metadata[j + 1] == 0xE1),
        0 <= xmp_template_len,
        0 <= size,
    ensures
        exif_has_room(metadata, size, xmp_template_len) <==> {
            let end = e + 2 + number_at(metadata, e + 2);
            &&& number_at(metadata, e + 2) >= 2
            &&& 465 < end
            &&& 465 + (if size <= 65027 {
                size
            } else {
                65027
            }) <= end
            &&& xmp_template_len < 59941
            &&& size <= 130524 + (59941 - xmp_template_len) / 4 * 3
        },
{
    let header = exif_header(metadata);
    assert(header =~= metadata.take(100));
    let sig = JPEG_EXIF_MARKER@;
    assert(header.subrange(e, e + 2) =~= sig);
    assert forall|j: int| 0 <= j < e implies !occurs_at(header, sig, j) by {
        assert(metadata[j] != 0xFF || metadata[j + 1] != 0xE1);
        if occurs_at(header, sig, j) {
            assert(header.subrange(j, j + 2)[0] == sig[0]);
            assert(header.subrange(j, j + 2)[1] == sig[1]);
        }
    }
    lemma_first_match_at(header, sig, 0, e);
    assert(be16(metadata, e + 2) == number_at(metadata, e + 2));
}

/// A Bluesky image gives nothing where nothing is declared, where it ends in front of
/// the EXIF part, or where more is declared than the segments hold.
pub proof fn law_no_bluesky_ciphertext(image: Seq<u8>, size: int, xmp_template_len: int)
    requires
        0 <= size,
        0 <= xmp_template_len,
    ensures
        size == 0 ==> bluesky_ciphertext(image, size, xmp_template_len) is None,
        image.len() < 465 + (if size < 65027 {
            size
        } else {
            65027
        }) ==> bluesky_ciphertext(image, size, xmp_template_len) is None,
        xmp_template_len >= 59941 || size > 130524 + (59941 - xmp_template_len) / 4 * 3
            ==> bluesky_ciphertext(image, size, xmp_template_len) is None,
{
}

/// What the Photoshop segment holds is refused where the first dataset is empty, longer
/// than what is missing, or cut off, and where there is to be a second one that a
/// segment of up to 32,800 bytes has no room for.
pub proof fn law_broken_datasets(image: Seq<u8>, p: int, missing: int)
    requires
        7 <= p,
        p + 26 <= image.len(),
        0 < missing,
    ensures
        ({
            let n = number_at(image, p + 24);
            let found = bluesky_overflow(image, p, missing, 65027);
            &&& n == 0 || n > missing || p + 26 + n > image.len() ==> found is None
            &&& p - 7 + number_at(image, p - 7) > image.len() ==> found is None
            &&& n < missing && number_at(image, p - 7) <= 32800 ==> found is None
            &&& found matches Some(bytes) ==> bytes.len() >= n && bytes.take(n) == image.subrange(
                p + 26,
                p + 26 + n,
            )
        }),
{
    let n = number_at(image, p + 24);
    let found = bluesky_overflow(image, p, missing, 65027);
    assert(be16(image, p + 24) == n);
    assert(be16(image, p - 7) == number_at(image, p - 7));
    if found is Some {
        let first = image.subrange(p + 26, p + 26 + n);
        assert(found->0.take(n) =~= first);
    }
}

proof fn lemma_no_match(s: Seq<u8>, sig: Seq<u8>, from: int)
    requires
        0 <= from,
        forall|j: int| from <= j ==> !occurs_at(s, sig, j),
    ensures
        first_match(s, sig, from) is None,
    decreases s.len() + 1 - from,
{
    if from + sig.len() <= s.len() && from <= s.len() {
        lemma_no_match(s, sig, from + 1);
    }
}

proof fn lemma_nothing_scanned(image: Seq<u8>, sig: Seq<u8>, limit: int, start: int)
    requires
        0 <= start < limit <= image.len(),
        sig.len() > 0,
        forall|j: int| start <= j && j + sig.len() <= limit ==> !#[trigger] stands(image, sig, j),
    ensures
        match_in_file(image, sig, limit, start) is None,
{
    let part = scanned_part(image, limit, start);
    assert(part =~= image.subrange(start, limit));
    assert forall|j: int| 0 <= j implies !occurs_at(part, sig, j) by {
        if occurs_at(part, sig, j) {
            assert(!stands(image, sig, start + j));
            assert forall|k: int| 0 <= k < sig.len() implies image[start + j + k]
                == #[trigger] sig[k] by {
                assert(part.subrange(j, j + sig.len())[k] == sig[k]);
            }
        }
    }
    lemma_no_match(part, sig, 0);
}

/// Without an EXIF marker among its first hundred bytes, a Bluesky image has no room and
/// gives nothing.
pub proof fn law_no_exif_segment(image: Seq<u8>, size: int, xmp_template_len: int)
    requires
        forall|j: int|
            0 <= j < 99 && j + 1 < image.len() ==> !(#[trigger] image[j] == 0xFF && image[j + 1]
                == 0xE1),
    ensures
        !exif_has_room(image, size, xmp_template_len),
        bluesky_ciphertext(image, size, xmp_template_len) is None,
{
    let header = exif_header(image);
    let sig = JPEG_EXIF_MARKER@;
    assert(exif_header(header) =~= header);
    assert forall|j: int| 0 <= j implies !occurs_at(header, sig, j) by {
        if occurs_at(header, sig, j) {
            assert(header.subrange(j, j + 2)[0] == sig[0]);
            assert(header.subrange(j, j + 2)[1] == sig[1]);
            assert(header[j] == image[j] && header[j + 1] == image[j + 1]);
        }
    }
    lemma_no_match(header, sig, 0);
}

/// More than the EXIF segment holds is not given where no Photoshop signature stands in
/// the 191,105 bytes behind it, or where the first one there is not framed by its marker.
pub proof fn law_no_photoshop_segment(image: Seq<u8>, p: int, size: int, xmp_template_len: int)
    requires
        size > 65027,
    ensures
        (forall|j: int|
            65492 <= j && j + 7 <= image.len() && j + 7 <= 256597 ==> !#[trigger] photoshop_at(
                image,
                j,
            )) ==> bluesky_ciphertext(image, size, xmp_template_len) is None,
        65492 <= p && p + 7 <= image.len() && p + 7 <= 256597 && photoshop_at(image, p) && (
        forall|j: int| 65492 <= j < p ==> !#[trigger] photoshop_at(image, j)) && !(image[p - 9]
            == 0xFF && image[p - 8] == 0xED) ==> bluesky_ciphertext(image, size, xmp_template_len)
            is None,
{
    let sig = BLUESKY_PHOTOSHOP_SIGNATURE@;
    let limit: int = if 256597 < image.len() {
        256597int
    } else {
        image.len() as int
    };
    assert forall|j: int| stands(image, sig, j) implies #[trigger] photoshop_at(image, j) by {
        assert(sig[0] == image[j + 0]);
        assert(sig[1] == image[j + 1]);
        assert(sig[2] == image[j + 2]);
        assert(sig[3] == image[j + 3]);
        assert(sig[4] == image[j + 4]);
        assert(sig[5] == image[j + 5]);
        assert(sig[6] == image[j + 6]);
    }
    if 65492 < image.len() {
        if forall|j: int|
            65492 <= j && j + 7 <= image.len() && j + 7 <= 256597 ==> !#[trigger] photoshop_at(
                image,
                j,
            ) {
            assert forall|j: int| 65492 <= j && j + sig.len() <= limit implies !#[trigger] stands(
                image,
                sig,
                j,
            ) by {
                assert(!photoshop_at(image, j));
            }
            lemma_nothing_scanned(image, sig, limit, 65492);
        }
        if 65492 <= p && p + 7 <= image.len() && p + 7 <= 256597 && photoshop_at(image, p) && (
        forall|j: int| 65492 <= j < p ==> !#[trigger] photoshop_at(image, j)) && !(image[p - 9]
            == 0xFF && image[p - 8] == 0xED) {
            assert(image[p + 0] == image[p]);
            assert(stands(image, sig, p));
            assert forall|j: int| 65492 <= j < p implies !#[trigger] stands(image, sig, j) by {
                assert(!photoshop_at(image, j));
            }
            lemma_match_at(image, sig, limit, 65492, p);
            let part = image.subrange(p - 9, p - 7);
            assert(part[0] == image[p - 9] && part[1] == image[p - 8]);
            assert(JPEG_APP13_MARKER@[0] == 0xFF && JPEG_APP13_MARKER@[1] == 0xED);
        }
    }
}

/// The end of a ciphertext is looked for in front of the Photoshop segment, and its Base64
/// text ends within 128 KiB.
pub proof fn law_xmp_part(image: Seq<u8>, segment: int, length: int)
    requires
        segment <= image.len(),
    ensures
        bluesky_xmp_tail(image, 65027, segment, length) matches Some(tail) ==> tail.len() == length
            && base64_length(length) < 131072,
        (forall|j: int|
            65492 <= j && j + 7 <= segment ==> !#[trigger] creator_at(image, j))
            ==> bluesky_xmp_tail(image, 65027, segment, length) is None,
{
    let sig = BLUESKY_XMP_CREATOR_SIGNATURE@;
    if 65492 < segment {
        let found = match_in_file(image, sig, segment, 65492);
        if found is Some {
            lemma_match_is_behind(image, sig, segment, 65492);
            law_base64_is_canonical(image, found->0 + 8, 0x3C, 131072, length);
        }
        if forall|j: int| 65492 <= j && j + 7 <= segment ==> !#[trigger] creator_at(image, j) {
            assert forall|j: int| 65492 <= j && j + sig.len() <= segment implies !#[trigger] stands(
                image,
                sig,
                j,
            ) by {
                assert(!creator_at(image, j));
                if stands(image, sig, j) {
                    assert(sig[0] == image[j + 0]);
                    assert(sig[1] == image[j + 1]);
                    assert(sig[2] == image[j + 2]);
                    assert(sig[3] == image[j + 3]);
                    assert(sig[4] == image[j + 4]);
                    assert(sig[5] == image[j + 5]);
                    assert(sig[6] == image[j + 6]);
                }
            }
            lemma_nothing_scanned(image, sig, segment, 65492);
        }
    }
}

proof fn lemma_match_is_behind(image: Seq<u8>, sig: Seq<u8>, limit: int, start: int)
    requires
        0 <= start,
    ensures
        match_in_file(image, sig, limit, start) matches Some(i) ==> i >= start,
{
    lemma_first_match_is_behind(scanned_part(image, limit, start), sig, 0);
}

proof fn lemma_first_match_is_behind(s: Seq<u8>, sig: Seq<u8>, from: int)
    ensures
        first_match(s, sig, from) matches Some(i) ==> i >= from,
    decreases s.len() + 1 - from,
{
    if from + sig.len() <= s.len() && from <= s.len() && !occurs_at(s, sig, from) {
        lemma_first_match_is_behind(s, sig, from + 1);
    }
}

} // verus!
