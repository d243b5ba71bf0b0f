//! Recovery by the bytes of the image: which format it is in, what it declares, and
//! what is found in it first.

use super::keys::{
    has_bounded_costs, has_metadata, law_usable_metadata, long_number_at,
};
use crate::common::occurs_at;
use crate::constants::{ICC_PROFILE_SIG, JDVRIF_SIG};
use crate::decrypt::stream::DecryptStatus;
use crate::extract::{exif_has_room, match_in_file};
use crate::recover::modes::{
    bluesky_error, bluesky_metadata, declares_bluesky, declares_icc, icc_error, icc_metadata,
    recovery_result, PendingRecovery, RecoveredFile,
};
use crate::recover::{bluesky_search_limit, has_icc_signatures};
use crate::runtime::JdvrifError;
use crate::scan::{is_match_in_file, is_pair_match, scanned_part};
use vstd::prelude::*;

verus! {

/// `bytes` stand in `s` at `i`.
pub open spec fn stands_at(s: Seq<u8>, bytes: Seq<u8>, i: int) -> bool {
    &&& 0 <= i
    &&& i + bytes.len() <= s.len()
    &&& forall|k: int| 0 <= k < bytes.len() ==> #[trigger] bytes[k] == s[i + k]
}

proof fn lemma_stands_at(s: Seq<u8>, bytes: Seq<u8>, i: int)
    ensures
        occurs_at(s, bytes, i) <==> stands_at(s, bytes, i),
{
    if stands_at(s, bytes, i) {
        assert(s.subrange(i, i + bytes.len()) =~= bytes);
    }
    if occurs_at(s, bytes, i) {
        assert forall|k: int| 0 <= k < bytes.len() implies #[trigger] bytes[k] == s[i + k] by {
            assert(s.subrange(i, i + bytes.len())[k] == s[i + k]);
        }
    }
}

/// Where a scan with this limit ends: zero is no limit.
pub open spec fn end_of_scan(len: int, limit: int) -> int {
    if limit == 0 {
        len
    } else if limit < len {
        limit
    } else {
        len
    }
}

proof fn lemma_part(file: Seq<u8>, sig: Seq<u8>, limit: int, start: int, i: int)
    requires
        sig.len() > 0,
        0 <= start,
        0 <= limit,
        start <= i,
    ensures
        occurs_at(scanned_part(file, limit, start), sig, i - start) <==> stands_at(file, sig, i)
            && i + sig.len() <= end_of_scan(file.len() as int, limit),
{
    let part = scanned_part(file, limit, start);
    lemma_stands_at(part, sig, i - start);
    if start < end_of_scan(file.len() as int, limit) {
        if stands_at(part, sig, i - start) {
            assert forall|k: int| 0 <= k < sig.len() implies #[trigger] sig[k] == file[i + k] by {
                assert(part[i - start + k] == file[i + k]);
            }
        }
        if stands_at(file, sig, i) && i + sig.len() <= end_of_scan(file.len() as int, limit) {
            assert forall|k: int| 0 <= k < sig.len() implies #[trigger] sig[k] == part[i - start
                + k] by {
                assert(part[i - start + k] == file[i + k]);
            }
        }
    }
}

/// A scan finds the first place from its start on where the signature stands wholly in
/// front of its end, and nothing exactly where there is none.
pub proof fn law_scan_finds_the_first(
    file: Seq<u8>,
    sig: Seq<u8>,
    limit: int,
    start: int,
    r: Option<usize>,
)
    requires
        sig.len() > 0,
        0 <= start,
        0 <= limit,
        is_match_in_file(file, sig, limit, start, r),
    ensures
        match r {
            Some(i) => {
                &&& start <= i
                &&& stands_at(file, sig, i as int)
                &&& i + sig.len() <= end_of_scan(file.len() as int, limit)
                &&& forall|j: int|
                    start <= j < i ==> !#[trigger] stands_at(file, sig, j)
            },
            None => forall|j: int|
                start <= j && j + sig.len() <= end_of_scan(file.len() as int, limit)
                    ==> !#[trigger] stands_at(file, sig, j),
        },
{
    let part = scanned_part(file, limit, start);
    match r {
        Some(i) => {
            lemma_part(file, sig, limit, start, i as int);
            assert forall|j: int| start <= j < i implies !#[trigger] stands_at(file, sig, j) by {
                lemma_part(file, sig, limit, start, j);
                assert(!occurs_at(part, sig, j - start));
            }
        },
        None => {
            assert forall|j: int|
                start <= j && j + sig.len() <= end_of_scan(
                    file.len() as int,
                    limit,
                ) implies !#[trigger] stands_at(file, sig, j) by {
                lemma_part(file, sig, limit, start, j);
                assert(!occurs_at(part, sig, j - start));
            }
        },
    }
}

/// A scan for two signatures at a distance finds the first place of the one that has
/// the other behind it.
pub proof fn law_pair_scan_finds_the_first(
    file: Seq<u8>,
    first: Seq<u8>,
    second: Seq<u8>,
    offset: int,
    r: Option<usize>,
)
    requires
        is_pair_match(file, first, second, offset, r),
    ensures
        match r {
            Some(i) => {
                &&& stands_at(file, first, i as int)
                &&& stands_at(file, second, i + offset)
                &&& forall|j: int|
                    0 <= j < i ==> !(#[trigger] stands_at(file, first, j) && stands_at(
                        file,
                        second,
                        j + offset,
                    ))
            },
            None => forall|j: int|
                !(#[trigger] stands_at(file, first, j) && stands_at(file, second, j + offset)),
        },
{
    match r {
        Some(i) => {
            lemma_stands_at(file, first, i as int);
            lemma_stands_at(file, second, i + offset);
            assert forall|j: int| 0 <= j < i implies !(#[trigger] stands_at(file, first, j)
                && stands_at(file, second, j + offset)) by {
                lemma_stands_at(file, first, j);
                lemma_stands_at(file, second, j + offset);
                assert(!crate::scan::pair_occurs_at(file, first, second, offset, j));
            }
        },
        None => {
            assert forall|j: int| !(#[trigger] stands_at(file, first, j) && stands_at(
                file,
                second,
                j + offset,
            )) by {
                lemma_stands_at(file, first, j);
                lemma_stands_at(file, second, j + offset);
                assert(!crate::scan::pair_occurs_at(file, first, second, offset, j));
            }
        },
    }
}

/// The signature of this program.
pub open spec fn signature() -> Seq<u8> {
    seq![0xB4u8, 0x6Au8, 0x3Eu8, 0xEAu8, 0x5Eu8, 0x9Du8, 0xF9u8]
}

/// A default image bears "mntrRGB" at 32 and the signature at 843.
pub proof fn law_default_signatures(image: Seq<u8>)
    ensures
        has_icc_signatures(image) <==> stands_at(
            image,
            seq![0x6Du8, 0x6Eu8, 0x74u8, 0x72u8, 0x52u8, 0x47u8, 0x42u8],
            32,
        ) && stands_at(image, signature(), 843),
{
    let icc: [u8; 7] = ICC_PROFILE_SIG;
    let own: [u8; 7] = JDVRIF_SIG;
    assert(icc@ =~= seq![0x6Du8, 0x6Eu8, 0x74u8, 0x72u8, 0x52u8, 0x47u8, 0x42u8]);
    assert(own@ =~= signature());
    lemma_stands_at(image, icc@, 32);
    lemma_stands_at(image, own@, 843);
}

/// A Bluesky image bears the signature within its first 465 bytes; the first place
/// counts.
pub proof fn law_bluesky_signature(image: Seq<u8>, i: int)
    requires
        stands_at(image, signature(), i),
        i + 7 <= 465,
        forall|j: int| 0 <= j < i ==> !#[trigger] stands_at(image, signature(), j),
    ensures
        match_in_file(image, JDVRIF_SIG@, bluesky_search_limit(image.len() as int), 0) == Some(i),
{
    let own: [u8; 7] = JDVRIF_SIG;
    assert(own@ =~= signature());
    let limit = bluesky_search_limit(image.len() as int);
    let r = Some(i as usize);
    assert(is_match_in_file(image, own@, limit, 0, r)) by {
        let part = scanned_part(image, limit, 0);
        lemma_part(image, own@, limit, 0, i);
        assert forall|j: int| 0 <= j < i - 0 implies !occurs_at(part, own@, j) by {
            lemma_part(image, own@, limit, 0, j);
            assert(!stands_at(image, signature(), j));
        }
    }
    crate::extract::lemma_match_in_file(image, own@, limit, 0, r);
}

/// An image without the signature in its first 465 bytes is no Bluesky image.
pub proof fn law_no_bluesky_signature(image: Seq<u8>)
    requires
        forall|j: int| 0 <= j && j + 7 <= 465 ==> !#[trigger] stands_at(image, signature(), j),
    ensures
        match_in_file(image, JDVRIF_SIG@, bluesky_search_limit(image.len() as int), 0) is None,
{
    let own: [u8; 7] = JDVRIF_SIG;
    assert(own@ =~= signature());
    let limit = bluesky_search_limit(image.len() as int);
    let r: Option<usize> = None;
    assert(is_match_in_file(image, own@, limit, 0, r)) by {
        let part = scanned_part(image, limit, 0);
        assert forall|j: int| !occurs_at(part, own@, j) by {
            if 0 <= j {
                lemma_part(image, own@, limit, 0, j);
                if j + 7 <= 465 {
                    assert(!stands_at(image, signature(), j));
                }
            }
        }
    }
    crate::extract::lemma_match_in_file(image, own@, limit, 0, r);
}

/// What a default image declares, by the places in the image: at 128 whether the
/// payload is stored as it is, at 736 the number of profile headers, at 738 the size of
/// the ciphertext, at 787 the encryption metadata.
pub proof fn law_default_declarations(image: Seq<u8>, pending: PendingRecovery)
    requires
        image.len() >= 851,
        declares_icc(pending, image),
    ensures
        !pending.is_bluesky_file,
        pending.metadata@ == image.subrange(24, 851),
        pending.is_data_compressed <==> image[128] != 0x58,
        pending.total_profile_header_segments == image[736] * 256 + image[737],
        pending.embedded_file_size == long_number_at(image, 738),
{
    let metadata = icc_metadata(image);
    assert(metadata[104] == image[128]);
    assert(metadata[0x2C8] == image[736] && metadata[0x2C9] == image[737]);
    assert(metadata[0x2CA] == image[738] && metadata[0x2CB] == image[739] && metadata[0x2CC]
        == image[740] && metadata[0x2CD] == image[741]);
}

/// A default image is fit to be recovered exactly when it reaches to the ciphertext,
/// declares from 21 bytes to 2 GiB and 50 MiB of it, and has usable metadata at 787. A
/// profile at any other place is refused.
pub proof fn law_default_images(image: Seq<u8>, at: int)
    ensures
        icc_error(image, 32) is None <==> image.len() >= 851 && 21 <= long_number_at(image, 738)
            <= 2199912448 && (has_metadata(image.take(851), 787, 0x32) || has_metadata(
            image.take(851),
            787,
            0x33,
        ) || has_metadata(image.take(851), 787, 0x34) && has_bounded_costs(image.take(851), 787)),
        image.len() < 851 ==> icc_error(image, 32) == Some(JdvrifError::CorruptFile),
        at < 8 ==> icc_error(image, at) == Some(JdvrifError::CorruptIccMetadata),
        at >= 8 && at != 32 ==> icc_error(image, at) == Some(
            JdvrifError::UnsupportedProfileLayout,
        ),
{
    if image.len() >= 851 {
        let metadata = icc_metadata(image);
        let head = image.take(851);
        assert(metadata[0x2CA] == image[738] && metadata[0x2CB] == image[739] && metadata[0x2CC]
            == image[740] && metadata[0x2CD] == image[741]);
        law_usable_metadata(metadata, false);
        assert forall|i: int| 763 <= i < 763 + 56 implies #[trigger] metadata[i] == head[24 + i] by {
            assert(metadata[i] == image[24 + i]);
        }
        lemma_same_metadata(metadata, 763, head, 787);
    }
}

pub(crate) proof fn lemma_same_metadata(a: Seq<u8>, i: int, b: Seq<u8>, j: int)
    requires
        i + 56 <= a.len(),
        j + 56 <= b.len(),
        forall|k: int| i <= k < i + 56 ==> #[trigger] a[k] == b[k - i + j],
    ensures
        forall|digit: u8| has_metadata(a, i, digit) == #[trigger] has_metadata(b, j, digit),
        has_bounded_costs(a, i) == has_bounded_costs(b, j),
{
    assert(a[i] == b[j] && a[i + 1] == b[j + 1] && a[i + 2] == b[j + 2] && a[i + 3] == b[j + 3]
        && a[i + 4] == b[j + 4] && a[i + 5] == b[j + 5]);
    assert(a[i + 48] == b[j + 48] && a[i + 49] == b[j + 49] && a[i + 50] == b[j + 50] && a[i + 51]
        == b[j + 51]);
    assert(a[i + 52] == b[j + 52] && a[i + 53] == b[j + 53] && a[i + 54] == b[j + 54] && a[i + 55]
        == b[j + 55]);
}

/// What a Bluesky image declares: the size of the ciphertext stands at 461, in front of
/// the ciphertext itself; the payload is compressed.
pub proof fn law_bluesky_declarations(image: Seq<u8>, pending: PendingRecovery)
    requires
        image.len() >= 465,
        declares_bluesky(pending, image),
    ensures
        pending.is_bluesky_file,
        pending.is_data_compressed,
        pending.metadata@ == image.take(465),
        pending.embedded_file_size == long_number_at(image, 461),
        pending.total_profile_header_segments == 0,
{
    let metadata = bluesky_metadata(image);
    assert(metadata[461] == image[461] && metadata[462] == image[462] && metadata[463]
        == image[463] && metadata[464] == image[464]);
}

/// A Bluesky image is fit to be recovered exactly when the signature stands in front of
/// the ciphertext, it declares from 21 bytes to 2 MiB of ciphertext, its EXIF segment
/// has the room, and it has usable metadata at 397.
pub proof fn law_bluesky_images(image: Seq<u8>, sig_at: int, xmp_template_len: int)
    requires
        image.len() >= 465,
    ensures
        bluesky_error(image, sig_at, signature(), xmp_template_len) is None <==> {
            let head = image.take(465);
            &&& stands_at(head, signature(), sig_at)
            &&& 21 <= long_number_at(image, 461) <= 2097152
            &&& exif_has_room(head, long_number_at(image, 461), xmp_template_len)
            &&& has_metadata(head, 397, 0x32) || has_metadata(head, 397, 0x33) || has_metadata(
                head,
                397,
                0x34,
            ) && has_bounded_costs(head, 397)
        },
{
    let head = bluesky_metadata(image);
    assert(head[461] == image[461] && head[462] == image[462] && head[463] == image[463]
        && head[464] == image[464]);
    lemma_stands_at(head, signature(), sig_at);
    law_usable_metadata(head, true);
}

/// A recovery gives the decrypted file under its name, unless that is unsafe; what did
/// not decrypt is answered as an invalid PIN, and any other error passed on.
pub proof fn law_recovery_results(
    status: Result<DecryptStatus, JdvrifError>,
    r: Result<RecoveredFile, JdvrifError>,
    name: Seq<u8>,
    data: Seq<u8>,
)
    requires
        recovery_result(status, r),
    ensures
        (status matches Ok(s) && s is FailedPin) ==> (r matches Err(e) && e is InvalidPin),
        (status matches Ok(s) && s.is_file(name, data)) && name.len() > 0 && name[0] != 0x2E
            && name[0] != 0x2D && (forall|i: int|
            0 <= i < name.len() ==> #[trigger] name[i] >= 0x20 && name[i] != 0x7F && name[i] != 0x2F
                && name[i] != 0x5C) ==> (r matches Ok(file) && file.filename@ == name
            && file.contents@ == data),
        (status matches Ok(s) && s.is_file(name, data)) && (name.len() == 0 || name[0] == 0x2E
            || name[0] == 0x2D || exists|i: int|
            0 <= i < name.len() && (#[trigger] name[i] < 0x20 || name[i] == 0x7F || name[i] == 0x2F
                || name[i] == 0x5C)) ==> (r matches Err(e) && e is RecoveredFilenameUnsafe),
        status matches Err(e) ==> r matches Err(error) && error == e,
{
    super::names::law_safe_names(name);
}

} // verus!
