//! From the bytes of an image to the file that recovery gives back.

use super::extraction::{
    has_exif_segment, has_last_segment, holds_at, holds_profile_segments,
    law_exif_segment_gives_the_ciphertext, law_one_segment_gives_the_ciphertext,
    law_profile_segments_give_the_ciphertext, number_at,
};
use super::frames::{law_decrypted_file, law_nothing_of_a_broken_text};
use super::keys::{
    has_bounded_costs, has_metadata, law_authenticated_mode, law_metadata_formats,
    law_recorded_costs, law_recorded_salt_and_header, law_usable_carrier_metadata,
    law_usable_metadata, long_number_at,
};
use super::recovery::{
    law_bluesky_declarations, law_default_declarations, law_default_images,
    law_recovery_results, lemma_same_metadata,
};
use crate::crypto::argon2id_key;
use crate::decimal::decimal;
use crate::decrypt::stream::{open_frames, DecryptStatus, OpenedFrames};
use crate::decrypt::{prepared_outcome, PreparedDecrypt};
use crate::extract::bluesky_ciphertext;
use crate::recover::modes::{
    carrier_may_end, declares_bluesky, declares_icc, icc_error, recovery_outcome, recovery_result,
    PendingRecovery, RecoveredFile, RecoveryFormat,
};
use crate::runtime::JdvrifError;
use crate::zlib::zlib_decode;
use vstd::prelude::*;

verus! {

/// With the metadata at `base`, the ciphertext opens, under the key of the PIN, to these
/// frames; the mode is bound to them.
pub open spec fn opens_with_pin(
    bytes: Seq<u8>,
    base: int,
    pin: u64,
    compressed: bool,
    cipher: Seq<u8>,
) -> OpenedFrames {
    let key = argon2id_key(
        decimal(pin as nat),
        bytes.subrange(base + 8, base + 24),
        long_number_at(bytes, base + 48),
        long_number_at(bytes, base + 52),
        32,
    );
    let mode = if compressed {
        1u8
    } else {
        2u8
    };
    open_frames(seq![key, bytes.subrange(base + 24, base + 48)], Some(seq![mode]), cipher)
}

/// The text of a file: the length of its name, its name, which is a safe one, and its
/// contents, compressed or as they are.
pub open spec fn is_text_of(
    text: Seq<u8>,
    compressed: bool,
    name: Seq<u8>,
    payload: Seq<u8>,
    data: Seq<u8>,
) -> bool {
    &&& 1 <= name.len() <= 255
    &&& name[0] != 0x2E
    &&& name[0] != 0x2D
    &&& forall|i: int|
        0 <= i < name.len() ==> #[trigger] name[i] >= 0x20 && name[i] != 0x7F && name[i] != 0x2F
            && name[i] != 0x5C
    &&& text == seq![name.len() as u8] + name + payload
    &&& 0 < data.len() <= 3221225472
    &&& if compressed {
        zlib_decode(payload) == Some(data)
    } else {
        payload == data
    }
}

/// The recovery gave back this file, or the key could not be derived for want of memory.
pub open spec fn is_given_back(
    r: Result<RecoveredFile, JdvrifError>,
    name: Seq<u8>,
    data: Seq<u8>,
) -> bool {
    match r {
        Ok(file) => file.filename@ == name && file.contents@ == data,
        Err(e) => e == JdvrifError::KeyDerivation,
    }
}

proof fn lemma_prepared(
    bytes: Seq<u8>,
    base: int,
    pin: u64,
    compressed: bool,
    cipher: Seq<u8>,
    prepared: PreparedDecrypt,
)
    requires
        0 <= base,
        has_metadata(bytes, base, 0x34),
        has_bounded_costs(bytes, base),
        prepared.comes_from(bytes, base, pin),
    ensures
        open_frames(
            seq![prepared.key@, prepared.header@],
            crate::decrypt::stream::frame_ad(prepared.metadata_version, compressed),
            cipher,
        ) == opens_with_pin(bytes, base, pin, compressed, cipher),
{
    law_metadata_formats(bytes, base);
    law_recorded_costs(bytes, base);
    law_recorded_salt_and_header(bytes, base);
    law_authenticated_mode(prepared.metadata_version);
}

proof fn lemma_outcome(
    bytes: Seq<u8>,
    base: int,
    pin: u64,
    compressed: bool,
    cipher: Seq<u8>,
    prepared: PreparedDecrypt,
    text: Seq<u8>,
    name: Seq<u8>,
    payload: Seq<u8>,
    data: Seq<u8>,
    r: Result<RecoveredFile, JdvrifError>,
)
    requires
        0 <= base,
        cipher.len() > 0,
        has_metadata(bytes, base, 0x34),
        has_bounded_costs(bytes, base),
        prepared.comes_from(bytes, base, pin),
        recovery_outcome(prepared, Ok(cipher), compressed, r),
        is_text_of(text, compressed, name, payload, data),
        opens_with_pin(bytes, base, pin, compressed, cipher) == (OpenedFrames {
            text,
            complete: true,
        }),
    ensures
        r matches Ok(file) && file.filename@ == name && file.contents@ == data,
{
    lemma_prepared(bytes, base, pin, compressed, cipher, prepared);
    let status = choose|status: Result<DecryptStatus, JdvrifError>|
        {
            &&& #[trigger] prepared_outcome(prepared, compressed, cipher, status)
            &&& recovery_result(status, r)
        };
    assert(prepared_outcome(prepared, compressed, cipher, status));
    law_decrypted_file(name, payload, text, compressed, status);
    law_recovery_results(status, r, name, data);
}

/// A default image in bytes gives back its file: the metadata stand at 787, the size of
/// what is stored at 738, the number of segments at 736, the mark of a payload that is
/// stored as it is at 128, and the ciphertext from 851 on, cut up by `n` profile headers.
pub proof fn law_default_image_in_bytes(
    image: Seq<u8>,
    pin: u64,
    cipher: Seq<u8>,
    n: int,
    text: Seq<u8>,
    name: Seq<u8>,
    payload: Seq<u8>,
    data: Seq<u8>,
    pending: PendingRecovery,
    xmp_template_len: int,
    r: Result<RecoveredFile, JdvrifError>,
)
    requires
        0 <= n,
        image.len() >= 851,
        has_metadata(image.take(851), 787, 0x34),
        has_bounded_costs(image.take(851), 787),
        21 <= cipher.len() + 18 * n <= 2199912448,
        cipher.len() > 0,
        long_number_at(image, 738) == cipher.len() + 18 * n,
        number_at(image, 736) == (if n == 0 {
            0
        } else {
            n + 1
        }),
        n == 0 ==> holds_at(image, 851, cipher),
        n > 0 ==> 64688 + 65519 * (n - 1) < cipher.len() <= 64688 + 65519 * n
            && holds_profile_segments(image, 24, cipher, n) && has_last_segment(image, 24, n + 1),
        opens_with_pin(image.take(851), 787, pin, image[128] != 0x58, cipher) == (OpenedFrames {
            text,
            complete: true,
        }),
        is_text_of(text, image[128] != 0x58, name, payload, data),
        declares_icc(pending, image),
        pending.may_end(image, pin, xmp_template_len, r),
    ensures
        icc_error(image, 32) is None,
        is_given_back(r, name, data),
{
    law_default_images(image, 32);
    law_default_declarations(image, pending);
    let metadata = pending.metadata@;
    let head = image.take(851);
    let compressed = image[128] != 0x58;
    law_usable_metadata(metadata, false);
    assert forall|i: int| 763 <= i < 763 + 56 implies #[trigger] metadata[i] == head[i - 763
        + 787] by {
        assert(metadata[i] == image[24 + i]);
    }
    lemma_same_metadata(metadata, 763, head, 787);
    assert(has_metadata(metadata, 763, 0x34) == has_metadata(head, 787, 0x34));
    assert(metadata.subrange(771, 787) =~= head.subrange(795, 811));
    assert(metadata.subrange(787, 811) =~= head.subrange(811, 835));
    lemma_same_costs(metadata, 763, head, 787);
    assert(opens_with_pin(metadata, 763, pin, compressed, cipher) == opens_with_pin(
        head,
        787,
        pin,
        compressed,
        cipher,
    ));
    if n == 0 {
        assert forall|j: int| 0 <= j < cipher.len() implies #[trigger] cipher[j] == image[24 + 827
            + j] by {}
        law_one_segment_gives_the_ciphertext(image, 24, cipher);
    } else {
        law_profile_segments_give_the_ciphertext(image, 24, cipher, n, n + 1);
    }
    assert(pending.ciphertext(image, xmp_template_len) == Ok::<Seq<u8>, JdvrifError>(cipher));
    if !(r matches Err(e) && e is KeyDerivation) {
        let prepared = choose|prepared: PreparedDecrypt|
            {
                &&& #[trigger] prepared.comes_from(metadata, 763, pin)
                &&& recovery_outcome(
                    prepared,
                    pending.ciphertext(image, xmp_template_len),
                    compressed,
                    r,
                )
            };
        lemma_outcome(
            metadata,
            763,
            pin,
            compressed,
            cipher,
            prepared,
            text,
            name,
            payload,
            data,
            r,
        );
    }
}

proof fn lemma_same_costs(a: Seq<u8>, i: int, b: Seq<u8>, j: int)
    requires
        forall|k: int| i <= k < i + 56 ==> #[trigger] a[k] == b[k - i + j],
    ensures
        long_number_at(a, i + 48) == long_number_at(b, j + 48),
        long_number_at(a, i + 52) == long_number_at(b, j + 52),
{
    assert(a[i + 48] == b[j + 48] && a[i + 49] == b[j + 49] && a[i + 50] == b[j + 50] && a[i + 51]
        == b[j + 51]);
    assert(a[i + 52] == b[j + 52] && a[i + 53] == b[j + 53] && a[i + 54] == b[j + 54] && a[i + 55]
        == b[j + 55]);
}

/// A Bluesky image in bytes gives back its file: the metadata stand at 397, the size of
/// the ciphertext at 461 and the ciphertext from 465 on, as far as the EXIF segment goes.
/// The payload is compressed.
pub proof fn law_bluesky_image_in_bytes(
    image: Seq<u8>,
    e: int,
    pin: u64,
    cipher: Seq<u8>,
    text: Seq<u8>,
    name: Seq<u8>,
    payload: Seq<u8>,
    data: Seq<u8>,
    pending: PendingRecovery,
    xmp_template_len: int,
    r: Result<RecoveredFile, JdvrifError>,
)
    requires
        image.len() >= 465,
        has_metadata(image.take(465), 397, 0x34),
        has_bounded_costs(image.take(465), 397),
        21 <= cipher.len() <= 65027,
        long_number_at(image, 461) == cipher.len(),
        has_exif_segment(image, e, cipher.len() as int, cipher.len() as int, xmp_template_len),
        holds_at(image, 465, cipher),
        opens_with_pin(image.take(465), 397, pin, true, cipher) == (OpenedFrames {
            text,
            complete: true,
        }),
        is_text_of(text, true, name, payload, data),
        declares_bluesky(pending, image),
        pending.may_end(image, pin, xmp_template_len, r),
    ensures
        is_given_back(r, name, data),
{
    law_bluesky_declarations(image, pending);
    let metadata = pending.metadata@;
    law_usable_metadata(metadata, true);
    law_exif_segment_gives_the_ciphertext(image, e, xmp_template_len, cipher);
    assert(pending.ciphertext(image, xmp_template_len) == Ok::<Seq<u8>, JdvrifError>(cipher));
    if !(r matches Err(e) && e is KeyDerivation) {
        let prepared = choose|prepared: PreparedDecrypt|
            {
                &&& #[trigger] prepared.comes_from(metadata, 397, pin)
                &&& recovery_outcome(
                    prepared,
                    pending.ciphertext(image, xmp_template_len),
                    true,
                    r,
                )
            };
        lemma_outcome(metadata, 397, pin, true, cipher, prepared, text, name, payload, data, r);
    }
}

/// What a carrier holds gives back its file: 56 bytes of metadata, a ciphertext within
/// the limits of the platform, and whether the payload is compressed.
pub proof fn law_carrier_in_bytes(
    metadata: Seq<u8>,
    pin: u64,
    cipher: Seq<u8>,
    compressed: bool,
    format: RecoveryFormat,
    text: Seq<u8>,
    name: Seq<u8>,
    payload: Seq<u8>,
    data: Seq<u8>,
    r: Result<RecoveredFile, JdvrifError>,
)
    requires
        metadata.len() == 56,
        has_metadata(metadata, 0, 0x34),
        has_bounded_costs(metadata, 0),
        format is Reddit && 21 <= cipher.len() <= 20971520 || format is Twitter && 21
            <= cipher.len() <= 5242880,
        opens_with_pin(metadata, 0, pin, compressed, cipher) == (OpenedFrames {
            text,
            complete: true,
        }),
        is_text_of(text, compressed, name, payload, data),
        carrier_may_end(metadata, cipher, compressed, pin, format, r),
    ensures
        is_given_back(r, name, data),
{
    law_usable_carrier_metadata(metadata);
    if !(r matches Err(e) && e is KeyDerivation) {
        let prepared = choose|prepared: PreparedDecrypt|
            {
                &&& #[trigger] prepared.comes_from(metadata, 0, pin)
                &&& recovery_outcome(prepared, Ok(cipher), compressed, r)
            };
        lemma_outcome(metadata, 0, pin, compressed, cipher, prepared, text, name, payload, data, r);
    }
}

/// Nothing comes out with a PIN whose key does not open the first frame: whatever the
/// ciphertext of a default image, the answer is that the PIN is invalid, unless the key
/// could not be derived.
pub proof fn law_wrong_pin(
    image: Seq<u8>,
    pin: u64,
    cipher: Seq<u8>,
    pending: PendingRecovery,
    xmp_template_len: int,
    r: Result<RecoveredFile, JdvrifError>,
)
    requires
        image.len() >= 851,
        has_metadata(image.take(851), 787, 0x34),
        has_bounded_costs(image.take(851), 787),
        cipher.len() > 0,
        long_number_at(image, 738) == cipher.len(),
        number_at(image, 736) == 0,
        holds_at(image, 851, cipher),
        opens_with_pin(image.take(851), 787, pin, image[128] != 0x58, cipher).text.len() == 0,
        !opens_with_pin(image.take(851), 787, pin, image[128] != 0x58, cipher).complete,
        declares_icc(pending, image),
        pending.may_end(image, pin, xmp_template_len, r),
    ensures
        r matches Err(e) && (e == JdvrifError::InvalidPin || e == JdvrifError::KeyDerivation),
{
    law_default_declarations(image, pending);
    let metadata = pending.metadata@;
    let head = image.take(851);
    let compressed = image[128] != 0x58;
    law_usable_metadata(metadata, false);
    assert forall|i: int| 763 <= i < 763 + 56 implies #[trigger] metadata[i] == head[i - 763
        + 787] by {
        assert(metadata[i] == image[24 + i]);
    }
    lemma_same_metadata(metadata, 763, head, 787);
    assert(has_metadata(metadata, 763, 0x34) == has_metadata(head, 787, 0x34));
    assert(metadata.subrange(771, 787) =~= head.subrange(795, 811));
    assert(metadata.subrange(787, 811) =~= head.subrange(811, 835));
    lemma_same_costs(metadata, 763, head, 787);
    assert forall|j: int| 0 <= j < cipher.len() implies #[trigger] cipher[j] == image[24 + 827
        + j] by {}
    law_one_segment_gives_the_ciphertext(image, 24, cipher);
    if !(r matches Err(e) && e is KeyDerivation) {
        let prepared = choose|prepared: PreparedDecrypt|
            {
                &&& #[trigger] prepared.comes_from(metadata, 763, pin)
                &&& recovery_outcome(
                    prepared,
                    pending.ciphertext(image, xmp_template_len),
                    compressed,
                    r,
                )
            };
        lemma_prepared(metadata, 763, pin, compressed, cipher, prepared);
        let status = choose|status: Result<DecryptStatus, JdvrifError>|
            {
                &&& #[trigger] prepared_outcome(prepared, compressed, cipher, status)
                &&& recovery_result(status, r)
            };
        assert(prepared_outcome(prepared, compressed, cipher, status));
        law_nothing_of_a_broken_text(
            opens_with_pin(metadata, 763, pin, compressed, cipher),
            compressed,
            status,
        );
    }
}

/// What a carrier holds is refused by its size first, then by its metadata: nothing at
/// all, less than a frame, more than the platform takes; metadata of another length, of
/// another format, with other costs.
pub proof fn law_carrier_refusals(
    metadata: Seq<u8>,
    pin: u64,
    cipher: Seq<u8>,
    compressed: bool,
    format: RecoveryFormat,
    r: Result<RecoveredFile, JdvrifError>,
)
    requires
        format is Reddit || format is Twitter,
        carrier_may_end(metadata, cipher, compressed, pin, format, r),
    ensures
        ({
            let most = if format is Reddit {
                20971520int
            } else {
                5242880
            };
            let fits = 21 <= cipher.len() <= most;
            let binds = has_metadata(metadata, 0, 0x33) || has_metadata(metadata, 0, 0x34);
            &&& cipher.len() == 0 ==> (r matches Err(e) && e is EmbeddedFileEmpty)
            &&& 1 <= cipher.len() <= 20 ==> (r matches Err(e) && e is CorruptFile)
            &&& cipher.len() > most ==> (r matches Err(e) && e is DeclaredSizeTooLarge)
            &&& fits && metadata.len() != 56 ==> (r matches Err(e) && e is CorruptFile)
            &&& fits && metadata.len() == 56 && !binds ==> (r matches Err(e)
                && e is CarrierMetadata)
            &&& fits && metadata.len() == 56 && has_metadata(metadata, 0, 0x34)
                && !has_bounded_costs(metadata, 0) ==> (r matches Err(e)
                && e is UnsupportedKdfParameters)
        }),
{
    law_usable_carrier_metadata(metadata);
    law_metadata_formats(metadata, 0);
    law_recorded_costs(metadata, 0);
}

/// An image that does not hold what it declares is answered with the error of the
/// extraction; metadata that are not fit to be used are answered first.
pub proof fn law_image_refusals(
    pending: PendingRecovery,
    image: Seq<u8>,
    pin: u64,
    xmp_template_len: int,
    r: Result<RecoveredFile, JdvrifError>,
)
    requires
        pending.may_end(image, pin, xmp_template_len, r),
    ensures
        ({
            let base = if pending.is_bluesky_file {
                397int
            } else {
                763
            };
            let metadata = pending.metadata@;
            let known = has_metadata(metadata, base, 0x32) || has_metadata(metadata, base, 0x33)
                || has_metadata(metadata, base, 0x34);
            &&& base + 56 > metadata.len() ==> (r matches Err(e) && e is CorruptFile)
            &&& base + 56 <= metadata.len() && !known ==> (r matches Err(e)
                && e is UnsupportedLegacyFormat)
            &&& has_metadata(metadata, base, 0x34) && !has_bounded_costs(metadata, base) ==> (
            r matches Err(e) && e is UnsupportedKdfParameters)
            &&& has_metadata(metadata, base, 0x34) && has_bounded_costs(metadata, base) ==> {
                &&& !pending.is_bluesky_file && 851 + pending.embedded_file_size > image.len() ==> (
                r matches Err(e) && (e is CorruptFile || e is KeyDerivation))
                &&& pending.is_bluesky_file && bluesky_ciphertext(
                    image,
                    pending.embedded_file_size as int,
                    xmp_template_len,
                ) is None ==> (r matches Err(e) && (e is CorruptFile || e is KeyDerivation))
            }
        }),
{
    law_usable_metadata(pending.metadata@, pending.is_bluesky_file);
    let base = if pending.is_bluesky_file {
        397int
    } else {
        763
    };
    law_metadata_formats(pending.metadata@, base);
}

} // verus!
