//! Concealing a file: everything between the prepared cover image and the
//! finished segments.

use crate::cli::ConcealOption;
use crate::common::{append, be16, be32, occurs_at, span_has_range};
use crate::conceal_helpers::{
    bypasses_compression, combined_size_error, compression_level, generate_recovery_pin,
    stores_raw, validate_combined_size_limits, zlib_compress,
};
use crate::constants::{
    stream_mode, stream_mode_byte, BASE_OFFSET_DEFAULT, BLUESKY_KDF_METADATA_INDEX,
    DATA_FILENAME_MAX_LENGTH, DEFAULT_ICC_SIG_INDEX_ABS,
    DEFAULT_KDF_METADATA_INDEX, KDF_METADATA_REGION_BYTES, KDF_SALT_BYTES, NO_ZLIB_COMPRESSION_ID,
    NO_ZLIB_COMPRESSION_ID_INDEX, REDDIT_UPLOAD_SIZE_LIMIT, STREAM_INFLATE_MAX_OUTPUT,
    TWITTER_UPLOAD_SIZE_LIMIT,
};
use crate::crypto::{randombytes_into, wipe_vec_capacity};
use crate::decrypt::kdf::{
    current_kdf_params, derive_key_from_pin, fill_kdf_metadata, kdf_params, kdf_params_current,
    kdf_version, law_kdf_metadata_read_back, lemma_with_kdf_v4, metadata_base, pin_key,
    random_kdf_filler, recorded_header, recorded_salt, records_kdf_v4, same_but_region,
    with_kdf_v4,
};
use crate::decrypt::prefix::{lemma_with_name, with_name};
use crate::decrypt::stream::{
    decrypt_outcome, frame_ad, open_frames, DecryptStatus, OpenedFrames,
};
use crate::decrypt::{prepared_outcome, PreparedDecrypt};
use crate::encrypt::{
    encrypt_with_secretstream, encrypted_size, estimate_prefixed_stream_encrypted_size, sealed,
    EncryptedPayload,
};
use crate::filename::{is_safe_filename, path_file_name, validate_data_filename};
use crate::extract::{
    bluesky_ciphertext, exif_has_room, law_profile_headers_come_out, lemma_headers_grow,
    segments_error, with_profile_headers, BLUESKY_ENCRYPTED_FILE_START_INDEX,
    ENCRYPTED_FILE_START_INDEX, FIRST_PROFILE_HEADER_INDEX, PROFILE_HEADER_DISTANCE,
    PROFILE_HEADER_LENGTH,
};
use crate::recover::modes::{
    bluesky_error, bluesky_metadata, carrier_may_end, declares_bluesky, declares_icc, icc_error,
    icc_metadata, max_cipher_size, recovery_outcome, recovery_result, PendingRecovery,
    RecoveredFile, RecoveryFormat, BLUESKY_FILE_SIZE_INDEX, COMPRESSION_MARKER_INDEX,
    DEFAULT_FILE_SIZE_INDEX, TOTAL_PROFILE_HEADER_SEGMENTS_INDEX,
};
use crate::runtime::{JdvrifError, KdfMetadataVersion, KdfParams};
use crate::zlib::{zlib_decode, zlib_encode};
use vstd::prelude::*;

verus! {

/// Where the encryption metadata goes in the segments of a mode; a coefficient
/// carrier stores it by itself.
pub open spec fn kdf_index(option: ConcealOption) -> int {
    match option {
        ConcealOption::NoOption => DEFAULT_KDF_METADATA_INDEX as int,
        ConcealOption::Bluesky => BLUESKY_KDF_METADATA_INDEX as int,
        _ => 0,
    }
}

/// The payload that a file is stored as: its contents, or the zlib stream of
/// them.
pub open spec fn stored_payload(option: ConcealOption, path: Seq<u8>, data: Seq<u8>) -> Seq<u8> {
    if stores_raw(option, path, data.len() as int) {
        data
    } else {
        zlib_encode(data, compression_level(data.len() as int))
    }
}

/// The sizes that a coefficient carrier has to keep to.
pub open spec fn carrier_limit(option: ConcealOption) -> Option<int> {
    match option {
        ConcealOption::Reddit => Some(REDDIT_UPLOAD_SIZE_LIMIT as int),
        ConcealOption::Twitter => Some(TWITTER_UPLOAD_SIZE_LIMIT as int),
        _ => None,
    }
}

/// What is wrong with the sizes of a cover image and a data file.
pub open spec fn carrier_size_error(
    option: ConcealOption,
    cover_size: int,
    data_size: int,
) -> Option<JdvrifError> {
    match carrier_limit(option) {
        Some(limit) => if cover_size > limit {
            Some(JdvrifError::CarrierCoverTooLarge)
        } else if data_size > limit {
            Some(JdvrifError::CarrierDataTooLarge)
        } else {
            None
        },
        None => None,
    }
}

pub fn validate_carrier_sizes(option: ConcealOption, cover_size: usize, data_size: usize) -> (r:
    Result<(), JdvrifError>)
    ensures
        r == (match carrier_size_error(option, cover_size as int, data_size as int) {
            Some(e) => Err(e),
            None => Ok(()),
        }),
        r is Ok <==> {
            &&& option is Reddit ==> cover_size <= 20971520 && data_size <= 20971520
            &&& option is Twitter ==> cover_size <= 5242880 && data_size <= 5242880
        },
{
    let limit: usize = match option {
        ConcealOption::Reddit => REDDIT_UPLOAD_SIZE_LIMIT,
        ConcealOption::Twitter => TWITTER_UPLOAD_SIZE_LIMIT,
        _ => {
            return Ok(());
        },
    };
    if cover_size > limit {
        return Err(JdvrifError::CarrierCoverTooLarge);
    }
    if data_size > limit {
        return Err(JdvrifError::CarrierDataTooLarge);
    }
    Ok(())
}

/// The prefix in front of the payload: the length of the name, then the name.
pub fn filename_prefix(data_filename: &[u8]) -> (r: Result<Vec<u8>, JdvrifError>)
    ensures
        if 0 < data_filename@.len() < 255 {
            r is Ok && r->Ok_0@ == with_name(data_filename@, Seq::empty())
        } else {
            r == Err::<Vec<u8>, JdvrifError>(JdvrifError::DataFilenameLength)
        },
{
    if data_filename.len() == 0 || data_filename.len() >= 255 {
        return Err(JdvrifError::DataFilenameLength);
    }
    let mut prefix: Vec<u8> = Vec::new();
    prefix.push(data_filename.len() as u8);
    append(&mut prefix, data_filename);
    assert(prefix@ =~= with_name(data_filename@, Seq::empty()));
    Ok(prefix)
}

/// The size of the payload that a file is stored as, by the size that the file was
/// announced with: a file that is stored as it is has not been read when the sizes
/// are judged.
pub open spec fn announced_payload_size(
    option: ConcealOption,
    path: Seq<u8>,
    data: Seq<u8>,
    source_data_size: int,
) -> int {
    if stores_raw(option, path, source_data_size) {
        source_data_size
    } else {
        zlib_encode(data, compression_level(data.len() as int)).len() as int
    }
}

/// Why a file is refused, whatever the random numbers and the memory at hand. That
/// a file that is stored as it is has changed comes to light last.
pub open spec fn conceal_refusal(
    option: ConcealOption,
    cover_size: int,
    path: Seq<u8>,
    data: Seq<u8>,
    source_data_size: int,
    segment_len: int,
    xmp_template_len: int,
) -> Option<JdvrifError> {
    let name = path_file_name(path);
    if carrier_size_error(option, cover_size, source_data_size) is Some {
        carrier_size_error(option, cover_size, source_data_size)
    } else if name is None || !is_safe_filename(name->0) {
        Some(JdvrifError::DataFilenameUnsafe)
    } else if name->0.len() > DATA_FILENAME_MAX_LENGTH {
        Some(JdvrifError::DataFilenameTooLong)
    } else if !stores_raw(option, path, source_data_size) && data.len() != source_data_size {
        Some(JdvrifError::CompressionInputChanged)
    } else {
        let payload_size = announced_payload_size(option, path, data, source_data_size);
        let size = encrypted_size(1 + name->0.len() as int + payload_size);
        if size > usize::MAX {
            Some(JdvrifError::EncryptedSizeOverflow)
        } else if combined_size_error(
            size,
            cover_size,
            option is Bluesky,
            xmp_template_len,
        ) is Some {
            combined_size_error(size, cover_size, option is Bluesky, xmp_template_len)
        } else if kdf_index(option) + KDF_METADATA_REGION_BYTES > segment_len {
            Some(JdvrifError::SegmentTemplate)
        } else if payload_size == 0 {
            Some(JdvrifError::DataFileEmpty)
        } else if data.len() < source_data_size {
            Some(JdvrifError::EncryptionInputShort)
        } else if data.len() > source_data_size {
            Some(JdvrifError::EncryptionInputChanged)
        } else {
            None
        }
    }
}

/// The errors that chance and the memory at hand decide.
pub open spec fn is_resource_error(e: JdvrifError) -> bool {
    e is RandomPin || e is RandomSalt || e is KeyDerivation || e is StreamInit
        || e is RandomKdfRegion
}

/// A concealed file: the segment template with the metadata filled in, the
/// encrypted payload, and the PIN that opens it.
pub struct Concealed {
    pub segment: Vec<u8>,
    pub encrypted: Vec<u8>,
    pub is_compressed: bool,
    pub recovery_pin: u64,
}

/// The segment template, marked where the payload is stored as it is.
pub open spec fn marked_template(template: Seq<u8>, option: ConcealOption, raw: bool) -> Seq<u8> {
    if raw && !option.is_carrier() {
        template.update(NO_ZLIB_COMPRESSION_ID_INDEX as int, NO_ZLIB_COMPRESSION_ID)
    } else {
        template
    }
}

impl Concealed {
    /// The salt in the metadata.
    pub open spec fn salt(self, option: ConcealOption) -> Seq<u8> {
        recorded_salt(self.segment@, kdf_index(option))
    }

    /// The stream header in the metadata.
    pub open spec fn header(self, option: ConcealOption) -> Seq<u8> {
        recorded_header(self.segment@, kdf_index(option))
    }

    /// The key that the PIN leads to.
    pub open spec fn key(self, option: ConcealOption) -> Seq<u8> {
        pin_key(self.recovery_pin, self.salt(option), kdf_params_current())
    }

    /// The metadata is of the newest format, nothing else of the template is
    /// changed, and the payload is the encrypted form of the name and what the
    /// file is stored as, under the key that the PIN and the metadata lead to.
    pub open spec fn conceals(
        self,
        option: ConcealOption,
        path: Seq<u8>,
        data: Seq<u8>,
        template: Seq<u8>,
    ) -> bool {
        let raw = stores_raw(option, path, data.len() as int);
        let payload = stored_payload(option, path, data);
        let text = with_name(path_file_name(path)->0, payload);
        let ad = Some(seq![stream_mode(!raw)]);
        let start = seq![self.key(option), self.header(option)];
        &&& self.recovery_pin > 0
        &&& self.is_compressed == !raw
        &&& raw || zlib_decode(payload) == Some(data)
        &&& self.segment@.len() == template.len()
        &&& same_but_region(
            marked_template(template, option, raw),
            self.segment@,
            kdf_index(option),
        )
        &&& records_kdf_v4(
            self.segment@,
            kdf_index(option),
            self.salt(option),
            self.header(option),
            kdf_params_current(),
        )
        &&& self.encrypted@ == sealed(start, ad, text)
        &&& self.encrypted@.len() == encrypted_size(text.len() as int)
        &&& open_frames(start, ad, self.encrypted@) == (OpenedFrames { text, complete: true })
    }
}

fn metadata_index(option: ConcealOption) -> (r: usize)
    ensures
        r == kdf_index(option),
{
    match option {
        ConcealOption::NoOption => DEFAULT_KDF_METADATA_INDEX,
        ConcealOption::Bluesky => BLUESKY_KDF_METADATA_INDEX,
        _ => 0,
    }
}

/// Puts a concealed file together from the payload, encrypted under the header of
/// its stream, and the random values that were drawn for it.
pub fn assemble_concealed(
    option: ConcealOption,
    sealed_payload: EncryptedPayload,
    raw: bool,
    template: Vec<u8>,
    recovery_pin: u64,
    salt: &[u8],
    filler: Vec<u8>,
) -> (c: Concealed)
    requires
        kdf_index(option) + KDF_METADATA_REGION_BYTES <= template@.len(),
        salt@.len() == KDF_SALT_BYTES,
        filler@.len() == KDF_METADATA_REGION_BYTES,
    ensures
        c.recovery_pin == recovery_pin,
        c.is_compressed == !raw,
        c.encrypted@ == sealed_payload.frames@,
        c.segment@ == with_kdf_v4(
            marked_template(template@, option, raw),
            kdf_index(option),
            salt@,
            sealed_payload.header@,
            kdf_params_current(),
            filler@,
        ),
{
    let mut segment: Vec<u8> = template;
    let is_carrier: bool = match option {
        ConcealOption::Reddit => true,
        ConcealOption::Twitter => true,
        _ => false,
    };
    if raw && !is_carrier {
        segment.set(NO_ZLIB_COMPRESSION_ID_INDEX, NO_ZLIB_COMPRESSION_ID);
    }
    assert(segment@ =~= marked_template(template@, option, raw));
    fill_kdf_metadata(
        &mut segment,
        metadata_index(option),
        salt,
        &sealed_payload.header,
        current_kdf_params(),
        filler,
    );
    Concealed { segment, encrypted: sealed_payload.frames, is_compressed: !raw, recovery_pin }
}

/// Encrypts the payload under a new PIN and fills the metadata into the segment
/// template.
fn seal_payload(
    option: ConcealOption,
    payload: &[u8],
    prefix: &[u8],
    raw: bool,
    template: Vec<u8>,
) -> (r: Result<Concealed, JdvrifError>)
    requires
        payload@.len() > 0,
        prefix@.len() + payload@.len() <= usize::MAX,
        kdf_index(option) + KDF_METADATA_REGION_BYTES <= template@.len(),
    ensures
        match r {
            Ok(c) => {
                let ad = Some(seq![stream_mode(!raw)]);
                let start = seq![c.key(option), c.header(option)];
                let text = prefix@ + payload@;
                &&& c.recovery_pin > 0
                &&& c.is_compressed == !raw
                &&& c.segment@.len() == template@.len()
                &&& same_but_region(
                    marked_template(template@, option, raw),
                    c.segment@,
                    kdf_index(option),
                )
                &&& records_kdf_v4(
                    c.segment@,
                    kdf_index(option),
                    c.salt(option),
                    c.header(option),
                    kdf_params_current(),
                )
                &&& c.encrypted@ == sealed(start, ad, text)
                &&& c.encrypted@.len() == encrypted_size(text.len() as int)
                &&& open_frames(start, ad, c.encrypted@) == (OpenedFrames {
                    text,
                    complete: true,
                })
            },
            Err(e) => is_resource_error(e),
        },
{
    let recovery_pin: u64 = match generate_recovery_pin() {
        Ok(pin) => pin,
        Err(e) => {
            return Err(e);
        },
    };
    let mut salt: Vec<u8> = vec![0u8; KDF_SALT_BYTES];
    match randombytes_into(&mut salt) {
        Ok(_) => {},
        Err(_) => {
            return Err(JdvrifError::RandomSalt);
        },
    }
    let params = current_kdf_params();
    let mut key: Vec<u8> = match derive_key_from_pin(recovery_pin, &salt, params) {
        Ok(key) => key,
        Err(e) => {
            return Err(e);
        },
    };
    let sealed_payload: EncryptedPayload = match encrypt_with_secretstream(
        payload,
        payload.len(),
        prefix,
        stream_mode_byte(!raw),
        &key,
    ) {
        Ok(sealed_payload) => sealed_payload,
        Err(e) => {
            wipe_vec_capacity(&mut key);
            return Err(e);
        },
    };
    wipe_vec_capacity(&mut key);
    let filler: Vec<u8> = match random_kdf_filler() {
        Ok(filler) => filler,
        Err(e) => {
            return Err(e);
        },
    };
    proof {
        lemma_with_kdf_v4(
            marked_template(template@, option, raw),
            kdf_index(option),
            salt@,
            sealed_payload.header@,
            kdf_params_current(),
            filler@,
        );
    }
    Ok(assemble_concealed(option, sealed_payload, raw, template, recovery_pin, &salt, filler))
}

/// Conceals a file: names, compresses and encrypts it under a new random PIN,
/// and fills the metadata into the segment template of the mode.
pub fn run_native_conceal(
    option: ConcealOption,
    cover_size: usize,
    data_file_path: &[u8],
    data: &[u8],
    source_data_size: usize,
    segment_template: Vec<u8>,
    xmp_template_len: usize,
) -> (r: Result<Concealed, JdvrifError>)
    ensures
        match conceal_refusal(
            option,
            cover_size as int,
            data_file_path@,
            data@,
            source_data_size as int,
            segment_template@.len() as int,
            xmp_template_len as int,
        ) {
            Some(refusal) => r matches Err(e) && e == refusal,
            None => match r {
                Ok(c) => c.conceals(option, data_file_path@, data@, segment_template@),
                Err(e) => is_resource_error(e),
            },
        },
        ({
            let name = path_file_name(data_file_path@);
            let payload = if stores_raw(option, data_file_path@, source_data_size as int) {
                source_data_size as int
            } else {
                zlib_encode(
                    data@,
                    if data@.len() > 524288000 {
                        1
                    } else {
                        6
                    },
                ).len() as int
            };
            let text = 1 + name->0.len() + payload;
            let size = text + (text + 1048575) / 1048576 * 21;
            let named = name is Some && is_safe_filename(name->0) && name->0.len() <= 20;
            let carried = (option is Reddit ==> cover_size <= 20971520 && source_data_size
                <= 20971520) && (option is Twitter ==> cover_size <= 5242880 && source_data_size
                <= 5242880);
            let room = match option {
                ConcealOption::NoOption => 843int,
                ConcealOption::Bluesky => 453,
                _ => 56,
            };
            &&& named && carried && data@.len() == source_data_size && !(option is Bluesky) ==> {
                &&& (r matches Err(e) && e is CombinedSizeDefault) <==> 2147483648 < size
                    + cover_size <= usize::MAX
                &&& size + cover_size <= 2147483648 && segment_template@.len() >= room && payload
                    > 0 ==> (r is Ok || is_resource_error(r->Err_0))
            }
            &&& named && data@.len() == source_data_size && option is Bluesky ==> {
                &&& r is Ok ==> size + cover_size <= 2000000
                &&& size + cover_size <= 2000000 && xmp_template_len < 59941 && size <= 130524 + (
                59941 - xmp_template_len) / 4 * 3 && segment_template@.len() >= room && payload > 0
                    ==> (r is Ok || is_resource_error(r->Err_0))
            }
            &&& r is Ok ==> named && carried && size + cover_size <= 2147483648
        }),
{
    match validate_carrier_sizes(option, cover_size, source_data_size) {
        Ok(_) => {},
        Err(e) => {
            return Err(e);
        },
    }
    let data_filename: Vec<u8> = match validate_data_filename(data_file_path) {
        Ok(name) => name,
        Err(e) => {
            return Err(e);
        },
    };
    let raw: bool = bypasses_compression(option, data_file_path, source_data_size);
    let ghost name: Seq<u8> = data_filename@;
    let compressed: Vec<u8> = if raw {
        Vec::new()
    } else {
        match zlib_compress(data, source_data_size) {
            Ok(z) => z,
            Err(e) => {
                return Err(e);
            },
        }
    };
    let payload_size: usize = if raw {
        source_data_size
    } else {
        compressed.len()
    };
    let prefix: Vec<u8> = match filename_prefix(&data_filename) {
        Ok(prefix) => prefix,
        Err(e) => {
            return Err(e);
        },
    };
    let encrypted_payload_size: usize = match estimate_prefixed_stream_encrypted_size(
        payload_size,
        prefix.len(),
    ) {
        Ok(size) => size,
        Err(e) => {
            return Err(e);
        },
    };
    let has_bluesky_option: bool = match option {
        ConcealOption::Bluesky => true,
        _ => false,
    };
    match validate_combined_size_limits(
        encrypted_payload_size,
        cover_size,
        has_bluesky_option,
        xmp_template_len,
    ) {
        Ok(_) => {},
        Err(e) => {
            return Err(e);
        },
    }
    if !span_has_range(
        segment_template.len(),
        metadata_index(option),
        KDF_METADATA_REGION_BYTES,
    ) {
        return Err(JdvrifError::SegmentTemplate);
    }
    if payload_size == 0 {
        return Err(JdvrifError::DataFileEmpty);
    }
    if data.len() < source_data_size {
        return Err(JdvrifError::EncryptionInputShort);
    }
    if data.len() > source_data_size {
        return Err(JdvrifError::EncryptionInputChanged);
    }
    let payload: &[u8] = if raw {
        data
    } else {
        &compressed
    };
    assert(payload@ == stored_payload(option, data_file_path@, data@));
    assert(prefix@ + payload@ =~= with_name(name, payload@));
    seal_payload(option, payload, &prefix, raw, segment_template)
}

/// A file that can be recovered again: not larger than the most that recovery
/// inflates.
pub open spec fn recoverable(data: Seq<u8>) -> bool {
    0 < data.len() <= STREAM_INFLATE_MAX_OUTPUT
}

/// The recovery gave back the file, or failed for want of memory: the key could
/// not be derived.
pub open spec fn gives_back(
    r: Result<RecoveredFile, JdvrifError>,
    name: Seq<u8>,
    data: Seq<u8>,
) -> bool {
    match r {
        Ok(file) => file.filename@ == name && file.contents@ == data,
        Err(e) => e is KeyDerivation,
    }
}

/// What was concealed is decrypted: under the key and the header, the ciphertext
/// is decrypted to the file, and the file is recovered under its name, without
/// exception.
pub proof fn law_decryption_gives_back_the_file(
    c: Concealed,
    option: ConcealOption,
    path: Seq<u8>,
    data: Seq<u8>,
    template: Seq<u8>,
    version: KdfMetadataVersion,
    status: Result<DecryptStatus, JdvrifError>,
    r: Result<RecoveredFile, JdvrifError>,
)
    requires
        c.conceals(option, path, data, template),
        recoverable(data),
        path_file_name(path) matches Some(name) && is_safe_filename(name) && name.len()
            <= DATA_FILENAME_MAX_LENGTH,
        version is V4RecordedKdfParameters,
        decrypt_outcome(
            open_frames(
                seq![c.key(option), c.header(option)],
                frame_ad(version, c.is_compressed),
                c.encrypted@,
            ),
            c.is_compressed,
            status,
        ),
        recovery_result(status, r),
    ensures
        status matches Ok(decrypted) && decrypted.is_file(path_file_name(path)->0, data),
        r matches Ok(file) && file.filename@ == path_file_name(path)->0 && file.contents@ == data,
{
    lemma_with_name(path_file_name(path)->0, stored_payload(option, path, data));
}

/// What was concealed is recovered: from an image that holds the metadata and
/// the ciphertext of a concealed file, recovery with the PIN gives back the file
/// under its name.
pub proof fn law_recovery_gives_back_the_file(
    c: Concealed,
    option: ConcealOption,
    path: Seq<u8>,
    data: Seq<u8>,
    template: Seq<u8>,
    pending: PendingRecovery,
    image: Seq<u8>,
    xmp_template_len: int,
    r: Result<RecoveredFile, JdvrifError>,
)
    requires
        !option.is_carrier(),
        c.conceals(option, path, data, template),
        recoverable(data),
        path_file_name(path) matches Some(name) && is_safe_filename(name) && name.len()
            <= DATA_FILENAME_MAX_LENGTH,
        pending.is_bluesky_file == (option is Bluesky),
        pending.is_data_compressed == c.is_compressed,
        pending.ciphertext(image, xmp_template_len) == Ok::<Seq<u8>, JdvrifError>(c.encrypted@),
        holds_metadata(
            pending.metadata@,
            metadata_base(pending.is_bluesky_file),
            c.segment@,
            kdf_index(option),
        ),
        pending.may_end(image, c.recovery_pin, xmp_template_len, r),
    ensures
        gives_back(r, path_file_name(path)->0, data),
{
    let base = metadata_base(pending.is_bluesky_file);
    let name = path_file_name(path)->0;
    lemma_metadata_moved(
        c.segment@,
        kdf_index(option),
        pending.metadata@,
        base,
        c.salt(option),
        c.header(option),
    );
    lemma_with_name(name, stored_payload(option, path, data));
    assert(c.encrypted@.len() > 0);
    if !(r matches Err(e) && e is KeyDerivation) {
        let prepared = choose|prepared: PreparedDecrypt|
            {
                &&& #[trigger] prepared.comes_from(pending.metadata@, base, c.recovery_pin)
                &&& recovery_outcome(
                    prepared,
                    pending.ciphertext(image, xmp_template_len),
                    pending.is_data_compressed,
                    r,
                )
            };
        lemma_prepared_gives_back(c, option, path, data, template, prepared, r);
    }
}

/// The ciphertext as a default image stores it: cut up by the headers of the
/// profile segments where there is more than one.
pub open spec fn stored_ciphertext(
    encrypted: Seq<u8>,
    segments: int,
    headers: Seq<Seq<u8>>,
) -> Seq<u8> {
    if segments == 0 {
        encrypted
    } else {
        with_profile_headers(encrypted, headers, FIRST_PROFILE_HEADER_INDEX as int)
    }
}

/// An image in the default format: the finished segment of a concealed file with
/// the size and the number of segments filled in, then the stored ciphertext.
pub open spec fn is_default_image(
    image: Seq<u8>,
    segment: Seq<u8>,
    encrypted: Seq<u8>,
    segments: int,
    headers: Seq<Seq<u8>>,
) -> bool {
    let start = BASE_OFFSET_DEFAULT + ENCRYPTED_FILE_START_INDEX;
    let stored = stored_ciphertext(encrypted, segments, headers);
    let size_at = BASE_OFFSET_DEFAULT + DEFAULT_FILE_SIZE_INDEX;
    let segments_at = BASE_OFFSET_DEFAULT + TOTAL_PROFILE_HEADER_SEGMENTS_INDEX;
    &&& start + stored.len() <= image.len()
    &&& image.subrange(start as int, start + stored.len()) == stored
    &&& segment.len() >= start
    &&& forall|i: int|
        0 <= i < start && !(segments_at <= i < size_at + 4) ==> #[trigger] image[i] == segment[i]
    &&& be32(image, size_at as int) == stored.len()
    &&& be16(image, segments_at as int) == segments
    &&& segments_error(image, BASE_OFFSET_DEFAULT as int, segments) is None
}

/// An image in the default format gives the file back: it passes the checks that
/// come before the PIN, and with the PIN the file is recovered under its name.
/// The segment template must not itself bear the mark of a payload that is
/// stored as it is.
pub proof fn law_default_image_gives_back_the_file(
    c: Concealed,
    path: Seq<u8>,
    data: Seq<u8>,
    template: Seq<u8>,
    image: Seq<u8>,
    segments: int,
    headers: Seq<Seq<u8>>,
    pending: PendingRecovery,
    xmp_template_len: int,
    r: Result<RecoveredFile, JdvrifError>,
)
    requires
        c.conceals(ConcealOption::NoOption, path, data, template),
        recoverable(data),
        path_file_name(path) matches Some(name) && is_safe_filename(name) && name.len()
            <= DATA_FILENAME_MAX_LENGTH,
        template[NO_ZLIB_COMPRESSION_ID_INDEX as int] != NO_ZLIB_COMPRESSION_ID,
        is_default_image(image, c.segment@, c.encrypted@, segments, headers),
        stored_ciphertext(c.encrypted@, segments, headers).len() <= max_cipher_size(
            RecoveryFormat::Icc,
        ),
        segments != 0 ==> c.encrypted@.len() <= FIRST_PROFILE_HEADER_INDEX + headers.len() * (
        PROFILE_HEADER_DISTANCE - PROFILE_HEADER_LENGTH),
        forall|i: int|
            0 <= i < headers.len() ==> (#[trigger] headers[i]).len() == PROFILE_HEADER_LENGTH,
        declares_icc(pending, image),
        pending.may_end(image, c.recovery_pin, xmp_template_len, r),
    ensures
        icc_error(image, DEFAULT_ICC_SIG_INDEX_ABS as int) is None,
        gives_back(r, path_file_name(path)->0, data),
{
    let option = ConcealOption::NoOption;
    let name = path_file_name(path)->0;
    let metadata = icc_metadata(image);
    let stored = stored_ciphertext(c.encrypted@, segments, headers);
    let raw = stores_raw(option, path, data.len() as int);
    let base = metadata_base(false);
    lemma_with_name(name, stored_payload(option, path, data));
    if segments != 0 {
        law_profile_headers_come_out(c.encrypted@, headers, FIRST_PROFILE_HEADER_INDEX as int);
        lemma_headers_grow(c.encrypted@, headers, FIRST_PROFILE_HEADER_INDEX as int);
    }
    assert(be32(metadata, DEFAULT_FILE_SIZE_INDEX as int) == be32(
        image,
        BASE_OFFSET_DEFAULT + DEFAULT_FILE_SIZE_INDEX,
    ));
    assert(be16(metadata, TOTAL_PROFILE_HEADER_SEGMENTS_INDEX as int) == be16(
        image,
        BASE_OFFSET_DEFAULT + TOTAL_PROFILE_HEADER_SEGMENTS_INDEX,
    ));
    let here = metadata.subrange(base, base + KDF_METADATA_REGION_BYTES);
    let there = c.segment@.subrange(
        kdf_index(option),
        kdf_index(option) + KDF_METADATA_REGION_BYTES,
    );
    assert forall|i: int| 0 <= i < KDF_METADATA_REGION_BYTES implies here[i] == there[i] by {
        assert(here[i] == image[BASE_OFFSET_DEFAULT + base + i]);
    }
    assert(here =~= there);
    assert(metadata[COMPRESSION_MARKER_INDEX as int] == image[NO_ZLIB_COMPRESSION_ID_INDEX as int]);
    assert(c.segment@[NO_ZLIB_COMPRESSION_ID_INDEX as int] == marked_template(
        template,
        option,
        raw,
    )[NO_ZLIB_COMPRESSION_ID_INDEX as int]);
    lemma_metadata_moved(
        c.segment@,
        kdf_index(option),
        metadata,
        base,
        c.salt(option),
        c.header(option),
    );
    law_recovery_gives_back_the_file(
        c,
        option,
        path,
        data,
        template,
        pending,
        image,
        xmp_template_len,
        r,
    );
}

/// An image in the Bluesky format: it holds the metadata and the ciphertext of a
/// concealed file, and declares the size of the ciphertext.
pub open spec fn is_bluesky_image(
    image: Seq<u8>,
    segment: Seq<u8>,
    encrypted: Seq<u8>,
    xmp_template_len: int,
) -> bool {
    let metadata = bluesky_metadata(image);
    &&& image.len() >= BLUESKY_ENCRYPTED_FILE_START_INDEX
    &&& holds_metadata(
        metadata,
        metadata_base(true),
        segment,
        kdf_index(ConcealOption::Bluesky),
    )
    &&& be32(metadata, BLUESKY_FILE_SIZE_INDEX as int) == encrypted.len()
    &&& exif_has_room(metadata, encrypted.len() as int, xmp_template_len)
    &&& bluesky_ciphertext(image, encrypted.len() as int, xmp_template_len) == Some(encrypted)
}

/// An image in the Bluesky format gives the file back: it passes the checks that
/// come before the PIN, and with the PIN the file is recovered under its name. A
/// payload that is stored as it is would be larger than the format allows.
pub proof fn law_bluesky_image_gives_back_the_file(
    c: Concealed,
    path: Seq<u8>,
    data: Seq<u8>,
    template: Seq<u8>,
    image: Seq<u8>,
    sig: Seq<u8>,
    sig_index: int,
    pending: PendingRecovery,
    xmp_template_len: int,
    r: Result<RecoveredFile, JdvrifError>,
)
    requires
        c.conceals(ConcealOption::Bluesky, path, data, template),
        recoverable(data),
        path_file_name(path) matches Some(name) && is_safe_filename(name) && name.len()
            <= DATA_FILENAME_MAX_LENGTH,
        is_bluesky_image(image, c.segment@, c.encrypted@, xmp_template_len),
        c.encrypted@.len() <= max_cipher_size(RecoveryFormat::Bluesky),
        occurs_at(bluesky_metadata(image), sig, sig_index),
        declares_bluesky(pending, image),
        pending.may_end(image, c.recovery_pin, xmp_template_len, r),
    ensures
        bluesky_error(image, sig_index, sig, xmp_template_len) is None,
        gives_back(r, path_file_name(path)->0, data),
{
    let option = ConcealOption::Bluesky;
    let name = path_file_name(path)->0;
    let metadata = bluesky_metadata(image);
    let payload = stored_payload(option, path, data);
    lemma_with_name(name, payload);
    assert(with_name(name, payload).len() == 1 + name.len() + payload.len());
    assert(!stores_raw(option, path, data.len() as int));
    lemma_metadata_moved(
        c.segment@,
        kdf_index(option),
        metadata,
        metadata_base(true),
        c.salt(option),
        c.header(option),
    );
    law_recovery_gives_back_the_file(
        c,
        option,
        path,
        data,
        template,
        pending,
        image,
        xmp_template_len,
        r,
    );
}

/// What was concealed in a coefficient carrier is recovered: from the metadata
/// and the payload that the carrier hands back, recovery with the PIN gives back
/// the file under its name.
pub proof fn law_carrier_recovery_gives_back_the_file(
    c: Concealed,
    option: ConcealOption,
    path: Seq<u8>,
    data: Seq<u8>,
    template: Seq<u8>,
    format: RecoveryFormat,
    r: Result<RecoveredFile, JdvrifError>,
)
    requires
        option.is_carrier(),
        c.conceals(option, path, data, template),
        recoverable(data),
        path_file_name(path) matches Some(name) && is_safe_filename(name) && name.len()
            <= DATA_FILENAME_MAX_LENGTH,
        template.len() == KDF_METADATA_REGION_BYTES,
        c.encrypted@.len() <= max_cipher_size(format),
        carrier_may_end(c.segment@, c.encrypted@, c.is_compressed, c.recovery_pin, format, r),
    ensures
        gives_back(r, path_file_name(path)->0, data),
{
    let name = path_file_name(path)->0;
    lemma_metadata_moved(c.segment@, 0, c.segment@, 0, c.salt(option), c.header(option));
    lemma_with_name(name, stored_payload(option, path, data));
    if !(r matches Err(e) && e is KeyDerivation) {
        let prepared = choose|prepared: PreparedDecrypt|
            {
                &&& #[trigger] prepared.comes_from(c.segment@, 0, c.recovery_pin)
                &&& recovery_outcome(prepared, Ok(c.encrypted@), c.is_compressed, r)
            };
        lemma_prepared_gives_back(c, option, path, data, template, prepared, r);
    }
}

/// Metadata that is found in another place says the same there.
proof fn lemma_metadata_moved(
    segment: Seq<u8>,
    index: int,
    metadata: Seq<u8>,
    base: int,
    salt: Seq<u8>,
    header: Seq<u8>,
)
    requires
        0 <= index,
        0 <= base,
        records_kdf_v4(segment, index, salt, header, kdf_params_current()),
        holds_metadata(metadata, base, segment, index),
    ensures
        kdf_version(metadata, base) is V4RecordedKdfParameters,
        kdf_params(metadata, base, kdf_version(metadata, base)) == Ok::<KdfParams, JdvrifError>(
            kdf_params_current(),
        ),
        recorded_salt(metadata, base) == salt,
        recorded_header(metadata, base) == header,
{
    let here = metadata.subrange(base, base + KDF_METADATA_REGION_BYTES);
    let there = segment.subrange(index, index + KDF_METADATA_REGION_BYTES);
    assert forall|i: int, j: int| 0 <= i <= j <= KDF_METADATA_REGION_BYTES implies #[trigger] here.subrange(
        i,
        j,
    ) == metadata.subrange(base + i, base + j) && there.subrange(i, j) == segment.subrange(
        index + i,
        index + j,
    ) by {
        assert(here.subrange(i, j) =~= metadata.subrange(base + i, base + j));
        assert(there.subrange(i, j) =~= segment.subrange(index + i, index + j));
    }
    assert(here.subrange(0, 4) == metadata.subrange(base, base + 4));
    assert(here.subrange(8, 24) == recorded_salt(metadata, base));
    assert(here.subrange(24, 48) == recorded_header(metadata, base));
    assert(here.subrange(48, 52) == metadata.subrange(base + 48, base + 52));
    assert(here.subrange(52, 56) == metadata.subrange(base + 52, base + 56));
    assert(here[4] == metadata[base + 4] && there[4] == segment[index + 4]);
    assert(here[5] == metadata[base + 5] && there[5] == segment[index + 5]);
    law_kdf_metadata_read_back(metadata, base, salt, header, kdf_params_current());
}

/// A key prepared from the metadata of a concealed file decrypts it.
proof fn lemma_prepared_gives_back(
    c: Concealed,
    option: ConcealOption,
    path: Seq<u8>,
    data: Seq<u8>,
    template: Seq<u8>,
    prepared: PreparedDecrypt,
    r: Result<RecoveredFile, JdvrifError>,
)
    requires
        c.conceals(option, path, data, template),
        recoverable(data),
        path_file_name(path) matches Some(name) && is_safe_filename(name) && name.len()
            <= DATA_FILENAME_MAX_LENGTH,
        prepared.metadata_version is V4RecordedKdfParameters,
        prepared.header@ == c.header(option),
        prepared.key@ == c.key(option),
        recovery_outcome(prepared, Ok(c.encrypted@), c.is_compressed, r),
    ensures
        gives_back(r, path_file_name(path)->0, data),
{
    let name = path_file_name(path)->0;
    let payload = stored_payload(option, path, data);
    lemma_with_name(name, payload);
    let start = seq![c.key(option), c.header(option)];
    assert(seq![prepared.key@, prepared.header@] =~= start);
    assert(c.encrypted@.len() > 0);
    let status = choose|status: Result<DecryptStatus, JdvrifError>|
        {
            &&& #[trigger] prepared_outcome(prepared, c.is_compressed, c.encrypted@, status)
            &&& recovery_result(status, r)
        };
    assert(prepared_outcome(prepared, c.is_compressed, c.encrypted@, status));
}

/// The same metadata stands at `base` in `metadata` and at `index` in `segment`.
pub open spec fn holds_metadata(
    metadata: Seq<u8>,
    base: int,
    segment: Seq<u8>,
    index: int,
) -> bool {
    &&& base + KDF_METADATA_REGION_BYTES <= metadata.len()
    &&& metadata.subrange(base, base + KDF_METADATA_REGION_BYTES) == segment.subrange(
        index,
        index + KDF_METADATA_REGION_BYTES,
    )
}

} // verus!
