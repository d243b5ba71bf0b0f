//! Recovering the file from each kind of image.

use super::output::safe_recovery_path;
use crate::common::{be16, be32, copy_range, matches_at, occurs_at, read_be16, read_be32};
use crate::constants::{
    BASE_OFFSET_DEFAULT, MAX_DATA_SIZE_BLUESKY, MAX_SIZE_CONCEAL, NO_ZLIB_COMPRESSION_ID,
    NO_ZLIB_COMPRESSION_ID_INDEX, REDDIT_UPLOAD_SIZE_LIMIT, SECRETSTREAM_OVERHEAD_BYTES,
    STREAM_FRAME_LEN_BYTES, TWITTER_UPLOAD_SIZE_LIMIT,
};
use crate::decrypt::kdf::{
    kdf_params, kdf_version, metadata_base, pin_key, recorded_header, recorded_salt,
};
use crate::decrypt::prefix::{has_empty_name, payload_of};
use crate::decrypt::stream::{frame_ad, open_frames, DecryptStatus, OpenedFrames};
use crate::decrypt::{
    carrier_metadata_error, check_metadata_before_pin, decrypt_prepared_cipher, metadata_error,
    prepare_decrypt_from_kdf_metadata, prepare_decrypt_with_pin, prepared_outcome, PreparedDecrypt,
};
use crate::extract::{
    bluesky_ciphertext, default_ciphertext, exif_has_room, extract_bluesky_ciphertext,
    extract_default_ciphertext, validate_bluesky_exif_metadata_capacity,
    BLUESKY_ENCRYPTED_FILE_START_INDEX, ENCRYPTED_FILE_START_INDEX,
};
use crate::filename::is_safe_filename;
use crate::reddit::RedditEncryptedEnvelope;
use crate::runtime::JdvrifError;
use vstd::prelude::*;

verus! {

/// Distance from the profile to the ICC signature in it.
pub const ICC_SIG_INDEX_DIFF: usize = 8;

/// Fields of a default image, counted from the profile.
pub const COMPRESSION_MARKER_INDEX: usize = NO_ZLIB_COMPRESSION_ID_INDEX - 24;

pub const TOTAL_PROFILE_HEADER_SEGMENTS_INDEX: usize = 0x2C8;

pub const DEFAULT_FILE_SIZE_INDEX: usize = 0x2CA;

/// Field of a Bluesky image.
pub const BLUESKY_FILE_SIZE_INDEX: usize = 0x1CD;

/// The formats that a file can be recovered from.
#[derive(Clone, Copy, PartialEq, Eq, Structural, Debug)]
pub enum RecoveryFormat {
    Icc,
    Bluesky,
    Reddit,
    Twitter,
}

/// The largest ciphertext of a format.
pub open spec fn max_cipher_size(format: RecoveryFormat) -> int {
    match format {
        RecoveryFormat::Icc => MAX_SIZE_CONCEAL + 50 * 1024 * 1024,
        RecoveryFormat::Bluesky => MAX_DATA_SIZE_BLUESKY as int,
        RecoveryFormat::Reddit => REDDIT_UPLOAD_SIZE_LIMIT as int,
        RecoveryFormat::Twitter => TWITTER_UPLOAD_SIZE_LIMIT as int,
    }
}

/// What is wrong with a declared ciphertext size. The shortest ciphertext is a
/// frame without a message.
pub open spec fn declared_size_error(size: int, format: RecoveryFormat) -> Option<JdvrifError> {
    if size == 0 {
        Some(JdvrifError::EmbeddedFileEmpty)
    } else if size < STREAM_FRAME_LEN_BYTES + SECRETSTREAM_OVERHEAD_BYTES {
        Some(JdvrifError::CorruptFile)
    } else if size > max_cipher_size(format) {
        Some(JdvrifError::DeclaredSizeTooLarge)
    } else {
        None
    }
}

pub fn validate_declared_cipher_size(embedded_file_size: usize, format: RecoveryFormat) -> (r:
    Result<(), JdvrifError>)
    ensures
        r == (match declared_size_error(embedded_file_size as int, format) {
            Some(e) => Err(e),
            None => Ok(()),
        }),
        r is Ok <==> 21 <= embedded_file_size <= (match format {
            RecoveryFormat::Icc => 2199912448int,
            RecoveryFormat::Bluesky => 2097152,
            RecoveryFormat::Reddit => 20971520,
            RecoveryFormat::Twitter => 5242880,
        }),
{
    let minimum: usize = STREAM_FRAME_LEN_BYTES + SECRETSTREAM_OVERHEAD_BYTES;
    if embedded_file_size == 0 {
        return Err(JdvrifError::EmbeddedFileEmpty);
    }
    if embedded_file_size < minimum {
        return Err(JdvrifError::CorruptFile);
    }
    let maximum: usize = match format {
        RecoveryFormat::Icc => MAX_SIZE_CONCEAL + 50 * 1024 * 1024,
        RecoveryFormat::Bluesky => MAX_DATA_SIZE_BLUESKY,
        RecoveryFormat::Reddit => REDDIT_UPLOAD_SIZE_LIMIT,
        RecoveryFormat::Twitter => TWITTER_UPLOAD_SIZE_LIMIT,
    };
    if embedded_file_size > maximum {
        return Err(JdvrifError::DeclaredSizeTooLarge);
    }
    Ok(())
}

/// A recovered file: a safe name and the contents.
pub struct RecoveredFile {
    pub filename: Vec<u8>,
    pub contents: Vec<u8>,
}

/// What a decryption means for the recovery.
pub open spec fn recovery_result(
    status: Result<DecryptStatus, JdvrifError>,
    r: Result<RecoveredFile, JdvrifError>,
) -> bool {
    match status {
        Err(e) => r matches Err(error) && error == e,
        Ok(DecryptStatus::FailedPin) => r matches Err(e) && e is InvalidPin,
        Ok(DecryptStatus::Success { decrypted_filename, output }) => if is_safe_filename(
            decrypted_filename@,
        ) {
            r matches Ok(file) && file.filename@ == decrypted_filename@ && file.contents@
                == output@
        } else {
            r matches Err(e) && e is RecoveredFilenameUnsafe
        },
    }
}

/// Turns the end of a decryption into the recovered file or the error to report.
pub fn recovered_file(status: Result<DecryptStatus, JdvrifError>) -> (r: Result<
    RecoveredFile,
    JdvrifError,
>)
    ensures
        recovery_result(status, r),
{
    match status {
        Err(e) => Err(e),
        Ok(DecryptStatus::FailedPin) => Err(JdvrifError::InvalidPin),
        Ok(DecryptStatus::Success { decrypted_filename, output }) => {
            match safe_recovery_path(decrypted_filename) {
                Ok(filename) => Ok(RecoveredFile { filename, contents: output }),
                Err(e) => Err(e),
            }
        },
    }
}

/// How a recovery ends once the key is there: with the error of the extraction,
/// or as the decryption of what was extracted says.
pub open spec fn recovery_outcome(
    prepared: PreparedDecrypt,
    cipher: Result<Seq<u8>, JdvrifError>,
    compressed: bool,
    r: Result<RecoveredFile, JdvrifError>,
) -> bool {
    match cipher {
        Err(e) => r matches Err(error) && error == e,
        Ok(bytes) => if bytes.len() == 0 {
            r matches Err(e) && e is EmbeddedFileEmpty
        } else {
            exists|status: Result<DecryptStatus, JdvrifError>|
                {
                    &&& #[trigger] prepared_outcome(prepared, compressed, bytes, status)
                    &&& recovery_result(status, r)
                }
        },
    }
}

/// An image whose declarations have been checked, so that the PIN can be asked
/// for.
pub struct PendingRecovery {
    pub is_bluesky_file: bool,
    pub metadata: Vec<u8>,
    pub is_data_compressed: bool,
    pub embedded_file_size: usize,
    pub total_profile_header_segments: u16,
}

/// The metadata of a default image, from the profile up to the ciphertext.
pub open spec fn icc_metadata(image: Seq<u8>) -> Seq<u8> {
    image.subrange(
        BASE_OFFSET_DEFAULT as int,
        BASE_OFFSET_DEFAULT + ENCRYPTED_FILE_START_INDEX as int,
    )
}

/// The metadata of a Bluesky image: all in front of the ciphertext.
pub open spec fn bluesky_metadata(image: Seq<u8>) -> Seq<u8> {
    image.take(BLUESKY_ENCRYPTED_FILE_START_INDEX as int)
}

/// Why a default image cannot be recovered, by its declarations.
pub open spec fn icc_error(image: Seq<u8>, icc_profile_sig_index: int) -> Option<JdvrifError> {
    if icc_profile_sig_index < ICC_SIG_INDEX_DIFF {
        Some(JdvrifError::CorruptIccMetadata)
    } else if icc_profile_sig_index - ICC_SIG_INDEX_DIFF != BASE_OFFSET_DEFAULT {
        Some(JdvrifError::UnsupportedProfileLayout)
    } else if BASE_OFFSET_DEFAULT + ENCRYPTED_FILE_START_INDEX > image.len() {
        Some(JdvrifError::CorruptFile)
    } else {
        match declared_size_error(
            be32(icc_metadata(image), DEFAULT_FILE_SIZE_INDEX as int),
            RecoveryFormat::Icc,
        ) {
            Some(e) => Some(e),
            None => metadata_error(icc_metadata(image), metadata_base(false)),
        }
    }
}

/// What a default image declares.
pub open spec fn declares_icc(pending: PendingRecovery, image: Seq<u8>) -> bool {
    let metadata = icc_metadata(image);
    &&& !pending.is_bluesky_file
    &&& pending.metadata@ == metadata
    &&& pending.is_data_compressed == (metadata[COMPRESSION_MARKER_INDEX as int]
        != NO_ZLIB_COMPRESSION_ID)
    &&& pending.embedded_file_size == be32(metadata, DEFAULT_FILE_SIZE_INDEX as int)
    &&& pending.total_profile_header_segments == be16(
        metadata,
        TOTAL_PROFILE_HEADER_SEGMENTS_INDEX as int,
    )
}

/// Reads and checks all that a default image declares, up to the point where the
/// PIN is needed.
pub fn recover_from_icc_path(image: &[u8], icc_profile_sig_index: usize) -> (r: Result<
    PendingRecovery,
    JdvrifError,
>)
    ensures
        match icc_error(image@, icc_profile_sig_index as int) {
            Some(e) => r == Err::<PendingRecovery, JdvrifError>(e),
            None => r is Ok && declares_icc(r->Ok_0, image@),
        },
{
    if icc_profile_sig_index < ICC_SIG_INDEX_DIFF {
        return Err(JdvrifError::CorruptIccMetadata);
    }
    let base_offset: usize = icc_profile_sig_index - ICC_SIG_INDEX_DIFF;
    if base_offset != BASE_OFFSET_DEFAULT {
        return Err(JdvrifError::UnsupportedProfileLayout);
    }
    if base_offset > image.len() || ENCRYPTED_FILE_START_INDEX > image.len() - base_offset {
        return Err(JdvrifError::CorruptFile);
    }
    let metadata: Vec<u8> = copy_range(
        image,
        base_offset,
        base_offset + ENCRYPTED_FILE_START_INDEX,
    );
    let is_data_compressed: bool = metadata[COMPRESSION_MARKER_INDEX] != NO_ZLIB_COMPRESSION_ID;
    let total_profile_header_segments: u16 = read_be16(
        &metadata,
        TOTAL_PROFILE_HEADER_SEGMENTS_INDEX,
    );
    let embedded_file_size: usize = read_be32(&metadata, DEFAULT_FILE_SIZE_INDEX) as usize;
    match validate_declared_cipher_size(embedded_file_size, RecoveryFormat::Icc) {
        Ok(_) => {},
        Err(e) => {
            return Err(e);
        },
    }
    match check_metadata_before_pin(&metadata, false) {
        Ok(_) => {},
        Err(e) => {
            return Err(e);
        },
    }
    Ok(
        PendingRecovery {
            is_bluesky_file: false,
            metadata,
            is_data_compressed,
            embedded_file_size,
            total_profile_header_segments,
        },
    )
}

/// Why a Bluesky image cannot be recovered, by its declarations.
pub open spec fn bluesky_error(
    image: Seq<u8>,
    jdvrif_sig_index: int,
    jdvrif_sig: Seq<u8>,
    xmp_template_len: int,
) -> Option<JdvrifError> {
    let metadata = bluesky_metadata(image);
    let size = be32(metadata, BLUESKY_FILE_SIZE_INDEX as int);
    if BLUESKY_ENCRYPTED_FILE_START_INDEX > image.len() || !occurs_at(
        metadata,
        jdvrif_sig,
        jdvrif_sig_index,
    ) {
        Some(JdvrifError::CorruptSignatureMetadata)
    } else {
        match declared_size_error(size, RecoveryFormat::Bluesky) {
            Some(e) => Some(e),
            None => if !exif_has_room(metadata, size, xmp_template_len) {
                Some(JdvrifError::CorruptFile)
            } else {
                metadata_error(metadata, metadata_base(true))
            },
        }
    }
}

/// What a Bluesky image declares. Its payload is always compressed: one that is
/// stored as it is never fits.
pub open spec fn declares_bluesky(pending: PendingRecovery, image: Seq<u8>) -> bool {
    let metadata = bluesky_metadata(image);
    &&& pending.is_bluesky_file
    &&& pending.metadata@ == metadata
    &&& pending.is_data_compressed
    &&& pending.embedded_file_size == be32(metadata, BLUESKY_FILE_SIZE_INDEX as int)
    &&& pending.total_profile_header_segments == 0
}

/// Reads and checks all that a Bluesky image declares, up to the point where the
/// PIN is needed.
pub fn recover_from_bluesky_path(
    image: &[u8],
    jdvrif_sig_index: usize,
    jdvrif_sig: &[u8],
    xmp_template_len: usize,
) -> (r: Result<PendingRecovery, JdvrifError>)
    ensures
        match bluesky_error(
            image@,
            jdvrif_sig_index as int,
            jdvrif_sig@,
            xmp_template_len as int,
        ) {
            Some(e) => r == Err::<PendingRecovery, JdvrifError>(e),
            None => r is Ok && declares_bluesky(r->Ok_0, image@),
        },
{
    if BLUESKY_ENCRYPTED_FILE_START_INDEX > image.len() {
        return Err(JdvrifError::CorruptSignatureMetadata);
    }
    let metadata: Vec<u8> = copy_range(image, 0, BLUESKY_ENCRYPTED_FILE_START_INDEX);
    assert(metadata@ =~= bluesky_metadata(image@));
    if !matches_at(&metadata, jdvrif_sig, jdvrif_sig_index) {
        return Err(JdvrifError::CorruptSignatureMetadata);
    }
    let embedded_file_size: usize = read_be32(&metadata, BLUESKY_FILE_SIZE_INDEX) as usize;
    match validate_declared_cipher_size(embedded_file_size, RecoveryFormat::Bluesky) {
        Ok(_) => {},
        Err(e) => {
            return Err(e);
        },
    }
    match validate_bluesky_exif_metadata_capacity(&metadata, embedded_file_size, xmp_template_len) {
        Ok(_) => {},
        Err(e) => {
            return Err(e);
        },
    }
    match check_metadata_before_pin(&metadata, true) {
        Ok(_) => {},
        Err(e) => {
            return Err(e);
        },
    }
    Ok(
        PendingRecovery {
            is_bluesky_file: true,
            metadata,
            is_data_compressed: true,
            embedded_file_size,
            total_profile_header_segments: 0,
        },
    )
}

impl PendingRecovery {
    /// The ciphertext that the image holds.
    pub open spec fn ciphertext(self, image: Seq<u8>, xmp_template_len: int) -> Result<
        Seq<u8>,
        JdvrifError,
    > {
        if self.is_bluesky_file {
            match bluesky_ciphertext(image, self.embedded_file_size as int, xmp_template_len) {
                Some(cipher) => Ok(cipher),
                None => Err(JdvrifError::CorruptFile),
            }
        } else {
            default_ciphertext(
                image,
                BASE_OFFSET_DEFAULT as int,
                self.embedded_file_size as int,
                self.total_profile_header_segments as int,
            )
        }
    }

    fn extract(&self, image: &[u8], xmp_template_len: usize) -> (r: Result<Vec<u8>, JdvrifError>)
        ensures
            match self.ciphertext(image@, xmp_template_len as int) {
                Ok(cipher) => r is Ok && r->Ok_0@ == cipher,
                Err(e) => r == Err::<Vec<u8>, JdvrifError>(e),
            },
    {
        if self.is_bluesky_file {
            extract_bluesky_ciphertext(image, self.embedded_file_size, xmp_template_len)
        } else {
            extract_default_ciphertext(
                image,
                BASE_OFFSET_DEFAULT,
                self.embedded_file_size,
                self.total_profile_header_segments,
            )
        }
    }

    /// How the recovery with a PIN may end. Deriving the key can fail for want
    /// of memory.
    pub open spec fn may_end(
        self,
        image: Seq<u8>,
        pin: u64,
        xmp_template_len: int,
        r: Result<RecoveredFile, JdvrifError>,
    ) -> bool {
        match metadata_error(self.metadata@, metadata_base(self.is_bluesky_file)) {
            Some(e) => r matches Err(error) && error == e,
            None => {
                ||| r matches Err(e) && e is KeyDerivation
                ||| exists|prepared: PreparedDecrypt|
                    {
                        &&& #[trigger] prepared.comes_from(
                            self.metadata@,
                            metadata_base(self.is_bluesky_file),
                            pin,
                        )
                        &&& recovery_outcome(
                            prepared,
                            self.ciphertext(image, xmp_template_len),
                            self.is_data_compressed,
                            r,
                        )
                    }
            },
        }
    }

    /// Extracts and decrypts the file with the PIN.
    pub fn finish(&self, image: &[u8], pin: u64, xmp_template_len: usize) -> (r: Result<
        RecoveredFile,
        JdvrifError,
    >)
        ensures
            self.may_end(image@, pin, xmp_template_len as int, r),
    {
        let prepared: PreparedDecrypt = match prepare_decrypt_with_pin(
            &self.metadata,
            self.is_bluesky_file,
            pin,
        ) {
            Ok(prepared) => prepared,
            Err(e) => {
                return Err(e);
            },
        };
        let cipher: Vec<u8> = match self.extract(image, xmp_template_len) {
            Ok(cipher) => cipher,
            Err(e) => {
                let r: Result<RecoveredFile, JdvrifError> = Err(e);
                assert(recovery_outcome(
                    prepared,
                    self.ciphertext(image@, xmp_template_len as int),
                    self.is_data_compressed,
                    r,
                ));
                return r;
            },
        };
        if cipher.len() == 0 {
            let r: Result<RecoveredFile, JdvrifError> = Err(JdvrifError::EmbeddedFileEmpty);
            assert(recovery_outcome(
                prepared,
                self.ciphertext(image@, xmp_template_len as int),
                self.is_data_compressed,
                r,
            ));
            return r;
        }
        let status = decrypt_prepared_cipher(&prepared, self.is_data_compressed, &cipher);
        let ghost told: Result<DecryptStatus, JdvrifError> = status;
        let r = recovered_file(status);
        assert(prepared_outcome(prepared, self.is_data_compressed, cipher@, told));
        assert(recovery_outcome(
            prepared,
            self.ciphertext(image@, xmp_template_len as int),
            self.is_data_compressed,
            r,
        ));
        r
    }
}

/// How the recovery from a coefficient carrier may end.
pub open spec fn carrier_may_end(
    kdf_metadata: Seq<u8>,
    encrypted: Seq<u8>,
    compressed: bool,
    pin: u64,
    format: RecoveryFormat,
    r: Result<RecoveredFile, JdvrifError>,
) -> bool {
    match declared_size_error(encrypted.len() as int, format) {
        Some(e) => r matches Err(error) && error == e,
        None => match carrier_metadata_error(kdf_metadata) {
            Some(e) => r matches Err(error) && error == e,
            None => {
                ||| r matches Err(e) && e is KeyDerivation
                ||| exists|prepared: PreparedDecrypt|
                    {
                        &&& #[trigger] prepared.comes_from(kdf_metadata, 0, pin)
                        &&& recovery_outcome(prepared, Ok(encrypted), compressed, r)
                    }
            },
        },
    }
}

/// Decrypts what a coefficient carrier held. Its metadata is checked before any
/// work is done on the payload.
pub fn recover_from_coefficient_carrier(
    kdf_metadata: &[u8],
    encrypted_data: &[u8],
    is_compressed: bool,
    recovery_pin: u64,
    format: RecoveryFormat,
) -> (r: Result<RecoveredFile, JdvrifError>)
    ensures
        carrier_may_end(
            kdf_metadata@,
            encrypted_data@,
            is_compressed,
            recovery_pin,
            format,
            r,
        ),
{
    match validate_declared_cipher_size(encrypted_data.len(), format) {
        Ok(_) => {},
        Err(e) => {
            return Err(e);
        },
    }
    let prepared: PreparedDecrypt = match prepare_decrypt_from_kdf_metadata(
        kdf_metadata,
        recovery_pin,
    ) {
        Ok(prepared) => prepared,
        Err(e) => {
            return Err(e);
        },
    };
    let status = decrypt_prepared_cipher(&prepared, is_compressed, encrypted_data);
    let ghost told: Result<DecryptStatus, JdvrifError> = status;
    let r = recovered_file(status);
    assert(prepared_outcome(prepared, is_compressed, encrypted_data@, told));
    assert(recovery_outcome(prepared, Ok(encrypted_data@), is_compressed, r));
    r
}

/// Recovers from what the carriers found in an image. Nothing is found with a
/// wrong PIN as little as in an ordinary image, so that both are answered alike.
pub fn recover_from_envelope(
    found: Option<RedditEncryptedEnvelope>,
    recovery_pin: u64,
    format: RecoveryFormat,
) -> (r: Result<RecoveredFile, JdvrifError>)
    ensures
        match found {
            Some(envelope) => carrier_may_end(
                envelope.kdf_metadata@,
                envelope.encrypted_data@,
                envelope.is_compressed,
                recovery_pin,
                format,
                r,
            ),
            None => r == Err::<RecoveredFile, JdvrifError>(JdvrifError::CarrierNotFound),
        },
{
    match found {
        Some(envelope) => recover_from_coefficient_carrier(
            &envelope.kdf_metadata,
            &envelope.encrypted_data,
            envelope.is_compressed,
            recovery_pin,
            format,
        ),
        None => Err(JdvrifError::CarrierNotFound),
    }
}

/// What opens of a ciphertext with the key that a PIN and the metadata at `base`
/// lead to.
pub open spec fn opened_with(
    metadata: Seq<u8>,
    base: int,
    pin: u64,
    compressed: bool,
    cipher: Seq<u8>,
) -> OpenedFrames {
    let version = kdf_version(metadata, base);
    let key = pin_key(
        pin,
        recorded_salt(metadata, base),
        kdf_params(metadata, base, version)->Ok_0,
    );
    open_frames(
        seq![key, recorded_header(metadata, base)],
        frame_ad(version, compressed),
        cipher,
    )
}

/// A ciphertext that does not authenticate to its end, and of which no payload
/// to inflate came out before that.
pub open spec fn breaks_off(opened: OpenedFrames, compressed: bool) -> bool {
    &&& !opened.complete
    &&& !has_empty_name(opened.text)
    &&& compressed ==> payload_of(opened.text).len() == 0
}

/// A PIN that does not open the ciphertext, and a ciphertext that was changed,
/// are answered alike: as an invalid PIN, unless the key could not be derived at
/// all.
pub proof fn law_unopened_ciphertext_is_an_invalid_pin(
    pending: PendingRecovery,
    image: Seq<u8>,
    pin: u64,
    xmp_template_len: int,
    cipher: Seq<u8>,
    r: Result<RecoveredFile, JdvrifError>,
)
    requires
        metadata_error(pending.metadata@, metadata_base(pending.is_bluesky_file)) is None,
        pending.ciphertext(image, xmp_template_len) == Ok::<Seq<u8>, JdvrifError>(cipher),
        cipher.len() > 0,
        breaks_off(
            opened_with(
                pending.metadata@,
                metadata_base(pending.is_bluesky_file),
                pin,
                pending.is_data_compressed,
                cipher,
            ),
            pending.is_data_compressed,
        ),
        pending.may_end(image, pin, xmp_template_len, r),
    ensures
        r matches Err(e) && (e is InvalidPin || e is KeyDerivation),
{
    let base = metadata_base(pending.is_bluesky_file);
    if !(r matches Err(e) && e is KeyDerivation) {
        let prepared = choose|prepared: PreparedDecrypt|
            {
                &&& #[trigger] prepared.comes_from(pending.metadata@, base, pin)
                &&& recovery_outcome(
                    prepared,
                    pending.ciphertext(image, xmp_template_len),
                    pending.is_data_compressed,
                    r,
                )
            };
        assert(seq![prepared.key@, prepared.header@] =~= seq![
            prepared.key@,
            recorded_header(pending.metadata@, base),
        ]);
    }
}

/// The same holds of a coefficient carrier.
pub proof fn law_unopened_carrier_is_an_invalid_pin(
    kdf_metadata: Seq<u8>,
    encrypted: Seq<u8>,
    compressed: bool,
    pin: u64,
    format: RecoveryFormat,
    r: Result<RecoveredFile, JdvrifError>,
)
    requires
        declared_size_error(encrypted.len() as int, format) is None,
        carrier_metadata_error(kdf_metadata) is None,
        breaks_off(opened_with(kdf_metadata, 0, pin, compressed, encrypted), compressed),
        carrier_may_end(kdf_metadata, encrypted, compressed, pin, format, r),
    ensures
        r matches Err(e) && (e is InvalidPin || e is KeyDerivation),
{
    if !(r matches Err(e) && e is KeyDerivation) {
        let prepared = choose|prepared: PreparedDecrypt|
            {
                &&& #[trigger] prepared.comes_from(kdf_metadata, 0, pin)
                &&& recovery_outcome(prepared, Ok(encrypted), compressed, r)
            };
        assert(seq![prepared.key@, prepared.header@] =~= seq![
            prepared.key@,
            recorded_header(kdf_metadata, 0),
        ]);
    }
}

} // verus!
