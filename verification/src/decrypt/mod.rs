//! Decrypting an extracted payload with the recovery PIN.

pub mod inflate;
pub mod kdf;
pub mod pin;
pub mod prefix;
pub mod stream;

use crate::common::span_has_range;
use crate::constants::KDF_METADATA_REGION_BYTES;
use crate::crypto::wipe_vec_capacity;
use crate::runtime::{DecryptOffsets, JdvrifError, KdfMetadataVersion, KdfParams};
use kdf::{
    decrypt_offsets, derive_secretstream_key_and_header, kdf_params, kdf_version, metadata_base,
    pin_key, read_kdf_params, recorded_header, recorded_salt,
    require_coefficient_carrier_secretstream, require_supported_secretstream,
};
use stream::{decrypt_ciphertext, decrypt_outcome, frame_ad, open_frames, DecryptStatus};
use vstd::prelude::*;

verus! {

/// A key, the header of the stream it opens and the format both came from.
pub struct PreparedDecrypt {
    pub key: Vec<u8>,
    pub header: [u8; 24],
    pub metadata_version: KdfMetadataVersion,
}

impl PreparedDecrypt {
    pub open spec fn wf(self) -> bool {
        self.key@.len() == 32
    }

    /// What the metadata that begins at `base` gives for a PIN.
    pub open spec fn comes_from(self, metadata: Seq<u8>, base: int, pin: u64) -> bool {
        &&& self.wf()
        &&& self.metadata_version == kdf_version(metadata, base)
        &&& self.header@ == recorded_header(metadata, base)
        &&& kdf_params(metadata, base, kdf_version(metadata, base)) matches Ok(params)
            && self.key@ == pin_key(pin, recorded_salt(metadata, base), params)
    }
}

impl Drop for PreparedDecrypt {
    fn drop(&mut self)
        ensures
            final(self).key@.len() == 0,
        opens_invariants none
        no_unwind
    {
        wipe_vec_capacity(&mut self.key);
    }
}

/// Whether the metadata that begins at `base` can be used, and why not.
pub open spec fn metadata_error(metadata: Seq<u8>, base: int) -> Option<JdvrifError> {
    if base + KDF_METADATA_REGION_BYTES > metadata.len() {
        Some(JdvrifError::CorruptFile)
    } else if kdf_version(metadata, base) is Unrecognized {
        Some(JdvrifError::UnsupportedLegacyFormat)
    } else {
        match kdf_params(metadata, base, kdf_version(metadata, base)) {
            Ok(_) => None,
            Err(e) => Some(e),
        }
    }
}

/// Whether the metadata of a coefficient carrier can be used, and why not.
pub open spec fn carrier_metadata_error(metadata: Seq<u8>) -> Option<JdvrifError> {
    if metadata.len() != KDF_METADATA_REGION_BYTES {
        Some(JdvrifError::CorruptFile)
    } else if !kdf_version(metadata, 0).binds_mode() {
        Some(JdvrifError::CarrierMetadata)
    } else {
        match kdf_params(metadata, 0, kdf_version(metadata, 0)) {
            Ok(_) => None,
            Err(e) => Some(e),
        }
    }
}

/// Rejects metadata of an unsupported format, and costs that will not be run,
/// before a PIN is asked for.
pub fn check_metadata_before_pin(metadata: &[u8], is_bluesky_file: bool) -> (r: Result<
    (),
    JdvrifError,
>)
    ensures
        match metadata_error(metadata@, metadata_base(is_bluesky_file)) {
            None => r is Ok,
            Some(e) => r == Err::<(), JdvrifError>(e),
        },
{
    let offsets = decrypt_offsets(is_bluesky_file);
    if !span_has_range(metadata.len(), offsets.sodium_key_index, KDF_METADATA_REGION_BYTES) {
        return Err(JdvrifError::CorruptFile);
    }
    let metadata_version = match require_supported_secretstream(metadata, offsets) {
        Ok(version) => version,
        Err(e) => {
            return Err(e);
        },
    };
    match read_kdf_params(metadata, offsets.sodium_key_index, metadata_version) {
        Ok(_) => Ok(()),
        Err(e) => Err(e),
    }
}

/// Reads the metadata of an image and derives the key of a PIN. The derivation
/// can fail for want of memory.
pub fn prepare_decrypt_with_pin(metadata: &[u8], is_bluesky_file: bool, pin: u64) -> (r: Result<
    PreparedDecrypt,
    JdvrifError,
>)
    ensures
        match metadata_error(metadata@, metadata_base(is_bluesky_file)) {
            Some(e) => r matches Err(error) && error == e,
            None => match r {
                Ok(prepared) => prepared.comes_from(
                    metadata@,
                    metadata_base(is_bluesky_file),
                    pin,
                ),
                Err(e) => e is KeyDerivation,
            },
        },
{
    let offsets = decrypt_offsets(is_bluesky_file);
    if !span_has_range(metadata.len(), offsets.sodium_key_index, KDF_METADATA_REGION_BYTES) {
        return Err(JdvrifError::CorruptFile);
    }
    let metadata_version = match require_supported_secretstream(metadata, offsets) {
        Ok(version) => version,
        Err(e) => {
            return Err(e);
        },
    };
    let params: KdfParams = match read_kdf_params(
        metadata,
        offsets.sodium_key_index,
        metadata_version,
    ) {
        Ok(params) => params,
        Err(e) => {
            return Err(e);
        },
    };
    match derive_secretstream_key_and_header(metadata, offsets, params, pin) {
        Ok((key, header)) => Ok(PreparedDecrypt { key, header, metadata_version }),
        Err(e) => Err(e),
    }
}

/// Takes the PIN the caller has already collected: coefficient-carrier positions
/// derive from it, so recovery has it before it can locate anything.
pub fn prepare_decrypt_from_kdf_metadata(metadata: &[u8], pin: u64) -> (r: Result<
    PreparedDecrypt,
    JdvrifError,
>)
    ensures
        match carrier_metadata_error(metadata@) {
            Some(e) => r matches Err(error) && error == e,
            None => match r {
                Ok(prepared) => prepared.comes_from(metadata@, 0, pin),
                Err(e) => e is KeyDerivation,
            },
        },
{
    if metadata.len() != KDF_METADATA_REGION_BYTES {
        return Err(JdvrifError::CorruptFile);
    }
    let offsets = DecryptOffsets { sodium_key_index: 0 };
    let metadata_version = match require_coefficient_carrier_secretstream(metadata, offsets) {
        Ok(version) => version,
        Err(e) => {
            return Err(e);
        },
    };
    let params: KdfParams = match read_kdf_params(metadata, 0, metadata_version) {
        Ok(params) => params,
        Err(e) => {
            return Err(e);
        },
    };
    match derive_secretstream_key_and_header(metadata, offsets, params, pin) {
        Ok((key, header)) => Ok(PreparedDecrypt { key, header, metadata_version }),
        Err(e) => Err(e),
    }
}

/// How the decryption of a ciphertext ends, by what opens of it.
pub open spec fn prepared_outcome(
    prepared: PreparedDecrypt,
    is_data_compressed: bool,
    cipher: Seq<u8>,
    r: Result<DecryptStatus, JdvrifError>,
) -> bool {
    decrypt_outcome(
        open_frames(
            seq![prepared.key@, prepared.header@],
            frame_ad(prepared.metadata_version, is_data_compressed),
            cipher,
        ),
        is_data_compressed,
        r,
    )
}

pub fn decrypt_prepared_cipher(
    prepared: &PreparedDecrypt,
    is_data_compressed: bool,
    cipher: &[u8],
) -> (r: Result<DecryptStatus, JdvrifError>)
    requires
        prepared.wf(),
    ensures
        prepared_outcome(*prepared, is_data_compressed, cipher@, r),
{
    decrypt_ciphertext(
        cipher,
        &prepared.key,
        &prepared.header,
        prepared.metadata_version,
        is_data_compressed,
    )
}

/// Decrypts the ciphertext of an image with the PIN and the image's metadata.
pub fn decrypt_from_cipher_with_pin(
    metadata: &[u8],
    is_bluesky_file: bool,
    is_data_compressed: bool,
    cipher: &[u8],
    pin: u64,
) -> (r: Result<DecryptStatus, JdvrifError>)
    ensures
        match metadata_error(metadata@, metadata_base(is_bluesky_file)) {
            Some(e) => r matches Err(error) && error == e,
            None => {
                ||| r matches Err(e) && e is KeyDerivation
                ||| exists|prepared: PreparedDecrypt|
                    {
                        &&& prepared.comes_from(metadata@, metadata_base(is_bluesky_file), pin)
                        &&& #[trigger] prepared_outcome(prepared, is_data_compressed, cipher@, r)
                    }
            },
        },
{
    let prepared = match prepare_decrypt_with_pin(metadata, is_bluesky_file, pin) {
        Ok(prepared) => prepared,
        Err(e) => {
            return Err(e);
        },
    };
    decrypt_prepared_cipher(&prepared, is_data_compressed, cipher)
}

} // verus!
