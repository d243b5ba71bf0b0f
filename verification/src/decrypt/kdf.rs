//! The encryption metadata of an image and the key that it leads to.

use crate::common::{
    be32, be32_bytes, copy_range, lemma_be32_roundtrip, matches_at, occurs_at, overwrite,
    overwritten, push_be32, read_be32, span_has_range,
};
use crate::constants::{
    BLUESKY_KDF_METADATA_INDEX, DEFAULT_DECRYPT_KDF_METADATA_INDEX, KDF_ALG_ARGON2ID13,
    KDF_ALG_OFFSET, KDF_MAGIC_OFFSET, KDF_MEMLIMIT_INTERACTIVE, KDF_MEMLIMIT_MAX_ACCEPTED,
    KDF_MEMLIMIT_MIN, KDF_MEMLIMIT_OFFSET, KDF_METADATA_MAGIC_V2, KDF_METADATA_MAGIC_V3,
    KDF_METADATA_MAGIC_V4, KDF_METADATA_REGION_BYTES, KDF_NONCE_OFFSET, KDF_OPSLIMIT_INTERACTIVE,
    KDF_OPSLIMIT_MAX_ACCEPTED, KDF_OPSLIMIT_MIN, KDF_OPSLIMIT_OFFSET, KDF_SALT_BYTES,
    KDF_SALT_OFFSET, KDF_SENTINEL, KDF_SENTINEL_OFFSET, SECRETSTREAM_HEADER_BYTES,
    SECRETSTREAM_KEY_BYTES,
};
use crate::crypto::{argon2id_derive, argon2id_key, randombytes_into, wipe_vec_capacity};
use crate::decimal::{decimal, decimal_bytes};
use crate::runtime::{DecryptOffsets, JdvrifError, KdfMetadataVersion, KdfParams};
use vstd::prelude::*;

verus! {

/// Costs of newly concealed images. V2 and V3 images carry no record and used
/// exactly these.
pub open spec fn kdf_params_current() -> KdfParams {
    KdfParams { opslimit: KDF_OPSLIMIT_INTERACTIVE, memlimit: KDF_MEMLIMIT_INTERACTIVE }
}

pub fn current_kdf_params() -> (r: KdfParams)
    ensures
        r == kdf_params_current(),
        r.opslimit == 2,
        r.memlimit == 67108864,
{
    KdfParams { opslimit: KDF_OPSLIMIT_INTERACTIVE, memlimit: KDF_MEMLIMIT_INTERACTIVE }
}

/// The format of the metadata that begins at `base`.
pub open spec fn kdf_version(data: Seq<u8>, base: int) -> KdfMetadataVersion {
    if base + KDF_METADATA_REGION_BYTES > data.len() || data[base + KDF_ALG_OFFSET]
        != KDF_ALG_ARGON2ID13 || data[base + KDF_SENTINEL_OFFSET] != KDF_SENTINEL {
        KdfMetadataVersion::Unrecognized
    } else if occurs_at(data, KDF_METADATA_MAGIC_V2@, base) {
        KdfMetadataVersion::V2Secretstream
    } else if occurs_at(data, KDF_METADATA_MAGIC_V3@, base) {
        KdfMetadataVersion::V3SecretstreamAuthenticatedMode
    } else if occurs_at(data, KDF_METADATA_MAGIC_V4@, base) {
        KdfMetadataVersion::V4RecordedKdfParameters
    } else {
        KdfMetadataVersion::Unrecognized
    }
}

pub fn get_kdf_metadata_version(data: &[u8], base_index: usize) -> (r: KdfMetadataVersion)
    ensures
        r == kdf_version(data@, base_index as int),
{
    if !span_has_range(data.len(), base_index, KDF_METADATA_REGION_BYTES) {
        return KdfMetadataVersion::Unrecognized;
    }
    if data[base_index + KDF_ALG_OFFSET] != KDF_ALG_ARGON2ID13 || data[base_index
        + KDF_SENTINEL_OFFSET] != KDF_SENTINEL {
        return KdfMetadataVersion::Unrecognized;
    }
    if matches_at(data, &KDF_METADATA_MAGIC_V2, base_index) {
        return KdfMetadataVersion::V2Secretstream;
    }
    if matches_at(data, &KDF_METADATA_MAGIC_V3, base_index) {
        return KdfMetadataVersion::V3SecretstreamAuthenticatedMode;
    }
    if matches_at(data, &KDF_METADATA_MAGIC_V4, base_index) {
        return KdfMetadataVersion::V4RecordedKdfParameters;
    }
    KdfMetadataVersion::Unrecognized
}

/// Whether the recorded costs are ones that recovery is willing to run.
pub open spec fn acceptable_costs(opslimit: int, memlimit: int) -> bool {
    KDF_OPSLIMIT_MIN <= opslimit <= KDF_OPSLIMIT_MAX_ACCEPTED && KDF_MEMLIMIT_MIN <= memlimit
        <= KDF_MEMLIMIT_MAX_ACCEPTED
}

/// The costs that the image says its key was derived with.
pub open spec fn kdf_params(data: Seq<u8>, base: int, version: KdfMetadataVersion) -> Result<
    KdfParams,
    JdvrifError,
> {
    if !(version is V4RecordedKdfParameters) {
        Ok(kdf_params_current())
    } else if base + KDF_METADATA_REGION_BYTES > data.len() {
        Err(JdvrifError::CorruptFile)
    } else {
        let opslimit = be32(data, base + KDF_OPSLIMIT_OFFSET);
        let memlimit = be32(data, base + KDF_MEMLIMIT_OFFSET);
        if acceptable_costs(opslimit, memlimit) {
            Ok(KdfParams { opslimit: opslimit as usize, memlimit: memlimit as usize })
        } else {
            Err(JdvrifError::UnsupportedKdfParameters)
        }
    }
}

/// Cost parameters this image says its key was derived with. V2 and V3 carry no
/// record; V4 reads the stored pair and rejects anything outside the accepted
/// range, since the costs drive an allocation and a work loop that run before
/// the PIN can be shown to be wrong.
pub fn read_kdf_params(data: &[u8], base_index: usize, version: KdfMetadataVersion) -> (r: Result<
    KdfParams,
    JdvrifError,
>)
    requires
        base_index + KDF_METADATA_REGION_BYTES <= usize::MAX,
    ensures
        r == kdf_params(data@, base_index as int, version),
{
    if version != KdfMetadataVersion::V4RecordedKdfParameters {
        return Ok(current_kdf_params());
    }
    if !span_has_range(data.len(), base_index + KDF_OPSLIMIT_OFFSET, 4) || !span_has_range(
        data.len(),
        base_index + KDF_MEMLIMIT_OFFSET,
        4,
    ) {
        return Err(JdvrifError::CorruptFile);
    }
    let opslimit: usize = read_be32(data, base_index + KDF_OPSLIMIT_OFFSET) as usize;
    let memlimit: usize = read_be32(data, base_index + KDF_MEMLIMIT_OFFSET) as usize;
    if opslimit < KDF_OPSLIMIT_MIN || opslimit > KDF_OPSLIMIT_MAX_ACCEPTED || memlimit
        < KDF_MEMLIMIT_MIN || memlimit > KDF_MEMLIMIT_MAX_ACCEPTED {
        return Err(JdvrifError::UnsupportedKdfParameters);
    }
    Ok(KdfParams { opslimit, memlimit })
}

/// Coefficient-carrier envelopes have only ever carried mode-authenticating
/// metadata, so V2 is not accepted there.
pub fn require_coefficient_carrier_secretstream(metadata: &[u8], offsets: DecryptOffsets) -> (r:
    Result<KdfMetadataVersion, JdvrifError>)
    ensures
        r == (if kdf_version(metadata@, offsets.sodium_key_index as int).binds_mode() {
            Ok(kdf_version(metadata@, offsets.sodium_key_index as int))
        } else {
            Err(JdvrifError::CarrierMetadata)
        }),
{
    let metadata_version = get_kdf_metadata_version(metadata, offsets.sodium_key_index);
    if !metadata_version.authenticates_stream_mode() {
        return Err(JdvrifError::CarrierMetadata);
    }
    Ok(metadata_version)
}

pub fn require_supported_secretstream(metadata: &[u8], offsets: DecryptOffsets) -> (r: Result<
    KdfMetadataVersion,
    JdvrifError,
>)
    ensures
        r == (if kdf_version(metadata@, offsets.sodium_key_index as int) !is Unrecognized {
            Ok(kdf_version(metadata@, offsets.sodium_key_index as int))
        } else {
            Err(JdvrifError::UnsupportedLegacyFormat)
        }),
{
    let metadata_version = get_kdf_metadata_version(metadata, offsets.sodium_key_index);
    if !metadata_version.is_supported() {
        return Err(JdvrifError::UnsupportedLegacyFormat);
    }
    Ok(metadata_version)
}

/// Where the metadata begins in what is read from an image.
pub open spec fn metadata_base(is_bluesky_file: bool) -> int {
    if is_bluesky_file {
        BLUESKY_KDF_METADATA_INDEX as int
    } else {
        DEFAULT_DECRYPT_KDF_METADATA_INDEX as int
    }
}

pub fn decrypt_offsets(is_bluesky_file: bool) -> (r: DecryptOffsets)
    ensures
        r.sodium_key_index == metadata_base(is_bluesky_file),
{
    DecryptOffsets {
        sodium_key_index: if is_bluesky_file {
            BLUESKY_KDF_METADATA_INDEX
        } else {
            DEFAULT_DECRYPT_KDF_METADATA_INDEX
        },
    }
}

/// The key that a PIN, a salt and costs lead to.
pub open spec fn pin_key(pin: u64, salt: Seq<u8>, params: KdfParams) -> Seq<u8> {
    argon2id_key(
        decimal(pin as nat),
        salt,
        params.opslimit as int,
        params.memlimit as int,
        SECRETSTREAM_KEY_BYTES as int,
    )
}

/// The salt recorded in the metadata that begins at `base`.
pub open spec fn recorded_salt(data: Seq<u8>, base: int) -> Seq<u8> {
    data.subrange(base + KDF_SALT_OFFSET, base + KDF_SALT_OFFSET + KDF_SALT_BYTES)
}

/// The secretstream header recorded in the metadata that begins at `base`.
pub open spec fn recorded_header(data: Seq<u8>, base: int) -> Seq<u8> {
    data.subrange(base + KDF_NONCE_OFFSET, base + KDF_NONCE_OFFSET + SECRETSTREAM_HEADER_BYTES)
}

fn salt_array(salt: &[u8]) -> (r: [u8; 16])
    requires
        salt@.len() == 16,
    ensures
        r@ == salt@,
{
    let mut r: [u8; 16] = [0u8; 16];
    let mut i: usize = 0;
    while i < 16
        invariant
            i <= 16,
            salt@.len() == 16,
            forall|j: int| 0 <= j < i ==> r@[j] == salt@[j],
        decreases 16 - i,
    {
        r[i] = salt[i];
        i += 1;
    }
    assert(r@ =~= salt@);
    r
}

fn header_array(header: &[u8]) -> (r: [u8; 24])
    requires
        header@.len() == 24,
    ensures
        r@ == header@,
{
    let mut r: [u8; 24] = [0u8; 24];
    let mut i: usize = 0;
    while i < 24
        invariant
            i <= 24,
            header@.len() == 24,
            forall|j: int| 0 <= j < i ==> r@[j] == header@[j],
        decreases 24 - i,
    {
        r[i] = header[i];
        i += 1;
    }
    assert(r@ =~= header@);
    r
}

/// Derives the key of a PIN. A salt of any other length than 16 bytes is
/// refused; the derivation itself can fail for want of memory.
pub fn derive_key_from_pin(pin: u64, salt_bytes: &[u8], params: KdfParams) -> (r: Result<
    Vec<u8>,
    JdvrifError,
>)
    ensures
        match r {
            Ok(key) => {
                &&& salt_bytes@.len() == KDF_SALT_BYTES
                &&& key@.len() == SECRETSTREAM_KEY_BYTES
                &&& key@ == pin_key(pin, salt_bytes@, params)
            },
            Err(e) => e is KeyDerivation,
        },
        r matches Ok(key) ==> salt_bytes@.len() == 16 && key@ == argon2id_key(
            decimal(pin as nat),
            salt_bytes@,
            params.opslimit as int,
            params.memlimit as int,
            32,
        ),
{
    if salt_bytes.len() != KDF_SALT_BYTES {
        return Err(JdvrifError::KeyDerivation);
    }
    let salt: [u8; 16] = salt_array(salt_bytes);
    let mut pin_bytes: Vec<u8> = decimal_bytes(pin);
    let mut key: Vec<u8> = vec![0u8; SECRETSTREAM_KEY_BYTES];
    let derived = argon2id_derive(&pin_bytes, &salt, params.opslimit, params.memlimit, &mut key);
    wipe_vec_capacity(&mut pin_bytes);
    match derived {
        Ok(_) => Ok(key),
        Err(_) => {
            wipe_vec_capacity(&mut key);
            Err(JdvrifError::KeyDerivation)
        },
    }
}

pub fn derive_secretstream_key_and_header(
    metadata: &[u8],
    offsets: DecryptOffsets,
    params: KdfParams,
    pin: u64,
) -> (r: Result<(Vec<u8>, [u8; 24]), JdvrifError>)
    requires
        offsets.sodium_key_index + KDF_METADATA_REGION_BYTES <= usize::MAX,
    ensures
        ({
            let base = offsets.sodium_key_index as int;
            if base + KDF_NONCE_OFFSET + SECRETSTREAM_HEADER_BYTES > metadata@.len() {
                r matches Err(e) && e is CorruptFile
            } else {
                match r {
                    Ok((key, header)) => {
                        &&& key@.len() == SECRETSTREAM_KEY_BYTES
                        &&& key@ == pin_key(pin, recorded_salt(metadata@, base), params)
                        &&& header@ == recorded_header(metadata@, base)
                    },
                    Err(e) => e is KeyDerivation,
                }
            }
        }),
{
    let salt_begin: usize = offsets.sodium_key_index + KDF_SALT_OFFSET;
    let hdr_begin: usize = offsets.sodium_key_index + KDF_NONCE_OFFSET;
    if !span_has_range(metadata.len(), salt_begin, KDF_SALT_BYTES) || !span_has_range(
        metadata.len(),
        hdr_begin,
        SECRETSTREAM_HEADER_BYTES,
    ) {
        return Err(JdvrifError::CorruptFile);
    }
    let salt: Vec<u8> = copy_range(metadata, salt_begin, salt_begin + KDF_SALT_BYTES);
    let key: Vec<u8> = match derive_key_from_pin(pin, &salt, params) {
        Ok(key) => key,
        Err(e) => {
            return Err(e);
        },
    };
    let header: Vec<u8> = copy_range(metadata, hdr_begin, hdr_begin + SECRETSTREAM_HEADER_BYTES);
    Ok((key, header_array(&header)))
}

/// The metadata that begins at `base` is of the newest format and records this
/// salt, this header and these costs.
pub open spec fn records_kdf_v4(
    data: Seq<u8>,
    base: int,
    salt: Seq<u8>,
    header: Seq<u8>,
    params: KdfParams,
) -> bool {
    &&& base + KDF_METADATA_REGION_BYTES <= data.len()
    &&& occurs_at(data, KDF_METADATA_MAGIC_V4@, base)
    &&& data[base + KDF_ALG_OFFSET] == KDF_ALG_ARGON2ID13
    &&& data[base + KDF_SENTINEL_OFFSET] == KDF_SENTINEL
    &&& recorded_salt(data, base) == salt
    &&& recorded_header(data, base) == header
    &&& data.subrange(base + KDF_OPSLIMIT_OFFSET, base + KDF_OPSLIMIT_OFFSET + 4) == be32_bytes(
        params.opslimit as int,
    )
    &&& data.subrange(base + KDF_MEMLIMIT_OFFSET, base + KDF_MEMLIMIT_OFFSET + 4) == be32_bytes(
        params.memlimit as int,
    )
}

/// Nothing but the metadata that begins at `base` differs.
pub open spec fn same_but_region(before: Seq<u8>, after: Seq<u8>, base: int) -> bool {
    &&& after.len() == before.len()
    &&& forall|i: int|
        0 <= i < before.len() && !(base <= i < base + KDF_METADATA_REGION_BYTES) ==> #[trigger]
            after[i] == before[i]
}

/// The metadata of the newest format; two of its bytes are left open and filled
/// from the filler.
pub open spec fn kdf_region_v4(
    salt: Seq<u8>,
    header: Seq<u8>,
    params: KdfParams,
    filler: Seq<u8>,
) -> Seq<u8> {
    KDF_METADATA_MAGIC_V4@ + seq![KDF_ALG_ARGON2ID13, KDF_SENTINEL, filler[6], filler[7]] + salt
        + header + be32_bytes(params.opslimit as int) + be32_bytes(params.memlimit as int)
}

/// `data` with the metadata of the newest format laid over it from `base` on.
pub open spec fn with_kdf_v4(
    data: Seq<u8>,
    base: int,
    salt: Seq<u8>,
    header: Seq<u8>,
    params: KdfParams,
    filler: Seq<u8>,
) -> Seq<u8> {
    overwritten(data, base, kdf_region_v4(salt, header, params, filler))
}

/// What was laid over is recorded, and nothing else differs.
pub proof fn lemma_with_kdf_v4(
    data: Seq<u8>,
    base: int,
    salt: Seq<u8>,
    header: Seq<u8>,
    params: KdfParams,
    filler: Seq<u8>,
)
    requires
        0 <= base,
        base + KDF_METADATA_REGION_BYTES <= data.len(),
        salt.len() == KDF_SALT_BYTES,
        header.len() == SECRETSTREAM_HEADER_BYTES,
    ensures
        same_but_region(data, with_kdf_v4(data, base, salt, header, params, filler), base),
        records_kdf_v4(
            with_kdf_v4(data, base, salt, header, params, filler),
            base,
            salt,
            header,
            params,
        ),
{
    let region = kdf_region_v4(salt, header, params, filler);
    let out = with_kdf_v4(data, base, salt, header, params, filler);
    assert(region.len() == KDF_METADATA_REGION_BYTES);
    assert forall|i: int| 0 <= i < KDF_METADATA_REGION_BYTES implies out[base + i] == region[i] by {}
    assert(out.subrange(base, base + 4) =~= KDF_METADATA_MAGIC_V4@);
    assert(recorded_salt(out, base) =~= salt);
    assert(recorded_header(out, base) =~= header);
    assert(out.subrange(base + 48, base + 52) =~= be32_bytes(params.opslimit as int));
    assert(out.subrange(base + 52, base + 56) =~= be32_bytes(params.memlimit as int));
}

/// Writes the metadata block into `segment_vec` at the given index, on top of
/// the filler, which stays where the format leaves the bytes open.
pub fn fill_kdf_metadata(
    segment_vec: &mut Vec<u8>,
    kdf_metadata_index: usize,
    salt: &[u8],
    stream_header: &[u8; 24],
    params: KdfParams,
    filler: Vec<u8>,
)
    requires
        kdf_metadata_index + KDF_METADATA_REGION_BYTES <= old(segment_vec)@.len(),
        salt@.len() == KDF_SALT_BYTES,
        params.opslimit <= u32::MAX,
        params.memlimit <= u32::MAX,
        filler@.len() == KDF_METADATA_REGION_BYTES,
    ensures
        final(segment_vec)@ == with_kdf_v4(
            old(segment_vec)@,
            kdf_metadata_index as int,
            salt@,
            stream_header@,
            params,
            filler@,
        ),
{
    let mut region: Vec<u8> = filler;
    let mut costs: Vec<u8> = Vec::new();
    push_be32(&mut costs, params.opslimit as u32);
    push_be32(&mut costs, params.memlimit as u32);
    overwrite(&mut region, KDF_MAGIC_OFFSET, &KDF_METADATA_MAGIC_V4);
    region.set(KDF_ALG_OFFSET, KDF_ALG_ARGON2ID13);
    region.set(KDF_SENTINEL_OFFSET, KDF_SENTINEL);
    overwrite(&mut region, KDF_SALT_OFFSET, salt);
    overwrite(&mut region, KDF_NONCE_OFFSET, stream_header);
    overwrite(&mut region, KDF_OPSLIMIT_OFFSET, &costs);
    assert(region@ =~= kdf_region_v4(salt@, stream_header@, params, filler@));
    overwrite(segment_vec, kdf_metadata_index, &region);
}

/// Random bytes for what the format leaves open.
pub fn random_kdf_filler() -> (r: Result<Vec<u8>, JdvrifError>)
    ensures
        match r {
            Ok(filler) => filler@.len() == KDF_METADATA_REGION_BYTES,
            Err(e) => e is RandomKdfRegion,
        },
{
    let mut filler: Vec<u8> = vec![0u8; KDF_METADATA_REGION_BYTES];
    match randombytes_into(&mut filler) {
        Ok(_) => Ok(filler),
        Err(_) => Err(JdvrifError::RandomKdfRegion),
    }
}

/// Writes the metadata block into `segment_vec` at the given index. What the
/// format leaves open is random filler.
pub fn write_kdf_metadata(
    segment_vec: &mut Vec<u8>,
    kdf_metadata_index: usize,
    salt: &[u8],
    stream_header: &[u8; 24],
    params: KdfParams,
) -> (r: Result<(), JdvrifError>)
    requires
        kdf_metadata_index + KDF_METADATA_REGION_BYTES <= old(segment_vec)@.len(),
        salt@.len() == KDF_SALT_BYTES,
        params.opslimit <= u32::MAX,
        params.memlimit <= u32::MAX,
    ensures
        match r {
            Ok(_) => {
                &&& same_but_region(
                    old(segment_vec)@,
                    final(segment_vec)@,
                    kdf_metadata_index as int,
                )
                &&& records_kdf_v4(
                    final(segment_vec)@,
                    kdf_metadata_index as int,
                    salt@,
                    stream_header@,
                    params,
                )
            },
            Err(e) => e is RandomKdfRegion && final(segment_vec)@ == old(segment_vec)@,
        },
{
    match random_kdf_filler() {
        Ok(filler) => {
            proof {
                lemma_with_kdf_v4(
                    segment_vec@,
                    kdf_metadata_index as int,
                    salt@,
                    stream_header@,
                    params,
                    filler@,
                );
            }
            fill_kdf_metadata(segment_vec, kdf_metadata_index, salt, stream_header, params, filler);
            Ok(())
        },
        Err(e) => Err(e),
    }
}

/// Metadata that was written is read back: the newest format, the recorded costs
/// as far as they are acceptable, the salt and the header.
pub proof fn law_kdf_metadata_read_back(
    data: Seq<u8>,
    base: int,
    salt: Seq<u8>,
    header: Seq<u8>,
    params: KdfParams,
)
    requires
        0 <= base,
        records_kdf_v4(data, base, salt, header, params),
        acceptable_costs(params.opslimit as int, params.memlimit as int),
    ensures
        kdf_version(data, base) is V4RecordedKdfParameters,
        kdf_params(data, base, kdf_version(data, base)) == Ok::<KdfParams, JdvrifError>(params),
        recorded_salt(data, base) == salt,
        recorded_header(data, base) == header,
{
    let magic = data.subrange(base, base + 4);
    assert(magic[3] == KDF_METADATA_MAGIC_V4@[3]);
    assert(KDF_METADATA_MAGIC_V2@[3] == 0x32);
    assert(KDF_METADATA_MAGIC_V3@[3] == 0x33);
    lemma_be32_roundtrip(params.opslimit as int);
    lemma_be32_roundtrip(params.memlimit as int);
    let ops = data.subrange(base + 48, base + 52);
    let mem = data.subrange(base + 52, base + 56);
    assert(be32(data, base + 48) == be32(ops, 0));
    assert(be32(data, base + 52) == be32(mem, 0));
}

} // verus!
