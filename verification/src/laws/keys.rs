//! Encryption metadata byte by byte, and the key that it leads to.

use crate::cli::ConcealOption;
use crate::conceal::{kdf_index, stored_payload, Concealed};
use crate::conceal_helpers::stores_raw;
use crate::crypto::argon2id_key;
use crate::decimal::decimal;
use crate::decrypt::kdf::{
    kdf_params, kdf_params_current, kdf_version, lemma_with_kdf_v4, metadata_base, pin_key,
    recorded_header, recorded_salt, with_kdf_v4,
};
use crate::decrypt::stream::{frame_ad, open_frames, OpenedFrames};
use crate::decrypt::{carrier_metadata_error, metadata_error};
use crate::filename::path_file_name;
use crate::runtime::{JdvrifError, KdfMetadataVersion, KdfParams};
use vstd::prelude::*;

verus! {

/// The big-endian number of four bytes at `i`.
pub open spec fn long_number_at(s: Seq<u8>, i: int) -> int {
    s[i] * 16777216 + s[i + 1] * 65536 + s[i + 2] * 256 + s[i + 3]
}

/// The metadata of a format stands at `base`: "KDF" and the digit of the format, the
/// number of the algorithm, the sentinel, and room for the rest.
pub open spec fn has_metadata(data: Seq<u8>, base: int, digit: u8) -> bool {
    &&& base + 56 <= data.len()
    &&& data[base] == 0x4B
    &&& data[base + 1] == 0x44
    &&& data[base + 2] == 0x46
    &&& data[base + 3] == digit
    &&& data[base + 4] == 1
    &&& data[base + 5] == 0xA5
}

/// Costs from the least that Argon2id takes to sixteen passes and 512 MiB.
pub open spec fn has_bounded_costs(data: Seq<u8>, base: int) -> bool {
    1 <= long_number_at(data, base + 48) <= 16 && 8192 <= long_number_at(data, base + 52)
        <= 536870912
}

proof fn lemma_magic(data: Seq<u8>, base: int, digit: u8, magic: Seq<u8>)
    requires
        0 <= base,
        base + 4 <= data.len(),
        magic == seq![0x4Bu8, 0x44u8, 0x46u8, digit],
    ensures
        data.subrange(base, base + 4) == magic <==> data[base] == 0x4B && data[base + 1] == 0x44
            && data[base + 2] == 0x46 && data[base + 3] == digit,
{
    let part = data.subrange(base, base + 4);
    assert(part[0] == data[base] && part[1] == data[base + 1] && part[2] == data[base + 2]
        && part[3] == data[base + 3]);
    assert(magic[0] == 0x4B && magic[1] == 0x44 && magic[2] == 0x46 && magic[3] == digit);
    if data[base] == 0x4B && data[base + 1] == 0x44 && data[base + 2] == 0x46 && data[base + 3]
        == digit {
        assert(part =~= magic);
    }
}

/// The format is told by the digit behind "KDF"; anything else is not recognized.
pub proof fn law_metadata_formats(data: Seq<u8>, base: int)
    requires
        0 <= base,
    ensures
        kdf_version(data, base) is V2Secretstream <==> has_metadata(data, base, 0x32),
        kdf_version(data, base) is V3SecretstreamAuthenticatedMode <==> has_metadata(
            data,
            base,
            0x33,
        ),
        kdf_version(data, base) is V4RecordedKdfParameters <==> has_metadata(data, base, 0x34),
        kdf_version(data, base) is Unrecognized <==> !has_metadata(data, base, 0x32)
            && !has_metadata(data, base, 0x33) && !has_metadata(data, base, 0x34),
{
    if base + 56 <= data.len() {
        let v2: [u8; 4] = crate::constants::KDF_METADATA_MAGIC_V2;
        let v3: [u8; 4] = crate::constants::KDF_METADATA_MAGIC_V3;
        let v4: [u8; 4] = crate::constants::KDF_METADATA_MAGIC_V4;
        assert(v2@ =~= seq![0x4Bu8, 0x44u8, 0x46u8, 0x32u8]);
        assert(v3@ =~= seq![0x4Bu8, 0x44u8, 0x46u8, 0x33u8]);
        assert(v4@ =~= seq![0x4Bu8, 0x44u8, 0x46u8, 0x34u8]);
        lemma_magic(data, base, 0x32, v2@);
        lemma_magic(data, base, 0x33, v3@);
        lemma_magic(data, base, 0x34, v4@);
    }
}

/// The newest format records its costs, which are refused out of bounds; the older
/// ones used two passes and 64 MiB.
pub proof fn law_recorded_costs(data: Seq<u8>, base: int)
    requires
        0 <= base,
    ensures
        ({
            let costs = kdf_params(data, base, kdf_version(data, base));
            &&& has_metadata(data, base, 0x34) && has_bounded_costs(data, base) ==> (costs matches Ok(
                params,
            ) && params.opslimit == long_number_at(data, base + 48) && params.memlimit
                == long_number_at(data, base + 52))
            &&& has_metadata(data, base, 0x34) && !has_bounded_costs(data, base) ==> costs == Err::<
                KdfParams,
                JdvrifError,
            >(JdvrifError::UnsupportedKdfParameters)
            &&& has_metadata(data, base, 0x32) || has_metadata(data, base, 0x33) ==> (
            costs matches Ok(params) && params.opslimit == 2 && params.memlimit == 67108864)
        }),
        base + 56 > data.len() ==> kdf_params(
            data,
            base,
            KdfMetadataVersion::V4RecordedKdfParameters,
        ) == Err::<KdfParams, JdvrifError>(JdvrifError::CorruptFile),
        kdf_params_current().opslimit == 2,
        kdf_params_current().memlimit == 67108864,
{
    law_metadata_formats(data, base);
    lemma_long_number(data, base + 48);
    lemma_long_number(data, base + 52);
}

proof fn lemma_long_number(data: Seq<u8>, i: int)
    ensures
        crate::common::be32(data, i) == long_number_at(data, i),
{
}

/// The salt is the sixteen bytes from the eighth on, and the stream header the
/// twenty-four behind it.
pub proof fn law_recorded_salt_and_header(data: Seq<u8>, base: int)
    ensures
        recorded_salt(data, base) == data.subrange(base + 8, base + 24),
        recorded_header(data, base) == data.subrange(base + 24, base + 48),
{
}

/// Where the metadata stands: in what is read of a default image at 763, of a Bluesky
/// image at 397; in the templates that are written at 787 and 397; by itself in a
/// carrier.
pub proof fn law_metadata_places()
    ensures
        metadata_base(false) == 763,
        metadata_base(true) == 397,
        kdf_index(ConcealOption::NoOption) == 787,
        kdf_index(ConcealOption::Bluesky) == 397,
        kdf_index(ConcealOption::Reddit) == 0,
        kdf_index(ConcealOption::Twitter) == 0,
{
}

/// The metadata of an image is usable exactly when it is there, of one of the three
/// formats, and its costs, where it records them, are in bounds.
pub proof fn law_usable_metadata(metadata: Seq<u8>, bluesky: bool)
    ensures
        ({
            let base = if bluesky {
                397int
            } else {
                763
            };
            let error = metadata_error(metadata, metadata_base(bluesky));
            &&& error is None <==> has_metadata(metadata, base, 0x32) || has_metadata(
                metadata,
                base,
                0x33,
            ) || has_metadata(metadata, base, 0x34) && has_bounded_costs(metadata, base)
            &&& error == Some(JdvrifError::CorruptFile) <==> base + 56 > metadata.len()
            &&& error == Some(JdvrifError::UnsupportedKdfParameters) <==> has_metadata(
                metadata,
                base,
                0x34,
            ) && !has_bounded_costs(metadata, base)
        }),
{
    let base = metadata_base(bluesky);
    law_metadata_formats(metadata, base);
    law_recorded_costs(metadata, base);
}

/// The metadata of a carrier is its 56 bytes, of a format that binds the mode.
pub proof fn law_usable_carrier_metadata(metadata: Seq<u8>)
    ensures
        carrier_metadata_error(metadata) is None <==> metadata.len() == 56 && (has_metadata(
            metadata,
            0,
            0x33,
        ) || has_metadata(metadata, 0, 0x34) && has_bounded_costs(metadata, 0)),
        carrier_metadata_error(metadata) == Some(JdvrifError::CarrierMetadata) <==> metadata.len()
            == 56 && !has_metadata(metadata, 0, 0x33) && !has_metadata(metadata, 0, 0x34),
{
    law_metadata_formats(metadata, 0);
    law_recorded_costs(metadata, 0);
}

/// The key of a PIN: Argon2id over its decimal digits and the salt, with the costs,
/// 32 bytes long.
pub proof fn law_pin_key(pin: u64, salt: Seq<u8>, params: KdfParams)
    ensures
        pin_key(pin, salt, params) == argon2id_key(
            decimal(pin as nat),
            salt,
            params.opslimit as int,
            params.memlimit as int,
            32,
        ),
{
}

/// The metadata that is written: every byte of it has its place, and nothing around
/// it changes.
pub proof fn law_written_metadata(
    data: Seq<u8>,
    base: int,
    salt: Seq<u8>,
    header: Seq<u8>,
    params: KdfParams,
    filler: Seq<u8>,
)
    requires
        0 <= base,
        base + 56 <= data.len(),
        salt.len() == 16,
        header.len() == 24,
        params.opslimit <= u32::MAX,
        params.memlimit <= u32::MAX,
    ensures
        ({
            let out = with_kdf_v4(data, base, salt, header, params, filler);
            &&& out.len() == data.len()
            &&& has_metadata(out, base, 0x34)
            &&& out[base + 6] == filler[6] && out[base + 7] == filler[7]
            &&& out.subrange(base + 8, base + 24) == salt
            &&& out.subrange(base + 24, base + 48) == header
            &&& long_number_at(out, base + 48) == params.opslimit
            &&& long_number_at(out, base + 52) == params.memlimit
            &&& out.take(base) == data.take(base)
            &&& out.skip(base + 56) == data.skip(base + 56)
        }),
{
    let out = with_kdf_v4(data, base, salt, header, params, filler);
    lemma_with_kdf_v4(data, base, salt, header, params, filler);
    law_metadata_formats(out, base);
    lemma_written_number(out, base + 48, params.opslimit as int);
    lemma_written_number(out, base + 52, params.memlimit as int);
    assert(out.take(base) =~= data.take(base));
    assert(out.skip(base + 56) =~= data.skip(base + 56));
    let magic: [u8; 4] = crate::constants::KDF_METADATA_MAGIC_V4;
    assert(magic@ =~= seq![0x4Bu8, 0x44u8, 0x46u8, 0x34u8]);
    lemma_magic(out, base, 0x34, magic@);
}

proof fn lemma_written_number(out: Seq<u8>, at: int, n: int)
    requires
        0 <= at,
        at + 4 <= out.len(),
        0 <= n <= u32::MAX,
        out.subrange(at, at + 4) == crate::common::be32_bytes(n),
    ensures
        long_number_at(out, at) == n,
{
    let part = out.subrange(at, at + 4);
    crate::common::lemma_be32_roundtrip(n);
    assert(part[0] == out[at] && part[1] == out[at + 1] && part[2] == out[at + 2] && part[3]
        == out[at + 3]);
}

/// The byte that every frame authenticates: one for a compressed payload, two for one
/// that is stored as it is, and none in the oldest format.
pub proof fn law_authenticated_mode(version: KdfMetadataVersion)
    ensures
        version is V3SecretstreamAuthenticatedMode || version is V4RecordedKdfParameters
            ==> frame_ad(version, true) == Some(seq![1u8]) && frame_ad(version, false) == Some(
            seq![2u8],
        ),
        version is V2Secretstream ==> frame_ad(version, true) is None && frame_ad(version, false)
            is None,
{
}

/// A concealed file, in bytes: metadata of the newest format at its place, with the
/// costs of today; the mark of a payload that is stored as it is, where there is a
/// place for it; and a ciphertext that opens, under the key of the PIN and that salt,
/// to the length of the name, the name and the payload.
pub proof fn law_concealed_file(
    c: Concealed,
    option: ConcealOption,
    path: Seq<u8>,
    data: Seq<u8>,
    template: Seq<u8>,
)
    requires
        c.conceals(option, path, data, template),
        path_file_name(path) is Some,
        path_file_name(path)->0.len() <= 255,
    ensures
        ({
            let at = match option {
                ConcealOption::NoOption => 787int,
                ConcealOption::Bluesky => 397,
                _ => 0,
            };
            let s = c.segment@;
            let raw = stores_raw(option, path, data.len() as int);
            let name = path_file_name(path)->0;
            let key = argon2id_key(
                decimal(c.recovery_pin as nat),
                s.subrange(at + 8, at + 24),
                2,
                67108864,
                32,
            );
            let mode = if raw {
                2u8
            } else {
                1u8
            };
            &&& c.recovery_pin > 0
            &&& c.is_compressed == !raw
            &&& s.len() == template.len()
            &&& has_metadata(s, at, 0x34)
            &&& long_number_at(s, at + 48) == 2
            &&& long_number_at(s, at + 52) == 67108864
            &&& (option is NoOption || option is Bluesky) && raw ==> s[128] == 0x58
            &&& forall|i: int|
                0 <= i < s.len() && !(at <= i < at + 56) && i != 128 ==> #[trigger] s[i]
                    == template[i]
            &&& !raw && s.len() > 128 ==> s[128] == template[128] || at <= 128 < at + 56
            &&& open_frames(seq![key, s.subrange(at + 24, at + 48)], Some(seq![mode]), c.encrypted@)
                == (OpenedFrames {
                text: seq![name.len() as u8] + name + stored_payload(option, path, data),
                complete: true,
            })
        }),
{
    let at = kdf_index(option);
    let s = c.segment@;
    let raw = stores_raw(option, path, data.len() as int);
    law_metadata_formats(s, at);
    lemma_written_number(s, at + 48, 2);
    lemma_written_number(s, at + 52, 67108864);
    let magic: [u8; 4] = crate::constants::KDF_METADATA_MAGIC_V4;
    assert(magic@ =~= seq![0x4Bu8, 0x44u8, 0x46u8, 0x34u8]);
    lemma_magic(s, at, 0x34, magic@);
    let marked = crate::conceal::marked_template(template, option, raw);
    assert forall|i: int|
        0 <= i < s.len() && !(at <= i < at + 56) && i != 128 implies #[trigger] s[i]
        == template[i] by {
        assert(s[i] == marked[i]);
    }
    if s.len() > 128 && !(at <= 128 < at + 56) {
        assert(s[128] == marked[128]);
    }
}

} // verus!
