//! Sizes, offsets and signatures of the embedded formats.

use vstd::prelude::*;

verus! {

pub const NO_ZLIB_COMPRESSION_ID: u8 = 0x58;

pub const NO_ZLIB_COMPRESSION_ID_INDEX: usize = 0x80;

pub const MAX_FILE_SIZE: u64 = 3 * 1024 * 1024 * 1024;

pub const MINIMUM_IMAGE_SIZE: u64 = 134;

pub const MAX_IMAGE_SIZE: u64 = 8 * 1024 * 1024;

pub const REDDIT_UPLOAD_SIZE_LIMIT: usize = 20 * 1024 * 1024;

pub const TWITTER_UPLOAD_SIZE_LIMIT: usize = 5 * 1024 * 1024;

pub const JDVRIF_SIG: [u8; 7] = [0xB4, 0x6A, 0x3E, 0xEA, 0x5E, 0x9D, 0xF9];

pub const ICC_PROFILE_SIG: [u8; 7] = [0x6D, 0x6E, 0x74, 0x72, 0x52, 0x47, 0x42];

// Layout of the 56-byte KDF metadata region:
//   0..3   magic ("KDF2" / "KDF3" / "KDF4")
//   4      KDF algorithm id
//   5      sentinel
//   6..7   random filler
//   8..23  Argon2id salt
//   24..47 secretstream header
//   48..51 Argon2id opslimit, big-endian   (V4 only; random filler before V4)
//   52..55 Argon2id memlimit, big-endian   (V4 only; random filler before V4)
pub const KDF_METADATA_MAGIC_V2: [u8; 4] = [0x4B, 0x44, 0x46, 0x32];

pub const KDF_METADATA_MAGIC_V3: [u8; 4] = [0x4B, 0x44, 0x46, 0x33];

pub const KDF_METADATA_MAGIC_V4: [u8; 4] = [0x4B, 0x44, 0x46, 0x34];

pub const KDF_METADATA_REGION_BYTES: usize = 56;

pub const KDF_MAGIC_OFFSET: usize = 0;

pub const KDF_ALG_OFFSET: usize = 4;

pub const KDF_SENTINEL_OFFSET: usize = 5;

pub const KDF_SALT_OFFSET: usize = 8;

pub const KDF_NONCE_OFFSET: usize = 24;

pub const KDF_OPSLIMIT_OFFSET: usize = 48;

pub const KDF_MEMLIMIT_OFFSET: usize = 52;

pub const KDF_ALG_ARGON2ID13: u8 = 1;

pub const KDF_SENTINEL: u8 = 0xA5;

/// Accepted range when reading Argon2id costs back out of an image. The floors
/// are libsodium's own minimums; the ceilings bound the work a hostile image
/// can demand before the PIN is known to be wrong.
pub const KDF_OPSLIMIT_MIN: usize = 1;

pub const KDF_MEMLIMIT_MIN: usize = 8192;

pub const KDF_OPSLIMIT_MAX_ACCEPTED: usize = 16;

pub const KDF_MEMLIMIT_MAX_ACCEPTED: usize = 512 * 1024 * 1024;

/// Argon2id costs recorded in newly concealed images.
pub const KDF_OPSLIMIT_INTERACTIVE: usize = 2;

pub const KDF_MEMLIMIT_INTERACTIVE: usize = 64 * 1024 * 1024;

pub const KDF_SALT_BYTES: usize = 16;

pub const SECRETSTREAM_KEY_BYTES: usize = 32;

pub const SECRETSTREAM_HEADER_BYTES: usize = 24;

pub const SECRETSTREAM_OVERHEAD_BYTES: usize = 17;

/// The longest message that libsodium takes in one frame.
pub const SECRETSTREAM_MESSAGE_BYTES_MAX: u64 = 274_877_906_816;

pub const STREAM_FRAME_LEN_BYTES: usize = 4;

pub const STREAM_MODE_ZLIB: u8 = 1;

pub const STREAM_MODE_RAW: u8 = 2;

pub const STREAM_CHUNK_SIZE: usize = 1024 * 1024;

pub const MAX_SECRETSTREAM_FRAME_BYTES: usize = STREAM_CHUNK_SIZE + SECRETSTREAM_OVERHEAD_BYTES;

pub const STREAM_INFLATE_MAX_OUTPUT: usize = 3 * 1024 * 1024 * 1024;

pub const DATA_FILENAME_MAX_LENGTH: usize = 20;

pub const LARGE_FILE_SIZE: usize = 300 * 1024 * 1024;

pub const COMPRESS_BYPASS_SIZE: usize = 10 * 1024 * 1024;

pub const FAST_COMPRESSION_SIZE: usize = 500 * 1024 * 1024;

pub const MAX_SIZE_CONCEAL: usize = 2 * 1024 * 1024 * 1024;

pub const MAX_DATA_SIZE_BLUESKY: usize = 2 * 1024 * 1024;

/// Largest finished image that can be posted on Bluesky.
pub const MAX_IMAGE_SIZE_BLUESKY: usize = 2_000_000;

pub const DEFAULT_DECRYPT_KDF_METADATA_INDEX: usize = 0x2FB;

pub const DEFAULT_KDF_METADATA_INDEX: usize = 0x313;

pub const BASE_OFFSET_DEFAULT: usize = 24;

pub const DEFAULT_ICC_SIG_INDEX_ABS: usize = BASE_OFFSET_DEFAULT + 8;

pub const DEFAULT_JDVRIF_SIG_INDEX_ABS: usize = BASE_OFFSET_DEFAULT + 0x333;

pub const BLUESKY_KDF_METADATA_INDEX: usize = 0x18D;

/// Position of the Bluesky entry in the conceal-mode platform report.
pub const BLUESKY_PLATFORM_INDEX: usize = 2;

/// The byte that binds the payload interpretation into every encrypted frame.
pub open spec fn stream_mode(is_compressed_payload: bool) -> u8 {
    if is_compressed_payload {
        STREAM_MODE_ZLIB
    } else {
        STREAM_MODE_RAW
    }
}

pub fn stream_mode_byte(is_compressed_payload: bool) -> (r: u8)
    ensures
        r == stream_mode(is_compressed_payload),
        r == (if is_compressed_payload {
            1u8
        } else {
            2u8
        }),
{
    if is_compressed_payload {
        STREAM_MODE_ZLIB
    } else {
        STREAM_MODE_RAW
    }
}

} // verus!
