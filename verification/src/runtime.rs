//! Values shared by the conceal and recover paths.

use crate::decimal::{decimal_text, push_decimal_text};
use vstd::prelude::*;
use vstd::string::*;

verus! {

/// Encryption metadata formats that an image can carry.
#[derive(Clone, Copy, PartialEq, Eq, Structural, Debug)]
pub enum KdfMetadataVersion {
    Unrecognized,
    V2Secretstream,
    V3SecretstreamAuthenticatedMode,
    /// V3 plus an explicit record of the Argon2id cost parameters.
    V4RecordedKdfParameters,
}

impl KdfMetadataVersion {
    /// The versions that bind the payload interpretation into every frame.
    pub open spec fn binds_mode(self) -> bool {
        self is V3SecretstreamAuthenticatedMode || self is V4RecordedKdfParameters
    }

    /// True for the versions that bind the payload interpretation into every
    /// secretstream frame as associated data.
    pub fn authenticates_stream_mode(self) -> (r: bool)
        ensures
            r == self.binds_mode(),
    {
        match self {
            KdfMetadataVersion::V3SecretstreamAuthenticatedMode => true,
            KdfMetadataVersion::V4RecordedKdfParameters => true,
            _ => false,
        }
    }

    pub fn is_supported(self) -> (r: bool)
        ensures
            r == (self !is Unrecognized),
    {
        self == KdfMetadataVersion::V2Secretstream || self.authenticates_stream_mode()
    }
}

/// Argon2id cost parameters used to derive a key from the recovery PIN.
#[derive(Clone, Copy, PartialEq, Eq, Structural, Debug)]
pub struct KdfParams {
    pub opslimit: usize,
    pub memlimit: usize,
}

/// Where the encryption metadata begins.
#[derive(Clone, Copy, PartialEq, Eq, Structural, Debug)]
pub struct DecryptOffsets {
    pub sodium_key_index: usize,
}

/// Everything that can go wrong while concealing or recovering a file.
#[derive(Clone, Copy, PartialEq, Eq, Structural, Debug)]
pub enum JdvrifError {
    CorruptFile,
    MissingSegments,
    SignatureScanOverflow,
    UnsupportedKdfParameters,
    CarrierMetadata,
    UnsupportedLegacyFormat,
    KeyDerivation,
    EmbeddedFileEmpty,
    DeclaredSizeTooLarge,
    InvalidPin,
    CorruptIccMetadata,
    UnsupportedProfileLayout,
    CorruptSignatureMetadata,
    CarrierNotFound,
    NotFileEmbedded,
    InflateFailed,
    InflateOutputLimit,
    InflateTrailingData,
    InflateNoProgress,
    InflateTruncated,
    InflateOutputEmpty,
    OutputEmpty,
    DataFileEmpty,
    EncryptedSizeOverflow,
    StreamInit,
    StreamPush,
    EncryptionInputShort,
    EncryptionInputChanged,
    CompressionInputChanged,
    CompressionFailed,
    RandomKdfRegion,
    RandomPin,
    RandomSalt,
    RandomPathToken,
    DataFilenameUnsafe,
    DataFilenameTooLong,
    DataFilenameLength,
    CombinedSizeOverflow,
    CombinedSizeBluesky,
    CombinedSizeDefault,
    CarrierCoverTooLarge,
    CarrierDataTooLarge,
    PlatformList,
    SegmentTemplate,
    CoverEmpty,
    CoverChanged,
    CoverHeader,
    TransformedHeader,
    QuantizationTableMissing,
    NoDqtSegment,
    CoverTooLarge,
    CoverTooLargeBluesky,
    PinFormat,
    PinWait,
    PinRead,
    PinNotDelivered,
    Interrupted,
    RecoveredFilenameUnsafe,
    OutputNameExhausted,
    CommitFailed,
    CommitExists,
    OutputWrite,
    PayloadShort,
    RedditKdfSize,
    RedditPayloadTooLarge,
    RedditEnvelopeOverflow,
    BlueskyPayloadTooLarge { payload: usize, limit: usize },
    CarrierCapacity { needed: usize, capacity: usize },
    CoverTooSmall { width: usize, height: usize },
    CoverDimensions { width: usize, height: usize },
    CoverColorSpace { components: usize },
    TransformedTooSmall { width: usize, height: usize },
    CoverQuality { quality: usize },
}

impl JdvrifError {
    /// The text that is shown to the user.
    pub open spec fn text(self) -> Seq<char> {
        match self {
            JdvrifError::CorruptFile => "File Extraction Error: Embedded data file is corrupt!"@,
            JdvrifError::MissingSegments => "File Extraction Error: Missing segments detected. Embedded data file is corrupt!"@,
            JdvrifError::SignatureScanOverflow => "File Extraction Error: Signature scan size overflow."@,
            JdvrifError::UnsupportedKdfParameters => "File Extraction Error: Encrypted file declares unsupported key-derivation parameters."@,
            JdvrifError::CarrierMetadata => "File Extraction Error: Carrier encryption metadata is corrupt or unsupported."@,
            JdvrifError::UnsupportedLegacyFormat => "File Decryption Error: Unsupported legacy encrypted file format. Use an older jdvrif release to recover this file."@,
            JdvrifError::KeyDerivation => "KDF Error: Unable to derive encryption key."@,
            JdvrifError::EmbeddedFileEmpty => "File Extraction Error: Embedded data file is empty."@,
            JdvrifError::DeclaredSizeTooLarge => "File Extraction Error: Embedded data size exceeds the maximum allowed for this format."@,
            JdvrifError::InvalidPin => "File Decryption Error: Invalid recovery PIN or file is corrupt."@,
            JdvrifError::CorruptIccMetadata => "File Extraction Error: Corrupt ICC metadata."@,
            JdvrifError::UnsupportedProfileLayout => "File Extraction Error: Unsupported embedded profile layout."@,
            JdvrifError::CorruptSignatureMetadata => "Image File Error: Corrupt signature metadata."@,
            JdvrifError::CarrierNotFound => "File Extraction Error: Invalid PIN, or this is not a valid jdvrif \"file-embedded\" image."@,
            JdvrifError::NotFileEmbedded => "Image File Error: Signature check failure. This is not a valid jdvrif \"file-embedded\" image."@,
            JdvrifError::InflateFailed => "zlib inflate error: inflate failed"@,
            JdvrifError::InflateOutputLimit => "zlib inflate error: output exceeds safe size limit"@,
            JdvrifError::InflateTrailingData => "zlib inflate error: trailing compressed data"@,
            JdvrifError::InflateNoProgress => "zlib inflate error: inflate made no progress"@,
            JdvrifError::InflateTruncated => "zlib inflate error: compressed stream is truncated"@,
            JdvrifError::InflateOutputEmpty => "Zlib Compression Error: Output file is empty. Inflating file failed."@,
            JdvrifError::OutputEmpty => "File Extraction Error: Output file is empty."@,
            JdvrifError::DataFileEmpty => "Data File Error: File is empty."@,
            JdvrifError::EncryptedSizeOverflow => "File Size Error: Encrypted output overflow."@,
            JdvrifError::StreamInit => "crypto_secretstream init_push failed"@,
            JdvrifError::StreamPush => "crypto_secretstream push failed"@,
            JdvrifError::EncryptionInputShort => "Read Error: Failed to read full input while encrypting."@,
            JdvrifError::EncryptionInputChanged => "Read Error: Input file changed while encrypting."@,
            JdvrifError::CompressionInputChanged => "Read Error: Input file changed while compressing."@,
            JdvrifError::CompressionFailed => "zlib: deflate finalize failed"@,
            JdvrifError::RandomKdfRegion => "CSPRNG Error: Failed to fill KDF metadata region."@,
            JdvrifError::RandomPin => "CSPRNG Error: Failed to generate recovery PIN."@,
            JdvrifError::RandomSalt => "CSPRNG Error: Failed to generate salt."@,
            JdvrifError::RandomPathToken => "CSPRNG Error: Failed to generate random path token."@,
            JdvrifError::DataFilenameUnsafe => "Data File Error: Embedded filename is unsafe. Filenames may not begin with '.' or '-'."@,
            JdvrifError::DataFilenameTooLong => "Data File Error: For compatibility requirements, length of data filename must not exceed 20 characters."@,
            JdvrifError::DataFilenameLength => "Data File Error: Invalid data filename length."@,
            JdvrifError::CombinedSizeOverflow => "File Size Error: Combined file size overflow."@,
            JdvrifError::CombinedSizeBluesky => "File Size Error: Combined size of image and data file exceeds maximum size limit for the Bluesky platform."@,
            JdvrifError::CombinedSizeDefault => "File Size Error: Combined size of image and data file exceeds maximum default size limit for jdvrif."@,
            JdvrifError::CarrierCoverTooLarge => "Image File Error: Cover image file exceeds maximum size limit for the selected platform."@,
            JdvrifError::CarrierDataTooLarge => "Data File Size Error: Data file exceeds maximum size limit for the selected platform."@,
            JdvrifError::PlatformList => "Internal Error: Corrupt platform compatibility list."@,
            JdvrifError::SegmentTemplate => "Internal Error: Corrupt segment metadata template."@,
            JdvrifError::CoverEmpty => "JPG image is empty!"@,
            JdvrifError::CoverChanged => "Read Error: Cover image changed while reading."@,
            JdvrifError::CoverHeader => "Image Error: Failed to parse JPEG header."@,
            JdvrifError::TransformedHeader => "Image Error: Failed to parse transformed JPEG header."@,
            JdvrifError::QuantizationTableMissing => "Image File Error: Quantization table referenced by JPEG components was not found (corrupt or unsupported JPG)."@,
            JdvrifError::NoDqtSegment => "Image File Error: No DQT segment found (corrupt or unsupported JPG)."@,
            JdvrifError::CoverTooLarge => "Image File Error: Cover image file exceeds maximum size limit."@,
            JdvrifError::CoverTooLargeBluesky => "File Size Error: Image file exceeds maximum size limit for the Bluesky platform."@,
            JdvrifError::PinFormat => "PIN Entry Error: That is not a well-formed recovery PIN. A jdvrif PIN is a number of up to 20 digits, with no leading zero, exactly as it was printed when the file was concealed."@,
            JdvrifError::PinWait => "Read Error: Failed to wait for PIN input."@,
            JdvrifError::PinRead => "Read Error: Failed to read PIN input."@,
            JdvrifError::PinNotDelivered => "Output Error: Failed to deliver recovery PIN."@,
            JdvrifError::Interrupted => "Operation interrupted by signal"@,
            JdvrifError::RecoveredFilenameUnsafe => "File Extraction Error: Recovered filename is unsafe."@,
            JdvrifError::OutputNameExhausted => "Write Error: Unable to create a unique output filename."@,
            JdvrifError::CommitFailed => "Write File Error: Failed to commit output image"@,
            JdvrifError::CommitExists => "Write File Error: Failed to commit output image: output file already exists"@,
            JdvrifError::OutputWrite => "Write File Error: Failed to write complete output file."@,
            JdvrifError::PayloadShort => "Read Error: Encrypted payload is shorter than expected."@,
            JdvrifError::RedditKdfSize => "Internal Error: Reddit KDF metadata has an invalid size."@,
            JdvrifError::RedditPayloadTooLarge => "File Size Error: Reddit encrypted payload exceeds its format limit."@,
            JdvrifError::RedditEnvelopeOverflow => "File Size Error: Reddit encrypted-envelope size overflow."@,
            JdvrifError::BlueskyPayloadTooLarge { payload, limit } => {
                "Data File Size Error: Encrypted payload is "@ + decimal_text(payload as nat) + " bytes, above the "@ + decimal_text(limit as nat) + "-byte limit for the Bluesky platform.\n                      Use a smaller data file, or compress it yourself first."@
            },
            JdvrifError::CarrierCapacity { needed, capacity } => {
                "File Size Error: Encrypted payload needs "@ + decimal_text(needed as nat) + " bytes, above the "@ + decimal_text(capacity as nat) + "-byte capacity of this cover image."@
            },
            JdvrifError::CoverTooSmall { width, height } => {
                "Image Error: Dimensions "@ + decimal_text(width as nat) + "x"@ + decimal_text(height as nat) + " are too small.\nFor platform compatibility, cover image must be at least 400px for both width and height."@
            },
            JdvrifError::CoverDimensions { width, height } => {
                "Image Error: Dimensions "@ + decimal_text(width as nat) + "x"@ + decimal_text(height as nat) + " exceed the safe cover-image limit (4096px per dimension and 40000000 total pixels)."@
            },
            JdvrifError::CoverColorSpace { components } => {
                "Image Error: Unsupported JPEG color space ("@ + decimal_text(components as nat) + " components). CMYK/YCCK cover images must be converted to RGB before use."@
            },
            JdvrifError::TransformedTooSmall { width, height } => {
                "Image Error: Lossless orientation/MCU trimming reduced dimensions to "@ + decimal_text(width as nat) + "x"@ + decimal_text(height as nat) + ". Cover image must remain at least 400px for both width and height."@
            },
            JdvrifError::CoverQuality { quality } => {
                "Image Error: Estimated quality "@ + decimal_text(quality as nat) + " exceeds maximum (97).\nFor platform compatibility, cover image quality must be 97 or lower."@
            },
        }
    }

    /// The text that is shown to the user.
    pub fn message(&self) -> (r: String)
        ensures
            r@ == self.text(),
    {
        match *self {
            JdvrifError::CorruptFile => "File Extraction Error: Embedded data file is corrupt!".to_owned(),
            JdvrifError::MissingSegments => "File Extraction Error: Missing segments detected. Embedded data file is corrupt!".to_owned(),
            JdvrifError::SignatureScanOverflow => "File Extraction Error: Signature scan size overflow.".to_owned(),
            JdvrifError::UnsupportedKdfParameters => "File Extraction Error: Encrypted file declares unsupported key-derivation parameters.".to_owned(),
            JdvrifError::CarrierMetadata => "File Extraction Error: Carrier encryption metadata is corrupt or unsupported.".to_owned(),
            JdvrifError::UnsupportedLegacyFormat => "File Decryption Error: Unsupported legacy encrypted file format. Use an older jdvrif release to recover this file.".to_owned(),
            JdvrifError::KeyDerivation => "KDF Error: Unable to derive encryption key.".to_owned(),
            JdvrifError::EmbeddedFileEmpty => "File Extraction Error: Embedded data file is empty.".to_owned(),
            JdvrifError::DeclaredSizeTooLarge => "File Extraction Error: Embedded data size exceeds the maximum allowed for this format.".to_owned(),
            JdvrifError::InvalidPin => "File Decryption Error: Invalid recovery PIN or file is corrupt.".to_owned(),
            JdvrifError::CorruptIccMetadata => "File Extraction Error: Corrupt ICC metadata.".to_owned(),
            JdvrifError::UnsupportedProfileLayout => "File Extraction Error: Unsupported embedded profile layout.".to_owned(),
            JdvrifError::CorruptSignatureMetadata => "Image File Error: Corrupt signature metadata.".to_owned(),
            JdvrifError::CarrierNotFound => "File Extraction Error: Invalid PIN, or this is not a valid jdvrif \"file-embedded\" image.".to_owned(),
            JdvrifError::NotFileEmbedded => "Image File Error: Signature check failure. This is not a valid jdvrif \"file-embedded\" image.".to_owned(),
            JdvrifError::InflateFailed => "zlib inflate error: inflate failed".to_owned(),
            JdvrifError::InflateOutputLimit => "zlib inflate error: output exceeds safe size limit".to_owned(),
            JdvrifError::InflateTrailingData => "zlib inflate error: trailing compressed data".to_owned(),
            JdvrifError::InflateNoProgress => "zlib inflate error: inflate made no progress".to_owned(),
            JdvrifError::InflateTruncated => "zlib inflate error: compressed stream is truncated".to_owned(),
            JdvrifError::InflateOutputEmpty => "Zlib Compression Error: Output file is empty. Inflating file failed.".to_owned(),
            JdvrifError::OutputEmpty => "File Extraction Error: Output file is empty.".to_owned(),
            JdvrifError::DataFileEmpty => "Data File Error: File is empty.".to_owned(),
            JdvrifError::EncryptedSizeOverflow => "File Size Error: Encrypted output overflow.".to_owned(),
            JdvrifError::StreamInit => "crypto_secretstream init_push failed".to_owned(),
            JdvrifError::StreamPush => "crypto_secretstream push failed".to_owned(),
            JdvrifError::EncryptionInputShort => "Read Error: Failed to read full input while encrypting.".to_owned(),
            JdvrifError::EncryptionInputChanged => "Read Error: Input file changed while encrypting.".to_owned(),
            JdvrifError::CompressionInputChanged => "Read Error: Input file changed while compressing.".to_owned(),
            JdvrifError::CompressionFailed => "zlib: deflate finalize failed".to_owned(),
            JdvrifError::RandomKdfRegion => "CSPRNG Error: Failed to fill KDF metadata region.".to_owned(),
            JdvrifError::RandomPin => "CSPRNG Error: Failed to generate recovery PIN.".to_owned(),
            JdvrifError::RandomSalt => "CSPRNG Error: Failed to generate salt.".to_owned(),
            JdvrifError::RandomPathToken => "CSPRNG Error: Failed to generate random path token.".to_owned(),
            JdvrifError::DataFilenameUnsafe => "Data File Error: Embedded filename is unsafe. Filenames may not begin with '.' or '-'.".to_owned(),
            JdvrifError::DataFilenameTooLong => "Data File Error: For compatibility requirements, length of data filename must not exceed 20 characters.".to_owned(),
            JdvrifError::DataFilenameLength => "Data File Error: Invalid data filename length.".to_owned(),
            JdvrifError::CombinedSizeOverflow => "File Size Error: Combined file size overflow.".to_owned(),
            JdvrifError::CombinedSizeBluesky => "File Size Error: Combined size of image and data file exceeds maximum size limit for the Bluesky platform.".to_owned(),
            JdvrifError::CombinedSizeDefault => "File Size Error: Combined size of image and data file exceeds maximum default size limit for jdvrif.".to_owned(),
            JdvrifError::CarrierCoverTooLarge => "Image File Error: Cover image file exceeds maximum size limit for the selected platform.".to_owned(),
            JdvrifError::CarrierDataTooLarge => "Data File Size Error: Data file exceeds maximum size limit for the selected platform.".to_owned(),
            JdvrifError::PlatformList => "Internal Error: Corrupt platform compatibility list.".to_owned(),
            JdvrifError::SegmentTemplate => "Internal Error: Corrupt segment metadata template.".to_owned(),
            JdvrifError::CoverEmpty => "JPG image is empty!".to_owned(),
            JdvrifError::CoverChanged => "Read Error: Cover image changed while reading.".to_owned(),
            JdvrifError::CoverHeader => "Image Error: Failed to parse JPEG header.".to_owned(),
            JdvrifError::TransformedHeader => "Image Error: Failed to parse transformed JPEG header.".to_owned(),
            JdvrifError::QuantizationTableMissing => "Image File Error: Quantization table referenced by JPEG components was not found (corrupt or unsupported JPG).".to_owned(),
            JdvrifError::NoDqtSegment => "Image File Error: No DQT segment found (corrupt or unsupported JPG).".to_owned(),
            JdvrifError::CoverTooLarge => "Image File Error: Cover image file exceeds maximum size limit.".to_owned(),
            JdvrifError::CoverTooLargeBluesky => "File Size Error: Image file exceeds maximum size limit for the Bluesky platform.".to_owned(),
            JdvrifError::PinFormat => "PIN Entry Error: That is not a well-formed recovery PIN. A jdvrif PIN is a number of up to 20 digits, with no leading zero, exactly as it was printed when the file was concealed.".to_owned(),
            JdvrifError::PinWait => "Read Error: Failed to wait for PIN input.".to_owned(),
            JdvrifError::PinRead => "Read Error: Failed to read PIN input.".to_owned(),
            JdvrifError::PinNotDelivered => "Output Error: Failed to deliver recovery PIN.".to_owned(),
            JdvrifError::Interrupted => "Operation interrupted by signal".to_owned(),
            JdvrifError::RecoveredFilenameUnsafe => "File Extraction Error: Recovered filename is unsafe.".to_owned(),
            JdvrifError::OutputNameExhausted => "Write Error: Unable to create a unique output filename.".to_owned(),
            JdvrifError::CommitFailed => "Write File Error: Failed to commit output image".to_owned(),
            JdvrifError::CommitExists => "Write File Error: Failed to commit output image: output file already exists".to_owned(),
            JdvrifError::OutputWrite => "Write File Error: Failed to write complete output file.".to_owned(),
            JdvrifError::PayloadShort => "Read Error: Encrypted payload is shorter than expected.".to_owned(),
            JdvrifError::RedditKdfSize => "Internal Error: Reddit KDF metadata has an invalid size.".to_owned(),
            JdvrifError::RedditPayloadTooLarge => "File Size Error: Reddit encrypted payload exceeds its format limit.".to_owned(),
            JdvrifError::RedditEnvelopeOverflow => "File Size Error: Reddit encrypted-envelope size overflow.".to_owned(),
            JdvrifError::BlueskyPayloadTooLarge { payload, limit } => {
                let mut s: String = "Data File Size Error: Encrypted payload is ".to_owned();
                push_decimal_text(&mut s, payload as u64);
                s.append(" bytes, above the ");
                push_decimal_text(&mut s, limit as u64);
                s.append("-byte limit for the Bluesky platform.\n                      Use a smaller data file, or compress it yourself first.");
                s
            },
            JdvrifError::CarrierCapacity { needed, capacity } => {
                let mut s: String = "File Size Error: Encrypted payload needs ".to_owned();
                push_decimal_text(&mut s, needed as u64);
                s.append(" bytes, above the ");
                push_decimal_text(&mut s, capacity as u64);
                s.append("-byte capacity of this cover image.");
                s
            },
            JdvrifError::CoverTooSmall { width, height } => {
                let mut s: String = "Image Error: Dimensions ".to_owned();
                push_decimal_text(&mut s, width as u64);
                s.append("x");
                push_decimal_text(&mut s, height as u64);
                s.append(" are too small.\nFor platform compatibility, cover image must be at least 400px for both width and height.");
                s
            },
            JdvrifError::CoverDimensions { width, height } => {
                let mut s: String = "Image Error: Dimensions ".to_owned();
                push_decimal_text(&mut s, width as u64);
                s.append("x");
                push_decimal_text(&mut s, height as u64);
                s.append(" exceed the safe cover-image limit (4096px per dimension and 40000000 total pixels).");
                s
            },
            JdvrifError::CoverColorSpace { components } => {
                let mut s: String = "Image Error: Unsupported JPEG color space (".to_owned();
                push_decimal_text(&mut s, components as u64);
                s.append(" components). CMYK/YCCK cover images must be converted to RGB before use.");
                s
            },
            JdvrifError::TransformedTooSmall { width, height } => {
                let mut s: String = "Image Error: Lossless orientation/MCU trimming reduced dimensions to ".to_owned();
                push_decimal_text(&mut s, width as u64);
                s.append("x");
                push_decimal_text(&mut s, height as u64);
                s.append(". Cover image must remain at least 400px for both width and height.");
                s
            },
            JdvrifError::CoverQuality { quality } => {
                let mut s: String = "Image Error: Estimated quality ".to_owned();
                push_decimal_text(&mut s, quality as u64);
                s.append(" exceeds maximum (97).\nFor platform compatibility, cover image quality must be 97 or lower.");
                s
            },
        }
    }
}

} // verus!
