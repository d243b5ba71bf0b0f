use alkali::symmetric::cipher_stream::{EncryptionStream, Key};
use jdvrif::cli::ConcealOption;
use jdvrif::conceal::{run_native_conceal, Concealed};
use jdvrif::constants::{
    BASE_OFFSET_DEFAULT, DEFAULT_ICC_SIG_INDEX_ABS, DEFAULT_JDVRIF_SIG_INDEX_ABS,
    DEFAULT_KDF_METADATA_INDEX, ICC_PROFILE_SIG, JDVRIF_SIG, KDF_METADATA_REGION_BYTES,
    NO_ZLIB_COMPRESSION_ID_INDEX,
};
use jdvrif::decrypt::decrypt_from_cipher_with_pin;
use jdvrif::decrypt::kdf::{current_kdf_params, derive_key_from_pin};
use jdvrif::decrypt::stream::DecryptStatus;
use jdvrif::extract::{
    BLUESKY_ENCRYPTED_FILE_START_INDEX, ENCRYPTED_FILE_START_INDEX, FIRST_PROFILE_HEADER_INDEX,
    JPEG_APP2_MARKER, JPEG_EXIF_MARKER, PROFILE_HEADER_DISTANCE, PROFILE_HEADER_LENGTH,
};
use jdvrif::recover::modes::{
    recover_from_bluesky_path, recover_from_coefficient_carrier, recover_from_envelope,
    recover_from_icc_path, validate_declared_cipher_size, RecoveredFile, RecoveryFormat, BLUESKY_FILE_SIZE_INDEX,
    DEFAULT_FILE_SIZE_INDEX, TOTAL_PROFILE_HEADER_SEGMENTS_INDEX,
};
use jdvrif::recover::{
    has_embedded_icc_profile, next_carrier, run_native_recover, CarrierStep, RecoveryRoute,
};
use jdvrif::reddit::RedditEncryptedEnvelope;
use jdvrif::runtime::JdvrifError;

const XMP_TEMPLATE_LEN: usize = 700;
const START: usize = BASE_OFFSET_DEFAULT + ENCRYPTED_FILE_START_INDEX;

fn error_of<T>(r: Result<T, JdvrifError>) -> JdvrifError {
    match r {
        Ok(_) => panic!("an error was expected"),
        Err(e) => e,
    }
}

fn default_template() -> Vec<u8> {
    let mut template = vec![0u8; START];
    template[DEFAULT_ICC_SIG_INDEX_ABS..DEFAULT_ICC_SIG_INDEX_ABS + 7]
        .copy_from_slice(&ICC_PROFILE_SIG);
    template
}

fn conceal(option: ConcealOption, path: &[u8], data: &[u8], template: Vec<u8>) -> Concealed {
    match run_native_conceal(option, 1000, path, data, data.len(), template, XMP_TEMPLATE_LEN) {
        Ok(c) => c,
        Err(e) => panic!("{}", e.message()),
    }
}

/// The finished image of a concealed file in the default format.
fn default_image(c: &Concealed) -> Vec<u8> {
    let step = PROFILE_HEADER_DISTANCE - PROFILE_HEADER_LENGTH;
    let mut stored = Vec::new();
    let mut segments = 1u16;
    let mut rest = c.encrypted.as_slice();
    let mut gap = FIRST_PROFILE_HEADER_INDEX;
    while rest.len() > gap {
        stored.extend_from_slice(&rest[..gap]);
        stored.extend_from_slice(&[0u8; PROFILE_HEADER_LENGTH]);
        rest = &rest[gap..];
        gap = step;
        segments += 1;
    }
    stored.extend_from_slice(rest);
    let mut image = c.segment.clone();
    image.extend_from_slice(&stored);
    image.extend_from_slice(b"the cover image");
    let size_at = BASE_OFFSET_DEFAULT + DEFAULT_FILE_SIZE_INDEX;
    image[size_at..size_at + 4].copy_from_slice(&(stored.len() as u32).to_be_bytes());
    if segments > 1 {
        let segments_at = BASE_OFFSET_DEFAULT + TOTAL_PROFILE_HEADER_SEGMENTS_INDEX;
        image[segments_at..segments_at + 2].copy_from_slice(&segments.to_be_bytes());
        let last =
            BASE_OFFSET_DEFAULT + (segments as usize - 1) * PROFILE_HEADER_DISTANCE - 0x16;
        image[last..last + 2].copy_from_slice(&JPEG_APP2_MARKER);
    }
    image
}

fn recover(image: &[u8], pin: u64) -> Result<RecoveredFile, JdvrifError> {
    recover_from_icc_path(image, DEFAULT_ICC_SIG_INDEX_ABS)?.finish(image, pin, XMP_TEMPLATE_LEN)
}

fn assert_recovers(image: &[u8], pin: u64, name: &[u8], data: &[u8]) {
    match recover(image, pin) {
        Ok(file) => {
            assert_eq!(file.filename, name);
            assert_eq!(file.contents, data);
        }
        Err(e) => panic!("{}", e.message()),
    }
}

fn image_with_signatures_at(icc_at: usize, jdvrif_at: usize) -> Vec<u8> {
    let mut data = vec![0u8; DEFAULT_JDVRIF_SIG_INDEX_ABS + JDVRIF_SIG.len() + 64];
    data[icc_at..icc_at + ICC_PROFILE_SIG.len()].copy_from_slice(&ICC_PROFILE_SIG);
    data[jdvrif_at..jdvrif_at + JDVRIF_SIG.len()].copy_from_slice(&JDVRIF_SIG);
    data
}

#[test]
fn icc_profile_accepted_only_at_the_fixed_offsets() {
    let data = image_with_signatures_at(DEFAULT_ICC_SIG_INDEX_ABS, DEFAULT_JDVRIF_SIG_INDEX_ABS);
    assert!(has_embedded_icc_profile(&data));
}

#[test]
fn shifted_icc_profile_is_not_recognised() {
    // Both signatures present and correctly spaced, but six bytes later, the
    // layout that an inserted APP0 segment would produce.
    let data =
        image_with_signatures_at(DEFAULT_ICC_SIG_INDEX_ABS + 6, DEFAULT_JDVRIF_SIG_INDEX_ABS + 6);
    assert!(!has_embedded_icc_profile(&data));
}

#[test]
fn short_file_is_not_recognised() {
    assert!(!has_embedded_icc_profile(b"tiny"));
}

#[test]
fn nondefault_icc_offset_is_rejected_before_metadata_read() {
    let shifted_signature_index = BASE_OFFSET_DEFAULT + 8 + 6;
    let err = error_of(recover_from_icc_path(&vec![0; 4096], shifted_signature_index));
    assert_eq!(
        err.message(),
        "File Extraction Error: Unsupported embedded profile layout."
    );
}

#[test]
fn the_route_follows_the_signatures() {
    let icc = image_with_signatures_at(DEFAULT_ICC_SIG_INDEX_ABS, DEFAULT_JDVRIF_SIG_INDEX_ABS);
    assert_eq!(
        run_native_recover(&icc),
        Ok(RecoveryRoute::Icc { icc_profile_sig_index: 32 })
    );
    let mut bluesky = vec![0u8; 1000];
    bluesky[100..107].copy_from_slice(&JDVRIF_SIG);
    assert_eq!(
        run_native_recover(&bluesky),
        Ok(RecoveryRoute::Bluesky { jdvrif_sig_index: 100 })
    );
    assert_eq!(run_native_recover(b"no signature"), Ok(RecoveryRoute::Carrier));
    let large = vec![0u8; 20 * 1024 * 1024 + 1];
    assert_eq!(run_native_recover(&large), Err(JdvrifError::NotFileEmbedded));
}

#[test]
fn declared_sizes_are_checked() {
    let check = validate_declared_cipher_size;
    assert_eq!(check(0, RecoveryFormat::Icc), Err(JdvrifError::EmbeddedFileEmpty));
    assert_eq!(check(20, RecoveryFormat::Icc), Err(JdvrifError::CorruptFile));
    assert_eq!(check(21, RecoveryFormat::Icc), Ok(()));
    for (format, limit) in [
        (RecoveryFormat::Icc, 2098 * 1024 * 1024),
        (RecoveryFormat::Bluesky, 2 * 1024 * 1024),
        (RecoveryFormat::Reddit, 20 * 1024 * 1024),
        (RecoveryFormat::Twitter, 5 * 1024 * 1024),
    ] {
        assert_eq!(check(limit, format), Ok(()));
        assert_eq!(check(limit + 1, format), Err(JdvrifError::DeclaredSizeTooLarge));
    }
}

#[test]
fn a_default_image_gives_the_file_back() {
    let data = b"The quick brown fox jumps over the lazy dog.";
    let c = conceal(ConcealOption::NoOption, b"dir/fox.txt", data, default_template());
    let image = default_image(&c);
    assert_recovers(&image, c.recovery_pin, b"fox.txt", data);
    assert_eq!(error_of(recover(&image, c.recovery_pin ^ 1)), JdvrifError::InvalidPin);
}

#[test]
fn a_default_image_of_many_segments_gives_the_file_back() {
    let mut state = 1u32;
    let data: Vec<u8> = (0..200_000)
        .map(|_| {
            state = state.wrapping_mul(1664525).wrapping_add(1013904223);
            (state >> 24) as u8
        })
        .collect();
    let c = conceal(ConcealOption::NoOption, b"noise.bin", &data, default_template());
    assert!(c.encrypted.len() > 200_000);
    let image = default_image(&c);
    assert_recovers(&image, c.recovery_pin, b"noise.bin", &data);

    let mut missing = image.clone();
    let segments_at = BASE_OFFSET_DEFAULT + TOTAL_PROFILE_HEADER_SEGMENTS_INDEX;
    missing[segments_at + 1] -= 1;
    assert_eq!(error_of(recover(&missing, c.recovery_pin)), JdvrifError::MissingSegments);
}

#[test]
fn kdf3_images_are_recovered() {
    let data = b"an older image";
    let c = conceal(ConcealOption::NoOption, b"old.txt", data, default_template());
    let mut image = default_image(&c);
    image[DEFAULT_KDF_METADATA_INDEX + 3] = b'3';
    assert_recovers(&image, c.recovery_pin, b"old.txt", data);
}

#[test]
fn kdf2_images_are_recovered() {
    // The oldest format binds no mode: its frames carry no associated data.
    let pin = 987654321u64;
    let salt = [0x21u8; 16];
    let key = derive_key_from_pin(pin, &salt, current_kdf_params()).unwrap();
    let key = Key::try_from(key.as_slice()).unwrap();
    let stream = EncryptionStream::new(&key).unwrap();
    let header = stream.get_header();
    let plain = b"\x07old.binolder still";
    let mut frame = vec![0u8; plain.len() + 17];
    stream.finalise(plain, None, &mut frame).unwrap();

    let mut image = default_template();
    image[NO_ZLIB_COMPRESSION_ID_INDEX] = 0x58;
    let at = DEFAULT_KDF_METADATA_INDEX;
    image[at..at + 4].copy_from_slice(b"KDF2");
    image[at + 4] = 1;
    image[at + 5] = 0xA5;
    image[at + 8..at + 24].copy_from_slice(&salt);
    image[at + 24..at + 48].copy_from_slice(&header);
    image.extend_from_slice(&(frame.len() as u32).to_be_bytes());
    image.extend_from_slice(&frame);
    let size_at = BASE_OFFSET_DEFAULT + DEFAULT_FILE_SIZE_INDEX;
    image[size_at..size_at + 4].copy_from_slice(&(frame.len() as u32 + 4).to_be_bytes());
    assert_recovers(&image, pin, b"old.bin", b"older still");

    // A coefficient carrier never held that format.
    let kdf = &image[at..at + KDF_METADATA_REGION_BYTES];
    let refused =
        recover_from_coefficient_carrier(kdf, &image[START..], false, pin, RecoveryFormat::Reddit);
    assert_eq!(error_of(refused), JdvrifError::CarrierMetadata);
}

#[test]
fn the_mode_is_authenticated() {
    let c = conceal(ConcealOption::NoOption, b"a.txt", b"text", default_template());
    let mut image = default_image(&c);
    image[NO_ZLIB_COMPRESSION_ID_INDEX] = 0x58;
    assert_eq!(error_of(recover(&image, c.recovery_pin)), JdvrifError::InvalidPin);
}

#[test]
fn a_changed_ciphertext_is_refused() {
    let c = conceal(ConcealOption::NoOption, b"a.txt", b"text", default_template());
    let mut image = default_image(&c);
    image[START + 10] ^= 0x80;
    assert_eq!(error_of(recover(&image, c.recovery_pin)), JdvrifError::InvalidPin);
}

#[test]
fn metadata_is_checked_before_the_pin() {
    let c = conceal(ConcealOption::NoOption, b"a.txt", b"text", default_template());
    let image = default_image(&c);
    let pending = |image: &[u8]| error_of(recover_from_icc_path(image, DEFAULT_ICC_SIG_INDEX_ABS));
    let at = DEFAULT_KDF_METADATA_INDEX;

    let mut legacy = image.clone();
    legacy[at] = 0;
    assert_eq!(pending(&legacy), JdvrifError::UnsupportedLegacyFormat);
    let mut costs = image.clone();
    costs[at + 51] = 17;
    assert_eq!(pending(&costs), JdvrifError::UnsupportedKdfParameters);
    let mut memory = image.clone();
    memory[at + 52] = 0x80;
    assert_eq!(pending(&memory), JdvrifError::UnsupportedKdfParameters);
    let mut empty = image.clone();
    let size_at = BASE_OFFSET_DEFAULT + DEFAULT_FILE_SIZE_INDEX;
    empty[size_at..size_at + 4].fill(0);
    assert_eq!(pending(&empty), JdvrifError::EmbeddedFileEmpty);
    assert_eq!(pending(&image[..START - 1]), JdvrifError::CorruptFile);
    assert_eq!(error_of(recover_from_icc_path(&image, 7)), JdvrifError::CorruptIccMetadata);
    // A size that reaches beyond the image shows when the ciphertext is cut out.
    let mut cut = image.clone();
    cut.truncate(START + 30);
    assert_eq!(error_of(recover(&cut, c.recovery_pin)), JdvrifError::CorruptFile);
}

#[test]
fn a_bluesky_image_gives_the_file_back() {
    let data = b"sky blue";
    let mut template = vec![0u8; BLUESKY_ENCRYPTED_FILE_START_INDEX];
    template[2..4].copy_from_slice(&JPEG_EXIF_MARKER);
    template[100..107].copy_from_slice(&JDVRIF_SIG);
    let c = conceal(ConcealOption::Bluesky, b"sky.txt", data, template);
    let mut image = c.segment.clone();
    image.extend_from_slice(&c.encrypted);
    let exif_size = u16::try_from(image.len() - 4).unwrap();
    image[4..6].copy_from_slice(&exif_size.to_be_bytes());
    image[BLUESKY_FILE_SIZE_INDEX..BLUESKY_FILE_SIZE_INDEX + 4]
        .copy_from_slice(&(c.encrypted.len() as u32).to_be_bytes());
    image.extend_from_slice(b"the cover image");

    assert_eq!(
        run_native_recover(&image),
        Ok(RecoveryRoute::Bluesky { jdvrif_sig_index: 100 })
    );
    let pending = match recover_from_bluesky_path(&image, 100, &JDVRIF_SIG, XMP_TEMPLATE_LEN) {
        Ok(pending) => pending,
        Err(e) => panic!("{}", e.message()),
    };
    match pending.finish(&image, c.recovery_pin, XMP_TEMPLATE_LEN) {
        Ok(file) => {
            assert_eq!(file.filename, b"sky.txt");
            assert_eq!(file.contents, data);
        }
        Err(e) => panic!("{}", e.message()),
    }
    assert_eq!(
        error_of(pending.finish(&image, c.recovery_pin ^ 1, XMP_TEMPLATE_LEN)),
        JdvrifError::InvalidPin
    );
    let elsewhere = recover_from_bluesky_path(&image, 101, &JDVRIF_SIG, XMP_TEMPLATE_LEN);
    assert_eq!(error_of(elsewhere), JdvrifError::CorruptSignatureMetadata);
    image[5] = 1;
    let small = recover_from_bluesky_path(&image, 100, &JDVRIF_SIG, XMP_TEMPLATE_LEN);
    assert_eq!(error_of(small), JdvrifError::CorruptFile);
}

#[test]
fn a_coefficient_carrier_gives_the_file_back() {
    for (option, format) in [
        (ConcealOption::Reddit, RecoveryFormat::Reddit),
        (ConcealOption::Twitter, RecoveryFormat::Twitter),
    ] {
        for (path, data) in [(b"a.txt".as_slice(), b"text".as_slice()), (b"a.zip", b"PK zip")] {
            let c = conceal(option, path, data, vec![0; KDF_METADATA_REGION_BYTES]);
            assert_eq!(c.is_compressed, path == b"a.txt");
            let result = recover_from_coefficient_carrier(
                &c.segment,
                &c.encrypted,
                c.is_compressed,
                c.recovery_pin,
                format,
            );
            match result {
                Ok(file) => {
                    assert_eq!(file.filename, path);
                    assert_eq!(file.contents, data);
                }
                Err(e) => panic!("{}", e.message()),
            }
            let tampered = recover_from_coefficient_carrier(
                &c.segment,
                &c.encrypted,
                !c.is_compressed,
                c.recovery_pin,
                format,
            );
            assert_eq!(error_of(tampered), JdvrifError::InvalidPin);
        }
    }
}

#[test]
fn what_no_carrier_finds_is_a_wrong_pin_or_an_ordinary_image() {
    let nothing = recover_from_envelope(None, 1, RecoveryFormat::Reddit);
    assert_eq!(
        error_of(nothing).message(),
        "File Extraction Error: Invalid PIN, or this is not a valid jdvrif \"file-embedded\" image."
    );
    let c = conceal(
        ConcealOption::Reddit,
        b"a.txt",
        b"text",
        vec![0; KDF_METADATA_REGION_BYTES],
    );
    let found = RedditEncryptedEnvelope {
        kdf_metadata: c.segment,
        encrypted_data: c.encrypted,
        is_compressed: c.is_compressed,
    };
    match recover_from_envelope(Some(found), c.recovery_pin, RecoveryFormat::Reddit) {
        Ok(file) => assert_eq!(file.contents, b"text"),
        Err(e) => panic!("{}", e.message()),
    }
}

#[test]
fn a_ciphertext_is_decrypted_with_the_metadata_and_the_pin() {
    let data = b"beside its image";
    let c = conceal(ConcealOption::NoOption, b"a.txt", data, default_template());
    let metadata = &c.segment[BASE_OFFSET_DEFAULT..];
    match decrypt_from_cipher_with_pin(metadata, false, true, &c.encrypted, c.recovery_pin) {
        Ok(DecryptStatus::Success { decrypted_filename, output }) => {
            assert_eq!(decrypted_filename, b"a.txt");
            assert_eq!(output, data);
        }
        _ => panic!("the file is there"),
    }
    let wrong = decrypt_from_cipher_with_pin(metadata, false, true, &c.encrypted, c.recovery_pin ^ 1);
    assert!(matches!(wrong, Ok(DecryptStatus::FailedPin)));
    let short = decrypt_from_cipher_with_pin(&metadata[..100], false, true, &c.encrypted, 1);
    assert_eq!(error_of(short), JdvrifError::CorruptFile);
}

#[test]
fn reddit_is_tried_first_and_twitter_up_to_its_limit() {
    let reddit = RecoveryFormat::Reddit;
    let twitter = RecoveryFormat::Twitter;
    let limit = 5 * 1024 * 1024;
    assert_eq!(next_carrier(None, false, limit + 1), CarrierStep::Try(reddit));
    assert_eq!(next_carrier(Some(reddit), true, 10), CarrierStep::Recover(reddit));
    assert_eq!(next_carrier(Some(reddit), false, limit), CarrierStep::Try(twitter));
    assert_eq!(next_carrier(Some(reddit), false, limit + 1), CarrierStep::NotFound);
    assert_eq!(next_carrier(Some(twitter), true, 10), CarrierStep::Recover(twitter));
    assert_eq!(next_carrier(Some(twitter), false, 10), CarrierStep::NotFound);
}
