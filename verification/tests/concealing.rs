use jdvrif::cli::ConcealOption;
use jdvrif::conceal::{
    assemble_concealed, filename_prefix, run_native_conceal, validate_carrier_sizes, Concealed,
};
use jdvrif::conceal_helpers::{
    bypasses_compression, conceal_complete_text, finalize_bluesky_platform_report,
    finalize_default_platform_report, generate_recovery_pin, is_large_file, pin_from_bytes,
    platform_report_template, platform_report_text, recovery_pin_text, select_compression_level,
    should_bypass_compression, validate_bluesky_image_size, validate_combined_size_limits,
    zlib_compress, SegmentedEmbedSummary,
};
use jdvrif::constants::{
    stream_mode_byte, BLUESKY_KDF_METADATA_INDEX, COMPRESS_BYPASS_SIZE, DEFAULT_KDF_METADATA_INDEX,
    KDF_METADATA_REGION_BYTES, NO_ZLIB_COMPRESSION_ID, NO_ZLIB_COMPRESSION_ID_INDEX,
    SECRETSTREAM_KEY_BYTES, SECRETSTREAM_OVERHEAD_BYTES, STREAM_CHUNK_SIZE, STREAM_FRAME_LEN_BYTES,
};
use jdvrif::encrypt::{
    encrypt_with_secretstream, estimate_prefixed_stream_encrypted_size, EncryptedPayload,
};
use jdvrif::filename::validate_data_filename;
use jdvrif::runtime::JdvrifError;
use jdvrif::signal::check_cancellation;

const XMP_TEMPLATE_LEN: usize = 700;

fn error_of<T>(r: Result<T, JdvrifError>) -> JdvrifError {
    match r {
        Ok(_) => panic!("an error was expected"),
        Err(e) => e,
    }
}

fn conceal(
    option: ConcealOption,
    cover_size: usize,
    path: &[u8],
    data: &[u8],
) -> Result<Concealed, JdvrifError> {
    let template = match option {
        ConcealOption::NoOption => vec![0x11; 0x353],
        ConcealOption::Bluesky => vec![0x11; 0x1D1],
        _ => vec![0x11; KDF_METADATA_REGION_BYTES],
    };
    run_native_conceal(option, cover_size, path, data, data.len(), template, XMP_TEMPLATE_LEN)
}

#[test]
fn prefixed_stream_size_coalesces_exact_chunk_boundary() {
    let prefix_len = 21usize;
    let input_size = STREAM_CHUNK_SIZE - prefix_len;
    let frame_overhead = SECRETSTREAM_OVERHEAD_BYTES + STREAM_FRAME_LEN_BYTES;

    assert_eq!(
        estimate_prefixed_stream_encrypted_size(input_size, prefix_len).unwrap(),
        STREAM_CHUNK_SIZE + frame_overhead,
    );
    assert_eq!(
        estimate_prefixed_stream_encrypted_size(input_size + 1, prefix_len).unwrap(),
        STREAM_CHUNK_SIZE + 1 + 2 * frame_overhead,
    );

    let input = vec![0x5A; input_size];
    let key = [0x37; SECRETSTREAM_KEY_BYTES];
    let prefix = vec![0xA6; prefix_len];
    let framed_ciphertext =
        match encrypt_with_secretstream(&input, input_size, &prefix, stream_mode_byte(false), &key) {
            Ok(payload) => payload.frames,
            Err(e) => panic!("{}", e.message()),
        };

    let only_frame_len = u32::from_be_bytes(
        framed_ciphertext[..STREAM_FRAME_LEN_BYTES]
            .try_into()
            .expect("frame length"),
    ) as usize;
    assert_eq!(only_frame_len, STREAM_CHUNK_SIZE + SECRETSTREAM_OVERHEAD_BYTES);
    assert_eq!(
        framed_ciphertext.len(),
        STREAM_FRAME_LEN_BYTES + only_frame_len,
        "the filename prefix and payload must share one exact-boundary frame",
    );
}

#[test]
fn encryption_rejects_source_growth_after_expected_size() {
    let key = [0x51; SECRETSTREAM_KEY_BYTES];
    let err = match encrypt_with_secretstream(
        b"expected+grown",
        b"expected".len(),
        b"\x01n",
        stream_mode_byte(false),
        &key,
    ) {
        Err(err) => err,
        Ok(_) => panic!("source growth must be rejected"),
    };
    assert!(err.message().contains("changed while encrypting"));
}

#[test]
fn encryption_rejects_short_and_empty_sources() {
    let key = [0x51; SECRETSTREAM_KEY_BYTES];
    let mode = stream_mode_byte(false);
    assert_eq!(
        error_of(encrypt_with_secretstream(b"shor", 5, b"\x01n", mode, &key)),
        JdvrifError::EncryptionInputShort
    );
    assert_eq!(
        error_of(encrypt_with_secretstream(b"", 0, b"\x01n", mode, &key)),
        JdvrifError::DataFileEmpty
    );
    assert_eq!(
        estimate_prefixed_stream_encrypted_size(usize::MAX, 1),
        Err(JdvrifError::EncryptedSizeOverflow)
    );
    assert_eq!(
        estimate_prefixed_stream_encrypted_size(usize::MAX - 1, 1),
        Err(JdvrifError::EncryptedSizeOverflow)
    );
}

#[test]
fn every_encryption_has_a_new_header() {
    let key = [0x51; SECRETSTREAM_KEY_BYTES];
    let seal = || match encrypt_with_secretstream(b"data", 4, b"\x01n", 1, &key) {
        Ok(payload) => (payload.header, payload.frames),
        Err(e) => panic!("{}", e.message()),
    };
    let (first, frames) = seal();
    let (second, others) = seal();
    assert_ne!(first, second);
    assert_ne!(frames, others);
    assert_eq!(frames.len(), 4 + 6 + 17);
}

#[test]
fn validate_data_filename_length_and_safety() {
    assert!(validate_data_filename(b"short.txt").is_ok());
    assert!(validate_data_filename(b".bad").is_err());
    assert!(validate_data_filename(b"-bad").is_err());
    // 21-char name exceeds DATA_FILENAME_MAX_LENGTH (20)
    assert!(validate_data_filename(b"abcdefghij1234567890x").is_err());
}

#[test]
fn data_filenames_are_the_last_component() {
    assert_eq!(validate_data_filename(b"/home/a/short.txt").unwrap(), b"short.txt");
    assert_eq!(validate_data_filename(b"dir/.").unwrap(), b"dir");
    assert_eq!(validate_data_filename(b"dir/.."), Err(JdvrifError::DataFilenameUnsafe));
    assert_eq!(validate_data_filename(b"/"), Err(JdvrifError::DataFilenameUnsafe));
    assert_eq!(
        validate_data_filename(b"abcdefghij1234567890").unwrap(),
        b"abcdefghij1234567890"
    );
    assert_eq!(
        validate_data_filename(b"abcdefghij1234567890x"),
        Err(JdvrifError::DataFilenameTooLong)
    );
}

#[test]
fn should_bypass_compression_for_large_archives() {
    assert!(!should_bypass_compression(b"big.zip", COMPRESS_BYPASS_SIZE));
    assert!(should_bypass_compression(b"big.zip", COMPRESS_BYPASS_SIZE + 1));
    assert!(!should_bypass_compression(b"big.txt", COMPRESS_BYPASS_SIZE + 1));
}

#[test]
fn carriers_always_store_archives_as_they_are() {
    for option in [ConcealOption::Reddit, ConcealOption::Twitter] {
        assert!(bypasses_compression(option, b"small.ZIP", 10));
        assert!(!bypasses_compression(option, b"small.txt", 10));
    }
    for option in [ConcealOption::NoOption, ConcealOption::Bluesky] {
        assert!(!bypasses_compression(option, b"small.zip", 10));
    }
}

#[test]
fn compression_rejects_growth_beyond_validated_size() {
    let err = zlib_compress(b"validated-plus-growth", 9).expect_err("growth must be rejected");
    assert!(err.message().contains("changed while compressing"));
}

#[test]
fn compression_is_undone_by_inflating() {
    let data = vec![b'a'; 10_000];
    let compressed = zlib_compress(&data, data.len()).unwrap();
    assert!(compressed.len() < 100);
    let mut inflater = jdvrif::decrypt::inflate::StreamingInflater::new(10_000);
    inflater.consume(&compressed).unwrap();
    assert_eq!(inflater.finish().unwrap(), data);
    assert_eq!(select_compression_level(500 * 1024 * 1024), 6);
    assert_eq!(select_compression_level(500 * 1024 * 1024 + 1), 1);
}

#[test]
fn pins_are_never_zero() {
    assert_eq!(pin_from_bytes(&[0; 8]), None);
    assert_eq!(pin_from_bytes(&[1, 0, 0, 0, 0, 0, 0, 0]), Some(1));
    assert_eq!(pin_from_bytes(&[0, 1, 0, 0, 0, 0, 0, 0]), Some(256));
    let first = generate_recovery_pin().unwrap();
    let second = generate_recovery_pin().unwrap();
    assert_ne!(first, 0);
    assert_ne!(first, second);
}

#[test]
fn size_limits() {
    assert_eq!(validate_combined_size_limits(1000, 1000, false, XMP_TEMPLATE_LEN), Ok(()));
    assert_eq!(
        validate_combined_size_limits(2 * 1024 * 1024 * 1024, 1, false, XMP_TEMPLATE_LEN),
        Err(JdvrifError::CombinedSizeDefault)
    );
    assert_eq!(
        validate_combined_size_limits(usize::MAX, 1, false, XMP_TEMPLATE_LEN),
        Err(JdvrifError::CombinedSizeOverflow)
    );
    assert_eq!(validate_combined_size_limits(1000, 1_999_000, true, XMP_TEMPLATE_LEN), Ok(()));
    assert_eq!(
        validate_combined_size_limits(1001, 1_999_000, true, XMP_TEMPLATE_LEN),
        Err(JdvrifError::CombinedSizeBluesky)
    );
    // The finished image is measured again: its segments count too.
    assert_eq!(validate_bluesky_image_size(2_000_000), Ok(()));
    assert_eq!(
        validate_bluesky_image_size(1000 + 465 + 1_999_000),
        Err(JdvrifError::CombinedSizeBluesky)
    );
    let too_large = validate_combined_size_limits(174955, 10, true, XMP_TEMPLATE_LEN);
    assert_eq!(
        too_large,
        Err(JdvrifError::BlueskyPayloadTooLarge { payload: 174955, limit: 174954 })
    );
    assert_eq!(
        error_of(too_large).message(),
        "Data File Size Error: Encrypted payload is 174955 bytes, above the 174954-byte limit for the Bluesky platform.\n                      Use a smaller data file, or compress it yourself first."
    );
    assert_eq!(
        validate_carrier_sizes(ConcealOption::Reddit, 20 * 1024 * 1024, 20 * 1024 * 1024),
        Ok(())
    );
    assert_eq!(
        validate_carrier_sizes(ConcealOption::Twitter, 5 * 1024 * 1024 + 1, 1),
        Err(JdvrifError::CarrierCoverTooLarge)
    );
    assert_eq!(
        validate_carrier_sizes(ConcealOption::Reddit, 1, 20 * 1024 * 1024 + 1),
        Err(JdvrifError::CarrierDataTooLarge)
    );
    assert!(!is_large_file(300 * 1024 * 1024));
    assert!(is_large_file(300 * 1024 * 1024 + 1));
}

#[test]
fn the_report_of_a_small_image_names_every_platform() {
    let mut platforms = platform_report_template();
    let small = SegmentedEmbedSummary {
        embedded_image_size: 143_029,
        first_segment_size: 9000,
        total_segments: 1,
    };
    finalize_default_platform_report(&mut platforms, small).unwrap();
    assert_eq!(
        platforms,
        ["X-Twitter", "Tumblr", "Mastodon", "Pixelfed", "PostImage", "ImgBB", "ImgPile", "Flickr"]
    );
    assert_eq!(
        platform_report_text(&platforms),
        "\nPlatform compatibility for output image:-\n\n ✓ X-Twitter\n ✓ Tumblr\n ✓ Mastodon\n ✓ Pixelfed\n ✓ PostImage\n ✓ ImgBB\n ✓ ImgPile\n ✓ Flickr\n"
    );
}

#[test]
fn platforms_that_refuse_the_image_are_left_out() {
    let mut platforms = platform_report_template();
    let large = SegmentedEmbedSummary {
        embedded_image_size: 33 * 1024 * 1024,
        first_segment_size: 65535,
        total_segments: 101,
    };
    finalize_default_platform_report(&mut platforms, large).unwrap();
    assert_eq!(platforms, ["ImgPile", "Flickr"]);

    let mut bluesky = platform_report_template();
    finalize_bluesky_platform_report(&mut bluesky).unwrap();
    assert_eq!(bluesky.len(), 1);
    assert!(bluesky[0].starts_with("Bluesky"));
    bluesky.clear();
    assert_eq!(
        finalize_bluesky_platform_report(&mut bluesky),
        Err(JdvrifError::PlatformList)
    );
}

#[test]
fn notices_of_a_concealed_file() {
    assert_eq!(
        recovery_pin_text(2166776980318349924),
        "\nRecovery PIN: [***2166776980318349924***]\n\nImportant: Keep your PIN safe, so that you can extract the hidden file.\n\n"
    );
    assert_eq!(
        conceal_complete_text("jrif_3e1988793.jpg", 143029),
        "\nSaved \"file-embedded\" JPG image: jrif_3e1988793.jpg (143029 bytes).\n\nComplete!\n\n"
    );
}

#[test]
fn the_name_goes_in_front_of_the_payload() {
    assert_eq!(filename_prefix(b"name").unwrap(), b"\x04name");
    assert_eq!(filename_prefix(b""), Err(JdvrifError::DataFilenameLength));
    assert_eq!(filename_prefix(&[b'a'; 255]), Err(JdvrifError::DataFilenameLength));
    assert_eq!(filename_prefix(&[b'a'; 254]).unwrap().len(), 255);
}

#[test]
fn a_concealed_file_fills_in_the_metadata_only() {
    let c = match conceal(ConcealOption::NoOption, 1000, b"a.txt", b"some text") {
        Ok(c) => c,
        Err(e) => panic!("{}", e.message()),
    };
    assert!(c.is_compressed);
    assert_ne!(c.recovery_pin, 0);
    assert_eq!(c.segment.len(), 0x353);
    assert_eq!(
        &c.segment[DEFAULT_KDF_METADATA_INDEX..DEFAULT_KDF_METADATA_INDEX + 4],
        b"KDF4"
    );
    for (i, byte) in c.segment.iter().enumerate() {
        if i < DEFAULT_KDF_METADATA_INDEX
            || i >= DEFAULT_KDF_METADATA_INDEX + KDF_METADATA_REGION_BYTES
        {
            assert_eq!(*byte, 0x11);
        }
    }
    let b = match conceal(ConcealOption::Bluesky, 1000, b"a.txt", b"some text") {
        Ok(b) => b,
        Err(e) => panic!("{}", e.message()),
    };
    assert_eq!(
        &b.segment[BLUESKY_KDF_METADATA_INDEX..BLUESKY_KDF_METADATA_INDEX + 4],
        b"KDF4"
    );
}

#[test]
fn a_payload_that_is_stored_as_it_is_is_marked() {
    let data = vec![0x5A; COMPRESS_BYPASS_SIZE + 1];
    let c = match conceal(ConcealOption::NoOption, 1000, b"big.zip", &data) {
        Ok(c) => c,
        Err(e) => panic!("{}", e.message()),
    };
    assert!(!c.is_compressed);
    assert_eq!(c.segment[NO_ZLIB_COMPRESSION_ID_INDEX], NO_ZLIB_COMPRESSION_ID);
    assert_eq!(
        c.encrypted.len(),
        estimate_prefixed_stream_encrypted_size(data.len(), 8).unwrap()
    );
}

#[test]
fn files_are_refused_for_what_is_wrong_with_them() {
    let refused = |option, cover, path: &[u8], data: &[u8]| error_of(conceal(option, cover, path, data));
    let none = ConcealOption::NoOption;
    assert_eq!(refused(none, 1, b"-a", b"x"), JdvrifError::DataFilenameUnsafe);
    assert_eq!(
        refused(none, 1, b"a234567890123456789012", b"x"),
        JdvrifError::DataFilenameTooLong
    );
    assert_eq!(refused(none, usize::MAX, b"a", b"x"), JdvrifError::CombinedSizeOverflow);
    assert_eq!(
        refused(none, 2 * 1024 * 1024 * 1024, b"a", b"x"),
        JdvrifError::CombinedSizeDefault
    );
    assert_eq!(
        refused(ConcealOption::Bluesky, 2_000_000, b"a", b"x"),
        JdvrifError::CombinedSizeBluesky
    );
    assert_eq!(
        refused(ConcealOption::Reddit, 20 * 1024 * 1024 + 1, b"a", b"x"),
        JdvrifError::CarrierCoverTooLarge
    );
    assert_eq!(refused(ConcealOption::Reddit, 1, b"a.zip", b""), JdvrifError::DataFileEmpty);
    let changed = |path: &[u8], data: &[u8], size| {
        error_of(run_native_conceal(
            ConcealOption::Reddit,
            1,
            path,
            data,
            size,
            vec![0; KDF_METADATA_REGION_BYTES],
            XMP_TEMPLATE_LEN,
        ))
    };
    assert_eq!(changed(b"a.txt", b"grown", 4), JdvrifError::CompressionInputChanged);
    assert_eq!(changed(b"a.zip", b"grown", 4), JdvrifError::EncryptionInputChanged);
    assert_eq!(changed(b"a.zip", b"grown", 6), JdvrifError::EncryptionInputShort);
    assert_eq!(changed(b"a.zip", b"grown", 0), JdvrifError::DataFileEmpty);
    // The sizes are judged before a file that is stored as it is has been read.
    let announced = |size: usize, template_len: usize| {
        error_of(run_native_conceal(
            ConcealOption::NoOption,
            1000,
            b"a.zip",
            b"x",
            size,
            vec![0; template_len],
            XMP_TEMPLATE_LEN,
        ))
    };
    assert_eq!(announced(3_000_000_000, 0x353), JdvrifError::CombinedSizeDefault);
    assert_eq!(announced(usize::MAX, 0x353), JdvrifError::EncryptedSizeOverflow);
    assert_eq!(announced(20_000_000, 10), JdvrifError::SegmentTemplate);
    assert_eq!(announced(20_000_000, 0x353), JdvrifError::EncryptionInputShort);
    let short_template = run_native_conceal(
        none,
        1,
        b"a",
        b"x",
        1,
        vec![0; DEFAULT_KDF_METADATA_INDEX],
        XMP_TEMPLATE_LEN,
    );
    assert_eq!(error_of(short_template), JdvrifError::SegmentTemplate);
}

#[test]
fn a_pending_signal_cancels() {
    assert_eq!(check_cancellation(None), Ok(()));
    assert_eq!(check_cancellation(Some(2)), Err(JdvrifError::Interrupted));
}

#[test]
fn messages_with_numbers() {
    assert_eq!(
        JdvrifError::CoverTooSmall { width: 399, height: 400 }.message(),
        "Image Error: Dimensions 399x400 are too small.\nFor platform compatibility, cover image must be at least 400px for both width and height."
    );
    assert_eq!(
        JdvrifError::CoverQuality { quality: 98 }.message(),
        "Image Error: Estimated quality 98 exceeds maximum (97).\nFor platform compatibility, cover image quality must be 97 or lower."
    );
    assert_eq!(
        JdvrifError::CoverColorSpace { components: 4 }.message(),
        "Image Error: Unsupported JPEG color space (4 components). CMYK/YCCK cover images must be converted to RGB before use."
    );
}

#[test]
fn a_concealed_file_is_put_together_from_what_was_drawn() {
    for (option, at, marked) in [
        (ConcealOption::NoOption, DEFAULT_KDF_METADATA_INDEX, true),
        (ConcealOption::Reddit, 0, false),
    ] {
        let template = vec![0x11; 0x353];
        let sealed = EncryptedPayload { header: [3; 24], frames: vec![4, 5, 6] };
        let filler = vec![0xEE; KDF_METADATA_REGION_BYTES];
        let c = assemble_concealed(option, sealed, true, template.clone(), 77, &[2; 16], filler);
        assert_eq!(c.recovery_pin, 77);
        assert!(!c.is_compressed);
        assert_eq!(c.encrypted, [4, 5, 6]);
        let mut expected = template;
        if marked {
            expected[NO_ZLIB_COMPRESSION_ID_INDEX] = NO_ZLIB_COMPRESSION_ID;
        }
        expected[at..at + 8].copy_from_slice(b"KDF4\x01\xA5\xEE\xEE");
        expected[at + 8..at + 24].copy_from_slice(&[2; 16]);
        expected[at + 24..at + 48].copy_from_slice(&[3; 24]);
        expected[at + 48..at + 52].copy_from_slice(&2u32.to_be_bytes());
        expected[at + 52..at + 56].copy_from_slice(&(64u32 * 1024 * 1024).to_be_bytes());
        assert_eq!(c.segment, expected);
    }
}
