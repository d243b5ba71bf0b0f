use jdvrif::constants::KDF_METADATA_REGION_BYTES;
use jdvrif::reddit::{
    capacity_figures, capacity_report_text, envelope_size, make_envelope,
    validate_carrier_capacity, ENVELOPE_FLAG_COMPRESSED, REDDIT_ENVELOPE_HEADER_BYTES,
    REDDIT_ENVELOPE_MAGIC,
};
use jdvrif::runtime::JdvrifError;

#[test]
fn envelope_layout_matches_native_format() {
    let kdf = vec![0xA5; KDF_METADATA_REGION_BYTES];
    let encrypted = vec![1, 2, 3, 4, 5];
    let envelope = make_envelope(&kdf, &encrypted, true).unwrap();
    assert_eq!(&envelope[..8], REDDIT_ENVELOPE_MAGIC);
    assert_eq!(envelope[8], ENVELOPE_FLAG_COMPRESSED);
    assert_eq!(&envelope[9..12], &[0, 0, 0]);
    assert_eq!(&envelope[12..16], &(5u32).to_le_bytes());
    assert_eq!(&envelope[16..16 + KDF_METADATA_REGION_BYTES], &kdf);
    assert_eq!(&envelope[REDDIT_ENVELOPE_HEADER_BYTES..], &encrypted);
    assert_eq!(envelope.len(), REDDIT_ENVELOPE_HEADER_BYTES + 5);
}

#[test]
fn an_uncompressed_envelope_has_no_flag() {
    let envelope = make_envelope(&vec![0; KDF_METADATA_REGION_BYTES], &[9], false).unwrap();
    assert_eq!(envelope[8], 0);
    assert_eq!(envelope[REDDIT_ENVELOPE_HEADER_BYTES], 9);
}

#[test]
fn an_envelope_needs_metadata_of_the_right_size() {
    let refused = make_envelope(&vec![0; KDF_METADATA_REGION_BYTES - 1], &[9], false);
    assert_eq!(refused, Err(JdvrifError::RedditKdfSize));
}

#[test]
fn envelope_sizes() {
    assert_eq!(envelope_size(5), Ok(REDDIT_ENVELOPE_HEADER_BYTES + 5));
    assert_eq!(REDDIT_ENVELOPE_HEADER_BYTES, 72);
    assert_eq!(envelope_size(usize::MAX), Err(JdvrifError::RedditEnvelopeOverflow));
}

#[test]
fn single_frame_overhead_is_between_95_and_114_bytes() {
    // Length byte, name, frame length and authentication, envelope header.
    for name in [1usize, 20] {
        let payload = 1000usize;
        let encrypted =
            jdvrif::encrypt::estimate_prefixed_stream_encrypted_size(payload, 1 + name).unwrap();
        let overhead = envelope_size(encrypted).unwrap() - payload;
        assert_eq!(overhead, 94 + name);
    }
}

#[test]
fn the_capacity_of_a_large_basic_cover() {
    assert_eq!(
        capacity_report_text(436906),
        "Theoretical C3 capacity limit for this cover image:                    436906 bytes (~426KiB).\n\
         Conservative maximum compressed capacity with a 20-character filename: 436792 bytes (~426KiB).\n\
         Recommended  maximum compressed capacity with a 20-character filename: 435768 bytes (~425KiB).\n"
    );
    let small = capacity_figures(1000);
    assert_eq!((small.conservative, small.recommended), (886, 886));
    assert_eq!(capacity_figures(100).conservative, 0);
    assert_eq!(capacity_figures(114).conservative, 0);
    assert_eq!(capacity_figures(115).conservative, 1);
    // Larger payloads add the overhead of their frames.
    for capacity in [1_048_669usize, 1_048_670, 1_048_691, 1_100_000, 5_000_000] {
        let largest = capacity_figures(capacity).conservative;
        let envelope = |size: usize| {
            let encrypted =
                jdvrif::encrypt::estimate_prefixed_stream_encrypted_size(size, 21).unwrap();
            envelope_size(encrypted).unwrap()
        };
        assert!(envelope(largest) <= capacity);
        assert!(envelope(largest + 1) > capacity);
    }
    assert_eq!(capacity_figures(1_100_000).conservative, 1_099_865);
    // A payload of the conservative size fills the envelope.
    let encrypted =
        jdvrif::encrypt::estimate_prefixed_stream_encrypted_size(436792, 21).unwrap();
    assert_eq!(envelope_size(encrypted), Ok(436906));
}

#[test]
fn an_envelope_has_to_fit_its_cover() {
    assert_eq!(validate_carrier_capacity(1000, 1000), Ok(()));
    let refused = validate_carrier_capacity(1001, 1000);
    assert_eq!(refused, Err(JdvrifError::CarrierCapacity { needed: 1001, capacity: 1000 }));
    assert_eq!(
        refused.unwrap_err().message(),
        "File Size Error: Encrypted payload needs 1001 bytes, above the 1000-byte capacity of this cover image."
    );
}
