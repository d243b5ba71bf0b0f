use jdvrif::base64::{decode_base64_char, decode_base64_until_delimiter};
use jdvrif::extract::{
    extract_bluesky_ciphertext, extract_default_ciphertext, find_bluesky_photoshop_signature,
    find_bluesky_xmp_signature, max_bluesky_embedded_cipher_capacity, max_bluesky_payload,
    validate_bluesky_exif_capacity, BLUESKY_ENCRYPTED_FILE_START_INDEX,
    BLUESKY_EXIF_SEGMENT_DATA_SIZE, BLUESKY_FIRST_DATASET_SIZE_LIMIT,
    BLUESKY_LAST_DATASET_SIZE_LIMIT, BLUESKY_PHOTOSHOP_SEARCH_WINDOW, BLUESKY_PHOTOSHOP_SIGNATURE,
    BLUESKY_PHOTOSHOP_SIG_TO_APP13, BLUESKY_XMP_CREATOR_SIGNATURE, BLUESKY_XMP_FOOTER_SIZE,
    ENCRYPTED_FILE_START_INDEX, FIRST_PROFILE_HEADER_INDEX, JPEG_APP13_MARKER, JPEG_APP2_MARKER,
    JPEG_EXIF_MARKER, PROFILE_HEADER_DISTANCE, PROFILE_HEADER_LENGTH,
};
use jdvrif::runtime::JdvrifError;
use jdvrif::scan::{find_signature_in_file, find_signature_pair_in_file, SCAN_CHUNK_SIZE};

const XMP_TEMPLATE_LEN: usize = 700;

fn set_exif_end(data: &mut [u8], exif_end: usize) {
    let segment_size = u16::try_from(exif_end - 4).unwrap();
    data[2..4].copy_from_slice(&JPEG_EXIF_MARKER);
    data[4..6].copy_from_slice(&segment_size.to_be_bytes());
}

fn place_framed_photoshop_signature(data: &mut [u8], sig_index: usize) {
    let app13_index = sig_index - BLUESKY_PHOTOSHOP_SIG_TO_APP13;
    data[app13_index..app13_index + 2].copy_from_slice(&JPEG_APP13_MARKER);
    data[sig_index..sig_index + 7].copy_from_slice(&BLUESKY_PHOTOSHOP_SIGNATURE);
}

#[test]
fn find_signature_in_file_across_chunk_boundary() {
    let mut data = vec![0u8; 100];
    let sig = b"JDVRSIG";
    data[40..40 + sig.len()].copy_from_slice(sig);
    assert_eq!(find_signature_in_file(&data, sig, 0, 0), Some(40));
    assert!(find_signature_in_file(&data, b"NOPE", 0, 0).is_none());
    assert_eq!(find_signature_in_file(&data, b"", 0, 0), None);

    // A signature that lies across the end of the first chunk.
    let mut long = vec![0u8; SCAN_CHUNK_SIZE + 100];
    let at = SCAN_CHUNK_SIZE - 3;
    long[at..at + sig.len()].copy_from_slice(sig);
    assert_eq!(find_signature_in_file(&long, sig, 0, 0), Some(at));
    assert_eq!(find_signature_in_file(&long, sig, at + 6, 0), None);
    assert_eq!(find_signature_in_file(&long, sig, at + 7, 0), Some(at));
    assert_eq!(find_signature_in_file(&long, sig, 0, at), Some(at));
    assert_eq!(find_signature_in_file(&long, sig, 0, at + 1), None);
}

#[test]
fn find_signature_pair_requires_fixed_offset() {
    let mut data = vec![0u8; 200];
    let first = b"ICCPROF";
    let second = b"JDVRIF!";
    data[10..10 + first.len()].copy_from_slice(first);
    data[30..30 + second.len()].copy_from_slice(second);
    assert_eq!(find_signature_pair_in_file(&data, first, second, 20), Ok(Some(10)));
    assert_eq!(find_signature_pair_in_file(&data, first, second, 21), Ok(None));
}

#[test]
fn a_signature_pair_too_far_apart_is_refused() {
    assert_eq!(
        find_signature_pair_in_file(b"abc", b"a", b"b", usize::MAX),
        Err(JdvrifError::SignatureScanOverflow)
    );
}

#[test]
fn base64_stream_decode_roundtrip_size() {
    let decoded = decode_base64_until_delimiter(b"TWFu<", 0, b'<', 64, 3).unwrap();
    assert_eq!(decoded.len(), 3);
    assert_eq!(decoded, b"Man");
}

#[test]
fn base64_stream_decode_rejects_noncanonical_padding_bits() {
    for (encoded, expected_size) in [(b"TR==<".as_slice(), 1usize), (b"TWF=<".as_slice(), 2usize)] {
        assert!(decode_base64_until_delimiter(encoded, 0, b'<', 64, expected_size).is_err());
    }
}

#[test]
fn base64_decoding_has_one_encoding_for_each_text() {
    assert_eq!(decode_base64_until_delimiter(b"TQ==<", 0, b'<', 64, 1).unwrap(), b"M");
    assert_eq!(decode_base64_until_delimiter(b"TWE=<", 0, b'<', 64, 2).unwrap(), b"Ma");
    assert_eq!(decode_base64_until_delimiter(b"..TWFu<", 2, b'<', 64, 3).unwrap(), b"Man");
    // Wrong size, no delimiter, delimiter out of reach, text behind the padding.
    for (file, max, size) in [
        (b"TWFu<".as_slice(), 64, 4),
        (b"TWFu", 64, 3),
        (b"TWFu<", 4, 3),
        (b"TQ==TQ==<", 64, 2),
        (b"TW!u<", 64, 3),
        (b"TWFuT<", 64, 3),
    ] {
        assert_eq!(
            decode_base64_until_delimiter(file, 0, b'<', max, size),
            Err(JdvrifError::CorruptFile)
        );
    }
    assert_eq!(decode_base64_char(b'A'), Some(0));
    assert_eq!(decode_base64_char(b'z'), Some(51));
    assert_eq!(decode_base64_char(b'9'), Some(61));
    assert_eq!(decode_base64_char(b'+'), Some(62));
    assert_eq!(decode_base64_char(b'/'), Some(63));
    assert_eq!(decode_base64_char(b'='), None);
}

#[test]
fn bluesky_exif_capacity_checks_app1_bounds_and_transport_ceiling() {
    let valid_end = BLUESKY_ENCRYPTED_FILE_START_INDEX + BLUESKY_EXIF_SEGMENT_DATA_SIZE;
    let mut valid = vec![0u8; valid_end + 1];
    set_exif_end(&mut valid, valid_end);
    assert!(validate_bluesky_exif_capacity(
        &valid,
        BLUESKY_EXIF_SEGMENT_DATA_SIZE + 1,
        XMP_TEMPLATE_LEN
    )
    .is_ok());

    let short_end = valid_end - 1;
    let mut short = vec![0u8; valid_end + 1];
    set_exif_end(&mut short, short_end);
    assert!(validate_bluesky_exif_capacity(
        &short,
        BLUESKY_EXIF_SEGMENT_DATA_SIZE + 1,
        XMP_TEMPLATE_LEN
    )
    .is_err());

    let max_capacity = max_bluesky_embedded_cipher_capacity(XMP_TEMPLATE_LEN).unwrap();
    assert!(validate_bluesky_exif_capacity(&valid, max_capacity + 1, XMP_TEMPLATE_LEN).is_err());
}

#[test]
fn bluesky_capacity_is_the_sum_of_the_segments() {
    // 65027 + 32767 + 32730 + (60033 - 700 - 92) / 4 * 3
    assert_eq!(max_bluesky_embedded_cipher_capacity(700), Ok(174954));
    assert_eq!(max_bluesky_payload(700), Ok(174954));
    assert_eq!(
        max_bluesky_embedded_cipher_capacity(60033),
        Err(JdvrifError::CorruptFile)
    );
}

#[test]
fn bluesky_photoshop_search_is_post_exif_bounded_and_framed() {
    let search_start = BLUESKY_ENCRYPTED_FILE_START_INDEX + BLUESKY_EXIF_SEGMENT_DATA_SIZE;
    let mut valid = vec![0u8; search_start + BLUESKY_PHOTOSHOP_SEARCH_WINDOW + 64];

    // This bare hit is inside the ciphertext and must never be considered.
    let exif_decoy = search_start - 32;
    valid[exif_decoy..exif_decoy + 7].copy_from_slice(&BLUESKY_PHOTOSHOP_SIGNATURE);
    let real_sig = search_start + 32;
    place_framed_photoshop_signature(&mut valid, real_sig);
    assert_eq!(
        find_bluesky_photoshop_signature(&valid, BLUESKY_EXIF_SEGMENT_DATA_SIZE),
        Ok(real_sig)
    );

    // An unframed first hit is refused, whatever comes after it.
    let mut unframed = valid.clone();
    let bare_sig = search_start + 8;
    unframed[bare_sig..bare_sig + 7].copy_from_slice(&BLUESKY_PHOTOSHOP_SIGNATURE);
    assert!(find_bluesky_photoshop_signature(&unframed, BLUESKY_EXIF_SEGMENT_DATA_SIZE).is_err());

    let mut outside = vec![0u8; search_start + BLUESKY_PHOTOSHOP_SEARCH_WINDOW + 64];
    let outside_sig = search_start + BLUESKY_PHOTOSHOP_SEARCH_WINDOW + 8;
    place_framed_photoshop_signature(&mut outside, outside_sig);
    assert!(find_bluesky_photoshop_signature(&outside, BLUESKY_EXIF_SEGMENT_DATA_SIZE).is_err());
}

#[test]
fn bluesky_xmp_search_requires_signature_before_app13() {
    let search_start = 200usize;
    let photoshop_segment_size_index = 500usize;
    let expected = 300usize;

    let mut valid = vec![0u8; 800];
    valid[expected..expected + 7].copy_from_slice(&BLUESKY_XMP_CREATOR_SIGNATURE);
    valid[700..707].copy_from_slice(&BLUESKY_XMP_CREATOR_SIGNATURE);
    assert_eq!(
        find_bluesky_xmp_signature(&valid, search_start, photoshop_segment_size_index),
        Ok(expected)
    );

    let mut after_only = vec![0u8; 800];
    after_only[700..707].copy_from_slice(&BLUESKY_XMP_CREATOR_SIGNATURE);
    assert!(
        find_bluesky_xmp_signature(&after_only, search_start, photoshop_segment_size_index).is_err()
    );
}

#[test]
fn bluesky_extraction_preserves_valid_single_and_split_layouts() {
    let single_payload = b"single bluesky ciphertext";
    let single_end = BLUESKY_ENCRYPTED_FILE_START_INDEX + single_payload.len();
    let mut single = vec![0u8; single_end];
    set_exif_end(&mut single, single_end);
    single[BLUESKY_ENCRYPTED_FILE_START_INDEX..single_end].copy_from_slice(single_payload);
    let extracted =
        extract_bluesky_ciphertext(&single, single_payload.len(), XMP_TEMPLATE_LEN).unwrap();
    assert_eq!(extracted.len(), single_payload.len());
    assert_eq!(extracted, single_payload);

    let tail_payload = b"APP13-tail";
    let app13_index = BLUESKY_ENCRYPTED_FILE_START_INDEX + BLUESKY_EXIF_SEGMENT_DATA_SIZE;
    let photoshop_sig_index = app13_index + BLUESKY_PHOTOSHOP_SIG_TO_APP13;
    let first_dataset_size_index = photoshop_sig_index + 24;
    let first_dataset_file_index = first_dataset_size_index + 2;
    let photoshop_segment_size = 33 + tail_payload.len();
    let mut split = vec![0u8; first_dataset_file_index + tail_payload.len()];
    set_exif_end(&mut split, app13_index);
    split[BLUESKY_ENCRYPTED_FILE_START_INDEX..app13_index].fill(0xA5);
    place_framed_photoshop_signature(&mut split, photoshop_sig_index);
    split[app13_index + 2..app13_index + 4]
        .copy_from_slice(&(photoshop_segment_size as u16).to_be_bytes());
    split[first_dataset_size_index..first_dataset_size_index + 2]
        .copy_from_slice(&(tail_payload.len() as u16).to_be_bytes());
    split[first_dataset_file_index..].copy_from_slice(tail_payload);

    let split_payload_size = BLUESKY_EXIF_SEGMENT_DATA_SIZE + tail_payload.len();
    let extracted =
        extract_bluesky_ciphertext(&split, split_payload_size, XMP_TEMPLATE_LEN).unwrap();
    assert_eq!(extracted.len(), split_payload_size);
    assert_eq!(
        &extracted[..BLUESKY_EXIF_SEGMENT_DATA_SIZE],
        vec![0xA5; BLUESKY_EXIF_SEGMENT_DATA_SIZE]
    );
    assert_eq!(&extracted[BLUESKY_EXIF_SEGMENT_DATA_SIZE..], tail_payload);

    // A dataset that declares less than is missing.
    split[first_dataset_size_index + 1] = 9;
    assert_eq!(
        extract_bluesky_ciphertext(&split, split_payload_size, XMP_TEMPLATE_LEN),
        Err(JdvrifError::CorruptFile)
    );
}

#[test]
fn bluesky_extraction_preserves_valid_xmp_overflow_layout() {
    const XMP_FOOTER: &[u8] =
        b"</rdf:li></rdf:Seq></dc:creator></rdf:Description></rdf:RDF></x:xmpmeta>\n<?xpacket end=\"w\"?>";
    const XMP_TAIL: &[u8] = b"XYZ";
    assert_eq!(XMP_FOOTER.len(), BLUESKY_XMP_FOOTER_SIZE);

    let xmp_start = BLUESKY_ENCRYPTED_FILE_START_INDEX + BLUESKY_EXIF_SEGMENT_DATA_SIZE;
    let mut image = vec![0u8; xmp_start];
    set_exif_end(&mut image, xmp_start);
    image[BLUESKY_ENCRYPTED_FILE_START_INDEX..xmp_start].fill(0xA5);

    let template: Vec<u8> =
        b"\xFF\xE1\x00\x00http://ns.adobe.com/xap/1.0/\x00<dc:creator><rdf:Seq><rdf:li>".to_vec();
    let mut xmp = template.clone();
    xmp.extend_from_slice(b"WFla");
    xmp.extend_from_slice(XMP_FOOTER);
    let xmp_segment_size = u16::try_from(xmp.len() - 2).unwrap();
    xmp[2..4].copy_from_slice(&xmp_segment_size.to_be_bytes());
    image.extend_from_slice(&xmp);

    let mut photoshop: Vec<u8> = b"\xFF\xED\xFF\xFFPhotoshop 3.0\x008BIM\x04\x04\x00\x00\x00\x00".to_vec();
    photoshop.extend_from_slice(&[0xFF, 0xDE, 0x1C, 0x08, 0x0A]);
    photoshop.truncate(33);
    photoshop.resize(33, 0);
    photoshop.extend_from_slice(&(BLUESKY_FIRST_DATASET_SIZE_LIMIT as u16).to_be_bytes());
    photoshop.extend(std::iter::repeat(0xB6).take(BLUESKY_FIRST_DATASET_SIZE_LIMIT));
    photoshop.extend_from_slice(&[0x1C, 0x08, 0x0A]);
    photoshop.extend_from_slice(&(BLUESKY_LAST_DATASET_SIZE_LIMIT as u16).to_be_bytes());
    photoshop.extend(std::iter::repeat(0xC7).take(BLUESKY_LAST_DATASET_SIZE_LIMIT));
    image.extend_from_slice(&photoshop);

    let embedded_size = BLUESKY_EXIF_SEGMENT_DATA_SIZE
        + BLUESKY_FIRST_DATASET_SIZE_LIMIT
        + BLUESKY_LAST_DATASET_SIZE_LIMIT
        + XMP_TAIL.len();
    let extracted = extract_bluesky_ciphertext(&image, embedded_size, template.len()).unwrap();
    assert_eq!(extracted.len(), embedded_size);

    let first_dataset_start = BLUESKY_EXIF_SEGMENT_DATA_SIZE;
    let second_dataset_start = first_dataset_start + BLUESKY_FIRST_DATASET_SIZE_LIMIT;
    let xmp_tail_start = second_dataset_start + BLUESKY_LAST_DATASET_SIZE_LIMIT;
    assert!(extracted[..first_dataset_start].iter().all(|value| *value == 0xA5));
    assert!(extracted[first_dataset_start..second_dataset_start].iter().all(|value| *value == 0xB6));
    assert!(extracted[second_dataset_start..xmp_tail_start].iter().all(|value| *value == 0xC7));
    assert_eq!(&extracted[xmp_tail_start..], XMP_TAIL);
}

#[test]
fn default_extraction_takes_the_profile_headers_out() {
    let base = 24usize;
    let start = base + ENCRYPTED_FILE_START_INDEX;
    let step = PROFILE_HEADER_DISTANCE - PROFILE_HEADER_LENGTH;
    let cipher: Vec<u8> = (0..FIRST_PROFILE_HEADER_INDEX + step + 100)
        .map(|i| (i % 251) as u8)
        .collect();
    let header = [0xEEu8; PROFILE_HEADER_LENGTH];
    let mut stored = cipher[..FIRST_PROFILE_HEADER_INDEX].to_vec();
    stored.extend_from_slice(&header);
    stored.extend_from_slice(&cipher[FIRST_PROFILE_HEADER_INDEX..FIRST_PROFILE_HEADER_INDEX + step]);
    stored.extend_from_slice(&header);
    stored.extend_from_slice(&cipher[FIRST_PROFILE_HEADER_INDEX + step..]);

    let mut image = vec![0u8; start];
    image.extend_from_slice(&stored);
    image.extend_from_slice(&[0u8; 64]);
    let segments = 3u16;
    let last = base + 2 * PROFILE_HEADER_DISTANCE - 0x16;
    assert_eq!(
        extract_default_ciphertext(&image, base, stored.len(), segments),
        Err(JdvrifError::MissingSegments)
    );
    let kept = [image[last], image[last + 1]];
    image[last..last + 2].copy_from_slice(&JPEG_APP2_MARKER);
    let mut wanted = cipher.clone();
    let extracted = extract_default_ciphertext(&image, base, stored.len(), segments).unwrap();
    // The marker itself stands inside of a header.
    assert_eq!(kept, [0xEE, 0xEE]);
    wanted.truncate(extracted.len());
    assert_eq!(extracted.len(), cipher.len());
    assert_eq!(extracted, wanted);

    assert_eq!(
        extract_default_ciphertext(&image, base, image.len(), segments),
        Err(JdvrifError::CorruptFile)
    );
    assert_eq!(
        extract_default_ciphertext(&image, base, 10, 0).unwrap(),
        &cipher[..10]
    );
}
